//! Unpadded URL-safe base64, which names the accounts' files and carries
//! the claims of identity tokens: what the text of some bytes is, and that
//! different bytes never share a text.
use vstd::prelude::*;

verus! {

/// The character of the URL-safe base64 alphabet for the six-bit value `v`:
/// `A`–`Z`, `a`–`z`, `0`–`9`, `-` and `_`, in that order.
pub open spec fn url_safe_char(v: int) -> char {
    if v < 26 {
        (65 + v) as char
    } else if v < 52 {
        (97 + v - 26) as char
    } else if v < 62 {
        (48 + v - 52) as char
    } else if v == 62 {
        '-'
    } else {
        '_'
    }
}

/// The unpadded URL-safe base64 text of `b`: each group of three bytes,
/// read as a 24-bit number, becomes four characters of six bits each, most
/// significant first; a last group of two bytes becomes three characters
/// and a last single byte two, the bits left over being zero.
pub open spec fn base64_url_text(b: Seq<u8>) -> Seq<char>
    decreases b.len(),
{
    if b.len() == 0 {
        Seq::empty()
    } else if b.len() == 1 {
        let n = b[0] as int;
        seq![url_safe_char(n / 4), url_safe_char((n % 4) * 16)]
    } else if b.len() == 2 {
        let n = b[0] as int * 256 + b[1] as int;
        seq![url_safe_char(n / 1024), url_safe_char((n / 16) % 64), url_safe_char((n % 16) * 4)]
    } else {
        let n = b[0] as int * 65536 + b[1] as int * 256 + b[2] as int;
        seq![
            url_safe_char(n / 262144),
            url_safe_char((n / 4096) % 64),
            url_safe_char((n / 64) % 64),
            url_safe_char(n % 64),
        ] + base64_url_text(b.subrange(3, b.len() as int))
    }
}

/// The bytes whose unpadded URL-safe base64 text is `t`, if there are any
/// (there is at most one such sequence: see [`lemma_base64_url_injective`]).
pub open spec fn base64_url_bytes(t: Seq<char>) -> Option<Seq<u8>> {
    if exists|b: Seq<u8>| base64_url_text(b) == t {
        Some(choose|b: Seq<u8>| base64_url_text(b) == t)
    } else {
        None
    }
}

proof fn lemma_char_injective(v: int, w: int)
    requires
        0 <= v < 64,
        0 <= w < 64,
        url_safe_char(v) == url_safe_char(w),
    ensures
        v == w,
{
    let cv = url_safe_char(v) as u32;
    let cw = url_safe_char(w) as u32;
    assert(cv == cw);
    if v < 26 {
        assert(cv == 65 + v);
    } else if v < 52 {
        assert(cv == 97 + v - 26);
    } else if v < 62 {
        assert(cv == 48 + v - 52);
    } else if v == 62 {
        assert(cv == 45);
    } else {
        assert(cv == 95);
    }
    if w < 26 {
        assert(cw == 65 + w);
    } else if w < 52 {
        assert(cw == 97 + w - 26);
    } else if w < 62 {
        assert(cw == 48 + w - 52);
    } else if w == 62 {
        assert(cw == 45);
    } else {
        assert(cw == 95);
    }
}

proof fn lemma_group_of_three(a0: u8, a1: u8, a2: u8, b0: u8, b1: u8, b2: u8)
    requires
        (a0 * 65536 + a1 * 256 + a2) / 262144 == (b0 * 65536 + b1 * 256 + b2) / 262144,
        ((a0 * 65536 + a1 * 256 + a2) / 4096) % 64 == ((b0 * 65536 + b1 * 256 + b2) / 4096) % 64,
        ((a0 * 65536 + a1 * 256 + a2) / 64) % 64 == ((b0 * 65536 + b1 * 256 + b2) / 64) % 64,
        (a0 * 65536 + a1 * 256 + a2) % 64 == (b0 * 65536 + b1 * 256 + b2) % 64,
    ensures
        a0 == b0 && a1 == b1 && a2 == b2,
{
    assert(a0 == b0 && a1 == b1 && a2 == b2) by (nonlinear_arith)
        requires
            (a0 * 65536 + a1 * 256 + a2) / 262144 == (b0 * 65536 + b1 * 256 + b2) / 262144,
            ((a0 * 65536 + a1 * 256 + a2) / 4096) % 64 == ((b0 * 65536 + b1 * 256 + b2) / 4096) % 64,
            ((a0 * 65536 + a1 * 256 + a2) / 64) % 64 == ((b0 * 65536 + b1 * 256 + b2) / 64) % 64,
            (a0 * 65536 + a1 * 256 + a2) % 64 == (b0 * 65536 + b1 * 256 + b2) % 64,
    ;
}

proof fn lemma_text_len(b: Seq<u8>)
    ensures
        b.len() == 0 ==> base64_url_text(b).len() == 0,
        b.len() == 1 ==> base64_url_text(b).len() == 2,
        b.len() == 2 ==> base64_url_text(b).len() == 3,
        b.len() >= 3 ==> base64_url_text(b).len() >= 4,
{
}

proof fn lemma_one_byte(a0: u8, b0: u8)
    requires
        url_safe_char(a0 as int / 4) == url_safe_char(b0 as int / 4),
        url_safe_char((a0 as int % 4) * 16) == url_safe_char((b0 as int % 4) * 16),
    ensures
        a0 == b0,
{
    lemma_char_injective(a0 as int / 4, b0 as int / 4);
    lemma_char_injective((a0 as int % 4) * 16, (b0 as int % 4) * 16);
}

proof fn lemma_two_bytes(a0: u8, a1: u8, b0: u8, b1: u8)
    requires
        ({
            let x = a0 as int * 256 + a1 as int;
            let y = b0 as int * 256 + b1 as int;
            &&& url_safe_char(x / 1024) == url_safe_char(y / 1024)
            &&& url_safe_char((x / 16) % 64) == url_safe_char((y / 16) % 64)
            &&& url_safe_char((x % 16) * 4) == url_safe_char((y % 16) * 4)
        }),
    ensures
        a0 == b0 && a1 == b1,
{
    let x = a0 as int * 256 + a1 as int;
    let y = b0 as int * 256 + b1 as int;
    lemma_char_injective(x / 1024, y / 1024);
    lemma_char_injective((x / 16) % 64, (y / 16) % 64);
    lemma_char_injective((x % 16) * 4, (y % 16) * 4);
    assert(a0 == b0 && a1 == b1) by (nonlinear_arith)
        requires
            (a0 * 256 + a1) / 1024 == (b0 * 256 + b1) / 1024,
            ((a0 * 256 + a1) / 16) % 64 == ((b0 * 256 + b1) / 16) % 64,
            ((a0 * 256 + a1) % 16) * 4 == ((b0 * 256 + b1) % 16) * 4,
    ;
}

proof fn lemma_three_bytes(a0: u8, a1: u8, a2: u8, b0: u8, b1: u8, b2: u8)
    requires
        ({
            let x = a0 as int * 65536 + a1 as int * 256 + a2 as int;
            let y = b0 as int * 65536 + b1 as int * 256 + b2 as int;
            &&& url_safe_char(x / 262144) == url_safe_char(y / 262144)
            &&& url_safe_char((x / 4096) % 64) == url_safe_char((y / 4096) % 64)
            &&& url_safe_char((x / 64) % 64) == url_safe_char((y / 64) % 64)
            &&& url_safe_char(x % 64) == url_safe_char(y % 64)
        }),
    ensures
        a0 == b0 && a1 == b1 && a2 == b2,
{
    let x = a0 as int * 65536 + a1 as int * 256 + a2 as int;
    let y = b0 as int * 65536 + b1 as int * 256 + b2 as int;
    lemma_char_injective(x / 262144, y / 262144);
    lemma_char_injective((x / 4096) % 64, (y / 4096) % 64);
    lemma_char_injective((x / 64) % 64, (y / 64) % 64);
    lemma_char_injective(x % 64, y % 64);
    lemma_group_of_three(a0, a1, a2, b0, b1, b2);
}

/// Different bytes never share an unpadded URL-safe base64 text.
pub proof fn lemma_base64_url_injective(a: Seq<u8>, b: Seq<u8>)
    requires
        base64_url_text(a) == base64_url_text(b),
    ensures
        a == b,
    decreases a.len(),
{
    let t = base64_url_text(a);
    lemma_text_len(a);
    lemma_text_len(b);
    if a.len() == 1 {
        assert(t[0] == base64_url_text(b)[0] && t[1] == base64_url_text(b)[1]);
        lemma_one_byte(a[0], b[0]);
        assert(a =~= b);
    } else if a.len() == 2 {
        assert(t[0] == base64_url_text(b)[0] && t[1] == base64_url_text(b)[1] && t[2] == base64_url_text(b)[2]);
        lemma_two_bytes(a[0], a[1], b[0], b[1]);
        assert(a =~= b);
    } else if a.len() >= 3 {
        let tb = base64_url_text(b);
        assert(t[0] == tb[0] && t[1] == tb[1] && t[2] == tb[2] && t[3] == tb[3]);
        lemma_three_bytes(a[0], a[1], a[2], b[0], b[1], b[2]);
        let ra = a.subrange(3, a.len() as int);
        let rb = b.subrange(3, b.len() as int);
        assert(base64_url_text(ra) =~= t.subrange(4, t.len() as int));
        assert(base64_url_text(rb) =~= tb.subrange(4, tb.len() as int));
        lemma_base64_url_injective(ra, rb);
        assert(a =~= b) by {
            assert forall|i: int| 0 <= i < a.len() implies a[i] == b[i] by {
                if i >= 3 {
                    assert(a[i] == ra[i - 3] && b[i] == rb[i - 3]);
                }
            }
        }
    } else {
        assert(a =~= b);
    }
}

/// The text of some bytes reads back as those bytes.
pub proof fn lemma_base64_url_round_trip(b: Seq<u8>)
    ensures
        base64_url_bytes(base64_url_text(b)) == Some(b),
{
    let t = base64_url_text(b);
    assert(exists|c: Seq<u8>| base64_url_text(c) == t);
    let c = choose|c: Seq<u8>| base64_url_text(c) == t;
    lemma_base64_url_injective(c, b);
}

} // verus!
