//! The registry document: how the JSON tree of `registry.json` is read
//! into a [`Registry`] and how a registry is written back as a JSON tree.
use vstd::prelude::*;

use crate::json::{
    get_member, lookup, member_bool, member_integer, member_text, object_members, string_text,
    JsonMember, JsonNumber, JsonValue, NumberView,
};
use crate::models::{
    auth_mode_from_name, auth_mode_name, empty_registry, plan_name, AuthMode, parse_auth_mode, plan_from_text, AccountRecord,
    AccountView, CreditsSnapshot, CreditsView, PlanType, RateLimitSnapshot, RateLimitWindow,
    Registry, RegistryView, SnapshotView, WindowView, REGISTRY_VERSION,
};
use crate::registry::{
    email_index, emails_unique, freshness, lemma_email_index, lemma_upsert_keeps_fresher, lemma_upsert_others,
    lemma_upsert_unique, now_timestamp, upsert_account, upsert_spec,
};
use crate::text::{ascii_lower_char, decimal, decimal_string, eq_ignore_ascii_case, lowercase, to_lowercase};

verus! {

// ─── Reading ───

/// The number read for a used share that is not a number: zero, as a float.
pub open spec fn zero_float() -> NumberView {
    NumberView { int_value: None, rounded: 0, text: "0.0"@ }
}

/// `t` is written as a whole number: an optional `-` and one or more digits.
pub open spec fn is_whole_number_text(t: Seq<char>) -> bool {
    all_digits(unsigned_part(t))
}

/// `t` without a leading `-`.
pub open spec fn unsigned_part(t: Seq<char>) -> Seq<char> {
    if t.len() > 0 && t[0] == '-' { t.drop_first() } else { t }
}

/// `d` is one or more decimal digits.
pub open spec fn all_digits(d: Seq<char>) -> bool {
    d.len() > 0 && forall|i: int| 0 <= i < d.len() ==> '0' <= #[trigger] d[i] <= '9'
}

/// A used share as a floating-point number: a whole number gets `.0`
/// after it, as a float is written, and is no longer an integer literal;
/// any other number is kept as it is.
pub open spec fn float_number(n: NumberView) -> NumberView {
    if is_whole_number_text(n.text) {
        NumberView { int_value: None, rounded: n.rounded, text: n.text + ".0"@ }
    } else {
        n
    }
}

/// A window's used share is written as a float.
pub open spec fn window_as_float(w: WindowView) -> bool {
    float_number(w.used_percent) == w.used_percent
}

/// Every window of an account's last snapshot has its used share written as a float.
pub open spec fn account_as_float(a: AccountView) -> bool {
    match a.last_usage {
        Some(s) => (s.primary matches Some(w) ==> window_as_float(w)) && (s.secondary matches Some(w)
            ==> window_as_float(w)),
        None => true,
    }
}

/// A plan read from its written name.
pub open spec fn plan_of(t: Option<Seq<char>>) -> Option<PlanType> {
    match t {
        Some(p) => Some(plan_from_text(p)),
        None => None,
    }
}

/// The credits described by `v`, when `v` is an object: missing flags are
/// false, and the balance is kept when it is a string.
pub open spec fn credits_from_json(v: JsonValue) -> Option<CreditsView> {
    match object_members(v) {
        None => None,
        Some(m) => Some(
            CreditsView {
                has_credits: member_bool(m, "has_credits"@) == Some(true),
                unlimited: member_bool(m, "unlimited"@) == Some(true),
                balance: member_text(m, "balance"@),
            },
        ),
    }
}

/// The quota window described by `v`, when `v` is an object that has a
/// `used_percent` member (a used share that is not a number reads as zero).
pub open spec fn window_from_json(v: JsonValue) -> Option<WindowView> {
    match object_members(v) {
        None => None,
        Some(m) => match lookup(m, "used_percent"@) {
            None => None,
            Some(u) => Some(
                WindowView {
                    used_percent: match u {
                        JsonValue::Number(n) => float_number(n@),
                        _ => zero_float(),
                    },
                    window_minutes: member_integer(m, "window_minutes"@),
                    resets_at: member_integer(m, "resets_at"@),
                },
            ),
        },
    }
}

/// The value read from member `key` of `m` by `read`, when the member is there.
pub open spec fn member_window(m: Seq<JsonMember>, key: Seq<char>) -> Option<WindowView> {
    match lookup(m, key) {
        Some(v) => window_from_json(v),
        None => None,
    }
}

/// The quota snapshot described by `v`, when `v` is an object.
pub open spec fn snapshot_from_json(v: JsonValue) -> Option<SnapshotView> {
    match object_members(v) {
        None => None,
        Some(m) => Some(
            SnapshotView {
                primary: member_window(m, "primary"@),
                secondary: member_window(m, "secondary"@),
                credits: match lookup(m, "credits"@) {
                    Some(c) => credits_from_json(c),
                    None => None,
                },
                plan_type: plan_of(member_text(m, "plan_type"@)),
            },
        ),
    }
}

/// The account described by the members `m`, read at time `now`: there is
/// one exactly when `m` has a string `email`, which is lowercased. A missing
/// alias reads as empty and a missing creation time as `now`.
pub open spec fn account_from_json(m: Seq<JsonMember>, now: i64) -> Option<AccountView> {
    match member_text(m, "email"@) {
        None => None,
        Some(email) => Some(
            AccountView {
                email: lowercase(email),
                alias: match member_text(m, "alias"@) {
                    Some(a) => a,
                    None => Seq::empty(),
                },
                plan: plan_of(member_text(m, "plan"@)),
                auth_mode: match member_text(m, "auth_mode"@) {
                    Some(t) => auth_mode_from_name(t),
                    None => None,
                },
                created_at: match member_integer(m, "created_at"@) {
                    Some(t) => t,
                    None => now,
                },
                last_used_at: member_integer(m, "last_used_at"@),
                last_usage: match lookup(m, "last_usage"@) {
                    Some(u) => snapshot_from_json(u),
                    None => None,
                },
                last_usage_at: member_integer(m, "last_usage_at"@),
            },
        ),
    }
}

/// The accounts read from the first `n` items of the `accounts` array:
/// each item that describes an account is merged in, in order, as
/// [`upsert_spec`] merges.
pub open spec fn accounts_from_items(items: Seq<JsonValue>, n: nat, now: i64) -> Seq<AccountView>
    decreases n,
{
    if n == 0 {
        Seq::empty()
    } else {
        let acc = accounts_from_items(items, (n - 1) as nat, now);
        match object_members(items[n - 1]) {
            Some(m) => match account_from_json(m, now) {
                Some(r) => upsert_spec(acc, r),
                None => acc,
            },
            None => acc,
        }
    }
}

/// The items of the `accounts` member of `m`, when it is an array.
pub open spec fn account_items(m: Seq<JsonMember>) -> Seq<JsonValue> {
    match lookup(m, "accounts"@) {
        Some(JsonValue::Array(a)) => a@,
        _ => Seq::empty(),
    }
}

/// The registry that the document `root` describes, read at time `now`:
/// an empty registry unless `root` is an object; otherwise its lowercased
/// `active_email` and the accounts of its `accounts` array.
pub open spec fn registry_from_json(root: JsonValue, now: i64) -> RegistryView {
    match object_members(root) {
        None => empty_registry(),
        Some(m) => RegistryView {
            version: REGISTRY_VERSION,
            active_email: match member_text(m, "active_email"@) {
                Some(e) => Some(lowercase(e)),
                None => None,
            },
            accounts: accounts_from_items(account_items(m), account_items(m).len(), now),
        },
    }
}

fn text_member(members: &Vec<JsonMember>, key: &str) -> (r: Option<String>)
    ensures
        r.deep_view() == member_text(members@, key@),
{
    match get_member(members, key) {
        Some(v) => match v.as_str() {
            Some(s) => Some(s.clone()),
            None => None,
        },
        None => None,
    }
}

fn integer_member(members: &Vec<JsonMember>, key: &str) -> (r: Option<i64>)
    ensures
        r == member_integer(members@, key@),
{
    match get_member(members, key) {
        Some(v) => v.as_i64(),
        None => None,
    }
}

fn flag_member(members: &Vec<JsonMember>, key: &str) -> (r: bool)
    ensures
        r == (member_bool(members@, key@) == Some(true)),
{
    match get_member(members, key) {
        Some(v) => match v.as_bool() {
            Some(b) => b,
            None => false,
        },
        None => false,
    }
}

fn plan_member(members: &Vec<JsonMember>, key: &str) -> (r: Option<PlanType>)
    ensures
        r == plan_of(member_text(members@, key@)),
{
    match get_member(members, key) {
        Some(v) => match v.as_str() {
            Some(s) => Some(PlanType::from_str_loose(s.as_str())),
            None => None,
        },
        None => None,
    }
}

/// Reads the credits that `v` describes (see [`credits_from_json`]).
pub fn parse_credits(v: &JsonValue) -> (r: Option<CreditsSnapshot>)
    ensures
        r.deep_view() == credits_from_json(*v),
{
    let obj = match v.as_object() {
        Some(o) => o,
        None => return None,
    };
    Some(
        CreditsSnapshot {
            has_credits: flag_member(obj, "has_credits"),
            unlimited: flag_member(obj, "unlimited"),
            balance: text_member(obj, "balance"),
        },
    )
}

/// A zero used share, written as a float.
pub fn zero_percent() -> (r: JsonNumber)
    ensures
        r@ == zero_float(),
{
    JsonNumber { int_value: None, rounded: 0, text: String::from_str("0.0") }
}

fn whole_number_text(t: &str) -> (r: bool)
    ensures
        r == is_whole_number_text(t@),
{
    let n = t.unicode_len();
    let start: usize = if n > 0 && t.get_char(0) == '-' { 1 } else { 0 };
    let ghost digits = unsigned_part(t@);
    if start >= n {
        assert(digits.len() == 0);
        return false;
    }
    let mut i = start;
    while i < n
        invariant
            n == t@.len(),
            start <= i <= n,
            start < n,
            digits == t@.subrange(start as int, n as int),
            digits == unsigned_part(t@),
            forall|j: int| start <= j < i ==> '0' <= #[trigger] t@[j] <= '9',
        decreases n - i,
    {
        let c = t.get_char(i);
        if !('0' <= c && c <= '9') {
            assert(digits[i - start] == t@[i as int]);
            assert(t@[i as int] == c);
            assert(!('0' <= digits[i - start] <= '9'));
            assert(0 <= i - start < digits.len());
            return false;
        }
        i += 1;
    }
    assert forall|k: int| 0 <= k < digits.len() implies '0' <= #[trigger] digits[k] <= '9' by {
        assert(digits[k] == t@[k + start]);
    }
    true
}

/// A used share read as a floating-point number (see [`float_number`]).
pub fn float_percent(n: &JsonNumber) -> (r: JsonNumber)
    ensures
        r@ == float_number(n@),
{
    if whole_number_text(n.text.as_str()) {
        let mut text = n.text.clone();
        text.append(".0");
        JsonNumber { int_value: None, rounded: n.rounded, text }
    } else {
        n.duplicate()
    }
}

/// Reads the quota window that `v` describes (see [`window_from_json`]).
pub fn parse_window(v: &JsonValue) -> (r: Option<RateLimitWindow>)
    ensures
        r.deep_view() == window_from_json(*v),
{
    let obj = match v.as_object() {
        Some(o) => o,
        None => return None,
    };
    let used = match get_member(obj, "used_percent") {
        Some(u) => u,
        None => return None,
    };
    let used_percent = match used {
        JsonValue::Number(n) => float_percent(n),
        _ => zero_percent(),
    };
    Some(
        RateLimitWindow {
            used_percent,
            window_minutes: integer_member(obj, "window_minutes"),
            resets_at: integer_member(obj, "resets_at"),
        },
    )
}

fn window_member(members: &Vec<JsonMember>, key: &str) -> (r: Option<RateLimitWindow>)
    ensures
        r.deep_view() == member_window(members@, key@),
{
    match get_member(members, key) {
        Some(v) => parse_window(v),
        None => None,
    }
}

/// Reads the quota snapshot that `v` describes (see [`snapshot_from_json`]).
pub fn parse_usage(v: &JsonValue) -> (r: Option<RateLimitSnapshot>)
    ensures
        r.deep_view() == snapshot_from_json(*v),
{
    let obj = match v.as_object() {
        Some(o) => o,
        None => return None,
    };
    let credits = match get_member(obj, "credits") {
        Some(c) => parse_credits(c),
        None => None,
    };
    Some(
        RateLimitSnapshot {
            primary: window_member(obj, "primary"),
            secondary: window_member(obj, "secondary"),
            credits,
            plan_type: plan_member(obj, "plan_type"),
        },
    )
}

/// Reads the account that the members `obj` describe, at time `now`
/// (see [`account_from_json`]).
pub fn parse_account_record(obj: &Vec<JsonMember>, now: i64) -> (r: Option<AccountRecord>)
    ensures
        r.deep_view() == account_from_json(obj@, now),
{
    let email = match text_member(obj, "email") {
        Some(e) => to_lowercase(e.as_str()),
        None => return None,
    };
    let alias = match text_member(obj, "alias") {
        Some(a) => a,
        None => String::new(),
    };
    let created_at = match integer_member(obj, "created_at") {
        Some(t) => t,
        None => now,
    };
    let auth_mode = match get_member(obj, "auth_mode") {
        Some(v) => match v.as_str() {
            Some(t) => parse_auth_mode(t),
            None => None,
        },
        None => None,
    };
    let last_usage = match get_member(obj, "last_usage") {
        Some(u) => parse_usage(u),
        None => None,
    };
    Some(
        AccountRecord {
            email,
            alias,
            plan: plan_member(obj, "plan"),
            auth_mode,
            created_at,
            last_used_at: integer_member(obj, "last_used_at"),
            last_usage,
            last_usage_at: integer_member(obj, "last_usage_at"),
        },
    )
}

fn accounts_array(obj: &Vec<JsonMember>) -> (r: Option<&Vec<JsonValue>>)
    ensures
        match r {
            Some(a) => account_items(obj@) == a@,
            None => account_items(obj@) == Seq::<JsonValue>::empty(),
        },
{
    match get_member(obj, "accounts") {
        Some(v) => v.as_array(),
        None => None,
    }
}

/// Reads the registry that the members of a registry document describe,
/// at time `now`.
pub fn load_registry_v2(obj: &Vec<JsonMember>, now: i64) -> (r: Registry)
    ensures
        r@ == registry_from_json(JsonValue::Object(*obj), now),
{
    let mut reg = Registry::new();
    if let Some(active) = text_member(obj, "active_email") {
        reg.active_email = Some(to_lowercase(active.as_str()));
    }
    if let Some(arr) = accounts_array(obj) {
        let mut i: usize = 0;
        while i < arr.len()
            invariant
                i <= arr@.len(),
                account_items(obj@) == arr@,
                reg@.version == REGISTRY_VERSION,
                reg@.active_email == registry_from_json(JsonValue::Object(*obj), now).active_email,
                reg@.accounts == accounts_from_items(arr@, i as nat, now),
            decreases arr.len() - i,
        {
            if let Some(item_obj) = arr[i].as_object() {
                if let Some(rec) = parse_account_record(item_obj, now) {
                    upsert_account(&mut reg, rec);
                }
            }
            i += 1;
        }
    } else {
        assert(reg@.accounts =~= accounts_from_items(Seq::<JsonValue>::empty(), 0, now));
    }
    reg
}

/// Reads the registry that the document `root` describes, at time `now`
/// (see [`registry_from_json`]).
pub fn registry_from_json_at(root: &JsonValue, now: i64) -> (r: Registry)
    ensures
        r@ == registry_from_json(*root, now),
{
    match root.as_object() {
        Some(obj) => load_registry_v2(obj, now),
        None => Registry::new(),
    }
}

/// Reads the registry that the document `root` describes; records without
/// a creation time are taken as created now.
pub fn load_registry(root: &JsonValue) -> (r: Registry)
    ensures
        exists|now: i64| r@ == registry_from_json(*root, now),
{
    let now = now_timestamp();
    registry_from_json_at(root, now)
}

/// The account that item `j` describes, if it describes one.
pub open spec fn item_account(items: Seq<JsonValue>, j: int, now: i64) -> Option<AccountView> {
    match object_members(items[j]) {
        Some(m) => account_from_json(m, now),
        None => None,
    }
}

/// The accounts read from the first `n` items hold each address once; for
/// every item that describes an account they hold a record of its address
/// at least as fresh as it; and each record they hold is one an item describes.
pub proof fn lemma_loaded_accounts(items: Seq<JsonValue>, n: nat, now: i64)
    requires
        n <= items.len(),
    ensures
        emails_unique(accounts_from_items(items, n, now)),
        forall|j: int|
            0 <= j < n && #[trigger] item_account(items, j, now) is Some ==> {
                let acc = accounts_from_items(items, n, now);
                let r = item_account(items, j, now)->0;
                &&& 0 <= email_index(acc, r.email) < acc.len()
                &&& freshness(acc[email_index(acc, r.email)]) >= freshness(r)
            },
        forall|x: int|
            0 <= x < accounts_from_items(items, n, now).len() ==> exists|j: int|
                0 <= j < n && item_account(items, j, now) == Some(#[trigger] accounts_from_items(items, n, now)[x]),
    decreases n,
{
    if n > 0 {
        let m1 = (n - 1) as nat;
        lemma_loaded_accounts(items, m1, now);
        let acc = accounts_from_items(items, m1, now);
        let last = item_account(items, m1 as int, now);
        assert(accounts_from_items(items, n, now) == match last {
            Some(r) => upsert_spec(acc, r),
            None => acc,
        });
        if last is Some {
            let r = last->0;
            let s1 = upsert_spec(acc, r);
            lemma_upsert_unique(acc, r);
            lemma_upsert_keeps_fresher(acc, r);
            lemma_upsert_others(acc, r, r.email);
            assert forall|j: int|
                0 <= j < n && #[trigger] item_account(items, j, now) is Some implies {
                    let rj = item_account(items, j, now)->0;
                    &&& 0 <= email_index(s1, rj.email) < s1.len()
                    &&& freshness(s1[email_index(s1, rj.email)]) >= freshness(rj)
                } by {
                let rj = item_account(items, j, now)->0;
                if j < m1 {
                    lemma_upsert_others(acc, r, rj.email);
                    lemma_email_index(acc, rj.email);
                    if rj.email == r.email {
                        lemma_email_index(acc, r.email);
                    }
                }
            }
            assert forall|x: int| 0 <= x < s1.len() implies exists|j: int|
                0 <= j < n && item_account(items, j, now) == Some(#[trigger] s1[x]) by {
                if s1[x] == r {
                    assert(item_account(items, m1 as int, now) == Some(s1[x]));
                } else {
                    assert(x < acc.len() && s1[x] == acc[x]);
                    let j = choose|j: int| 0 <= j < m1 && item_account(items, j, now) == Some(#[trigger] acc[x]);
                    assert(item_account(items, j, now) == Some(s1[x]));
                }
            }
        }
    }
}

/// Item `j` describes an account with the address `e`.
pub open spec fn item_gives(items: Seq<JsonValue>, j: int, now: i64, e: Seq<char>) -> bool {
    item_account(items, j, now) matches Some(r) && r.email == e
}

/// `a` is the record of the first `n` items that the reading keeps for its
/// address: the one an item `j0` describes, no item of that address before
/// `j0` being as fresh (so it is the first of the freshest).
pub open spec fn first_freshest(items: Seq<JsonValue>, n: nat, now: i64, a: AccountView) -> bool {
    exists|j0: int|
        0 <= j0 < n && #[trigger] item_account(items, j0, now) == Some(a) && forall|j: int|
            0 <= j < j0 && #[trigger] item_gives(items, j, now, a.email) ==> freshness(item_account(items, j, now)->0)
                < freshness(a)
}

/// Among the first `n` items, every item with address `e2` comes after
/// some item with address `e1`.
pub open spec fn appears_before(items: Seq<JsonValue>, n: nat, now: i64, e1: Seq<char>, e2: Seq<char>) -> bool {
    forall|j: int|
        0 <= j < n && #[trigger] item_gives(items, j, now, e2) ==> exists|i: int|
            0 <= i < j && #[trigger] item_gives(items, i, now, e1)
}

/// The accounts read from the first `n` items keep, for each address, the
/// first of the freshest records the items give for it, and hold the
/// addresses in the order in which they first appear.
pub proof fn lemma_loaded_order(items: Seq<JsonValue>, n: nat, now: i64)
    requires
        n <= items.len(),
    ensures
        forall|x: int|
            0 <= x < accounts_from_items(items, n, now).len() ==> first_freshest(
                items,
                n,
                now,
                #[trigger] accounts_from_items(items, n, now)[x],
            ),
        forall|x: int, y: int|
            0 <= x < y < accounts_from_items(items, n, now).len() ==> appears_before(
                items,
                n,
                now,
                #[trigger] accounts_from_items(items, n, now)[x].email,
                #[trigger] accounts_from_items(items, n, now)[y].email,
            ),
    decreases n,
{
    if n > 0 {
        let m1 = (n - 1) as nat;
        lemma_loaded_order(items, m1, now);
        lemma_loaded_accounts(items, m1, now);
        let acc = accounts_from_items(items, m1, now);
        let last = item_account(items, m1 as int, now);
        assert(accounts_from_items(items, n, now) == match last {
            Some(r) => upsert_spec(acc, r),
            None => acc,
        });
        let s1 = accounts_from_items(items, n, now);
        // An address that no earlier item gives is not yet held.
        assert forall|e: Seq<char>, j: int| 0 <= j < m1 && #[trigger] item_gives(items, j, now, e) implies email_index(acc, e)
            >= 0 by {
            assert(item_account(items, j, now) is Some);
        }
        // Facts about the first m1 items carry over to the first n.
        assert forall|x: int| 0 <= x < acc.len() implies first_freshest(items, n, now, #[trigger] acc[x]) by {
            assert(first_freshest(items, m1, now, acc[x]));
            let j0 = choose|j0: int|
                0 <= j0 < m1 && #[trigger] item_account(items, j0, now) == Some(acc[x]) && forall|j: int|
                    0 <= j < j0 && #[trigger] item_gives(items, j, now, acc[x].email) ==> freshness(
                        item_account(items, j, now)->0,
                    ) < freshness(acc[x]);
            assert(item_account(items, j0, now) == Some(acc[x]));
        }
        if last is Some {
            let r = last->0;
            let i = email_index(acc, r.email);
            lemma_email_index(acc, r.email);
            lemma_upsert_others(acc, r, r.email);
            assert forall|x: int| 0 <= x < s1.len() implies first_freshest(items, n, now, #[trigger] s1[x]) by {
                if x < acc.len() && s1[x] == acc[x] {
                } else {
                    assert(s1[x] == r);
                    assert forall|j: int| 0 <= j < m1 && #[trigger] item_gives(items, j, now, r.email) implies freshness(
                        item_account(items, j, now)->0,
                    ) < freshness(r) by {
                        assert(item_account(items, j, now) is Some);
                        if i < 0 {
                        } else {
                            assert(freshness(acc[i]) >= freshness(item_account(items, j, now)->0));
                            assert(s1[x] != acc[x] || x >= acc.len());
                            if x < acc.len() && x != i {
                                assert(s1[x] == acc[x]);
                            }
                        }
                    }
                    assert(item_account(items, m1 as int, now) == Some(s1[x]));
                }
            }
            assert forall|x: int, y: int| 0 <= x < y < s1.len() implies appears_before(
                items,
                n,
                now,
                #[trigger] s1[x].email,
                #[trigger] s1[y].email,
            ) by {
                assert(x < acc.len());
                assert(s1[x].email == acc[x].email) by {
                    if s1[x] == r {
                        assert(x == i);
                    }
                }
                assert(first_freshest(items, m1, now, acc[x]));
                let jx = choose|j0: int|
                    0 <= j0 < m1 && #[trigger] item_account(items, j0, now) == Some(acc[x]) && forall|j: int|
                        0 <= j < j0 && #[trigger] item_gives(items, j, now, acc[x].email) ==> freshness(
                            item_account(items, j, now)->0,
                        ) < freshness(acc[x]);
                assert(item_gives(items, jx, now, acc[x].email));
                if y >= acc.len() {
                    assert(s1[y] == r && i < 0);
                    assert forall|j: int| 0 <= j < n && #[trigger] item_gives(items, j, now, s1[y].email) implies exists|i2: int|
                        0 <= i2 < j && #[trigger] item_gives(items, i2, now, s1[x].email) by {
                        if j < m1 {
                            assert(email_index(acc, r.email) >= 0);
                        }
                        assert(item_gives(items, jx, now, s1[x].email));
                    }
                } else {
                    assert(s1[y].email == acc[y].email) by {
                        if s1[y] == r {
                            assert(y == i);
                        }
                    }
                    assert(appears_before(items, m1, now, acc[x].email, acc[y].email));
                    assert forall|j: int| 0 <= j < n && #[trigger] item_gives(items, j, now, s1[y].email) implies exists|i2: int|
                        0 <= i2 < j && #[trigger] item_gives(items, i2, now, s1[x].email) by {
                        if j == m1 {
                            assert(first_freshest(items, m1, now, acc[y]));
                            let jy = choose|j0: int|
                                0 <= j0 < m1 && #[trigger] item_account(items, j0, now) == Some(acc[y]) && forall|j: int|
                                    0 <= j < j0 && #[trigger] item_gives(items, j, now, acc[y].email) ==> freshness(
                                        item_account(items, j, now)->0,
                                    ) < freshness(acc[y]);
                            assert(item_gives(items, jy, now, acc[y].email));
                        }
                    }
                }
            }
        } else {
            assert forall|x: int, y: int| 0 <= x < y < s1.len() implies appears_before(
                items,
                n,
                now,
                #[trigger] s1[x].email,
                #[trigger] s1[y].email,
            ) by {
                assert(appears_before(items, m1, now, acc[x].email, acc[y].email));
                assert forall|j: int| 0 <= j < n && #[trigger] item_gives(items, j, now, s1[y].email) implies exists|i2: int|
                    0 <= i2 < j && #[trigger] item_gives(items, i2, now, s1[x].email) by {
                    assert(j != m1);
                }
            }
        }
    }
}

/// A registry read from a document holds each address once, keeps for every
/// account the document describes a record of its address at least as
/// fresh as that one, holds only records the document describes, keeps for
/// each address the first of its freshest records, and holds the addresses
/// in the order in which they first appear in the document.
pub proof fn lemma_loaded_registry(root: JsonValue, now: i64)
    ensures
        emails_unique(registry_from_json(root, now).accounts),
        object_members(root) matches Some(m) ==> {
            let items = account_items(m);
            let acc = registry_from_json(root, now).accounts;
            &&& forall|j: int|
                0 <= j < items.len() && #[trigger] item_account(items, j, now) is Some ==> {
                    let r = item_account(items, j, now)->0;
                    &&& 0 <= email_index(acc, r.email) < acc.len()
                    &&& freshness(acc[email_index(acc, r.email)]) >= freshness(r)
                }
            &&& forall|x: int|
                0 <= x < acc.len() ==> exists|j: int|
                    0 <= j < items.len() && item_account(items, j, now) == Some(#[trigger] acc[x])
            &&& forall|x: int| 0 <= x < acc.len() ==> first_freshest(items, items.len(), now, #[trigger] acc[x])
            &&& forall|x: int, y: int|
                0 <= x < y < acc.len() ==> appears_before(
                    items,
                    items.len(),
                    now,
                    #[trigger] acc[x].email,
                    #[trigger] acc[y].email,
                )
        },
{
    match object_members(root) {
        Some(m) => {
            lemma_loaded_accounts(account_items(m), account_items(m).len(), now);
            lemma_loaded_order(account_items(m), account_items(m).len(), now);
        },
        None => {
            assert(registry_from_json(root, now).accounts =~= Seq::<AccountView>::empty());
        },
    }
}

// ─── Writing ───

/// `v` is the integer `n`, written in decimal.
pub open spec fn is_integer_json(v: JsonValue, n: int) -> bool {
    match v {
        JsonValue::Number(x) => x.int_value == Some(n as i64) && x.rounded == n && x.text@ == decimal(n),
        _ => false,
    }
}

/// `v` is the integer `o` holds, or `null`.
pub open spec fn is_opt_integer_json(v: JsonValue, o: Option<i64>) -> bool {
    match o {
        Some(n) => is_integer_json(v, n as int),
        None => v is Null,
    }
}

/// `v` is the string `o` holds, or `null`.
pub open spec fn is_opt_text_json(v: JsonValue, o: Option<Seq<char>>) -> bool {
    match o {
        Some(t) => string_text(v) == Some(t),
        None => v is Null,
    }
}

/// `v` is the name of the plan `o` holds, or `null`.
pub open spec fn is_opt_plan_json(v: JsonValue, o: Option<PlanType>) -> bool {
    match o {
        Some(p) => string_text(v) == Some(plan_name(p)),
        None => v is Null,
    }
}

/// The members `m` are, in order, the keys `keys`.
pub open spec fn has_keys(m: Seq<JsonMember>, keys: Seq<Seq<char>>) -> bool {
    m.len() == keys.len() && forall|i: int| 0 <= i < m.len() ==> #[trigger] m[i].key@ == keys[i]
}

/// `v` is the written form of the quota window `w`.
pub open spec fn encodes_window(v: JsonValue, w: WindowView) -> bool {
    match v {
        JsonValue::Object(m) => {
            &&& has_keys(m@, seq!["used_percent"@, "window_minutes"@, "resets_at"@])
            &&& (match m@[0].value {
                JsonValue::Number(n) => n@ == w.used_percent,
                _ => false,
            })
            &&& is_opt_integer_json(m@[1].value, w.window_minutes)
            &&& is_opt_integer_json(m@[2].value, w.resets_at)
        },
        _ => false,
    }
}

/// `v` is the written form of the window `o` holds, or `null`.
pub open spec fn encodes_opt_window(v: JsonValue, o: Option<WindowView>) -> bool {
    match o {
        Some(w) => encodes_window(v, w),
        None => v is Null,
    }
}

/// `v` is the written form of the credits `o` holds, or `null`.
pub open spec fn encodes_opt_credits(v: JsonValue, o: Option<CreditsView>) -> bool {
    match o {
        Some(c) => match v {
            JsonValue::Object(m) => {
                &&& has_keys(m@, seq!["has_credits"@, "unlimited"@, "balance"@])
                &&& m@[0].value == JsonValue::Bool(c.has_credits)
                &&& m@[1].value == JsonValue::Bool(c.unlimited)
                &&& is_opt_text_json(m@[2].value, c.balance)
            },
            _ => false,
        },
        None => v is Null,
    }
}

/// `v` is the written form of the snapshot `o` holds, or `null`.
pub open spec fn encodes_opt_snapshot(v: JsonValue, o: Option<SnapshotView>) -> bool {
    match o {
        Some(s) => match v {
            JsonValue::Object(m) => {
                &&& has_keys(m@, seq!["primary"@, "secondary"@, "credits"@, "plan_type"@])
                &&& encodes_opt_window(m@[0].value, s.primary)
                &&& encodes_opt_window(m@[1].value, s.secondary)
                &&& encodes_opt_credits(m@[2].value, s.credits)
                &&& is_opt_plan_json(m@[3].value, s.plan_type)
            },
            _ => false,
        },
        None => v is Null,
    }
}

/// `v` is the written form of the account `a`.
pub open spec fn encodes_account(v: JsonValue, a: AccountView) -> bool {
    match v {
        JsonValue::Object(m) => {
            &&& has_keys(
                m@,
                seq![
                    "email"@,
                    "alias"@,
                    "plan"@,
                    "auth_mode"@,
                    "created_at"@,
                    "last_used_at"@,
                    "last_usage"@,
                    "last_usage_at"@,
                ],
            )
            &&& string_text(m@[0].value) == Some(a.email)
            &&& string_text(m@[1].value) == Some(a.alias)
            &&& is_opt_plan_json(m@[2].value, a.plan)
            &&& is_opt_text_json(m@[3].value, match a.auth_mode {
                Some(x) => Some(auth_mode_name(x)),
                None => None,
            })
            &&& is_integer_json(m@[4].value, a.created_at as int)
            &&& is_opt_integer_json(m@[5].value, a.last_used_at)
            &&& encodes_opt_snapshot(m@[6].value, a.last_usage)
            &&& is_opt_integer_json(m@[7].value, a.last_usage_at)
        },
        _ => false,
    }
}

/// `v` is the written form of the registry `r`: an object with its
/// version, its active address and its accounts, in that order.
pub open spec fn encodes_registry(v: JsonValue, r: RegistryView) -> bool {
    match v {
        JsonValue::Object(m) => {
            &&& has_keys(m@, seq!["version"@, "active_email"@, "accounts"@])
            &&& is_integer_json(m@[0].value, r.version as int)
            &&& is_opt_text_json(m@[1].value, r.active_email)
            &&& match m@[2].value {
                JsonValue::Array(a) => a@.len() == r.accounts.len() && forall|i: int|
                    0 <= i < a@.len() ==> encodes_account(#[trigger] a@[i], r.accounts[i]),
                _ => false,
            }
        },
        _ => false,
    }
}

fn member(key: &str, value: JsonValue) -> (r: JsonMember)
    ensures
        r.key@ == key@,
        r.value == value,
{
    JsonMember { key: String::from_str(key), value }
}

fn integer_json(n: i64) -> (r: JsonValue)
    ensures
        is_integer_json(r, n as int),
{
    JsonValue::Number(JsonNumber { int_value: Some(n), rounded: n, text: decimal_string(n) })
}

fn opt_integer_json(o: Option<i64>) -> (r: JsonValue)
    ensures
        is_opt_integer_json(r, o),
{
    match o {
        Some(n) => integer_json(n),
        None => JsonValue::Null,
    }
}

fn opt_text_json(o: &Option<String>) -> (r: JsonValue)
    ensures
        is_opt_text_json(r, o.deep_view()),
{
    match o {
        Some(t) => JsonValue::Str(t.clone()),
        None => JsonValue::Null,
    }
}

fn opt_plan_json(o: Option<PlanType>) -> (r: JsonValue)
    ensures
        is_opt_plan_json(r, o),
{
    match o {
        Some(p) => JsonValue::Str(String::from_str(p.name())),
        None => JsonValue::Null,
    }
}

fn window_json(o: &Option<RateLimitWindow>) -> (r: JsonValue)
    ensures
        encodes_opt_window(r, o.deep_view()),
{
    match o {
        Some(w) => {
            let mut m: Vec<JsonMember> = Vec::new();
            m.push(member("used_percent", JsonValue::Number(w.used_percent.duplicate())));
            m.push(member("window_minutes", opt_integer_json(w.window_minutes)));
            m.push(member("resets_at", opt_integer_json(w.resets_at)));
            JsonValue::Object(m)
        },
        None => JsonValue::Null,
    }
}

fn credits_json(o: &Option<CreditsSnapshot>) -> (r: JsonValue)
    ensures
        encodes_opt_credits(r, o.deep_view()),
{
    match o {
        Some(c) => {
            let mut m: Vec<JsonMember> = Vec::new();
            m.push(member("has_credits", JsonValue::Bool(c.has_credits)));
            m.push(member("unlimited", JsonValue::Bool(c.unlimited)));
            m.push(member("balance", opt_text_json(&c.balance)));
            JsonValue::Object(m)
        },
        None => JsonValue::Null,
    }
}

fn snapshot_json(o: &Option<RateLimitSnapshot>) -> (r: JsonValue)
    ensures
        encodes_opt_snapshot(r, o.deep_view()),
{
    match o {
        Some(s) => {
            let mut m: Vec<JsonMember> = Vec::new();
            m.push(member("primary", window_json(&s.primary)));
            m.push(member("secondary", window_json(&s.secondary)));
            m.push(member("credits", credits_json(&s.credits)));
            m.push(member("plan_type", opt_plan_json(s.plan_type)));
            JsonValue::Object(m)
        },
        None => JsonValue::Null,
    }
}

/// Writes one account as a JSON object (see [`encodes_account`]).
pub fn account_to_json(a: &AccountRecord) -> (r: JsonValue)
    ensures
        encodes_account(r, a@),
{
    let mut m: Vec<JsonMember> = Vec::new();
    m.push(member("email", JsonValue::Str(a.email.clone())));
    m.push(member("alias", JsonValue::Str(a.alias.clone())));
    m.push(member("plan", opt_plan_json(a.plan)));
    let mode = match a.auth_mode {
        Some(x) => JsonValue::Str(String::from_str(x.name())),
        None => JsonValue::Null,
    };
    m.push(member("auth_mode", mode));
    m.push(member("created_at", integer_json(a.created_at)));
    m.push(member("last_used_at", opt_integer_json(a.last_used_at)));
    m.push(member("last_usage", snapshot_json(&a.last_usage)));
    m.push(member("last_usage_at", opt_integer_json(a.last_usage_at)));
    JsonValue::Object(m)
}

/// Writes the registry as the JSON document that `registry.json` holds
/// (see [`encodes_registry`]).
pub fn registry_to_json(reg: &Registry) -> (r: JsonValue)
    ensures
        encodes_registry(r, reg@),
{
    let mut accounts: Vec<JsonValue> = Vec::new();
    let mut i: usize = 0;
    while i < reg.accounts.len()
        invariant
            i <= reg@.accounts.len(),
            accounts@.len() == i,
            forall|k: int| 0 <= k < i ==> encodes_account(#[trigger] accounts@[k], reg@.accounts[k]),
        decreases reg.accounts.len() - i,
    {
        accounts.push(account_to_json(&reg.accounts[i]));
        i += 1;
    }
    let mut m: Vec<JsonMember> = Vec::new();
    m.push(member("version", integer_json(reg.version as i64)));
    m.push(member("active_email", opt_text_json(&reg.active_email)));
    m.push(member("accounts", JsonValue::Array(accounts)));
    JsonValue::Object(m)
}

// ─── Reading back what was written ───

pub(crate) proof fn lemma_lookup_keys(m: Seq<JsonMember>, keys: Seq<Seq<char>>, i: int)
    requires
        has_keys(m, keys),
        0 <= i < keys.len(),
        forall|j: int| 0 <= j < i ==> #[trigger] keys[j].len() != keys[i].len() || keys[j][0] != keys[i][0],
    ensures
        lookup(m, keys[i]) == Some(m[i].value),
    decreases i,
{
    if i > 0 {
        assert(m[0].key@ == keys[0]);
        let m2 = m.drop_first();
        let k2 = keys.drop_first();
        assert forall|j: int| 0 <= j < m2.len() implies #[trigger] m2[j].key@ == k2[j] by {
            assert(m[j + 1].key@ == keys[j + 1]);
        }
        assert forall|j: int| 0 <= j < i - 1 implies #[trigger] k2[j].len() != k2[i - 1].len() || k2[j][0] != k2[i - 1][0] by {
            assert(keys[j + 1].len() != keys[i].len() || keys[j + 1][0] != keys[i][0]);
        }
        assert(keys[0] != keys[i]) by {
            if keys[0].len() == keys[i].len() {
                assert(keys[0][0] != keys[i][0]);
            }
        }
        lemma_lookup_keys(m2, k2, i - 1);
    }
}

/// Two texts that differ, case aside, at one position are not equal case aside.
proof fn lemma_differ_at(a: Seq<char>, b: Seq<char>, i: int)
    requires
        0 <= i < a.len(),
        0 <= i < b.len(),
        ascii_lower_char(a[i]) != ascii_lower_char(b[i]),
    ensures
        !eq_ignore_ascii_case(a, b),
{
}

/// A plan's written name reads back as that plan.
pub proof fn lemma_plan_name_round_trip(p: PlanType)
    ensures
        plan_from_text(plan_name(p)) == p,
{
    reveal_strlit("free");
    reveal_strlit("plus");
    reveal_strlit("pro");
    reveal_strlit("team");
    reveal_strlit("business");
    reveal_strlit("enterprise");
    reveal_strlit("edu");
    reveal_strlit("unknown");
    let n = plan_name(p);
    assert(eq_ignore_ascii_case(n, n));
    // Names of equal length already differ in their first letter.
    match p {
        PlanType::Plus => lemma_differ_at(n, "free"@, 0),
        PlanType::Team => {
            lemma_differ_at(n, "free"@, 0);
            lemma_differ_at(n, "plus"@, 0);
        },
        PlanType::Edu => lemma_differ_at(n, "pro"@, 0),
        _ => {},
    }
}

/// An authentication mode's written name reads back as that mode.
pub proof fn lemma_auth_mode_name_round_trip(x: AuthMode)
    ensures
        auth_mode_from_name(auth_mode_name(x)) == Some(x),
{
    reveal_strlit("chatgpt");
    reveal_strlit("apikey");
    assert("chatgpt"@.len() != "apikey"@.len());
}

proof fn lemma_read_window(v: JsonValue, w: WindowView)
    requires
        encodes_window(v, w),
        window_as_float(w),
    ensures
        window_from_json(v) == Some(w),
{
    reveal_strlit("used_percent");
    reveal_strlit("window_minutes");
    reveal_strlit("resets_at");
    let m = v->Object_0@;
    let keys = seq!["used_percent"@, "window_minutes"@, "resets_at"@];
    lemma_lookup_keys(m, keys, 0);
    lemma_lookup_keys(m, keys, 1);
    lemma_lookup_keys(m, keys, 2);
}

proof fn lemma_read_opt_window(v: JsonValue, w: Option<WindowView>)
    requires
        encodes_opt_window(v, w),
        w matches Some(x) ==> window_as_float(x),
    ensures
        window_from_json(v) == w,
{
    if w is Some {
        lemma_read_window(v, w->0);
    }
}

proof fn lemma_read_snapshot(v: JsonValue, o: Option<SnapshotView>)
    requires
        encodes_opt_snapshot(v, o),
        o matches Some(s) ==> (s.primary matches Some(w) ==> window_as_float(w)) && (s.secondary matches Some(w)
            ==> window_as_float(w)),
    ensures
        snapshot_from_json(v) == o,
{
    if o is Some {
        let s = o->0;
        reveal_strlit("primary");
        reveal_strlit("secondary");
        reveal_strlit("credits");
        reveal_strlit("plan_type");
        let m = v->Object_0@;
        let keys = seq!["primary"@, "secondary"@, "credits"@, "plan_type"@];
        lemma_lookup_keys(m, keys, 0);
        lemma_lookup_keys(m, keys, 1);
        lemma_lookup_keys(m, keys, 2);
        lemma_lookup_keys(m, keys, 3);
        lemma_read_opt_window(m[0].value, s.primary);
        lemma_read_opt_window(m[1].value, s.secondary);
        if s.credits is Some {
            reveal_strlit("has_credits");
            reveal_strlit("unlimited");
            reveal_strlit("balance");
            let c = m[2].value->Object_0@;
            let ckeys = seq!["has_credits"@, "unlimited"@, "balance"@];
            lemma_lookup_keys(c, ckeys, 0);
            lemma_lookup_keys(c, ckeys, 1);
            lemma_lookup_keys(c, ckeys, 2);
        }
        if s.plan_type is Some {
            lemma_plan_name_round_trip(s.plan_type->0);
        }
    }
}

/// The written form of an account whose address is already lowercase reads
/// back as that account, whatever the time of reading.
pub proof fn lemma_read_account(v: JsonValue, a: AccountView, now: i64)
    requires
        encodes_account(v, a),
        lowercase(a.email) == a.email,
        account_as_float(a),
    ensures
        object_members(v) is Some,
        account_from_json(object_members(v)->0, now) == Some(a),
{
    reveal_strlit("email");
    reveal_strlit("alias");
    reveal_strlit("plan");
    reveal_strlit("auth_mode");
    reveal_strlit("created_at");
    reveal_strlit("last_used_at");
    reveal_strlit("last_usage");
    reveal_strlit("last_usage_at");
    let m = v->Object_0@;
    let keys = seq![
        "email"@,
        "alias"@,
        "plan"@,
        "auth_mode"@,
        "created_at"@,
        "last_used_at"@,
        "last_usage"@,
        "last_usage_at"@,
    ];
    assert(keys[4] =~= "created_at"@);
    lemma_lookup_keys(m, keys, 0);
    lemma_lookup_keys(m, keys, 1);
    lemma_lookup_keys(m, keys, 2);
    lemma_lookup_keys(m, keys, 3);
    lemma_lookup_keys(m, keys, 4);
    lemma_lookup_keys(m, keys, 5);
    lemma_lookup_keys(m, keys, 6);
    lemma_lookup_keys(m, keys, 7);
    if a.plan is Some {
        lemma_plan_name_round_trip(a.plan->0);
    }
    if a.auth_mode is Some {
        lemma_auth_mode_name_round_trip(a.auth_mode->0);
    }
    lemma_read_snapshot(m[6].value, a.last_usage);
}

proof fn lemma_read_accounts(items: Seq<JsonValue>, accounts: Seq<AccountView>, n: nat, now: i64)
    requires
        items.len() == accounts.len(),
        n <= items.len(),
        forall|i: int| 0 <= i < items.len() ==> encodes_account(#[trigger] items[i], accounts[i]),
        forall|i: int| 0 <= i < accounts.len() ==> lowercase(#[trigger] accounts[i].email) == accounts[i].email,
        forall|i: int| 0 <= i < accounts.len() ==> account_as_float(#[trigger] accounts[i]),
        emails_unique(accounts),
    ensures
        accounts_from_items(items, n, now) == accounts.take(n as int),
    decreases n,
{
    if n > 0 {
        lemma_read_accounts(items, accounts, (n - 1) as nat, now);
        let acc = accounts.take(n - 1);
        let a = accounts[n - 1];
        assert(encodes_account(items[n - 1], a));
        assert(account_as_float(accounts[n - 1]));
        lemma_read_account(items[n - 1], a, now);
        lemma_email_index(acc, a.email);
        if email_index(acc, a.email) >= 0 {
            let k = email_index(acc, a.email);
            assert(accounts[k].email == accounts[n - 1].email);
        }
        assert(accounts.take(n as int) =~= acc.push(a));
    }
}

/// Writing a registry and reading the document back gives the same
/// registry, for a registry in the current format whose addresses are
/// lowercase and distinct and whose used shares are written as floats (as
/// every registry read from a document is); the time of reading does not
/// matter.
pub proof fn lemma_registry_round_trip(doc: JsonValue, r: RegistryView, now: i64)
    requires
        encodes_registry(doc, r),
        r.version == REGISTRY_VERSION,
        r.active_email matches Some(e) ==> lowercase(e) == e,
        forall|i: int| 0 <= i < r.accounts.len() ==> lowercase(#[trigger] r.accounts[i].email) == r.accounts[i].email,
        forall|i: int| 0 <= i < r.accounts.len() ==> account_as_float(#[trigger] r.accounts[i]),
        emails_unique(r.accounts),
    ensures
        registry_from_json(doc, now) == r,
{
    reveal_strlit("version");
    reveal_strlit("active_email");
    reveal_strlit("accounts");
    let m = doc->Object_0@;
    let keys = seq!["version"@, "active_email"@, "accounts"@];
    lemma_lookup_keys(m, keys, 0);
    lemma_lookup_keys(m, keys, 1);
    lemma_lookup_keys(m, keys, 2);
    let items = account_items(m);
    lemma_read_accounts(items, r.accounts, items.len(), now);
    assert(r.accounts.take(r.accounts.len() as int) =~= r.accounts);
}

} // verus!
