//! What an authentication file and a session log tell the registry: the
//! account an `auth.json` belongs to, and the latest quota snapshot that
//! Codex recorded in a session.
use base64::engine::general_purpose::URL_SAFE_NO_PAD;
use base64::Engine;
use vstd::prelude::*;

use crate::base64url::{base64_url_bytes, base64_url_text, lemma_base64_url_round_trip};
use crate::json::{get_member, lookup, member_text, object_members, JsonValue};
use crate::models::{plan_from_text, AuthInfo, AuthInfoView, AuthMode, PlanType, RateLimitSnapshot, SnapshotView};
use crate::store::{parse_usage, snapshot_from_json};

verus! {

/// The position of the first `c` in `s` at or after `from`, or -1.
pub open spec fn find_char_from(s: Seq<char>, c: char, from: int) -> int
    decreases s.len() - from,
{
    if from < 0 || from >= s.len() {
        -1
    } else if s[from] == c {
        from
    } else {
        find_char_from(s, c, from + 1)
    }
}

/// The payload part of a JSON web token: the text between its first and
/// second `.`; none when the token has fewer than two.
pub open spec fn jwt_payload_part(token: Seq<char>) -> Option<Seq<char>> {
    let i = find_char_from(token, '.', 0);
    if i < 0 {
        None
    } else {
        let j = find_char_from(token, '.', i + 1);
        if j < 0 {
            None
        } else {
            Some(token.subrange(i + 1, j))
        }
    }
}

fn find_char(s: &str, c: char, from: usize) -> (r: Option<usize>)
    requires
        from <= s@.len(),
    ensures
        match r {
            Some(i) => find_char_from(s@, c, from as int) == i,
            None => find_char_from(s@, c, from as int) == -1,
        },
{
    let n = s.unicode_len();
    let mut i = from;
    while i < n
        invariant
            n == s@.len(),
            from <= i <= n,
            find_char_from(s@, c, from as int) == find_char_from(s@, c, i as int),
        decreases n - i,
    {
        if s.get_char(i) == c {
            return Some(i);
        }
        i += 1;
    }
    None
}

/// The payload part of a JSON web token (see [`jwt_payload_part`]).
pub fn jwt_payload(token: &str) -> (r: Option<String>)
    ensures
        r.deep_view() == jwt_payload_part(token@),
{
    let n = token.unicode_len();
    let i = match find_char(token, '.', 0) {
        Some(i) => i,
        None => return None,
    };
    proof {
        lemma_find_char_range(token@, '.', 0);
    }
    assert(i < n);
    let j = match find_char(token, '.', i + 1) {
        Some(j) => j,
        None => return None,
    };
    proof {
        lemma_find_char_range(token@, '.', i + 1);
    }
    Some(String::from_str(token.substring_char(i + 1, j)))
}

proof fn lemma_find_char_range(s: Seq<char>, c: char, from: int)
    ensures
        find_char_from(s, c, from) == -1 || (from <= find_char_from(s, c, from) < s.len()),
    decreases s.len() - from,
{
    if 0 <= from < s.len() && s[from] != c {
        lemma_find_char_range(s, c, from + 1);
    }
}

/// Decodes the unpadded URL-safe base64 text `text`: `URL_SAFE_NO_PAD.decode`
/// of its UTF-8 bytes, `None` when the crate reports an error. That engine
/// takes no `=` padding and no stray bits after the last byte, so it
/// decodes exactly the texts that [`base64_url_text`] writes, each back to
/// the bytes it was written from, and rejects every other text.
#[verifier::external_body]
pub(crate) fn decode_base64_url(text: &str) -> (r: Option<Vec<u8>>)
    ensures
        match r {
            Some(b) => base64_url_text(b@) == text@,
            None => base64_url_bytes(text@) is None,
        },
{
    URL_SAFE_NO_PAD.decode(text.as_bytes()).ok()
}

/// The identity token of an `auth.json` document: its `tokens.id_token`.
pub open spec fn id_token_of(auth: JsonValue) -> Option<Seq<char>> {
    match object_members(auth) {
        Some(m) => match lookup(m, "tokens"@) {
            Some(t) => match object_members(t) {
                Some(tm) => member_text(tm, "id_token"@),
                None => None,
            },
            None => None,
        },
        None => None,
    }
}

/// The bytes of the claims of the identity token of an `auth.json`
/// document: the decoded payload part of its `tokens.id_token`.
pub open spec fn id_token_claims_bytes(auth: JsonValue) -> Option<Seq<u8>> {
    match id_token_of(auth) {
        Some(t) => match jwt_payload_part(t) {
            Some(p) => base64_url_bytes(p),
            None => None,
        },
        None => None,
    }
}

/// Reads the bytes of the claims of the identity token of an `auth.json`
/// document (see [`id_token_claims_bytes`]).
pub fn id_token_claims(auth: &JsonValue) -> (r: Option<Vec<u8>>)
    ensures
        r.deep_view() == id_token_claims_bytes(*auth),
{
    let obj = match auth.as_object() {
        Some(o) => o,
        None => return None,
    };
    let tokens = match get_member(obj, "tokens") {
        Some(t) => t,
        None => return None,
    };
    let tm = match tokens.as_object() {
        Some(o) => o,
        None => return None,
    };
    let token = match get_member(tm, "id_token") {
        Some(v) => match v.as_str() {
            Some(s) => s,
            None => return None,
        },
        None => return None,
    };
    let payload = match jwt_payload(token.as_str()) {
        Some(p) => p,
        None => return None,
    };
    let r = decode_base64_url(payload.as_str());
    proof {
        if r is Some {
            lemma_base64_url_round_trip(r->0@);
            assert(r.deep_view() == Some(r->0@));
        }
    }
    r
}

/// The account an `auth.json` document belongs to, given the claims of its
/// identity token: the address is the claims' `email`; the plan is their
/// `chatgpt_plan_type` under `https://api.openai.com/auth`; the mode is the
/// API-key mode when the document holds no tokens but an `OPENAI_API_KEY`
/// string, and the ChatGPT mode otherwise.
pub open spec fn auth_info_spec(auth: JsonValue, claims: Option<JsonValue>) -> AuthInfoView {
    let claim_members = match claims {
        Some(c) => object_members(c),
        None => None,
    };
    let has_tokens = match object_members(auth) {
        Some(m) => match lookup(m, "tokens"@) {
            Some(t) => object_members(t) is Some,
            None => false,
        },
        None => false,
    };
    let has_key = match object_members(auth) {
        Some(m) => member_text(m, "OPENAI_API_KEY"@) is Some,
        None => false,
    };
    AuthInfoView {
        email: match claim_members {
            Some(m) => member_text(m, "email"@),
            None => None,
        },
        plan: match claim_members {
            Some(m) => match lookup(m, "https://api.openai.com/auth"@) {
                Some(a) => match object_members(a) {
                    Some(am) => match member_text(am, "chatgpt_plan_type"@) {
                        Some(p) => Some(plan_from_text(p)),
                        None => None,
                    },
                    None => None,
                },
                None => None,
            },
            None => None,
        },
        auth_mode: if !has_tokens && has_key { AuthMode::Apikey } else { AuthMode::Chatgpt },
    }
}

fn text_of(v: Option<&JsonValue>) -> (r: Option<String>)
    ensures
        r.deep_view() == match v {
            Some(x) => crate::json::string_text(*x),
            None => None,
        },
{
    match v {
        Some(x) => match x.as_str() {
            Some(s) => Some(s.clone()),
            None => None,
        },
        None => None,
    }
}

/// Reads the account an `auth.json` document belongs to (see [`auth_info_spec`]).
pub fn auth_info_from_json(auth: &JsonValue, claims: Option<&JsonValue>) -> (r: AuthInfo)
    ensures
        r@ == auth_info_spec(
            *auth,
            match claims {
                Some(c) => Some(*c),
                None => None,
            },
        ),
{
    let mut email: Option<String> = None;
    let mut plan: Option<PlanType> = None;
    if let Some(c) = claims {
        if let Some(cm) = c.as_object() {
            email = text_of(get_member(cm, "email"));
            if let Some(a) = get_member(cm, "https://api.openai.com/auth") {
                if let Some(am) = a.as_object() {
                    if let Some(p) = text_of(get_member(am, "chatgpt_plan_type")) {
                        plan = Some(PlanType::from_str_loose(p.as_str()));
                    }
                }
            }
        }
    }
    let mut has_tokens = false;
    let mut has_key = false;
    if let Some(m) = auth.as_object() {
        if let Some(t) = get_member(m, "tokens") {
            has_tokens = t.as_object().is_some();
        }
        has_key = text_of(get_member(m, "OPENAI_API_KEY")).is_some();
    }
    let auth_mode = if !has_tokens && has_key {
        AuthMode::Apikey
    } else {
        AuthMode::Chatgpt
    };
    AuthInfo { email, plan, auth_mode }
}

/// The quota snapshot a session event carries: its `payload.rate_limits`.
pub open spec fn event_snapshot(event: JsonValue) -> Option<SnapshotView> {
    match object_members(event) {
        Some(m) => match lookup(m, "payload"@) {
            Some(p) => match object_members(p) {
                Some(pm) => match lookup(pm, "rate_limits"@) {
                    Some(r) => snapshot_from_json(r),
                    None => None,
                },
                None => None,
            },
            None => None,
        },
        None => None,
    }
}

/// The latest quota snapshot among the first `n` events of a session log.
pub open spec fn latest_snapshot(events: Seq<JsonValue>, n: nat) -> Option<SnapshotView>
    decreases n,
{
    if n == 0 {
        None
    } else {
        match event_snapshot(events[n - 1]) {
            Some(s) => Some(s),
            None => latest_snapshot(events, (n - 1) as nat),
        }
    }
}

fn snapshot_of_event(event: &JsonValue) -> (r: Option<RateLimitSnapshot>)
    ensures
        r.deep_view() == event_snapshot(*event),
{
    let m = match event.as_object() {
        Some(m) => m,
        None => return None,
    };
    let p = match get_member(m, "payload") {
        Some(p) => p,
        None => return None,
    };
    let pm = match p.as_object() {
        Some(pm) => pm,
        None => return None,
    };
    match get_member(pm, "rate_limits") {
        Some(r) => parse_usage(r),
        None => None,
    }
}

/// The latest quota snapshot that a session log records: that of the last
/// event carrying one (see [`latest_snapshot`]).
pub fn latest_usage_in_events(events: &Vec<JsonValue>) -> (r: Option<RateLimitSnapshot>)
    ensures
        r.deep_view() == latest_snapshot(events@, events@.len()),
{
    let mut i = events.len();
    while i > 0
        invariant
            i <= events@.len(),
            forall|k: int| i <= k < events@.len() ==> event_snapshot(#[trigger] events@[k]) is None,
            latest_snapshot(events@, events@.len()) == latest_snapshot(events@, i as nat),
        decreases i,
    {
        let found = snapshot_of_event(&events[i - 1]);
        if found.is_some() {
            return found;
        }
        i -= 1;
    }
    None
}

} // verus!
