use cx_switch::auth::{auth_info_from_json, id_token_claims, jwt_payload, latest_usage_in_events};
use cx_switch::cli::{add_deprecation_warning, add_skips_login};
use cx_switch::json::{JsonMember, JsonNumber, JsonValue};
use cx_switch::models::{
    remaining_percent, resolve_plan, resolve_rate_window, AccountRecord, AuthMode, PlanType,
    RateLimitSnapshot, RateLimitWindow, Registry, REGISTRY_VERSION,
};
use cx_switch::registry::{set_active_account_at, update_usage_at, upsert_account};
use cx_switch::store::{load_registry, parse_account_record, parse_window, registry_from_json_at, registry_to_json};
use cx_switch::text::{contains_text, decimal_string, ends_with, equals_ignore_ascii_case, join_path, starts_with};

fn s(t: &str) -> JsonValue {
    JsonValue::Str(t.to_string())
}

fn num(n: i64) -> JsonValue {
    JsonValue::Number(JsonNumber { int_value: Some(n), rounded: n, text: n.to_string() })
}

fn float(text: &str, rounded: i64) -> JsonValue {
    JsonValue::Number(JsonNumber { int_value: None, rounded, text: text.to_string() })
}

fn obj(members: Vec<(&str, JsonValue)>) -> JsonValue {
    JsonValue::Object(members.into_iter().map(|(k, v)| JsonMember { key: k.to_string(), value: v }).collect())
}

fn member<'a>(v: &'a JsonValue, key: &str) -> &'a JsonValue {
    match v {
        JsonValue::Object(m) => &m.iter().find(|x| x.key == key).expect("member").value,
        _ => panic!("not an object"),
    }
}

fn text(v: &JsonValue) -> String {
    match v {
        JsonValue::Str(t) => t.clone(),
        _ => panic!("not a string"),
    }
}

fn int_of(v: &JsonValue) -> i64 {
    match v {
        JsonValue::Number(n) => n.int_value.expect("integer"),
        _ => panic!("not a number"),
    }
}

fn window(used: i64, minutes: i64, resets_at: Option<i64>) -> RateLimitWindow {
    RateLimitWindow {
        used_percent: JsonNumber { int_value: None, rounded: used, text: format!("{}.5", used) },
        window_minutes: Some(minutes),
        resets_at,
    }
}

fn record(email: &str) -> AccountRecord {
    AccountRecord {
        email: email.to_string(),
        alias: String::new(),
        plan: None,
        auth_mode: None,
        created_at: 1,
        last_used_at: None,
        last_usage: None,
        last_usage_at: None,
    }
}

#[test]
fn text_helpers() {
    assert_eq!(join_path("", "a"), "a");
    assert_eq!(join_path("/", "a"), "/a");
    assert_eq!(join_path("x", "a"), "x/a");
    assert_eq!(decimal_string(0), "0");
    assert_eq!(decimal_string(-42), "-42");
    assert_eq!(decimal_string(i64::MIN), "-9223372036854775808");
    assert_eq!(decimal_string(i64::MAX), "9223372036854775807");
    assert!(ends_with("a.json", ".json"));
    assert!(!ends_with("json", ".json"));
    assert!(starts_with("auth.json.bak.1", "auth.json"));
    assert!(contains_text("auth.json.bak.1", ".bak."));
    assert!(!contains_text("auth.json", ".bak."));
    assert!(contains_text("x", ""));
    assert!(equals_ignore_ascii_case("PLUS", "plus"));
    assert!(!equals_ignore_ascii_case("plu", "plus"));
}

#[test]
fn plans_read_loosely() {
    assert_eq!(PlanType::from_str_loose("Plus"), PlanType::Plus);
    assert_eq!(PlanType::from_str_loose("ENTERPRISE"), PlanType::Enterprise);
    assert_eq!(PlanType::from_str_loose("gold"), PlanType::Unknown);
    assert_eq!(PlanType::Team.name(), "team");
    assert_eq!(AuthMode::Apikey.name(), "apikey");
}

#[test]
fn remaining_percent_is_clamped() {
    let n = |r: i64| JsonNumber { int_value: None, rounded: r, text: String::new() };
    assert_eq!(remaining_percent(&n(0)), 100);
    assert_eq!(remaining_percent(&n(-5)), 100);
    assert_eq!(remaining_percent(&n(35)), 65);
    assert_eq!(remaining_percent(&n(100)), 0);
    assert_eq!(remaining_percent(&n(140)), 0);
}

#[test]
fn windows_are_found_by_length_with_fallback() {
    let snap = Some(RateLimitSnapshot {
        primary: Some(window(10, 10080, None)),
        secondary: Some(window(20, 300, None)),
        credits: None,
        plan_type: Some(PlanType::Pro),
    });
    assert_eq!(resolve_rate_window(&snap, 300, true).unwrap().used_percent.rounded, 20);
    assert_eq!(resolve_rate_window(&snap, 10080, false).unwrap().used_percent.rounded, 10);
    assert_eq!(resolve_rate_window(&snap, 60, true).unwrap().used_percent.rounded, 10);
    assert_eq!(resolve_rate_window(&snap, 60, false).unwrap().used_percent.rounded, 20);
    assert!(resolve_rate_window(&None, 300, true).is_none());
    let mut r = record("a@x.com");
    r.last_usage = snap;
    assert_eq!(resolve_plan(&r), Some(PlanType::Pro));
    r.plan = Some(PlanType::Free);
    assert_eq!(resolve_plan(&r), Some(PlanType::Free));
}

#[test]
fn registry_document_is_read_field_by_field() {
    let doc = obj(vec![
        ("version", num(2)),
        ("active_email", s("A@X.com")),
        (
            "accounts",
            JsonValue::Array(vec![
                obj(vec![
                    ("email", s("A@X.com")),
                    ("alias", s("main")),
                    ("plan", s("Plus")),
                    ("auth_mode", s("chatgpt")),
                    ("created_at", num(100)),
                    ("last_used_at", num(150)),
                    (
                        "last_usage",
                        obj(vec![
                            ("primary", obj(vec![("used_percent", float("12.5", 13)), ("window_minutes", num(300)), ("resets_at", num(999))])),
                            ("secondary", obj(vec![("window_minutes", num(10080))])),
                            ("credits", obj(vec![("has_credits", JsonValue::Bool(true)), ("balance", s("3.50"))])),
                            ("plan_type", s("plus")),
                        ]),
                    ),
                    ("last_usage_at", num(160)),
                ]),
                obj(vec![("alias", s("no email"))]),
                s("not an object"),
                obj(vec![("email", s("b@x.com")), ("auth_mode", s("weird"))]),
                obj(vec![("email", s("a@x.com")), ("created_at", num(120))]),
            ]),
        ),
    ]);
    let reg = registry_from_json_at(&doc, 7);
    assert_eq!(reg.version, REGISTRY_VERSION);
    assert_eq!(reg.active_email.as_deref(), Some("a@x.com"));
    assert_eq!(reg.accounts.len(), 2);
    let a = &reg.accounts[0];
    assert_eq!(a.email, "a@x.com");
    assert_eq!(a.alias, "main");
    assert_eq!(a.plan, Some(PlanType::Plus));
    assert_eq!(a.auth_mode, Some(AuthMode::Chatgpt));
    // The duplicate of a@x.com (created 120) is older than 160 and is dropped.
    assert_eq!(a.created_at, 100);
    let u = a.last_usage.as_ref().unwrap();
    let p = u.primary.as_ref().unwrap();
    assert_eq!(p.used_percent.text, "12.5");
    assert_eq!(p.resets_at, Some(999));
    assert!(u.secondary.is_none());
    let c = u.credits.as_ref().unwrap();
    assert!(c.has_credits && !c.unlimited);
    assert_eq!(c.balance.as_deref(), Some("3.50"));
    let b = &reg.accounts[1];
    assert_eq!(b.email, "b@x.com");
    assert_eq!(b.auth_mode, None);
    assert_eq!(b.created_at, 7);
    assert_eq!(b.alias, "");

    assert_eq!(registry_from_json_at(&s("nope"), 7).accounts.len(), 0);
    assert!(load_registry(&obj(vec![])).accounts.is_empty());
}

#[test]
fn loaded_registry_keeps_the_freshest_record_per_address() {
    let doc = obj(vec![(
        "accounts",
        JsonValue::Array(vec![
            obj(vec![("email", s("c@x.com")), ("alias", s("old")), ("created_at", num(10))]),
            obj(vec![("email", s("d@x.com")), ("created_at", num(5))]),
            obj(vec![("email", s("C@X.COM")), ("alias", s("new")), ("created_at", num(30))]),
            obj(vec![("email", s("c@x.com")), ("alias", s("older")), ("created_at", num(20))]),
        ]),
    )]);
    let reg = registry_from_json_at(&doc, 0);
    assert_eq!(reg.accounts.len(), 2);
    assert_eq!(reg.accounts[0].email, "c@x.com");
    assert_eq!(reg.accounts[0].alias, "new");
    assert_eq!(reg.accounts[0].created_at, 30);
    assert_eq!(reg.accounts[1].email, "d@x.com");

    // Among equally fresh records the first is kept.
    let tied = obj(vec![(
        "accounts",
        JsonValue::Array(vec![
            obj(vec![("email", s("e@x.com")), ("alias", s("first")), ("created_at", num(10))]),
            obj(vec![("email", s("e@x.com")), ("alias", s("second")), ("created_at", num(10))]),
        ]),
    )]);
    let reg = registry_from_json_at(&tied, 0);
    assert_eq!(reg.accounts.len(), 1);
    assert_eq!(reg.accounts[0].alias, "first");
}

#[test]
fn used_share_that_is_not_a_number_reads_as_zero() {
    let w = parse_window(&obj(vec![("used_percent", s("x"))])).unwrap();
    assert_eq!(w.used_percent.text, "0.0");
    assert_eq!(w.used_percent.rounded, 0);
    assert!(parse_window(&obj(vec![("window_minutes", num(1))])).is_none());
    let members = vec![JsonMember { key: "email".to_string(), value: s("ÀB@X.COM") }];
    assert_eq!(parse_account_record(&members, 3).unwrap().email, "àb@x.com");
}

#[test]
fn whole_used_shares_are_written_as_floats() {
    let w = parse_window(&obj(vec![("used_percent", num(42))])).unwrap();
    assert_eq!(w.used_percent.text, "42.0");
    assert_eq!(w.used_percent.int_value, None);
    assert_eq!(w.used_percent.rounded, 42);
    let w = parse_window(&obj(vec![("used_percent", num(-3))])).unwrap();
    assert_eq!(w.used_percent.text, "-3.0");
    let w = parse_window(&obj(vec![("used_percent", float("12.5", 13))])).unwrap();
    assert_eq!(w.used_percent.text, "12.5");
    let w = parse_window(&obj(vec![("used_percent", float("42.0", 42))])).unwrap();
    assert_eq!(w.used_percent.text, "42.0");
}

#[test]
fn written_registry_reads_back_the_same() {
    let mut reg = Registry::new();
    let mut a = record("a@x.com");
    a.plan = Some(PlanType::Business);
    a.auth_mode = Some(AuthMode::Apikey);
    upsert_account(&mut reg, a);
    upsert_account(&mut reg, record("b@x.com"));
    set_active_account_at(&mut reg, "b@x.com", 44);
    update_usage_at(
        &mut reg,
        "a@x.com",
        RateLimitSnapshot { primary: Some(window(33, 300, Some(5))), secondary: None, credits: None, plan_type: Some(PlanType::Edu) },
        55,
    );
    let doc = registry_to_json(&reg);
    assert_eq!(int_of(member(&doc, "version")), 2);
    assert_eq!(text(member(&doc, "active_email")), "b@x.com");
    let back = registry_from_json_at(&doc, 0);
    assert_eq!(back.active_email, reg.active_email);
    assert_eq!(back.accounts.len(), 2);
    for (x, y) in back.accounts.iter().zip(reg.accounts.iter()) {
        assert_eq!(x.email, y.email);
        assert_eq!(x.plan, y.plan);
        assert_eq!(x.auth_mode, y.auth_mode);
        assert_eq!(x.created_at, y.created_at);
        assert_eq!(x.last_used_at, y.last_used_at);
        assert_eq!(x.last_usage_at, y.last_usage_at);
        assert_eq!(x.last_usage.is_some(), y.last_usage.is_some());
    }
    let u = back.accounts[0].last_usage.as_ref().unwrap();
    assert_eq!(u.plan_type, Some(PlanType::Edu));
    assert_eq!(u.primary.as_ref().unwrap().used_percent.text, "33.5");
}

#[test]
fn jwt_payload_and_auth_info() {
    assert_eq!(jwt_payload("aaa.bbb.ccc").as_deref(), Some("bbb"));
    assert_eq!(jwt_payload("aaa.bbb"), None);
    assert_eq!(jwt_payload("nodots"), None);
    // {"email":"a@x.com"} in unpadded URL-safe base64.
    let token = "h.eyJlbWFpbCI6ImFAeC5jb20ifQ.sig";
    let auth = obj(vec![("tokens", obj(vec![("id_token", s(token))]))]);
    assert_eq!(id_token_claims(&auth).unwrap(), br#"{"email":"a@x.com"}"#.to_vec());
    assert!(id_token_claims(&obj(vec![("tokens", obj(vec![("id_token", s("h.!!!.s"))]))])).is_none());
    let claims = obj(vec![
        ("email", s("a@x.com")),
        ("https://api.openai.com/auth", obj(vec![("chatgpt_plan_type", s("pro"))])),
    ]);
    let i = auth_info_from_json(&auth, Some(&claims));
    assert_eq!(i.email.as_deref(), Some("a@x.com"));
    assert_eq!(i.plan, Some(PlanType::Pro));
    assert_eq!(i.auth_mode, AuthMode::Chatgpt);
    let key_only = obj(vec![("OPENAI_API_KEY", s("sk"))]);
    let k = auth_info_from_json(&key_only, None);
    assert_eq!(k.email, None);
    assert_eq!(k.auth_mode, AuthMode::Apikey);
}

#[test]
fn latest_session_snapshot_wins() {
    let ev = |used: &str, r: i64| {
        obj(vec![(
            "payload",
            obj(vec![("rate_limits", obj(vec![("primary", obj(vec![("used_percent", float(used, r))]))]))]),
        )])
    };
    let events = vec![ev("10.0", 10), obj(vec![("payload", obj(vec![]))]), ev("20.0", 20), s("noise")];
    let snap = latest_usage_in_events(&events).unwrap();
    assert_eq!(snap.primary.unwrap().used_percent.rounded, 20);
    assert!(latest_usage_in_events(&vec![s("noise")]).is_none());
}

#[test]
fn add_command_maps_to_login() {
    assert!(add_skips_login(false, true));
    assert!(!add_skips_login(false, false));
    assert!(add_deprecation_warning(true).contains("cx-switch login --skip`"));
    assert!(!add_deprecation_warning(false).contains("--skip"));
}
