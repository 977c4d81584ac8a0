use cx_switch::dashboard::{
    auto_switch_message, check_thresholds, quota_alert, reset_note, short_email, truncate_str,
    DashboardState, QuotaAlert, ResetNote, MAX_EVENTS,
};
use cx_switch::json::{JsonNumber, JsonValue};
use cx_switch::models::{AccountRecord, PlanType, RateLimitSnapshot, RateLimitWindow, Registry};
use cx_switch::registry::{set_active_account_at, update_usage_at, upsert_account};
use cx_switch::web::{build_dashboard_html, resets_in, route, status_document_at, Route, STATUS_LOAD_ERROR};

fn window(used: i64, minutes: i64, resets_at: Option<i64>) -> RateLimitWindow {
    RateLimitWindow {
        used_percent: JsonNumber { int_value: Some(used), rounded: used, text: used.to_string() },
        window_minutes: Some(minutes),
        resets_at,
    }
}

fn snapshot(used_5h: i64, used_week: i64) -> RateLimitSnapshot {
    RateLimitSnapshot {
        primary: Some(window(used_5h, 300, None)),
        secondary: Some(window(used_week, 10080, None)),
        credits: None,
        plan_type: None,
    }
}

fn record(email: &str) -> AccountRecord {
    AccountRecord {
        email: email.to_string(),
        alias: String::new(),
        plan: None,
        auth_mode: None,
        created_at: 1,
        last_used_at: None,
        last_usage: None,
        last_usage_at: None,
    }
}

fn member<'a>(v: &'a JsonValue, key: &str) -> &'a JsonValue {
    match v {
        JsonValue::Object(m) => &m.iter().find(|x| x.key == key).expect("member").value,
        _ => panic!("not an object"),
    }
}

#[test]
fn short_and_truncated_text() {
    assert_eq!(short_email("a@x.com"), "a@x.com");
    assert_eq!(short_email("abcdefghijklmnopqrstuvwxyz@x.com"), "abcdefghijklmnopqrst");
    assert_eq!(short_email("一二三四五六七八九十一二三四五六七八九十多"), "一二三四五六七八九十一二三四五六七八九十");
    assert_eq!(truncate_str("hello", 5), "hello");
    assert_eq!(truncate_str("hello", 4), "hel.");
    assert_eq!(truncate_str("hello", 1), ".");
    assert_eq!(truncate_str("hello", 0), ".");
    assert_eq!(truncate_str("额度监控", 3), "额度.");
}

#[test]
fn event_log_keeps_the_last_ten() {
    let mut st = DashboardState::new();
    assert_eq!(st.max_events, MAX_EVENTS);
    for i in 0..15 {
        st.add_event_at(format!("t{}", i), format!("m{}", i));
    }
    assert_eq!(st.events.len(), 10);
    assert_eq!(st.events[0].message, "m5");
    assert_eq!(st.events[9].time, "t14");
    st.add_event("now".to_string());
    assert_eq!(st.events.len(), 10);
    assert_eq!(st.events[9].message, "now");
    assert_eq!(st.events[9].time.len(), 8);
}

#[test]
fn thresholds_raise_alerts_in_order() {
    let mut reg = Registry::new();
    upsert_account(&mut reg, record("a@x.com"));
    upsert_account(&mut reg, record("b@x.com"));
    upsert_account(&mut reg, record("c@x.com"));
    update_usage_at(&mut reg, "a@x.com", snapshot(100, 95), 1);
    update_usage_at(&mut reg, "b@x.com", snapshot(50, 50), 1);
    let report = check_thresholds(&reg, 20, false);
    assert_eq!(
        report.alerts,
        vec!["✗ a@x.com 5H 额度已耗尽".to_string(), "⚠ a@x.com WEEKLY 额度低于 20%（剩余 5%）".to_string()]
    );
    assert!(report.switch_to.is_none());
    let none = check_thresholds(&reg, 0, false);
    assert_eq!(none.alerts.len(), 1);
}

#[test]
fn exhausted_active_account_switches_to_the_best() {
    let mut reg = Registry::new();
    upsert_account(&mut reg, record("a@x.com"));
    upsert_account(&mut reg, record("b@x.com"));
    upsert_account(&mut reg, record("c@x.com"));
    update_usage_at(&mut reg, "a@x.com", snapshot(100, 10), 1);
    update_usage_at(&mut reg, "b@x.com", snapshot(70, 10), 1);
    update_usage_at(&mut reg, "c@x.com", snapshot(40, 10), 1);
    set_active_account_at(&mut reg, "a@x.com", 2);
    let report = check_thresholds(&reg, 20, true);
    let plan = report.switch_to.expect("switch");
    assert_eq!(plan.index, 2);
    assert_eq!(plan.best_remaining, 60);
    assert_eq!(auto_switch_message("c@x.com", 60), "↻ 自动切换到 c@x.com（额度最高 60%）");
    assert!(check_thresholds(&reg, 20, false).switch_to.is_none());

    // Not exhausted: no switch.
    set_active_account_at(&mut reg, "b@x.com", 3);
    assert!(check_thresholds(&reg, 20, true).switch_to.is_none());

    // Exhausted, but the best account is the active one: no switch.
    let mut solo = Registry::new();
    upsert_account(&mut solo, record("a@x.com"));
    update_usage_at(&mut solo, "a@x.com", snapshot(100, 0), 1);
    set_active_account_at(&mut solo, "a@x.com", 2);
    assert!(check_thresholds(&solo, 20, true).switch_to.is_none());
}

#[test]
fn active_account_below_threshold_switches() {
    let mut reg = Registry::new();
    upsert_account(&mut reg, record("a@x.com"));
    upsert_account(&mut reg, record("b@x.com"));
    update_usage_at(&mut reg, "a@x.com", snapshot(85, 10), 1);
    update_usage_at(&mut reg, "b@x.com", snapshot(30, 10), 1);
    set_active_account_at(&mut reg, "a@x.com", 2);
    // 15% left is below a threshold of 20%: switch to b.
    let plan = check_thresholds(&reg, 20, true).switch_to.expect("switch");
    assert_eq!(plan.index, 1);
    assert_eq!(plan.best_remaining, 70);
    // 15% left is not below a threshold of 10%: stay.
    assert!(check_thresholds(&reg, 10, true).switch_to.is_none());
}

#[test]
fn quota_line_flags_and_reset_notes() {
    assert_eq!(quota_alert(0, 20), QuotaAlert::Exhausted);
    assert_eq!(quota_alert(19, 20), QuotaAlert::Low);
    assert_eq!(quota_alert(20, 20), QuotaAlert::Fine);
    assert_eq!(reset_note(Some(100), 50), ResetNote::At(100));
    assert_eq!(reset_note(Some(100), 100), ResetNote::AlreadyReset);
    assert_eq!(reset_note(None, 100), ResetNote::Unknown);
}

#[test]
fn reset_countdown_text() {
    assert_eq!(resets_in(Some(1000 + 2 * 3600 + 5 * 60 + 30), 1000), "2h5m");
    assert_eq!(resets_in(Some(1000 + 59 * 60), 1000), "59m");
    assert_eq!(resets_in(Some(1030), 1000), "0m");
    assert_eq!(resets_in(Some(1000), 1000), "已重置");
    assert_eq!(resets_in(None, 1000), "-");
    assert_eq!(resets_in(Some(i64::MAX), i64::MIN), "5124095576030431h0m");
}

#[test]
fn page_shows_the_settings() {
    let html = build_dashboard_html(30, 15, true);
    assert!(html.starts_with("<!DOCTYPE html>"));
    assert!(html.contains("⏱ 每 30s 刷新"));
    assert!(html.contains("🎯 阈值 15%"));
    assert!(html.contains("🔄 自动切换: 开启"));
    assert!(html.contains("const INTERVAL = 30 * 1000;"));
    assert!(html.contains("const THRESHOLD = 15;"));
    assert!(html.contains(":root {"));
    assert!(html.ends_with("</html>"));
    assert!(build_dashboard_html(60, 20, false).contains("自动切换: 关闭"));
}

#[test]
fn requests_are_routed() {
    assert_eq!(route(&"/".to_string()), Route::Page);
    assert_eq!(route(&"/api/status".to_string()), Route::Status);
    assert_eq!(route(&"/favicon.ico".to_string()), Route::NotFound);
    assert_eq!(STATUS_LOAD_ERROR, r#"{"error":"无法加载注册表"}"#);
}

#[test]
fn status_document_lists_every_account() {
    let mut reg = Registry::new();
    let mut a = record("a@x.com");
    a.alias = "main".to_string();
    a.plan = Some(PlanType::Plus);
    upsert_account(&mut reg, a);
    upsert_account(&mut reg, record("b@x.com"));
    update_usage_at(
        &mut reg,
        "a@x.com",
        RateLimitSnapshot { primary: Some(window(25, 300, Some(4000))), secondary: None, credits: None, plan_type: None },
        900,
    );
    set_active_account_at(&mut reg, "a@x.com", 950);
    let doc = status_document_at(&reg, 1000);
    match member(&doc, "timestamp") {
        JsonValue::Number(n) => assert_eq!(n.int_value, Some(1000)),
        _ => panic!("timestamp"),
    }
    let accounts = match member(&doc, "accounts") {
        JsonValue::Array(a) => a,
        _ => panic!("accounts"),
    };
    assert_eq!(accounts.len(), 2);
    let a = &accounts[0];
    assert!(matches!(member(a, "is_active"), JsonValue::Bool(true)));
    assert!(matches!(member(a, "plan"), JsonValue::Str(p) if p == "plus"));
    assert!(matches!(member(a, "alias"), JsonValue::Str(p) if p == "main"));
    let r5 = member(a, "rate_5h");
    assert!(matches!(member(r5, "remaining_percent"), JsonValue::Number(n) if n.int_value == Some(75)));
    assert!(matches!(member(r5, "resets_in"), JsonValue::Str(t) if t == "50m"));
    assert!(matches!(member(a, "rate_week"), JsonValue::Null));
    let b = &accounts[1];
    assert!(matches!(member(b, "is_active"), JsonValue::Bool(false)));
    assert!(matches!(member(b, "plan"), JsonValue::Str(p) if p == "-"));
    assert!(matches!(member(b, "rate_5h"), JsonValue::Null));
}
