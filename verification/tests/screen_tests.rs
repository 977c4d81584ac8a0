use cx_switch::dashboard::EventEntry;
use cx_switch::json::JsonNumber;
use cx_switch::models::{AccountRecord, PlanType, RateLimitSnapshot, RateLimitWindow, Registry};
use cx_switch::registry::{set_active_account_at, update_usage_at, upsert_account};
use cx_switch::screen::{dashboard_lines, quits_monitor, quota_line, styled, MonitorKey};

fn window(used: i64, minutes: i64, resets_at: Option<i64>) -> RateLimitWindow {
    RateLimitWindow {
        used_percent: JsonNumber { int_value: Some(used), rounded: used, text: used.to_string() },
        window_minutes: Some(minutes),
        resets_at,
    }
}

fn record(email: &str, plan: Option<PlanType>) -> AccountRecord {
    AccountRecord {
        email: email.to_string(),
        alias: String::new(),
        plan,
        auth_mode: None,
        created_at: 1,
        last_used_at: None,
        last_usage: None,
        last_usage_at: None,
    }
}

#[test]
fn styled_text_resets_its_style() {
    assert_eq!(styled("2", "x"), "\x1b[2mx\x1b[0m");
}

#[test]
fn quota_line_without_a_window_is_a_dash() {
    let line = quota_line("5H  ", None, 100, 20, 56, None);
    let pad = 56 - (4 + 4 + 2 + 1) - 1;
    assert_eq!(line, format!("  ║     5H    \x1b[2m-\x1b[0m{}║", " ".repeat(pad)));
}

#[test]
fn quota_line_shows_bar_share_reset_and_flag() {
    let w = window(85, 300, Some(200));
    let line = quota_line("5H  ", Some(&w), 100, 20, 56, Some("12:30".to_string()));
    assert_eq!(
        line,
        "  ║     5H    [█░░░░░░░░░] \x1b[33m 15%\x1b[0m\x1b[2m  重置 12:30\x1b[0m\x1b[33m        ⚠ 额度不足\x1b[0m  ║"
    );
    let spent = window(100, 300, Some(50));
    let line = quota_line("WEEK", Some(&spent), 100, 20, 56, None);
    assert_eq!(
        line,
        "  ║     WEEK  [░░░░░░░░░░] \x1b[31m  0%\x1b[0m\x1b[2m  已重置\x1b[0m\x1b[31m        ✗ 已耗尽\x1b[0m  ║"
    );
    let fine = window(0, 300, None);
    let line = quota_line("5H  ", Some(&fine), 100, 20, 56, None);
    assert_eq!(line, "  ║     5H    [██████████] \x1b[32m100%\x1b[0m\x1b[2m\x1b[0m  ║");
}

#[test]
fn dashboard_lines_draw_the_box() {
    let mut reg = Registry::new();
    upsert_account(&mut reg, record("a@x.com", Some(PlanType::Plus)));
    upsert_account(&mut reg, record("b@x.com", None));
    let snap = RateLimitSnapshot {
        primary: Some(window(30, 300, None)),
        secondary: Some(window(10, 10080, None)),
        credits: None,
        plan_type: None,
    };
    update_usage_at(&mut reg, "a@x.com", snap, 5);
    set_active_account_at(&mut reg, "a@x.com", 6);
    let events = vec![EventEntry { time: "10:00:00".to_string(), message: "仪表盘已启动".to_string() }];
    let lines = dashboard_lines(&reg, 60, 20, &events, 100, 40, "10:00", &vec![]);
    // Width 40 is widened to 60: the box is 56 wide inside.
    assert_eq!(lines.len(), 3 + 4 * 2 + 2 + 2);
    assert_eq!(lines[0], format!("  ╔{}╗", "═".repeat(56)));
    assert_eq!(lines[2], format!("  ╠{}╣", "═".repeat(56)));
    let header = "  ● a@x.com [plus]  [ACTIVE]";
    assert_eq!(
        lines[3],
        format!("  ║ \x1b[1;36m{}\x1b[0m{}║", header, " ".repeat(56 - header.len() - 1))
    );
    let other = "    b@x.com [-]";
    assert_eq!(lines[7], format!("  ║ {}{}║", other, " ".repeat(56 - other.len() - 1)));
    assert_eq!(lines[6], format!("  ║ {}║", " ".repeat(55)));
    assert_eq!(lines[11], format!("  ╠{}╣", "═".repeat(56)));
    let ev = "  [事件] 10:00:00 仪表盘已启动";
    assert_eq!(lines[12], format!("  ║ \x1b[2m{}\x1b[0m{}║", ev, " ".repeat(56 - ev.len() - 1)));
    assert_eq!(lines[13], format!("  ╚{}╝", "═".repeat(56)));
    assert_eq!(lines[14], "  \x1b[2mCtrl+C 或 q 退出\x1b[0m");
    assert!(lines[1].starts_with("  ║ \x1b[1;36m  cx-switch 额度监控  ⏱ 每 60s 刷新 · 阈值 20% · 上次 10:00"));
}

#[test]
fn quit_keys() {
    assert!(quits_monitor(MonitorKey::Char('q'), false));
    assert!(quits_monitor(MonitorKey::Escape, false));
    assert!(quits_monitor(MonitorKey::Char('c'), true));
    assert!(!quits_monitor(MonitorKey::Char('c'), false));
    assert!(!quits_monitor(MonitorKey::Other, true));
}
