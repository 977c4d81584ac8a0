use cx_switch::json::{JsonMember, JsonNumber, JsonValue};
use cx_switch::models::{
    AccountRecord, AuthInfo, AuthMode, PlanType, RateLimitSnapshot, RateLimitWindow, Registry,
};
use cx_switch::registry::{
    account_auth_path, account_from_auth_at, accounts_dir, active_auth_path, apply_sync_at,
    make_backup_path_at, import_auth_file_at, plan_sync, prune_backups, record_freshness,
    refresh_accounts_from_auth, registry_path, remove_accounts, resolve_codex_home,
    select_best_account_index_by_usage, select_import_names, set_active_account,
    set_active_account_at, summarize_imports, update_usage_at, upsert_account, usage_score,
    BackupEntry, RegistryError, SyncPlan, MAX_BACKUPS,
};
use cx_switch::registry::{millis_from_reading, now_timestamp, timestamp_from_reading};

fn pct(text: &str, rounded: i64) -> JsonNumber {
    JsonNumber { int_value: None, rounded, text: text.to_string() }
}

fn window(used: i64, minutes: i64, resets_at: Option<i64>) -> RateLimitWindow {
    RateLimitWindow {
        used_percent: pct(&format!("{}.0", used), used),
        window_minutes: Some(minutes),
        resets_at,
    }
}

fn snapshot(used_5h: i64, used_week: i64) -> RateLimitSnapshot {
    RateLimitSnapshot {
        primary: Some(window(used_5h, 300, None)),
        secondary: Some(window(used_week, 10080, None)),
        credits: None,
        plan_type: None,
    }
}

fn record(email: &str, created_at: i64) -> AccountRecord {
    AccountRecord {
        email: email.to_string(),
        alias: String::new(),
        plan: None,
        auth_mode: None,
        created_at,
        last_used_at: None,
        last_usage: None,
        last_usage_at: None,
    }
}

fn info(email: Option<&str>, plan: Option<PlanType>, mode: AuthMode) -> AuthInfo {
    AuthInfo { email: email.map(|e| e.to_string()), plan, auth_mode: mode }
}

fn emails(reg: &Registry) -> Vec<String> {
    reg.accounts.iter().map(|r| r.email.clone()).collect()
}

#[test]
fn paths_are_under_the_codex_home() {
    assert_eq!(accounts_dir("/home/u/.codex"), "/home/u/.codex/accounts");
    assert_eq!(registry_path("/home/u/.codex"), "/home/u/.codex/accounts/registry.json");
    assert_eq!(registry_path("/home/u/.codex/"), "/home/u/.codex/accounts/registry.json");
    assert_eq!(active_auth_path("/home/u/.codex"), "/home/u/.codex/auth.json");
    assert_eq!(
        account_auth_path("/h", "user@example.com"),
        "/h/accounts/dXNlckBleGFtcGxlLmNvbQ.auth.json"
    );
    // URL-safe alphabet: `>` and `?` bytes encode with `-` and `_`, never `/` or `+`.
    assert_eq!(account_auth_path("/h", ">>>???"), "/h/accounts/Pj4-Pz8_.auth.json");
}

#[test]
fn codex_home_prefers_the_environment() {
    assert_eq!(
        resolve_codex_home(Some("/custom".to_string()), Some("/home/u".to_string())),
        Ok("/custom".to_string())
    );
    assert_eq!(
        resolve_codex_home(Some(String::new()), Some("/home/u".to_string())),
        Ok("/home/u/.codex".to_string())
    );
    assert_eq!(resolve_codex_home(None, Some("/home/u".to_string())), Ok("/home/u/.codex".to_string()));
    assert_eq!(resolve_codex_home(None, None), Err(RegistryError::NoCodexHome));
}

#[test]
fn freshness_is_the_latest_time() {
    let mut r = record("a@x.com", 10);
    assert_eq!(record_freshness(&r), 10);
    r.last_used_at = Some(30);
    r.last_usage_at = Some(20);
    assert_eq!(record_freshness(&r), 30);
    r.last_usage_at = Some(40);
    assert_eq!(record_freshness(&r), 40);
    r.last_used_at = Some(5);
    r.last_usage_at = Some(1);
    assert_eq!(record_freshness(&r), 10);
}

#[test]
fn upsert_appends_new_and_keeps_fresher() {
    let mut reg = Registry::new();
    upsert_account(&mut reg, record("a@x.com", 10));
    upsert_account(&mut reg, record("b@x.com", 10));
    assert_eq!(emails(&reg), vec!["a@x.com", "b@x.com"]);

    let mut newer = record("a@x.com", 50);
    newer.alias = "work".to_string();
    upsert_account(&mut reg, newer);
    assert_eq!(emails(&reg), vec!["a@x.com", "b@x.com"]);
    assert_eq!(reg.accounts[0].alias, "work");
    assert_eq!(reg.accounts[0].created_at, 50);

    let mut older = record("a@x.com", 20);
    older.alias = "old".to_string();
    upsert_account(&mut reg, older);
    assert_eq!(reg.accounts[0].alias, "work");

    // Equal freshness does not replace either.
    let mut same = record("a@x.com", 50);
    same.alias = "same".to_string();
    upsert_account(&mut reg, same);
    assert_eq!(reg.accounts[0].alias, "work");
    assert_eq!(reg.accounts.len(), 2);
}

#[test]
fn upsert_twice_changes_nothing_more() {
    let mut reg = Registry::new();
    upsert_account(&mut reg, record("a@x.com", 10));
    upsert_account(&mut reg, record("b@x.com", 10));
    upsert_account(&mut reg, record("b@x.com", 99));
    let first: Vec<(String, i64)> = reg.accounts.iter().map(|r| (r.email.clone(), r.created_at)).collect();
    upsert_account(&mut reg, record("b@x.com", 99));
    let second: Vec<(String, i64)> = reg.accounts.iter().map(|r| (r.email.clone(), r.created_at)).collect();
    assert_eq!(first, second);
}

#[test]
fn set_active_marks_first_match_used() {
    let mut reg = Registry::new();
    upsert_account(&mut reg, record("a@x.com", 1));
    upsert_account(&mut reg, record("b@x.com", 1));
    set_active_account_at(&mut reg, "b@x.com", 77);
    assert_eq!(reg.active_email.as_deref(), Some("b@x.com"));
    assert_eq!(reg.accounts[1].last_used_at, Some(77));
    assert_eq!(reg.accounts[0].last_used_at, None);

    // Already active: nothing changes, not even the use time.
    set_active_account_at(&mut reg, "b@x.com", 88);
    assert_eq!(reg.accounts[1].last_used_at, Some(77));

    // Unknown address: becomes active, no record touched.
    set_active_account_at(&mut reg, "c@x.com", 99);
    assert_eq!(reg.active_email.as_deref(), Some("c@x.com"));
    assert_eq!(reg.accounts[0].last_used_at, None);
    assert_eq!(reg.accounts[1].last_used_at, Some(77));

    set_active_account(&mut reg, "a@x.com");
    assert_eq!(reg.active_email.as_deref(), Some("a@x.com"));
    assert!(reg.accounts[0].last_used_at.is_some());
}

#[test]
fn update_usage_stores_the_snapshot() {
    let mut reg = Registry::new();
    upsert_account(&mut reg, record("a@x.com", 1));
    update_usage_at(&mut reg, "a@x.com", snapshot(40, 10), 123);
    assert_eq!(reg.accounts[0].last_usage_at, Some(123));
    let u = reg.accounts[0].last_usage.as_ref().unwrap();
    assert_eq!(u.primary.as_ref().unwrap().used_percent.rounded, 40);
    update_usage_at(&mut reg, "nobody@x.com", snapshot(1, 1), 456);
    assert_eq!(reg.accounts[0].last_usage_at, Some(123));
}

#[test]
fn account_from_auth_needs_an_email() {
    let ok = account_from_auth_at("alias", &info(Some("a@x.com"), Some(PlanType::Plus), AuthMode::Chatgpt), 42).unwrap();
    assert_eq!(ok.email, "a@x.com");
    assert_eq!(ok.alias, "alias");
    assert_eq!(ok.plan, Some(PlanType::Plus));
    assert_eq!(ok.auth_mode, Some(AuthMode::Chatgpt));
    assert_eq!(ok.created_at, 42);
    assert_eq!(ok.last_used_at, None);
    let err = account_from_auth_at("", &info(None, None, AuthMode::Apikey), 42);
    assert!(matches!(err, Err(RegistryError::MissingEmail)));
    assert_eq!(RegistryError::MissingEmail.message(), "认证文件中缺少邮箱信息");
}

#[test]
fn usage_score_takes_the_smaller_window() {
    assert_eq!(usage_score(&None), -1);
    assert_eq!(usage_score(&Some(snapshot(30, 60))), 40);
    assert_eq!(usage_score(&Some(snapshot(90, 10))), 10);
    let only_week = RateLimitSnapshot {
        primary: None,
        secondary: Some(window(25, 10080, None)),
        credits: None,
        plan_type: None,
    };
    // The 5-hour lookup falls back to the primary window, which is absent.
    assert_eq!(usage_score(&Some(only_week)), 75);
    let over = RateLimitSnapshot {
        primary: Some(window(150, 300, None)),
        secondary: None,
        credits: None,
        plan_type: None,
    };
    assert_eq!(usage_score(&Some(over)), 0);
}

#[test]
fn best_account_has_most_quota_then_latest_snapshot() {
    let mut reg = Registry::new();
    assert_eq!(select_best_account_index_by_usage(&reg), None);
    upsert_account(&mut reg, record("a@x.com", 1));
    assert_eq!(select_best_account_index_by_usage(&reg), Some(0));
    upsert_account(&mut reg, record("b@x.com", 1));
    upsert_account(&mut reg, record("c@x.com", 1));
    update_usage_at(&mut reg, "a@x.com", snapshot(80, 10), 100);
    update_usage_at(&mut reg, "b@x.com", snapshot(20, 10), 100);
    update_usage_at(&mut reg, "c@x.com", snapshot(20, 10), 200);
    // b and c both have 80% left; c's snapshot is more recent.
    assert_eq!(select_best_account_index_by_usage(&reg), Some(2));
    update_usage_at(&mut reg, "b@x.com", snapshot(20, 10), 200);
    // Now tied on both: the first one stays.
    assert_eq!(select_best_account_index_by_usage(&reg), Some(1));
}

#[test]
fn remove_drops_marked_accounts_and_clears_active() {
    let mut reg = Registry::new();
    for e in ["a@x.com", "b@x.com", "c@x.com"] {
        upsert_account(&mut reg, record(e, 1));
    }
    set_active_account_at(&mut reg, "b@x.com", 5);
    let paths = remove_accounts("/h", &mut reg, &[1, 7, 1]);
    assert_eq!(emails(&reg), vec!["a@x.com", "c@x.com"]);
    assert_eq!(reg.active_email, None);
    assert_eq!(paths, vec![account_auth_path("/h", "b@x.com")]);

    set_active_account_at(&mut reg, "a@x.com", 6);
    let paths = remove_accounts("/h", &mut reg, &[1]);
    assert_eq!(emails(&reg), vec!["a@x.com"]);
    assert_eq!(reg.active_email.as_deref(), Some("a@x.com"));
    assert_eq!(paths.len(), 1);

    let paths = remove_accounts("/h", &mut reg, &[]);
    assert!(paths.is_empty());
    assert_eq!(emails(&reg), vec!["a@x.com"]);
}

#[test]
fn refresh_takes_plan_and_mode_from_matching_files() {
    let mut reg = Registry::new();
    let mut a = record("a@x.com", 1);
    a.plan = Some(PlanType::Free);
    upsert_account(&mut reg, a);
    let mut b = record("b@x.com", 1);
    b.plan = Some(PlanType::Pro);
    upsert_account(&mut reg, b);
    upsert_account(&mut reg, record("c@x.com", 1));
    let infos = vec![
        Some(info(Some("a@x.com"), None, AuthMode::Chatgpt)),
        Some(info(Some("other@x.com"), Some(PlanType::Team), AuthMode::Apikey)),
    ];
    refresh_accounts_from_auth(&mut reg, &infos);
    // The plan is taken as the file says, even when it says none.
    assert_eq!(reg.accounts[0].plan, None);
    assert_eq!(reg.accounts[0].auth_mode, Some(AuthMode::Chatgpt));
    assert_eq!(reg.accounts[1].plan, Some(PlanType::Pro));
    assert_eq!(reg.accounts[1].auth_mode, None);
    assert_eq!(reg.accounts[2].auth_mode, None);
}

#[test]
fn sync_imports_a_new_account_and_activates_it() {
    let mut reg = Registry::new();
    let i = info(Some("a@x.com"), Some(PlanType::Plus), AuthMode::Chatgpt);
    assert_eq!(plan_sync(&reg, &i), SyncPlan::ImportNew);
    assert_eq!(plan_sync(&reg, &info(None, None, AuthMode::Chatgpt)), SyncPlan::NoEmailToImport);
    let changed = apply_sync_at(&mut reg, &i, 10);
    assert!(changed);
    assert_eq!(emails(&reg), vec!["a@x.com"]);
    assert_eq!(reg.active_email.as_deref(), Some("a@x.com"));
    assert_eq!(reg.accounts[0].alias, "");
    assert_eq!(reg.accounts[0].created_at, 10);
    assert_eq!(reg.accounts[0].last_used_at, Some(10));
    assert_eq!(plan_sync(&reg, &info(None, None, AuthMode::Chatgpt)), SyncPlan::NoEmailToSync);
}

#[test]
fn sync_updates_an_existing_account() {
    let mut reg = Registry::new();
    let mut a = record("a@x.com", 1);
    a.plan = Some(PlanType::Pro);
    upsert_account(&mut reg, a);
    upsert_account(&mut reg, record("b@x.com", 1));
    set_active_account_at(&mut reg, "a@x.com", 2);
    let i = info(Some("b@x.com"), None, AuthMode::Apikey);
    assert_eq!(plan_sync(&reg, &i), SyncPlan::UpdateExisting);
    assert!(apply_sync_at(&mut reg, &i, 3));
    assert_eq!(reg.active_email.as_deref(), Some("b@x.com"));
    assert_eq!(reg.accounts[1].auth_mode, Some(AuthMode::Apikey));
    assert_eq!(reg.accounts[1].plan, None);
    assert_eq!(reg.accounts[1].last_used_at, Some(3));
    // Following the same file again: nothing changes.
    let again = info(Some("b@x.com"), Some(PlanType::Team), AuthMode::Apikey);
    assert!(!apply_sync_at(&mut reg, &again, 4));
    assert_eq!(reg.accounts[1].plan, Some(PlanType::Team));
    assert_eq!(reg.accounts[1].last_used_at, Some(3));
    // A file without an address changes nothing.
    assert!(!apply_sync_at(&mut reg, &info(None, None, AuthMode::Chatgpt), 5));
    assert_eq!(reg.accounts.len(), 2);
}

#[test]
fn import_uses_the_alias_and_merges() {
    let mut reg = Registry::new();
    let i = info(Some("a@x.com"), Some(PlanType::Plus), AuthMode::Chatgpt);
    assert!(import_auth_file_at(&mut reg, &i, Some("main"), 5).is_ok());
    assert_eq!(reg.accounts[0].alias, "main");
    assert!(import_auth_file_at(&mut reg, &i, None, 9).is_ok());
    assert_eq!(reg.accounts.len(), 1);
    assert_eq!(reg.accounts[0].alias, "");
    assert_eq!(reg.accounts[0].created_at, 9);
    assert_eq!(reg.active_email, None);
    let err = import_auth_file_at(&mut reg, &info(None, None, AuthMode::Chatgpt), None, 1);
    assert_eq!(err, Err(RegistryError::MissingEmail));
}

#[test]
fn reimport_with_alias_sets_the_alias_of_the_kept_record() {
    let mut reg = Registry::new();
    let i = info(Some("a@x.com"), Some(PlanType::Plus), AuthMode::Chatgpt);
    assert!(import_auth_file_at(&mut reg, &i, Some("old"), 50).is_ok());
    // The stored record is fresher than the import: it stays, with the new alias.
    assert!(import_auth_file_at(&mut reg, &i, Some("test"), 10).is_ok());
    assert_eq!(reg.accounts.len(), 1);
    assert_eq!(reg.accounts[0].created_at, 50);
    assert_eq!(reg.accounts[0].alias, "test");
}

#[test]
fn import_names_are_json_files_in_order() {
    let names: Vec<String> = ["b.json", "notes.txt", "a.json", "C.json", "x.json.bak"]
        .iter()
        .map(|s| s.to_string())
        .collect();
    assert_eq!(select_import_names(&names), vec!["C.json", "a.json", "b.json"]);
    let s = summarize_imports(&vec![true, false, true]);
    assert_eq!((s.imported, s.skipped), (2, 1));
}

#[test]
fn backup_path_is_the_first_free_candidate() {
    let none: Vec<String> = vec![];
    assert_eq!(
        make_backup_path_at("/h/accounts", "auth.json", 1700000000123, &none),
        Ok("/h/accounts/auth.json.bak.1700000000123".to_string())
    );
    let taken = vec!["auth.json.bak.1700000000123".to_string(), "auth.json.bak.1700000000123.1".to_string()];
    assert_eq!(
        make_backup_path_at("/h/accounts", "auth.json", 1700000000123, &taken),
        Ok("/h/accounts/auth.json.bak.1700000000123.2".to_string())
    );
    let mut all = vec!["auth.json.bak.5".to_string()];
    for k in 1..100 {
        all.push(format!("auth.json.bak.5.{}", k));
    }
    assert_eq!(make_backup_path_at("/h", "auth.json", 5, &all), Err(RegistryError::NoBackupName));
    assert_eq!(RegistryError::NoBackupName.message(), "无法生成唯一的备份文件名");
}

fn entry(name: &str, modified: i128, is_file: bool) -> BackupEntry {
    BackupEntry { name: name.to_string(), path: format!("/d/{}", name), is_file, modified }
}

#[test]
fn pruning_keeps_the_newest_backups() {
    let mut es = Vec::new();
    for i in 0..8 {
        es.push(entry(&format!("auth.json.bak.{}", i), i as i128, true));
    }
    es.push(entry("registry.json.bak.1", 100, true));
    es.push(entry("auth.json.bak.dir", 100, false));
    es.push(entry("auth.json", 100, true));
    let gone = prune_backups(&es, "auth.json", MAX_BACKUPS);
    assert_eq!(gone, vec!["/d/auth.json.bak.0", "/d/auth.json.bak.1", "/d/auth.json.bak.2"]);
    // Equal times: the earlier listed entry counts as newer.
    let tied = vec![entry("r.bak.1", 5, true), entry("r.bak.2", 5, true), entry("r.bak.3", 5, true)];
    assert_eq!(prune_backups(&tied, "r", 2), vec!["/d/r.bak.3"]);
    assert!(prune_backups(&tied, "r", 3).is_empty());
    assert_eq!(prune_backups(&tied, "r", 0).len(), 3);
}

#[test]
fn pruning_leaves_at_most_max_backups() {
    let few = vec![entry("auth.json.bak.1", 1, true), entry("auth.json.bak.2", 2, true)];
    assert!(prune_backups(&few, "auth.json", MAX_BACKUPS).is_empty());
    let mut many = Vec::new();
    for i in 0..12 {
        many.push(entry(&format!("auth.json.bak.{}", i), (i % 4) as i128, true));
    }
    assert_eq!(prune_backups(&many, "auth.json", MAX_BACKUPS).len(), 12 - MAX_BACKUPS);
}

#[test]
fn json_value_helpers_find_first_member() {
    let obj = vec![
        JsonMember { key: "k".to_string(), value: JsonValue::Bool(true) },
        JsonMember { key: "k".to_string(), value: JsonValue::Bool(false) },
    ];
    assert!(matches!(cx_switch::json::get_member(&obj, "k"), Some(JsonValue::Bool(true))));
    assert!(cx_switch::json::get_member(&obj, "missing").is_none());
}

#[test]
fn clock_readings_give_seconds_and_milliseconds() {
    assert_eq!(timestamp_from_reading(Some((1700000000, 1700000000123))), 1700000000);
    assert_eq!(millis_from_reading(Some((1700000000, 1700000000123))), 1700000000123);
    assert_eq!(timestamp_from_reading(None), 0);
    assert_eq!(millis_from_reading(None), 0);
    assert!(now_timestamp() > 1600000000);
}

#[test]
fn different_addresses_get_different_account_files() {
    let a = account_auth_path("/h", "a@x.com");
    let b = account_auth_path("/h", "b@x.com");
    assert_ne!(a, b);
    assert_eq!(a, "/h/accounts/YUB4LmNvbQ.auth.json");
}
