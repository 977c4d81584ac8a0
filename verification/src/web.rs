//! The web monitor: the page it serves, the status document its script
//! reads, and which of the two a request asks for.
use vstd::prelude::*;

use crate::json::{lookup, object_members, string_text, JsonMember, JsonNumber, JsonValue};
use crate::models::{plan_name, resolve_rate_window, resolve_window, shown_plan, remaining_percent, resolve_plan, AccountRecord, AccountView, RateLimitWindow, Registry, RegistryView, WindowView};
use crate::registry::{now_timestamp, window_remaining};
use crate::store::{has_keys, is_integer_json, is_opt_integer_json, lemma_lookup_keys};
use crate::text::{decimal, nat_digits, push_decimal, push_digits};

verus! {

/// The page up to the refresh interval shown in the status bar.
pub const PAGE_HEAD: &'static str = r##"<!DOCTYPE html>
<html lang="zh-CN">
<head>
<meta charset="UTF-8">
<meta name="viewport" content="width=device-width, initial-scale=1.0">
<title>CX-Switch 额度监控仪表盘</title>
<link rel="preconnect" href="https://fonts.googleapis.com">
<link href="https://fonts.googleapis.com/css2?family=JetBrains+Mono:wght@400;600;700&family=Inter:wght@400;500;600;700&display=swap" rel="stylesheet">
<style>
:root {
  --bg-primary: #0a0e17;
  --bg-secondary: #111827;
  --bg-card: #1a2332;
  --bg-card-hover: #1f2b3d;
  --border-color: #2a3a50;
  --border-active: #3b82f6;
  --text-primary: #e2e8f0;
  --text-secondary: #94a3b8;
  --text-muted: #64748b;
  --accent-blue: #3b82f6;
  --accent-green: #10b981;
  --accent-yellow: #f59e0b;
  --accent-red: #ef4444;
  --accent-purple: #8b5cf6;
  --glow-blue: rgba(59, 130, 246, 0.15);
  --glow-green: rgba(16, 185, 129, 0.15);
}

* { margin: 0; padding: 0; box-sizing: border-box; }

body {
  font-family: 'Inter', -apple-system, sans-serif;
  background: var(--bg-primary);
  color: var(--text-primary);
  min-height: 100vh;
  overflow-x: hidden;
}

/* 背景动画 */
body::before {
  content: '';
  position: fixed;
  top: 0; left: 0;
  width: 100%; height: 100%;
  background:
    radial-gradient(ellipse at 20% 50%, rgba(59, 130, 246, 0.06) 0%, transparent 50%),
    radial-gradient(ellipse at 80% 20%, rgba(139, 92, 246, 0.04) 0%, transparent 50%),
    radial-gradient(ellipse at 50% 80%, rgba(16, 185, 129, 0.04) 0%, transparent 50%);
  pointer-events: none;
  z-index: 0;
}

.container {
  max-width: 960px;
  margin: 0 auto;
  padding: 2rem 1.5rem;
  position: relative;
  z-index: 1;
}

/* 顶部 Header */
.header {
  text-align: center;
  margin-bottom: 2.5rem;
}

.header h1 {
  font-size: 1.75rem;
  font-weight: 700;
  background: linear-gradient(135deg, var(--accent-blue), var(--accent-purple));
  -webkit-background-clip: text;
  -webkit-text-fill-color: transparent;
  background-clip: text;
  margin-bottom: 0.5rem;
}

.header .subtitle {
  font-size: 0.85rem;
  color: var(--text-muted);
  font-family: 'JetBrains Mono', monospace;
}

.status-bar {
  display: flex;
  justify-content: center;
  gap: 2rem;
  margin-top: 1rem;
  flex-wrap: wrap;
}

.status-item {
  display: flex;
  align-items: center;
  gap: 0.4rem;
  font-size: 0.8rem;
  color: var(--text-secondary);
}

.status-dot {
  width: 6px; height: 6px;
  border-radius: 50%;
  background: var(--accent-green);
  animation: pulse 2s infinite;
}

@keyframes pulse {
  0%, 100% { opacity: 1; }
  50% { opacity: 0.4; }
}

/* 账号卡片 */
.accounts {
  display: flex;
  flex-direction: column;
  gap: 1rem;
}

.account-card {
  background: var(--bg-card);
  border: 1px solid var(--border-color);
  border-radius: 12px;
  padding: 1.25rem 1.5rem;
  transition: all 0.3s ease;
}

.account-card:hover {
  background: var(--bg-card-hover);
  border-color: rgba(59, 130, 246, 0.3);
  box-shadow: 0 4px 20px rgba(0, 0, 0, 0.2);
  transform: translateY(-1px);
}

.account-card.active {
  border-color: var(--border-active);
  box-shadow: 0 0 0 1px var(--border-active), 0 4px 20px var(--glow-blue);
}

.card-header {
  display: flex;
  align-items: center;
  justify-content: space-between;
  margin-bottom: 1rem;
}

.email-section {
  display: flex;
  align-items: center;
  gap: 0.6rem;
}

.active-icon {
  font-size: 1.1rem;
}

.email {
  font-family: 'JetBrains Mono', monospace;
  font-size: 0.9rem;
  font-weight: 600;
  color: var(--text-primary);
}

.badges {
  display: flex;
  gap: 0.5rem;
}

.badge {
  padding: 0.2rem 0.6rem;
  border-radius: 6px;
  font-size: 0.7rem;
  font-weight: 600;
  text-transform: uppercase;
  letter-spacing: 0.5px;
}

.badge-plan {
  background: rgba(139, 92, 246, 0.15);
  color: var(--accent-purple);
  border: 1px solid rgba(139, 92, 246, 0.3);
}

.badge-active {
  background: rgba(16, 185, 129, 0.15);
  color: var(--accent-green);
  border: 1px solid rgba(16, 185, 129, 0.3);
}

/* 额度行 */
.rate-rows {
  display: flex;
  flex-direction: column;
  gap: 0.75rem;
}

.rate-row {
  display: flex;
  align-items: center;
  gap: 0.75rem;
}

.rate-label {
  font-family: 'JetBrains Mono', monospace;
  font-size: 0.75rem;
  font-weight: 600;
  color: var(--text-muted);
  width: 50px;
  flex-shrink: 0;
}

.progress-wrap {
  flex: 1;
  display: flex;
  align-items: center;
  gap: 0.75rem;
}

.progress-bar {
  flex: 1;
  height: 8px;
  background: rgba(255, 255, 255, 0.06);
  border-radius: 4px;
  overflow: hidden;
  position: relative;
}

.progress-fill {
  height: 100%;
  border-radius: 4px;
  transition: width 0.8s cubic-bezier(0.4, 0, 0.2, 1);
  position: relative;
}

.progress-fill::after {
  content: '';
  position: absolute;
  top: 0; left: 0; right: 0; bottom: 0;
  background: linear-gradient(90deg, transparent, rgba(255,255,255,0.15), transparent);
  animation: shimmer 2s infinite;
}

@keyframes shimmer {
  0% { transform: translateX(-100%); }
  100% { transform: translateX(100%); }
}

.progress-fill.green { background: linear-gradient(90deg, #059669, #10b981); }
.progress-fill.yellow { background: linear-gradient(90deg, #d97706, #f59e0b); }
.progress-fill.red { background: linear-gradient(90deg, #dc2626, #ef4444); }

.rate-percent {
  font-family: 'JetBrains Mono', monospace;
  font-size: 0.85rem;
  font-weight: 700;
  width: 48px;
  text-align: right;
  flex-shrink: 0;
}

.rate-reset {
  font-size: 0.75rem;
  color: var(--text-muted);
  width: 80px;
  text-align: right;
  flex-shrink: 0;
  font-family: 'JetBrains Mono', monospace;
}

.rate-empty {
  font-size: 0.8rem;
  color: var(--text-muted);
  font-style: italic;
}

/* 底部信息 */
.footer {
  text-align: center;
  margin-top: 2rem;
  padding-top: 1.5rem;
  border-top: 1px solid var(--border-color);
}

.footer p {
  font-size: 0.75rem;
  color: var(--text-muted);
}

.last-update {
  font-family: 'JetBrains Mono', monospace;
}

/* 无数据提示 */
.no-data {
  text-align: center;
  padding: 3rem;
  color: var(--text-muted);
}

.no-data .icon {
  font-size: 3rem;
  margin-bottom: 1rem;
}

/* 响应式 */
@media (max-width: 640px) {
  .container { padding: 1rem; }
  .header h1 { font-size: 1.4rem; }
  .status-bar { gap: 1rem; }
  .rate-reset { display: none; }
  .card-header { flex-direction: column; align-items: flex-start; gap: 0.5rem; }
}
</style>
</head>
<body>
<div class="container">
  <div class="header">
    <h1>🔄 CX-Switch 额度监控</h1>
    <p class="subtitle">Codex 多账号管理仪表盘</p>
    <div class="status-bar">
      <span class="status-item"><span class="status-dot"></span>运行中</span>
      <span class="status-item">⏱ 每 "##;

/// The page between the refresh interval and the threshold of the status bar.
pub const PAGE_AFTER_INTERVAL: &'static str = r##"s 刷新</span>
      <span class="status-item">🎯 阈值 "##;

/// The page between the threshold and the automatic-switch setting of the status bar.
pub const PAGE_AFTER_THRESHOLD: &'static str = r##"%</span>
      <span class="status-item">🔄 自动切换: "##;

/// The page between the automatic-switch setting and the refresh interval of the script.
pub const PAGE_AFTER_SWITCH: &'static str = r##"</span>
    </div>
  </div>

  <div id="accounts" class="accounts">
    <div class="no-data">
      <div class="icon">⏳</div>
      <p>正在加载...</p>
    </div>
  </div>

  <div class="footer">
    <p>上次刷新: <span class="last-update" id="lastUpdate">-</span></p>
  </div>
</div>

<script>
const INTERVAL = "##;

/// The page between the refresh interval and the threshold of the script.
pub const PAGE_AFTER_SCRIPT_INTERVAL: &'static str = r##" * 1000;
const THRESHOLD = "##;

/// The rest of the page, after the threshold of the script.
pub const PAGE_TAIL: &'static str = r##";

function escapeHtml(str) {
  const div = document.createElement('div');
  div.textContent = str;
  return div.innerHTML;
}

function getColor(remaining) {
  if (remaining <= 0) return 'red';
  if (remaining < THRESHOLD) return 'yellow';
  return 'green';
}

function getTextColor(remaining) {
  if (remaining <= 0) return 'var(--accent-red)';
  if (remaining < THRESHOLD) return 'var(--accent-yellow)';
  return 'var(--accent-green)';
}

function renderRateRow(label, data) {
  if (!data) {
    return `
      <div class="rate-row">
        <span class="rate-label">${label}</span>
        <span class="rate-empty">暂无数据</span>
      </div>`;
  }
  const rem = data.remaining_percent;
  const color = getColor(rem);
  const textColor = getTextColor(rem);
  return `
    <div class="rate-row">
      <span class="rate-label">${label}</span>
      <div class="progress-wrap">
        <div class="progress-bar">
          <div class="progress-fill ${color}" style="width: ${rem}%"></div>
        </div>
        <span class="rate-percent" style="color: ${textColor}">${rem}%</span>
        <span class="rate-reset">${data.resets_in || '-'}</span>
      </div>
    </div>`;
}

function renderAccount(acc) {
  const activeClass = acc.is_active ? 'active' : '';
  const activeIcon = acc.is_active ? '✅' : '⬜';
  const activeBadge = acc.is_active ? '<span class="badge badge-active">ACTIVE</span>' : '';

  return `
    <div class="account-card ${activeClass}">
      <div class="card-header">
        <div class="email-section">
          <span class="active-icon">${activeIcon}</span>
          <span class="email">${escapeHtml(acc.email)}</span>
        </div>
        <div class="badges">
          <span class="badge badge-plan">${escapeHtml(acc.plan)}</span>
          ${activeBadge}
        </div>
      </div>
      <div class="rate-rows">
        ${renderRateRow('5H', acc.rate_5h)}
        ${renderRateRow('WEEK', acc.rate_week)}
      </div>
    </div>`;
}

async function refresh() {
  try {
    const res = await fetch('/api/status');
    const data = await res.json();

    if (data.error) {
      document.getElementById('accounts').innerHTML =
        `<div class="no-data"><div class="icon">❌</div><p>${escapeHtml(data.error)}</p></div>`;
      return;
    }

    if (!data.accounts || data.accounts.length === 0) {
      document.getElementById('accounts').innerHTML =
        `<div class="no-data"><div class="icon">📭</div><p>暂无已管理的账号<br>使用 cx-switch login 添加账号</p></div>`;
      return;
    }

    const html = data.accounts.map(renderAccount).join('');
    document.getElementById('accounts').innerHTML = html;

    const now = new Date();
    document.getElementById('lastUpdate').textContent =
      now.toLocaleTimeString('zh-CN', { hour12: false });
  } catch (e) {
    console.error('刷新失败:', e);
  }
}

// 初始加载 + 定时刷新
refresh();
setInterval(refresh, INTERVAL);
</script>
</body>
</html>"##;

/// The text that stands for the automatic-switch setting on the page.
pub open spec fn switch_setting_text(auto_switch: bool) -> Seq<char> {
    if auto_switch { "开启"@ } else { "关闭"@ }
}

/// The monitor page, showing the refresh interval `interval` (seconds),
/// the threshold `threshold` (percent) and the automatic-switch setting,
/// and refreshing itself every `interval` seconds.
pub open spec fn dashboard_page(interval: u64, threshold: u64, auto_switch: bool) -> Seq<char> {
    PAGE_HEAD@ + nat_digits(interval as nat) + PAGE_AFTER_INTERVAL@ + nat_digits(threshold as nat)
        + PAGE_AFTER_THRESHOLD@ + switch_setting_text(auto_switch) + PAGE_AFTER_SWITCH@ + nat_digits(
        interval as nat,
    ) + PAGE_AFTER_SCRIPT_INTERVAL@ + nat_digits(threshold as nat) + PAGE_TAIL@
}

/// Builds the monitor page (see [`dashboard_page`]).
pub fn build_dashboard_html(interval: u64, threshold: u64, auto_switch: bool) -> (r: String)
    ensures
        r@ == dashboard_page(interval, threshold, auto_switch),
{
    let mut html = String::from_str(PAGE_HEAD);
    push_digits(&mut html, interval);
    html.append(PAGE_AFTER_INTERVAL);
    push_digits(&mut html, threshold);
    html.append(PAGE_AFTER_THRESHOLD);
    html.append(if auto_switch { "开启" } else { "关闭" });
    html.append(PAGE_AFTER_SWITCH);
    push_digits(&mut html, interval);
    html.append(PAGE_AFTER_SCRIPT_INTERVAL);
    push_digits(&mut html, threshold);
    html.append(PAGE_TAIL);
    html
}

/// What a request to the web monitor asks for.
#[derive(Debug, PartialEq, Eq, Structural)]
pub enum Route {
    /// The page itself (`/`).
    Page,
    /// The status document (`/api/status`).
    Status,
    /// Anything else, which is not there.
    NotFound,
}

/// What a request for `url` asks for.
pub open spec fn route_spec(url: Seq<char>) -> Route {
    if url == "/"@ {
        Route::Page
    } else if url == "/api/status"@ {
        Route::Status
    } else {
        Route::NotFound
    }
}

/// Decides what a request for `url` asks for.
pub fn route(url: &String) -> (r: Route)
    ensures
        r == route_spec(url@),
{
    if crate::models::text_is(url, "/") {
        Route::Page
    } else if crate::models::text_is(url, "/api/status") {
        Route::Status
    } else {
        Route::NotFound
    }
}

/// The document answered when the registry cannot be read.
pub const STATUS_LOAD_ERROR: &'static str = r#"{"error":"无法加载注册表"}"#;

// ─── The status document ───

/// How long until a window that starts over at `resets_at` does so, seen
/// at `now`: hours and minutes, or minutes under an hour; `已重置` once the
/// time has passed, and `-` when it is not known.
pub open spec fn resets_in_text(resets_at: Option<i64>, now: i64) -> Seq<char> {
    match resets_at {
        Some(r) => if now < r {
            let mins = (r - now) / 60;
            let hours = mins / 60;
            if hours > 0 {
                decimal(hours) + "h"@ + decimal(mins % 60) + "m"@
            } else {
                decimal(mins) + "m"@
            }
        } else {
            "已重置"@
        },
        None => "-"@,
    }
}

/// Writes how long until a window starts over (see [`resets_in_text`]).
pub fn resets_in(resets_at: Option<i64>, now: i64) -> (r: String)
    ensures
        r@ == resets_in_text(resets_at, now),
{
    match resets_at {
        Some(r) => if now < r {
            let secs: i128 = (r as i128) - (now as i128);
            let mins128: i128 = secs / 60;
            let mins: i64 = mins128 as i64;
            let hours: i64 = mins / 60;
            let mut out = String::new();
            if hours > 0 {
                push_decimal(&mut out, hours);
                out.append("h");
                push_decimal(&mut out, mins % 60);
                out.append("m");
                assert(out@ =~= decimal(hours as int) + "h"@ + decimal((mins % 60) as int) + "m"@);
            } else {
                push_decimal(&mut out, mins);
                out.append("m");
                assert(out@ =~= decimal(mins as int) + "m"@);
            }
            out
        } else {
            String::from_str("已重置")
        },
        None => String::from_str("-"),
    }
}

/// `v` is the status of the window `o` holds, seen at `now`, or `null`.
pub open spec fn encodes_status_window(v: JsonValue, o: Option<WindowView>, now: i64) -> bool {
    match o {
        None => v is Null,
        Some(w) => match v {
            JsonValue::Object(m) => {
                &&& has_keys(m@, seq!["remaining_percent"@, "resets_at"@, "resets_in"@, "used_percent"@])
                &&& is_integer_json(m@[0].value, window_remaining(w) as int)
                &&& is_opt_integer_json(m@[1].value, w.resets_at)
                &&& string_text(m@[2].value) == Some(resets_in_text(w.resets_at, now))
                &&& match m@[3].value {
                    JsonValue::Number(n) => n@ == w.used_percent,
                    _ => false,
                }
            },
            _ => false,
        },
    }
}

/// The plan shown for an account in the status document: its name, or `-`.
pub open spec fn status_plan_text(a: AccountView) -> Seq<char> {
    match shown_plan(a) {
        Some(p) => plan_name(p),
        None => "-"@,
    }
}

/// `v` is the status of the account `a` seen at `now`, when the active
/// address is `active`.
pub open spec fn encodes_status_account(v: JsonValue, a: AccountView, active: Option<Seq<char>>, now: i64) -> bool {
    match v {
        JsonValue::Object(m) => {
            &&& has_keys(
                m@,
                seq![
                    "alias"@,
                    "email"@,
                    "is_active"@,
                    "last_usage_at"@,
                    "last_used_at"@,
                    "plan"@,
                    "rate_5h"@,
                    "rate_week"@,
                ],
            )
            &&& string_text(m@[0].value) == Some(a.alias)
            &&& string_text(m@[1].value) == Some(a.email)
            &&& m@[2].value == JsonValue::Bool(active == Some(a.email))
            &&& is_opt_integer_json(m@[3].value, a.last_usage_at)
            &&& is_opt_integer_json(m@[4].value, a.last_used_at)
            &&& string_text(m@[5].value) == Some(status_plan_text(a))
            &&& encodes_status_window(m@[6].value, resolve_window(a.last_usage, 300, true), now)
            &&& encodes_status_window(m@[7].value, resolve_window(a.last_usage, 10080, false), now)
        },
        _ => false,
    }
}

/// `v` is the status document of the registry `r` seen at `now`: every
/// account in order, and the time.
pub open spec fn encodes_status(v: JsonValue, r: RegistryView, now: i64) -> bool {
    match v {
        JsonValue::Object(m) => {
            &&& has_keys(m@, seq!["accounts"@, "timestamp"@])
            &&& match m@[0].value {
                JsonValue::Array(a) => a@.len() == r.accounts.len() && forall|i: int|
                    0 <= i < a@.len() ==> encodes_status_account(#[trigger] a@[i], r.accounts[i], r.active_email, now),
                _ => false,
            }
            &&& is_integer_json(m@[1].value, now as int)
        },
        _ => false,
    }
}

fn member(key: &str, value: JsonValue) -> (r: JsonMember)
    ensures
        r.key@ == key@,
        r.value == value,
{
    JsonMember { key: String::from_str(key), value }
}

fn integer_json(n: i64) -> (r: JsonValue)
    ensures
        is_integer_json(r, n as int),
{
    JsonValue::Number(JsonNumber { int_value: Some(n), rounded: n, text: crate::text::decimal_string(n) })
}

fn opt_integer_json(o: Option<i64>) -> (r: JsonValue)
    ensures
        is_opt_integer_json(r, o),
{
    match o {
        Some(n) => integer_json(n),
        None => JsonValue::Null,
    }
}

fn status_window(w: Option<&RateLimitWindow>, now: i64) -> (r: JsonValue)
    ensures
        encodes_status_window(
            r,
            match w {
                Some(x) => Some(x.deep_view()),
                None => None,
            },
            now,
        ),
{
    match w {
        None => JsonValue::Null,
        Some(w) => {
            let mut m: Vec<JsonMember> = Vec::new();
            m.push(member("remaining_percent", integer_json(remaining_percent(&w.used_percent))));
            m.push(member("resets_at", opt_integer_json(w.resets_at)));
            m.push(member("resets_in", JsonValue::Str(resets_in(w.resets_at, now))));
            m.push(member("used_percent", JsonValue::Number(w.used_percent.duplicate())));
            JsonValue::Object(m)
        },
    }
}

fn status_account(rec: &AccountRecord, active: &Option<String>, now: i64) -> (r: JsonValue)
    ensures
        encodes_status_account(r, rec.deep_view(), active.deep_view(), now),
{
    let is_active = match active {
        Some(a) => *a == rec.email,
        None => false,
    };
    let plan = match resolve_plan(rec) {
        Some(p) => String::from_str(p.name()),
        None => String::from_str("-"),
    };
    let mut m: Vec<JsonMember> = Vec::new();
    m.push(member("alias", JsonValue::Str(rec.alias.clone())));
    m.push(member("email", JsonValue::Str(rec.email.clone())));
    m.push(member("is_active", JsonValue::Bool(is_active)));
    m.push(member("last_usage_at", opt_integer_json(rec.last_usage_at)));
    m.push(member("last_used_at", opt_integer_json(rec.last_used_at)));
    m.push(member("plan", JsonValue::Str(plan)));
    m.push(member("rate_5h", status_window(resolve_rate_window(&rec.last_usage, 300, true), now)));
    m.push(member("rate_week", status_window(resolve_rate_window(&rec.last_usage, 10080, false), now)));
    JsonValue::Object(m)
}

/// Builds the status document of `reg` seen at `now` (see [`encodes_status`]).
pub fn status_document_at(reg: &Registry, now: i64) -> (r: JsonValue)
    ensures
        encodes_status(r, reg@, now),
{
    let mut accounts: Vec<JsonValue> = Vec::new();
    let mut i: usize = 0;
    while i < reg.accounts.len()
        invariant
            i <= reg@.accounts.len(),
            accounts@.len() == i,
            forall|k: int| 0 <= k < i ==> encodes_status_account(#[trigger] accounts@[k], reg@.accounts[k], reg@.active_email, now),
        decreases reg.accounts.len() - i,
    {
        accounts.push(status_account(&reg.accounts[i], &reg.active_email, now));
        i += 1;
    }
    let mut m: Vec<JsonMember> = Vec::new();
    m.push(member("accounts", JsonValue::Array(accounts)));
    m.push(member("timestamp", integer_json(now)));
    JsonValue::Object(m)
}

/// Builds the status document of `reg` as seen now (see [`encodes_status`]).
pub fn build_status_json(reg: &Registry) -> (r: JsonValue)
    ensures
        exists|now: i64| encodes_status(r, reg@, now),
{
    let now = now_timestamp();
    status_document_at(reg, now)
}

/// In the status of an account, each member holds what its key names:
/// `email` the address, `alias` the alias, `is_active` whether it is the
/// active account, `last_used_at` when it was last used, `last_usage_at`
/// when its last snapshot was taken, `plan` its plan, and `rate_5h` and
/// `rate_week` its 5-hour and weekly windows.
pub proof fn lemma_status_account_by_key(v: JsonValue, a: AccountView, active: Option<Seq<char>>, now: i64)
    requires
        encodes_status_account(v, a, active, now),
    ensures
        object_members(v) matches Some(m) && {
            &&& lookup(m, "email"@) matches Some(x) && string_text(x) == Some(a.email)
            &&& lookup(m, "alias"@) matches Some(x) && string_text(x) == Some(a.alias)
            &&& lookup(m, "is_active"@) == Some(JsonValue::Bool(active == Some(a.email)))
            &&& lookup(m, "last_used_at"@) matches Some(x) && is_opt_integer_json(x, a.last_used_at)
            &&& lookup(m, "last_usage_at"@) matches Some(x) && is_opt_integer_json(x, a.last_usage_at)
            &&& lookup(m, "plan"@) matches Some(x) && string_text(x) == Some(status_plan_text(a))
            &&& lookup(m, "rate_5h"@) matches Some(x) && encodes_status_window(
                x,
                resolve_window(a.last_usage, 300, true),
                now,
            )
            &&& lookup(m, "rate_week"@) matches Some(x) && encodes_status_window(
                x,
                resolve_window(a.last_usage, 10080, false),
                now,
            )
        },
{
    reveal_strlit("alias");
    reveal_strlit("email");
    reveal_strlit("is_active");
    reveal_strlit("last_usage_at");
    reveal_strlit("last_used_at");
    reveal_strlit("plan");
    reveal_strlit("rate_5h");
    reveal_strlit("rate_week");
    let m = v->Object_0@;
    let keys = seq![
        "alias"@,
        "email"@,
        "is_active"@,
        "last_usage_at"@,
        "last_used_at"@,
        "plan"@,
        "rate_5h"@,
        "rate_week"@,
    ];
    lemma_lookup_keys(m, keys, 0);
    lemma_lookup_keys(m, keys, 1);
    lemma_lookup_keys(m, keys, 2);
    lemma_lookup_keys(m, keys, 3);
    lemma_lookup_keys(m, keys, 4);
    lemma_lookup_keys(m, keys, 5);
    lemma_lookup_keys(m, keys, 6);
    lemma_lookup_keys(m, keys, 7);
}

/// The status document lists every account, in order, under `accounts`,
/// each with the members its keys name (see
/// [`lemma_status_account_by_key`]), and the time under `timestamp`.
pub proof fn lemma_status_document_by_key(v: JsonValue, r: RegistryView, now: i64)
    requires
        encodes_status(v, r, now),
    ensures
        object_members(v) matches Some(m) && {
            &&& lookup(m, "timestamp"@) matches Some(t) && is_integer_json(t, now as int)
            &&& lookup(m, "accounts"@) matches Some(JsonValue::Array(items)) && items@.len() == r.accounts.len()
                && forall|i: int|
                0 <= i < items@.len() ==> encodes_status_account(
                    #[trigger] items@[i],
                    r.accounts[i],
                    r.active_email,
                    now,
                )
        },
{
    reveal_strlit("accounts");
    reveal_strlit("timestamp");
    let m = v->Object_0@;
    let keys = seq!["accounts"@, "timestamp"@];
    lemma_lookup_keys(m, keys, 0);
    lemma_lookup_keys(m, keys, 1);
}

} // verus!
