//! The account registry: where its files live, how accounts are added,
//! merged, activated, refreshed and removed, and which account has the
//! most quota left.
use base64::engine::general_purpose::URL_SAFE_NO_PAD;
use base64::Engine;
use std::time::{SystemTime, UNIX_EPOCH};
use vstd::prelude::*;
use vstd::utf8::encode_utf8;

use crate::base64url::{base64_url_text, lemma_base64_url_injective};
use crate::json::JsonNumber;
use crate::models::{
    remaining_from_used, remaining_percent, resolve_rate_window, resolve_window, AccountRecord,
    AccountView, AuthInfo, AuthInfoView, CreditsSnapshot, ImportSummary, RateLimitSnapshot, RateLimitWindow,
    Registry, RegistryView, SnapshotView, WindowView,
};
use crate::text::{
    contains_text, decimal, ends_with, has_infix, has_prefix, has_suffix, join_path, join_path_spec,
    push_decimal, starts_with,
};

verus! {

/// Why a registry operation could not be carried out.
#[derive(Debug, PartialEq, Eq, Structural)]
pub enum RegistryError {
    /// The authentication file names no e-mail address.
    MissingEmail,
    /// Neither `CODEX_HOME` nor a home directory is known.
    NoCodexHome,
    /// Every name a backup taken now could have is in use.
    NoBackupName,
}

impl RegistryError {
    /// The message shown for this error.
    pub fn message(&self) -> (r: &'static str)
        ensures
            r@ == match self {
                RegistryError::MissingEmail => "认证文件中缺少邮箱信息"@,
                RegistryError::NoCodexHome => "无法确定 Codex 主目录：请设置 CODEX_HOME 环境变量或确保 HOME 目录可用"@,
                RegistryError::NoBackupName => "无法生成唯一的备份文件名"@,
            },
    {
        match self {
            RegistryError::MissingEmail => "认证文件中缺少邮箱信息",
            RegistryError::NoCodexHome => "无法确定 Codex 主目录：请设置 CODEX_HOME 环境变量或确保 HOME 目录可用",
            RegistryError::NoBackupName => "无法生成唯一的备份文件名",
        }
    }
}

// ─── Paths ───

/// The Codex home directory: `CODEX_HOME` when it is set and not empty,
/// else `.codex` under the home directory.
pub open spec fn codex_home_spec(env_value: Option<Seq<char>>, home_dir: Option<Seq<char>>) -> Option<Seq<char>> {
    if env_value is Some && env_value->0.len() > 0 {
        env_value
    } else if home_dir is Some {
        Some(join_path_spec(home_dir->0, ".codex"@))
    } else {
        None
    }
}

/// Chooses the Codex home directory from the value of `CODEX_HOME` and the
/// user's home directory (see [`codex_home_spec`]).
pub fn resolve_codex_home(env_value: Option<String>, home_dir: Option<String>) -> (r: Result<String, RegistryError>)
    ensures
        match r {
            Ok(p) => codex_home_spec(env_value.deep_view(), home_dir.deep_view()) == Some(p@),
            Err(e) => e == RegistryError::NoCodexHome
                && codex_home_spec(env_value.deep_view(), home_dir.deep_view()) is None,
        },
{
    if let Some(val) = env_value {
        if val.as_str().unicode_len() > 0 {
            return Ok(val);
        }
    }
    match home_dir {
        Some(home) => Ok(join_path(home.as_str(), ".codex")),
        None => Err(RegistryError::NoCodexHome),
    }
}

/// The directory that holds the registry and the accounts' files.
pub open spec fn accounts_dir_spec(codex_home: Seq<char>) -> Seq<char> {
    join_path_spec(codex_home, "accounts"@)
}

/// The path of the accounts directory.
pub fn accounts_dir(codex_home: &str) -> (r: String)
    ensures
        r@ == accounts_dir_spec(codex_home@),
{
    join_path(codex_home, "accounts")
}

/// The path of the registry file.
pub fn registry_path(codex_home: &str) -> (r: String)
    ensures
        r@ == join_path_spec(accounts_dir_spec(codex_home@), "registry.json"@),
{
    let dir = accounts_dir(codex_home);
    join_path(dir.as_str(), "registry.json")
}

/// The file name key of an e-mail address: `URL_SAFE_NO_PAD.encode` of the
/// address's UTF-8 bytes, which is their unpadded URL-safe base64 text
/// (RFC 4648, section 5, without `=` padding; see [`base64_url_text`]).
/// The encoder panics only when the encoded length overflows `usize`, which
/// no string that fits in memory reaches.
#[verifier::external_body]
fn email_file_key(email: &str) -> (r: String)
    ensures
        r@ == base64_url_text(encode_utf8(email@)),
{
    URL_SAFE_NO_PAD.encode(email.as_bytes())
}

/// The path of an account's own copy of its authentication file.
pub open spec fn account_auth_path_spec(codex_home: Seq<char>, email: Seq<char>) -> Seq<char> {
    join_path_spec(
        accounts_dir_spec(codex_home),
        base64_url_text(encode_utf8(email)) + ".auth.json"@,
    )
}

/// The path of an account's own copy of its authentication file.
pub fn account_auth_path(codex_home: &str, email: &str) -> (r: String)
    ensures
        r@ == account_auth_path_spec(codex_home@, email@),
{
    let mut name = email_file_key(email);
    name.append(".auth.json");
    let dir = accounts_dir(codex_home);
    join_path(dir.as_str(), name.as_str())
}

/// The path of the authentication file that Codex reads.
pub fn active_auth_path(codex_home: &str) -> (r: String)
    ensures
        r@ == join_path_spec(codex_home@, "auth.json"@),
{
    join_path(codex_home, "auth.json")
}

// ─── Time ───

/// The time since the Unix epoch as the system clock reads it:
/// `SystemTime::now().duration_since(UNIX_EPOCH)`, in whole seconds and in
/// milliseconds, or `None` when the clock is set before the epoch. Nothing
/// is promised of the values: they are the clock's.
#[verifier::external_body]
pub(crate) fn clock_since_epoch() -> Option<(u64, u128)> {
    SystemTime::now().duration_since(UNIX_EPOCH).ok().map(|d| (d.as_secs(), d.as_millis()))
}

/// The Unix time in whole seconds that a clock reading gives (see
/// [`clock_since_epoch`]), as an `i64`; 0 for a clock set before the epoch.
pub open spec fn reading_seconds(reading: Option<(u64, u128)>) -> i64 {
    match reading {
        Some((secs, _)) => secs as i64,
        None => 0,
    }
}

/// The Unix time in milliseconds that a clock reading gives, as an `i64`;
/// 0 for a clock set before the epoch.
pub open spec fn reading_millis(reading: Option<(u64, u128)>) -> i64 {
    match reading {
        Some((_, millis)) => millis as i64,
        None => 0,
    }
}

/// The Unix time in seconds that a clock reading gives (see [`reading_seconds`]).
pub fn timestamp_from_reading(reading: Option<(u64, u128)>) -> (r: i64)
    ensures
        r == reading_seconds(reading),
{
    match reading {
        Some((secs, _)) => secs as i64,
        None => 0,
    }
}

/// The Unix time in milliseconds that a clock reading gives (see [`reading_millis`]).
pub fn millis_from_reading(reading: Option<(u64, u128)>) -> (r: i64)
    ensures
        r == reading_millis(reading),
{
    match reading {
        Some((_, millis)) => millis as i64,
        None => 0,
    }
}

/// The current Unix time in seconds, 0 for a clock set before the epoch.
/// The clause below says only how the value is formed from a clock
/// reading. Every `i64` is formed so from some reading, and the reading is
/// the clock's: nothing is promised of the value.
pub fn now_timestamp() -> (r: i64)
    ensures
        exists|reading: Option<(u64, u128)>| r == #[trigger] reading_seconds(reading),
{
    let reading = clock_since_epoch();
    let r = timestamp_from_reading(reading);
    assert(r == reading_seconds(reading));
    r
}

/// The current Unix time in milliseconds, 0 for a clock set before the
/// epoch. As for [`now_timestamp`], the clause says only how the value is
/// formed from a clock reading; nothing is promised of the value.
fn now_millis() -> (r: i64)
    ensures
        exists|reading: Option<(u64, u128)>| r == #[trigger] reading_millis(reading),
{
    let reading = clock_since_epoch();
    let r = millis_from_reading(reading);
    assert(r == reading_millis(reading));
    r
}

// ─── Copies ───

impl JsonNumber {
    /// An equal copy of this number.
    pub fn duplicate(&self) -> (r: JsonNumber)
        ensures
            r@ == self@,
    {
        JsonNumber { int_value: self.int_value, rounded: self.rounded, text: self.text.clone() }
    }
}

fn duplicate_text(s: &Option<String>) -> (r: Option<String>)
    ensures
        r.deep_view() == s.deep_view(),
{
    match s {
        Some(t) => Some(t.clone()),
        None => None,
    }
}

impl RateLimitWindow {
    /// An equal copy of this window.
    pub fn duplicate(&self) -> (r: RateLimitWindow)
        ensures
            r@ == self@,
    {
        RateLimitWindow {
            used_percent: self.used_percent.duplicate(),
            window_minutes: self.window_minutes,
            resets_at: self.resets_at,
        }
    }
}

fn duplicate_window(w: &Option<RateLimitWindow>) -> (r: Option<RateLimitWindow>)
    ensures
        r.deep_view() == w.deep_view(),
{
    match w {
        Some(x) => Some(x.duplicate()),
        None => None,
    }
}

impl RateLimitSnapshot {
    /// An equal copy of this snapshot.
    pub fn duplicate(&self) -> (r: RateLimitSnapshot)
        ensures
            r@ == self@,
    {
        let credits = match &self.credits {
            Some(c) => Some(
                CreditsSnapshot {
                    has_credits: c.has_credits,
                    unlimited: c.unlimited,
                    balance: duplicate_text(&c.balance),
                },
            ),
            None => None,
        };
        RateLimitSnapshot {
            primary: duplicate_window(&self.primary),
            secondary: duplicate_window(&self.secondary),
            credits,
            plan_type: self.plan_type,
        }
    }
}

impl AccountRecord {
    /// An equal copy of this record.
    pub fn duplicate(&self) -> (r: AccountRecord)
        ensures
            r@ == self@,
    {
        let last_usage = match &self.last_usage {
            Some(u) => Some(u.duplicate()),
            None => None,
        };
        AccountRecord {
            email: self.email.clone(),
            alias: self.alias.clone(),
            plan: self.plan,
            auth_mode: self.auth_mode,
            created_at: self.created_at,
            last_used_at: self.last_used_at,
            last_usage,
            last_usage_at: self.last_usage_at,
        }
    }
}

// ─── Looking accounts up ───

/// The position of the first account with e-mail `email`, or -1 if there is none.
pub open spec fn email_index(s: Seq<AccountView>, email: Seq<char>) -> int
    decreases s.len(),
{
    if s.len() == 0 {
        -1
    } else if s[0].email == email {
        0
    } else {
        let k = email_index(s.drop_first(), email);
        if k < 0 {
            -1
        } else {
            k + 1
        }
    }
}

/// What [`email_index`] is: the first position holding `email`, or -1.
pub proof fn lemma_email_index(s: Seq<AccountView>, email: Seq<char>)
    ensures
        -1 <= email_index(s, email) < s.len(),
        email_index(s, email) >= 0 ==> s[email_index(s, email)].email == email,
        forall|j: int| 0 <= j < email_index(s, email) ==> s[j].email != email,
        email_index(s, email) < 0 ==> forall|j: int| 0 <= j < s.len() ==> s[j].email != email,
    decreases s.len(),
{
    if s.len() > 0 && s[0].email != email {
        lemma_email_index(s.drop_first(), email);
        assert forall|j: int| 0 <= j < email_index(s, email) implies s[j].email != email by {
            if j > 0 {
                assert(s[j] == s.drop_first()[j - 1]);
            }
        }
        if email_index(s, email) < 0 {
            assert forall|j: int| 0 <= j < s.len() implies s[j].email != email by {
                if j > 0 {
                    assert(s[j] == s.drop_first()[j - 1]);
                }
            }
        }
    }
}

proof fn lemma_email_index_is(s: Seq<AccountView>, email: Seq<char>, i: int)
    requires
        0 <= i < s.len(),
        s[i].email == email,
        forall|j: int| 0 <= j < i ==> s[j].email != email,
    ensures
        email_index(s, email) == i,
{
    lemma_email_index(s, email);
}

/// Finds the first account with the e-mail address `email`.
pub fn find_account(accounts: &Vec<AccountRecord>, email: &String) -> (r: Option<usize>)
    ensures
        match r {
            Some(i) => email_index(accounts.deep_view(), email@) == i,
            None => email_index(accounts.deep_view(), email@) == -1,
        },
{
    let ghost s = accounts.deep_view();
    let mut i: usize = 0;
    while i < accounts.len()
        invariant
            s == accounts.deep_view(),
            i <= accounts.len(),
            forall|j: int| 0 <= j < i ==> s[j].email != email@,
        decreases accounts.len() - i,
    {
        if accounts[i].email == *email {
            proof {
                lemma_email_index_is(s, email@, i as int);
            }
            return Some(i);
        }
        i += 1;
    }
    proof {
        lemma_email_index(s, email@);
        if email_index(s, email@) >= 0 {
            assert(s[email_index(s, email@)].email == email@);
        }
    }
    None
}

/// No two accounts share an e-mail address.
pub open spec fn emails_unique(s: Seq<AccountView>) -> bool {
    forall|i: int, j: int| 0 <= i < s.len() && 0 <= j < s.len() && i != j ==> s[i].email != s[j].email
}

// ─── Adding and merging ───

/// The freshness of a record: the latest of its creation, last use and last
/// quota snapshot.
pub open spec fn freshness(r: AccountView) -> i64 {
    let a = r.created_at;
    let b = if r.last_used_at is Some && r.last_used_at->0 > a { r.last_used_at->0 } else { a };
    if r.last_usage_at is Some && r.last_usage_at->0 > b { r.last_usage_at->0 } else { b }
}

/// The freshness of a record (see [`freshness`]).
pub fn record_freshness(rec: &AccountRecord) -> (r: i64)
    ensures
        r == freshness(rec@),
{
    let mut best = rec.created_at;
    if let Some(t) = rec.last_used_at {
        if t > best {
            best = t;
        }
    }
    if let Some(t) = rec.last_usage_at {
        if t > best {
            best = t;
        }
    }
    best
}

/// The accounts after `rec` is inserted or merged: a record with a new
/// e-mail address goes to the end; one with a known address replaces the
/// first record of that address if it is strictly fresher, and is dropped
/// otherwise.
pub open spec fn upsert_spec(s: Seq<AccountView>, rec: AccountView) -> Seq<AccountView> {
    let i = email_index(s, rec.email);
    if i < 0 {
        s.push(rec)
    } else if freshness(rec) > freshness(s[i]) {
        s.update(i, rec)
    } else {
        s
    }
}

/// Inserts a record, or merges it with the record of the same e-mail
/// address by keeping the fresher of the two (see [`upsert_spec`]).
/// The active account is left as it is, and no two records come to share
/// an address that did not before.
pub fn upsert_account(reg: &mut Registry, record: AccountRecord)
    ensures
        final(reg)@.accounts == upsert_spec(old(reg)@.accounts, record@),
        final(reg)@.active_email == old(reg)@.active_email,
        final(reg)@.version == old(reg)@.version,
        emails_unique(old(reg)@.accounts) ==> emails_unique(final(reg)@.accounts),
        email_index(final(reg)@.accounts, record@.email) >= 0,
{
    let ghost s = reg.accounts.deep_view();
    let found = find_account(&reg.accounts, &record.email);
    proof {
        lemma_email_index(s, record@.email);
    }
    match found {
        Some(i) => {
            if record_freshness(&record) > record_freshness(&reg.accounts[i]) {
                let ghost rv = record@;
                reg.accounts.set(i, record);
                assert(reg.accounts.deep_view() =~= s.update(i as int, rv));
                proof {
                    lemma_email_index(reg.accounts.deep_view(), rv.email);
                    assert(reg.accounts.deep_view()[i as int].email == rv.email);
                }
            }
        },
        None => {
            let ghost rv = record@;
            reg.accounts.push(record);
            assert(reg.accounts.deep_view() =~= s.push(rv));
            proof {
                lemma_email_index(reg.accounts.deep_view(), rv.email);
                if email_index(reg.accounts.deep_view(), rv.email) < 0 {
                    assert(reg.accounts.deep_view()[s.len() as int].email == rv.email);
                }
            }
        },
    }
}

/// A new record for the account an authentication file describes, created
/// at `now` and never used.
pub open spec fn record_from_auth(alias: Seq<char>, info: AuthInfoView, now: i64) -> AccountView {
    AccountView {
        email: info.email->0,
        alias,
        plan: info.plan,
        auth_mode: Some(info.auth_mode),
        created_at: now,
        last_used_at: None,
        last_usage: None,
        last_usage_at: None,
    }
}

/// Creates the record of the account that `info` describes, created at
/// `now`; fails exactly when `info` names no e-mail address.
pub fn account_from_auth_at(alias: &str, info: &AuthInfo, now: i64) -> (r: Result<AccountRecord, RegistryError>)
    ensures
        match r {
            Ok(rec) => info@.email is Some && rec@ == record_from_auth(alias@, info@, now),
            Err(e) => info@.email is None && e == RegistryError::MissingEmail,
        },
{
    match &info.email {
        None => Err(RegistryError::MissingEmail),
        Some(email) => Ok(
            AccountRecord {
                email: email.clone(),
                alias: String::from_str(alias),
                plan: info.plan,
                auth_mode: Some(info.auth_mode),
                created_at: now,
                last_used_at: None,
                last_usage: None,
                last_usage_at: None,
            },
        ),
    }
}

/// Creates the record of the account that `info` describes, created now;
/// fails exactly when `info` names no e-mail address.
pub fn account_from_auth(alias: &str, info: &AuthInfo) -> (r: Result<AccountRecord, RegistryError>)
    ensures
        match r {
            Ok(rec) => info@.email is Some && exists|now: i64| rec@ == record_from_auth(alias@, info@, now),
            Err(e) => info@.email is None && e == RegistryError::MissingEmail,
        },
{
    let now = now_timestamp();
    account_from_auth_at(alias, info, now)
}

// ─── Activation and usage ───

/// The registry after the account `email` is made active at time `now`:
/// nothing changes if it already is; otherwise it becomes the active
/// address and the first record of that address, if any, is marked used at `now`.
pub open spec fn set_active_spec(r: RegistryView, email: Seq<char>, now: i64) -> RegistryView {
    if r.active_email == Some(email) {
        r
    } else {
        let i = email_index(r.accounts, email);
        RegistryView {
            active_email: Some(email),
            accounts: if i < 0 {
                r.accounts
            } else {
                r.accounts.update(i, AccountView { last_used_at: Some(now), ..r.accounts[i] })
            },
            ..r
        }
    }
}

/// Makes `email` the active account at time `now` (see [`set_active_spec`]).
pub fn set_active_account_at(reg: &mut Registry, email: &str, now: i64)
    ensures
        final(reg)@ == set_active_spec(old(reg)@, email@, now),
{
    let wanted = String::from_str(email);
    if let Some(active) = &reg.active_email {
        if *active == wanted {
            return;
        }
    }
    reg.active_email = Some(wanted);
    let found = find_account(&reg.accounts, &String::from_str(email));
    proof {
        lemma_email_index(reg.accounts.deep_view(), email@);
    }
    if let Some(i) = found {
        let ghost s = reg.accounts.deep_view();
        let mut rec = reg.accounts.remove(i);
        rec.last_used_at = Some(now);
        reg.accounts.insert(i, rec);
        assert(reg.accounts.deep_view() =~= s.update(i as int, AccountView { last_used_at: Some(now), ..s[i as int] }));
    }
}

/// Makes `email` the active account now (see [`set_active_spec`]).
pub fn set_active_account(reg: &mut Registry, email: &str)
    ensures
        exists|now: i64| final(reg)@ == set_active_spec(old(reg)@, email@, now),
{
    let now = now_timestamp();
    set_active_account_at(reg, email, now);
}

/// The accounts after the quota snapshot `snapshot`, taken at `now`, is
/// stored on the first record of `email`; unchanged when there is none.
pub open spec fn update_usage_spec(s: Seq<AccountView>, email: Seq<char>, snapshot: SnapshotView, now: i64) -> Seq<AccountView> {
    let i = email_index(s, email);
    if i < 0 {
        s
    } else {
        s.update(i, AccountView { last_usage: Some(snapshot), last_usage_at: Some(now), ..s[i] })
    }
}

/// Stores a quota snapshot taken at `now` on the account `email`
/// (see [`update_usage_spec`]).
pub fn update_usage_at(reg: &mut Registry, email: &str, snapshot: RateLimitSnapshot, now: i64)
    ensures
        final(reg)@.accounts == update_usage_spec(old(reg)@.accounts, email@, snapshot@, now),
        final(reg)@.active_email == old(reg)@.active_email,
        final(reg)@.version == old(reg)@.version,
{
    let found = find_account(&reg.accounts, &String::from_str(email));
    proof {
        lemma_email_index(reg.accounts.deep_view(), email@);
    }
    if let Some(i) = found {
        let ghost s = reg.accounts.deep_view();
        let ghost sv = snapshot@;
        let mut rec = reg.accounts.remove(i);
        rec.last_usage = Some(snapshot);
        rec.last_usage_at = Some(now);
        reg.accounts.insert(i, rec);
        assert(reg.accounts.deep_view() =~= update_usage_spec(s, email@, sv, now));
    }
}

/// Stores a quota snapshot taken now on the account `email`
/// (see [`update_usage_spec`]).
pub fn update_usage(reg: &mut Registry, email: &str, snapshot: RateLimitSnapshot)
    ensures
        exists|now: i64| final(reg)@.accounts == update_usage_spec(old(reg)@.accounts, email@, snapshot@, now),
        final(reg)@.active_email == old(reg)@.active_email,
        final(reg)@.version == old(reg)@.version,
{
    let now = now_timestamp();
    update_usage_at(reg, email, snapshot, now);
}

// ─── Choosing the account with the most quota ───

/// The remaining share of a window, in whole percent.
pub open spec fn window_remaining(w: WindowView) -> i64 {
    remaining_from_used(w.used_percent.rounded)
}

/// The quota score of a snapshot: the smaller of the remaining shares of its
/// 5-hour and weekly windows, the one that is present if only one is, and
/// -1 if neither is.
pub open spec fn score_spec(usage: Option<SnapshotView>) -> i64 {
    let w5 = resolve_window(usage, 300, true);
    let ww = resolve_window(usage, 10080, false);
    if w5 is Some && ww is Some {
        let a = window_remaining(w5->0);
        let b = window_remaining(ww->0);
        if a <= b { a } else { b }
    } else if w5 is Some {
        window_remaining(w5->0)
    } else if ww is Some {
        window_remaining(ww->0)
    } else {
        -1i64
    }
}

/// The quota score of a snapshot (see [`score_spec`]).
pub fn usage_score(usage: &Option<RateLimitSnapshot>) -> (r: i64)
    ensures
        r == score_spec(usage.deep_view()),
        -1 <= r <= 100,
{
    let rate_5h = resolve_rate_window(usage, 300, true);
    let rate_week = resolve_rate_window(usage, 10080, false);
    let rem_5h = match rate_5h {
        Some(w) => Some(remaining_percent(&w.used_percent)),
        None => None,
    };
    let rem_week = match rate_week {
        Some(w) => Some(remaining_percent(&w.used_percent)),
        None => None,
    };
    match (rem_5h, rem_week) {
        (Some(a), Some(b)) => if a <= b { a } else { b },
        (Some(a), None) => a,
        (None, Some(b)) => b,
        (None, None) => -1,
    }
}

/// When the last snapshot of an account was taken, -1 if never.
pub open spec fn seen_spec(r: AccountView) -> i64 {
    match r.last_usage_at {
        Some(t) => t,
        None => -1i64,
    }
}

/// `a` ranks above `b`: a higher quota score, or an equal score and a more
/// recent snapshot.
pub open spec fn ranks_above(a: AccountView, b: AccountView) -> bool {
    score_spec(a.last_usage) > score_spec(b.last_usage)
        || (score_spec(a.last_usage) == score_spec(b.last_usage) && seen_spec(a) > seen_spec(b))
}

/// The position of the account with the most quota left: no account ranks
/// above it, and it ranks above every account before it (the first of the
/// best). `None` exactly when there is no account.
pub fn select_best_account_index_by_usage(reg: &Registry) -> (r: Option<usize>)
    ensures
        r is None <==> reg@.accounts.len() == 0,
        r matches Some(k) ==> {
            &&& k < reg@.accounts.len()
            &&& forall|j: int| 0 <= j < reg@.accounts.len() ==> !ranks_above(reg@.accounts[j], #[trigger] reg@.accounts[k as int])
            &&& forall|j: int| 0 <= j < k ==> ranks_above(reg@.accounts[k as int], #[trigger] reg@.accounts[j])
        },
{
    let ghost s = reg@.accounts;
    if reg.accounts.len() == 0 {
        return None;
    }
    let mut best_idx: Option<usize> = None;
    let mut best_score: i64 = -2;
    let mut best_seen: i64 = -1;
    let mut i: usize = 0;
    while i < reg.accounts.len()
        invariant
            s == reg@.accounts,
            i <= reg.accounts.len(),
            i == 0 <==> best_idx is None,
            best_idx is None ==> best_score == -2 && best_seen == -1,
            best_idx matches Some(k) ==> {
                &&& k < i
                &&& best_score == score_spec(s[k as int].last_usage)
                &&& best_seen == seen_spec(s[k as int])
                &&& forall|j: int| 0 <= j < i ==> !ranks_above(s[j], #[trigger] s[k as int])
                &&& forall|j: int| 0 <= j < k ==> ranks_above(s[k as int], #[trigger] s[j])
            },
        decreases reg.accounts.len() - i,
    {
        let rec = &reg.accounts[i];
        let score = usage_score(&rec.last_usage);
        let seen = match rec.last_usage_at {
            Some(t) => t,
            None => -1,
        };
        assert(s[i as int] == rec@);
        if score > best_score || (score == best_score && seen > best_seen) {
            best_score = score;
            best_seen = seen;
            best_idx = Some(i);
        }
        i += 1;
    }
    best_idx
}

// ─── Removal ───

/// Position `i` is among `indices`.
pub open spec fn is_marked(indices: Seq<usize>, i: int) -> bool {
    exists|k: int| 0 <= k < indices.len() && indices[k] == i
}

/// The first `n` accounts of `s` whose positions are not among `indices`, in order.
pub open spec fn kept_accounts(s: Seq<AccountView>, indices: Seq<usize>, n: nat) -> Seq<AccountView>
    decreases n,
{
    if n == 0 {
        Seq::empty()
    } else {
        let rest = kept_accounts(s, indices, (n - 1) as nat);
        if is_marked(indices, n - 1) {
            rest
        } else {
            rest.push(s[n - 1])
        }
    }
}

/// The e-mail addresses of the first `n` accounts of `s` whose positions are
/// among `indices`, in order.
pub open spec fn removed_emails(s: Seq<AccountView>, indices: Seq<usize>, n: nat) -> Seq<Seq<char>>
    decreases n,
{
    if n == 0 {
        Seq::empty()
    } else {
        let rest = removed_emails(s, indices, (n - 1) as nat);
        if is_marked(indices, n - 1) {
            rest.push(s[n - 1].email)
        } else {
            rest
        }
    }
}

/// The active account is among the accounts at `indices`.
pub open spec fn active_removed(r: RegistryView, indices: Seq<usize>) -> bool {
    r.active_email is Some && exists|i: int|
        0 <= i < r.accounts.len() && is_marked(indices, i) && #[trigger] r.accounts[i].email == r.active_email->0
}

proof fn lemma_removal_prefix(s: Seq<AccountView>, indices: Seq<usize>, n: nat)
    requires
        n <= s.len(),
    ensures
        forall|k: int|
            0 <= k < indices.len() && indices[k] < n ==> removed_emails(s, indices, n).contains(
                #[trigger] s[indices[k] as int].email,
            ),
        forall|i: int|
            0 <= i < n && (forall|k: int| 0 <= k < indices.len() ==> indices[k] != i) ==> kept_accounts(
                s,
                indices,
                n,
            ).contains(#[trigger] s[i]),
        forall|x: int|
            0 <= x < kept_accounts(s, indices, n).len() ==> exists|i: int|
                0 <= i < n && #[trigger] kept_accounts(s, indices, n)[x] == #[trigger] s[i] && (forall|k: int|
                    0 <= k < indices.len() ==> indices[k] != i),
        kept_accounts(s, indices, n).len() + removed_emails(s, indices, n).len() == n,
    decreases n,
{
    if n > 0 {
        let m = (n - 1) as nat;
        lemma_removal_prefix(s, indices, m);
        let k0 = kept_accounts(s, indices, m);
        let r0 = removed_emails(s, indices, m);
        let k1 = kept_accounts(s, indices, n);
        let r1 = removed_emails(s, indices, n);
        if is_marked(indices, m as int) {
            assert(k1 == k0);
            assert(r1 == r0.push(s[m as int].email));
            assert forall|k: int| 0 <= k < indices.len() && indices[k] < n implies r1.contains(
                #[trigger] s[indices[k] as int].email,
            ) by {
                if indices[k] < m {
                    let j = choose|j: int| 0 <= j < r0.len() && r0[j] == s[indices[k] as int].email;
                    assert(r1[j] == r0[j]);
                } else {
                    assert(r1[r0.len() as int] == s[indices[k] as int].email);
                }
            }
            assert forall|x: int| 0 <= x < k1.len() implies exists|i: int|
                0 <= i < n && #[trigger] k1[x] == #[trigger] s[i] && (forall|k: int| 0 <= k < indices.len() ==> indices[k] != i) by {
                let i = choose|i: int|
                    0 <= i < m && k0[x] == #[trigger] s[i] && (forall|k: int| 0 <= k < indices.len() ==> indices[k] != i);
                assert(k1[x] == s[i]);
            }
        } else {
            assert(k1 == k0.push(s[m as int]));
            assert(r1 == r0);
            assert forall|k: int| 0 <= k < indices.len() && indices[k] < n implies r1.contains(
                #[trigger] s[indices[k] as int].email,
            ) by {
                assert(indices[k] != m);
            }
            assert forall|i: int|
                0 <= i < n && (forall|k: int| 0 <= k < indices.len() ==> indices[k] != i) implies k1.contains(
                #[trigger] s[i],
            ) by {
                if i < m {
                    let j = choose|j: int| 0 <= j < k0.len() && k0[j] == s[i];
                    assert(k1[j] == k0[j]);
                } else {
                    assert(k1[k0.len() as int] == s[i]);
                }
            }
            assert forall|x: int| 0 <= x < k1.len() implies exists|i: int|
                0 <= i < n && #[trigger] k1[x] == #[trigger] s[i] && (forall|k: int| 0 <= k < indices.len() ==> indices[k] != i) by {
                if x < k0.len() {
                    let i = choose|i: int|
                        0 <= i < m && k0[x] == #[trigger] s[i] && (forall|k: int| 0 <= k < indices.len() ==> indices[k] != i);
                    assert(k1[x] == s[i]);
                } else {
                    assert(k1[x] == s[m as int]);
                }
            }
        }
    }
}

/// Removing accounts takes out exactly the accounts at the positions asked
/// for: the address of every account at one of `indices` is among those
/// whose files are deleted, and (addresses being distinct) no account left
/// has it; every account at no such position is left; and as many accounts
/// are left as there were, less those removed.
pub proof fn lemma_removal_takes_out_marked(s: Seq<AccountView>, indices: Seq<usize>)
    ensures
        forall|k: int|
            0 <= k < indices.len() && indices[k] < s.len() ==> removed_emails(s, indices, s.len()).contains(
                #[trigger] s[indices[k] as int].email,
            ),
        emails_unique(s) ==> forall|k: int, x: int|
            0 <= k < indices.len() && indices[k] < s.len() && 0 <= x < kept_accounts(s, indices, s.len()).len()
                ==> #[trigger] kept_accounts(s, indices, s.len())[x].email != #[trigger] s[indices[k] as int].email,
        forall|i: int|
            0 <= i < s.len() && (forall|k: int| 0 <= k < indices.len() ==> indices[k] != i) ==> kept_accounts(
                s,
                indices,
                s.len(),
            ).contains(#[trigger] s[i]),
        kept_accounts(s, indices, s.len()).len() + removed_emails(s, indices, s.len()).len() == s.len(),
{
    lemma_removal_prefix(s, indices, s.len());
    let kept = kept_accounts(s, indices, s.len());
    if emails_unique(s) {
        assert forall|k: int, x: int|
            0 <= k < indices.len() && indices[k] < s.len() && 0 <= x < kept.len() implies #[trigger] kept[x].email
            != #[trigger] s[indices[k] as int].email by {
            let i = choose|i: int|
                0 <= i < s.len() && kept[x] == #[trigger] s[i] && (forall|k: int| 0 <= k < indices.len() ==> indices[k] != i);
            assert(indices[k] != i);
        }
    }
}

proof fn lemma_nothing_marked(s: Seq<AccountView>, indices: Seq<usize>, n: nat)
    requires
        indices.len() == 0,
        n <= s.len(),
    ensures
        kept_accounts(s, indices, n) == s.take(n as int),
        removed_emails(s, indices, n) == Seq::<Seq<char>>::empty(),
    decreases n,
{
    if n > 0 {
        lemma_nothing_marked(s, indices, (n - 1) as nat);
        assert(s.take(n as int) =~= s.take(n - 1).push(s[n - 1]));
    }
}

/// Whether some account flagged in `removed` has the address `active`.
fn active_among_removed(accounts: &Vec<AccountRecord>, removed: &Vec<bool>, active: &String) -> (r: bool)
    requires
        removed@.len() == accounts@.len(),
    ensures
        r == exists|i: int| 0 <= i < accounts@.len() && removed@[i] && #[trigger] accounts.deep_view()[i].email == active@,
{
    let n = accounts.len();
    let mut i: usize = 0;
    while i < n
        invariant
            n == accounts@.len(),
            removed@.len() == n,
            i <= n,
            forall|j: int| 0 <= j < i ==> !(removed@[j] && #[trigger] accounts.deep_view()[j].email == active@),
        decreases n - i,
    {
        if removed[i] && accounts[i].email == *active {
            assert(accounts.deep_view()[i as int].email == active@);
            return true;
        }
        i += 1;
    }
    false
}

/// Removes the accounts at the positions `indices` (positions past the end
/// are ignored) and gives back the paths of their authentication files,
/// which are to be deleted, in the accounts' order. The active account is
/// cleared when it is among those removed; the remaining accounts keep
/// their order.
pub fn remove_accounts(codex_home: &str, reg: &mut Registry, indices: &[usize]) -> (paths: Vec<String>)
    ensures
        final(reg)@.version == old(reg)@.version,
        final(reg)@.accounts == kept_accounts(old(reg)@.accounts, indices@, old(reg)@.accounts.len()),
        final(reg)@.active_email == if active_removed(old(reg)@, indices@) { None } else { old(reg)@.active_email },
        paths@.len() == removed_emails(old(reg)@.accounts, indices@, old(reg)@.accounts.len()).len(),
        forall|k: int| 0 <= k < paths@.len() ==> #[trigger] paths@[k]@ == account_auth_path_spec(
            codex_home@,
            removed_emails(old(reg)@.accounts, indices@, old(reg)@.accounts.len())[k],
        ),
{
    let ghost s = reg@.accounts;
    let n = reg.accounts.len();
    let mut paths: Vec<String> = Vec::new();
    if indices.len() == 0 || n == 0 {
        proof {
            if indices.len() == 0 {
                lemma_nothing_marked(s, indices@, s.len());
                assert(s.take(s.len() as int) =~= s);
            }
            assert(!active_removed(reg@, indices@));
        }
        return paths;
    }
    let mut removed: Vec<bool> = vec![false; n];
    let mut p: usize = 0;
    while p < indices.len()
        invariant
            n == s.len(),
            removed@.len() == n,
            p <= indices@.len(),
            forall|i: int| 0 <= i < n ==> removed@[i] == exists|k: int| 0 <= k < p && indices@[k] == i,
        decreases indices@.len() - p,
    {
        let idx = indices[p];
        if idx < n {
            removed.set(idx, true);
        }
        assert forall|i: int| 0 <= i < n implies removed@[i] == exists|k: int| 0 <= k < p + 1 && indices@[k] == i by {
            if indices@[p as int] == i {
                assert(0 <= p < p + 1 && indices@[p as int] == i);
            }
            if exists|k: int| 0 <= k < p + 1 && indices@[k] == i {
                let k = choose|k: int| 0 <= k < p + 1 && indices@[k] == i;
                if k < p {
                    assert(exists|k: int| 0 <= k < p && indices@[k] == i);
                }
            }
        }
        p += 1;
    }
    assert forall|i: int| 0 <= i < n implies removed@[i] == is_marked(indices@, i) by {}

    if let Some(active) = &reg.active_email {
        if active_among_removed(&reg.accounts, &removed, active) {
            reg.active_email = None;
        }
    }
    let ghost r0 = reg@;
    assert(r0.accounts == s);

    let mut new_accounts: Vec<AccountRecord> = Vec::new();
    let mut i: usize = 0;
    while i < n
        invariant
            n == s.len(),
            s == reg@.accounts,
            removed@.len() == n,
            forall|i: int| 0 <= i < n ==> removed@[i] == is_marked(indices@, i),
            i <= n,
            new_accounts.deep_view() == kept_accounts(s, indices@, i as nat),
            paths@.len() == removed_emails(s, indices@, i as nat).len(),
            forall|k: int| 0 <= k < paths@.len() ==> #[trigger] paths@[k]@ == account_auth_path_spec(
                codex_home@,
                removed_emails(s, indices@, i as nat)[k],
            ),
        decreases n - i,
    {
        let rec = &reg.accounts[i];
        assert(rec@ == s[i as int]);
        if removed[i] {
            let path = account_auth_path(codex_home, rec.email.as_str());
            paths.push(path);
        } else {
            let ghost before = new_accounts.deep_view();
            new_accounts.push(rec.duplicate());
            assert(new_accounts.deep_view() =~= before.push(s[i as int]));
        }
        i += 1;
    }
    reg.accounts = new_accounts;
    paths
}

// ─── Refreshing from authentication files ───

/// A record refreshed from what its own authentication file says: when the
/// file names the record's address, the plan and the authentication mode
/// are taken from it; otherwise the record stays as it is.
pub open spec fn refreshed_record(rec: AccountView, info: Option<AuthInfoView>) -> AccountView {
    match info {
        Some(i) => if i.email == Some(rec.email) {
            AccountView { plan: i.plan, auth_mode: Some(i.auth_mode), ..rec }
        } else {
            rec
        },
        None => rec,
    }
}

/// Refreshes the plan and authentication mode of the accounts from their
/// own authentication files: `infos[i]` is what the file of the `i`-th
/// account says (`None` when it has none). Accounts past the end of `infos`
/// are left as they are.
pub fn refresh_accounts_from_auth(reg: &mut Registry, infos: &Vec<Option<AuthInfo>>)
    ensures
        final(reg)@.version == old(reg)@.version,
        final(reg)@.active_email == old(reg)@.active_email,
        final(reg)@.accounts.len() == old(reg)@.accounts.len(),
        forall|i: int| 0 <= i < old(reg)@.accounts.len() ==> #[trigger] final(reg)@.accounts[i] == if i < infos@.len() {
            refreshed_record(old(reg)@.accounts[i], infos@[i].deep_view())
        } else {
            old(reg)@.accounts[i]
        },
{
    let ghost s = reg@.accounts;
    let n = reg.accounts.len();
    let mut i: usize = 0;
    while i < n && i < infos.len()
        invariant
            n == s.len(),
            reg@.accounts.len() == n,
            reg@.version == old(reg)@.version,
            reg@.active_email == old(reg)@.active_email,
            s == old(reg)@.accounts,
            i <= n,
            forall|j: int| 0 <= j < n ==> #[trigger] reg@.accounts[j] == if j < i && j < infos@.len() {
                refreshed_record(s[j], infos@[j].deep_view())
            } else {
                s[j]
            },
        decreases n - i,
    {
        if let Some(info) = &infos[i] {
            if let Some(email) = &info.email {
                if *email == reg.accounts[i].email {
                    let ghost before = reg@.accounts;
                    assert(infos@[i as int].deep_view() == Some(info.deep_view()));
                    assert(before[i as int] == s[i as int]);
                    let mut rec = reg.accounts.remove(i);
                    rec.plan = info.plan;
                    rec.auth_mode = Some(info.auth_mode);
                    reg.accounts.insert(i, rec);
                    assert(reg@.accounts =~= before.update(i as int, refreshed_record(s[i as int], infos@[i as int].deep_view())));
                }
            }
        }
        i += 1;
    }
}

// ─── Following the active authentication file ───

/// What following the authentication file that Codex reads comes to.
#[derive(Debug, PartialEq, Eq, Structural)]
pub enum SyncPlan {
    /// The registry is empty and the file names no address: nothing is imported.
    NoEmailToImport,
    /// The file names no address: nothing is followed.
    NoEmailToSync,
    /// The file's account is not in the registry: its file is copied into
    /// the accounts directory and the account is added.
    ImportNew,
    /// The file's account is in the registry: its copy of the file is brought
    /// up to date and its plan and mode are refreshed.
    UpdateExisting,
}

/// What following the authentication file described by `info` comes to.
pub open spec fn sync_plan_spec(r: RegistryView, info: AuthInfoView) -> SyncPlan {
    if info.email is None {
        if r.accounts.len() == 0 {
            SyncPlan::NoEmailToImport
        } else {
            SyncPlan::NoEmailToSync
        }
    } else if email_index(r.accounts, info.email->0) < 0 {
        SyncPlan::ImportNew
    } else {
        SyncPlan::UpdateExisting
    }
}

/// Decides what following the authentication file described by `info` comes to.
pub fn plan_sync(reg: &Registry, info: &AuthInfo) -> (r: SyncPlan)
    ensures
        r == sync_plan_spec(reg@, info@),
{
    match &info.email {
        None => if reg.accounts.len() == 0 {
            SyncPlan::NoEmailToImport
        } else {
            SyncPlan::NoEmailToSync
        },
        Some(email) => match find_account(&reg.accounts, email) {
            None => SyncPlan::ImportNew,
            Some(_) => SyncPlan::UpdateExisting,
        },
    }
}

/// The registry, and whether the active account changed, after following
/// the authentication file described by `info` at time `now`: a new account
/// is added (without alias) and made active; a known account takes the
/// file's plan, when it names one, and its mode, and is made active.
pub open spec fn sync_spec(r: RegistryView, info: AuthInfoView, now: i64) -> (RegistryView, bool) {
    match info.email {
        None => (r, false),
        Some(e) => {
            let i = email_index(r.accounts, e);
            if i < 0 {
                let r1 = RegistryView { accounts: upsert_spec(r.accounts, record_from_auth(""@, info, now)), ..r };
                (set_active_spec(r1, e, now), true)
            } else {
                let old = r.accounts[i];
                let upd = AccountView {
                    plan: if info.plan is Some { info.plan } else { old.plan },
                    auth_mode: Some(info.auth_mode),
                    ..old
                };
                (set_active_spec(RegistryView { accounts: r.accounts.update(i, upd), ..r }, e, now), r.active_email != Some(e))
            }
        },
    }
}

/// Follows the authentication file described by `info` at time `now`
/// (see [`sync_spec`]); afterwards its account is in the registry and active.
pub fn apply_sync_at(reg: &mut Registry, info: &AuthInfo, now: i64) -> (changed: bool)
    ensures
        (final(reg)@, changed) == sync_spec(old(reg)@, info@, now),
        info@.email matches Some(e) ==> final(reg)@.active_email == Some(e)
            && email_index(final(reg)@.accounts, e) >= 0,
{
    let email = match &info.email {
        None => return false,
        Some(e) => e,
    };
    let ghost r0 = reg@;
    let found = find_account(&reg.accounts, email);
    proof {
        lemma_email_index(r0.accounts, email@);
    }
    match found {
        None => {
            let created = account_from_auth_at("", info, now);
            if let Ok(rec) = created {
                upsert_account(reg, rec);
            }
            let ghost r1 = reg@;
            set_active_account_at(reg, email.as_str(), now);
            proof {
                lemma_email_index(r1.accounts, email@);
                lemma_email_index(reg@.accounts, email@);
                if email_index(r1.accounts, email@) >= 0 && email_index(reg@.accounts, email@) < 0 {
                    assert(reg@.accounts[email_index(r1.accounts, email@)].email == email@);
                }
            }
            true
        },
        Some(idx) => {
            let changed = match &reg.active_email {
                Some(a) => *a != *email,
                None => true,
            };
            let mut rec = reg.accounts.remove(idx);
            if info.plan.is_some() {
                rec.plan = info.plan;
            }
            rec.auth_mode = Some(info.auth_mode);
            reg.accounts.insert(idx, rec);
            let ghost r1 = reg@;
            assert(r1.accounts =~= r0.accounts.update(idx as int, AccountView {
                plan: if info@.plan is Some { info@.plan } else { r0.accounts[idx as int].plan },
                auth_mode: Some(info@.auth_mode),
                ..r0.accounts[idx as int]
            }));
            set_active_account_at(reg, email.as_str(), now);
            proof {
                lemma_email_index(r1.accounts, email@);
                lemma_email_index(reg@.accounts, email@);
                assert(r1.accounts[idx as int].email == email@);
                if email_index(reg@.accounts, email@) < 0 {
                    assert(reg@.accounts[idx as int].email == email@);
                }
            }
            changed
        },
    }
}

/// Follows the authentication file described by `info` now (see [`sync_spec`]).
pub fn sync_active_account_from_auth(reg: &mut Registry, info: &AuthInfo) -> (changed: bool)
    ensures
        exists|now: i64| (final(reg)@, changed) == sync_spec(old(reg)@, info@, now),
        info@.email matches Some(e) ==> final(reg)@.active_email == Some(e)
            && email_index(final(reg)@.accounts, e) >= 0,
{
    let now = now_timestamp();
    apply_sync_at(reg, info, now)
}

// ─── Importing ───

/// The alias an import gives: the one asked for, else none.
pub open spec fn import_alias(explicit_alias: Option<Seq<char>>) -> Seq<char> {
    match explicit_alias {
        Some(a) => a,
        None => ""@,
    }
}

/// The accounts after an import of the account `info` describes, created
/// at `now`: the new record is merged as [`upsert_spec`] merges, and an
/// alias asked for is then given to the account of that address, whichever
/// record was kept.
pub open spec fn import_spec(
    s: Seq<AccountView>,
    info: AuthInfoView,
    explicit_alias: Option<Seq<char>>,
    now: i64,
) -> Seq<AccountView> {
    let rec = record_from_auth(import_alias(explicit_alias), info, now);
    let merged = upsert_spec(s, rec);
    match explicit_alias {
        Some(a) => {
            let k = email_index(merged, rec.email);
            merged.update(k, AccountView { alias: a, ..merged[k] })
        },
        None => merged,
    }
}

/// Adds the account of an imported authentication file, created at `now`
/// (see [`import_spec`]); fails, leaving the registry as it is, exactly
/// when the file names no address.
pub fn import_auth_file_at(reg: &mut Registry, info: &AuthInfo, explicit_alias: Option<&str>, now: i64) -> (r: Result<(), RegistryError>)
    ensures
        final(reg)@.version == old(reg)@.version,
        final(reg)@.active_email == old(reg)@.active_email,
        match r {
            Ok(()) => info@.email is Some && final(reg)@.accounts == import_spec(
                old(reg)@.accounts,
                info@,
                explicit_alias.deep_view(),
                now,
            ),
            Err(e) => info@.email is None && e == RegistryError::MissingEmail && final(reg)@ == old(reg)@,
        },
{
    let alias = match explicit_alias {
        Some(a) => a,
        None => "",
    };
    match account_from_auth_at(alias, info, now) {
        Ok(rec) => {
            let email = rec.email.clone();
            upsert_account(reg, rec);
            if let Some(a) = explicit_alias {
                let ghost merged = reg.accounts.deep_view();
                let found = find_account(&reg.accounts, &email);
                proof {
                    lemma_email_index(merged, email@);
                }
                if let Some(k) = found {
                    let mut kept = reg.accounts.remove(k);
                    kept.alias = String::from_str(a);
                    reg.accounts.insert(k, kept);
                    assert(reg.accounts.deep_view() =~= merged.update(
                        k as int,
                        AccountView { alias: a@, ..merged[k as int] },
                    ));
                }
            }
            Ok(())
        },
        Err(e) => Err(e),
    }
}

/// Adds the account of an imported authentication file, created now
/// (see [`import_auth_file_at`]).
pub fn import_auth_file(reg: &mut Registry, info: &AuthInfo, explicit_alias: Option<&str>) -> (r: Result<(), RegistryError>)
    ensures
        final(reg)@.version == old(reg)@.version,
        final(reg)@.active_email == old(reg)@.active_email,
        match r {
            Ok(()) => info@.email is Some && exists|now: i64| final(reg)@.accounts == import_spec(
                old(reg)@.accounts,
                info@,
                explicit_alias.deep_view(),
                now,
            ),
            Err(e) => info@.email is None && e == RegistryError::MissingEmail && final(reg)@ == old(reg)@,
        },
{
    let now = now_timestamp();
    import_auth_file_at(reg, info, explicit_alias, now)
}

/// `a` comes no later than `b` in the byte order of their UTF-8 forms.
pub open spec fn bytes_le(a: Seq<u8>, b: Seq<u8>) -> bool
    decreases a.len(),
{
    if a.len() == 0 {
        true
    } else if b.len() == 0 {
        false
    } else if a[0] != b[0] {
        a[0] < b[0]
    } else {
        bytes_le(a.drop_first(), b.drop_first())
    }
}

/// Sorts texts in ascending order; this is `slice::sort` on `String`s,
/// which the standard library documents as a stable sort by `Ord`, and
/// `String`'s `Ord` orders by the bytes of the text. The sorted texts are
/// the same texts, in that order.
#[verifier::external_body]
fn sort_texts(v: &mut Vec<String>)
    ensures
        final(v).deep_view().to_multiset() == old(v).deep_view().to_multiset(),
        forall|i: int, j: int| 0 <= i < j < final(v)@.len() ==> bytes_le(
            encode_utf8(#[trigger] final(v)@[i]@),
            encode_utf8(#[trigger] final(v)@[j]@),
        ),
{
    v.sort();
}

/// The first `n` of `names` that end in `.json`, in order.
pub open spec fn json_names(names: Seq<Seq<char>>, n: nat) -> Seq<Seq<char>>
    decreases n,
{
    if n == 0 {
        Seq::empty()
    } else if has_suffix(names[n - 1], ".json"@) {
        json_names(names, (n - 1) as nat).push(names[n - 1])
    } else {
        json_names(names, (n - 1) as nat)
    }
}

/// The file names of a directory that an import takes in: those that end
/// in `.json`, sorted in ascending order.
pub fn select_import_names(names: &Vec<String>) -> (r: Vec<String>)
    ensures
        r.deep_view().to_multiset() == json_names(names.deep_view(), names@.len()).to_multiset(),
        forall|i: int, j: int| 0 <= i < j < r@.len() ==> bytes_le(encode_utf8(#[trigger] r@[i]@), encode_utf8(#[trigger] r@[j]@)),
{
    let mut picked: Vec<String> = Vec::new();
    let mut i: usize = 0;
    while i < names.len()
        invariant
            i <= names@.len(),
            picked.deep_view() == json_names(names.deep_view(), i as nat),
        decreases names.len() - i,
    {
        if ends_with(names[i].as_str(), ".json") {
            let ghost before = picked.deep_view();
            picked.push(names[i].clone());
            assert(picked.deep_view() =~= before.push(names.deep_view()[i as int]));
        }
        i += 1;
    }
    sort_texts(&mut picked);
    picked
}

/// How many of the `n` first outcomes are successes.
pub open spec fn count_true(outcomes: Seq<bool>, n: nat) -> nat
    decreases n,
{
    if n == 0 {
        0
    } else {
        count_true(outcomes, (n - 1) as nat) + if outcomes[n - 1] { 1nat } else { 0nat }
    }
}

proof fn lemma_count_true_bound(outcomes: Seq<bool>, n: nat)
    ensures
        count_true(outcomes, n) <= n,
    decreases n,
{
    if n > 0 {
        lemma_count_true_bound(outcomes, (n - 1) as nat);
    }
}

/// The summary of a directory import whose files gave `outcomes`
/// (`true` for a file taken in, `false` for one passed over).
pub fn summarize_imports(outcomes: &Vec<bool>) -> (r: ImportSummary)
    ensures
        r.imported == count_true(outcomes@, outcomes@.len()),
        r.imported + r.skipped == outcomes@.len(),
{
    let mut imported: usize = 0;
    let mut skipped: usize = 0;
    let mut i: usize = 0;
    while i < outcomes.len()
        invariant
            i <= outcomes@.len(),
            imported == count_true(outcomes@, i as nat),
            imported + skipped == i,
        decreases outcomes.len() - i,
    {
        if outcomes[i] {
            imported += 1;
        } else {
            skipped += 1;
        }
        i += 1;
    }
    ImportSummary { imported, skipped }
}

// ─── Backups ───

/// The largest number of backups of one file that are kept.
pub const MAX_BACKUPS: usize = 5;

/// The `k`-th candidate file name for a backup of `base_name` taken at `ts`
/// milliseconds: `<base_name>.bak.<ts>` first, then the same with `.<k>`
/// appended.
pub open spec fn backup_name(base_name: Seq<char>, ts: i64, k: int) -> Seq<char> {
    let base = base_name + ".bak."@ + decimal(ts as int);
    if k == 0 {
        base
    } else {
        base + "."@ + decimal(k)
    }
}

/// The `k`-th candidate path for a backup of `base_name` taken at `ts`:
/// the candidate name in the directory `dir`.
pub open spec fn backup_candidate(dir: Seq<char>, base_name: Seq<char>, ts: i64, k: int) -> Seq<char> {
    join_path_spec(dir, backup_name(base_name, ts, k))
}

/// The path of a backup of `base_name` taken at `ts`, trying the candidates
/// from the `k`-th of the hundred on: the first whose name is not among
/// `taken`, the names already in the directory; none when all are taken.
pub open spec fn free_backup_from(
    dir: Seq<char>,
    base_name: Seq<char>,
    ts: i64,
    taken: Seq<Seq<char>>,
    k: nat,
) -> Option<Seq<char>>
    decreases 100 - k,
{
    if k >= 100 {
        None
    } else if !taken.contains(backup_name(base_name, ts, k as int)) {
        Some(backup_candidate(dir, base_name, ts, k as int))
    } else {
        free_backup_from(dir, base_name, ts, taken, k + 1)
    }
}

/// What finding a path for a backup gives: the first free candidate (see
/// [`free_backup_from`]), or [`RegistryError::NoBackupName`] when all are taken.
pub open spec fn backup_path_result(
    r: Result<Seq<char>, RegistryError>,
    dir: Seq<char>,
    base_name: Seq<char>,
    ts: i64,
    taken: Seq<Seq<char>>,
) -> bool {
    match r {
        Ok(p) => free_backup_from(dir, base_name, ts, taken, 0) == Some(p),
        Err(e) => e == RegistryError::NoBackupName && free_backup_from(dir, base_name, ts, taken, 0) is None,
    }
}

/// A path or an error, with the path taken as text.
pub open spec fn path_result(r: Result<String, RegistryError>) -> Result<Seq<char>, RegistryError> {
    match r {
        Ok(p) => Ok(p@),
        Err(e) => Err(e),
    }
}

fn name_taken(taken: &Vec<String>, name: &String) -> (r: bool)
    ensures
        r == taken.deep_view().contains(name@),
{
    let mut i: usize = 0;
    while i < taken.len()
        invariant
            i <= taken@.len(),
            forall|j: int| 0 <= j < i ==> taken.deep_view()[j] != name@,
        decreases taken@.len() - i,
    {
        if taken[i] == *name {
            assert(taken.deep_view()[i as int] == name@);
            return true;
        }
        i += 1;
    }
    proof {
        if taken.deep_view().contains(name@) {
            let j = choose|j: int| 0 <= j < taken.deep_view().len() && taken.deep_view()[j] == name@;
            assert(taken.deep_view()[j] != name@);
        }
    }
    false
}

/// Finds the path for a backup of `base_name` in `dir` taken at `ts`
/// milliseconds, given the names `taken` already in the directory: the
/// first of the hundred candidates whose name is free, an error when none
/// is (see [`backup_path_result`]).
pub fn make_backup_path_at(dir: &str, base_name: &str, ts: i64, taken: &Vec<String>) -> (r: Result<String, RegistryError>)
    ensures
        backup_path_result(
            path_result(r),
            dir@,
            base_name@,
            ts,
            taken.deep_view(),
        ),
{
    let mut base = String::from_str(base_name);
    base.append(".bak.");
    push_decimal(&mut base, ts);
    let mut attempt: i64 = 0;
    while attempt < 100
        invariant
            0 <= attempt <= 100,
            base@ == base_name@ + ".bak."@ + decimal(ts as int),
            free_backup_from(dir@, base_name@, ts, taken.deep_view(), 0) == free_backup_from(
                dir@,
                base_name@,
                ts,
                taken.deep_view(),
                attempt as nat,
            ),
        decreases 100 - attempt,
    {
        let name = if attempt == 0 {
            base.clone()
        } else {
            let mut n = base.clone();
            n.append(".");
            push_decimal(&mut n, attempt);
            n
        };
        assert(name@ =~= backup_name(base_name@, ts, attempt as int));
        if !name_taken(taken, &name) {
            return Ok(join_path(dir, name.as_str()));
        }
        attempt += 1;
    }
    Err(RegistryError::NoBackupName)
}

/// Finds the path for a backup of `base_name` in `dir` taken now, given the
/// names `taken` already in the directory (see [`make_backup_path_at`]).
pub fn make_backup_path(dir: &str, base_name: &str, taken: &Vec<String>) -> (r: Result<String, RegistryError>)
    ensures
        exists|ts: i64|
            #[trigger] backup_path_result(
                path_result(r),
                dir@,
                base_name@,
                ts,
                taken.deep_view(),
            ),
{
    let ts = now_millis();
    make_backup_path_at(dir, base_name, ts, taken)
}

/// The path a backup takes is free: its name is not among those taken.
pub proof fn lemma_backup_path_is_free(
    dir: Seq<char>,
    base_name: Seq<char>,
    ts: i64,
    taken: Seq<Seq<char>>,
    k: nat,
)
    ensures
        free_backup_from(dir, base_name, ts, taken, k) matches Some(p) ==> exists|j: int|
            k <= j < 100 && p == backup_candidate(dir, base_name, ts, j) && !taken.contains(
                #[trigger] backup_name(base_name, ts, j),
            ),
    decreases 100 - k,
{
    if k < 100 && taken.contains(backup_name(base_name, ts, k as int)) {
        lemma_backup_path_is_free(dir, base_name, ts, taken, k + 1);
    }
}

/// One entry of the accounts directory, as the pruning of backups sees it.
pub struct BackupEntry {
    pub name: String,
    pub path: String,
    /// Whether the entry's metadata could be read and it is a regular file.
    pub is_file: bool,
    /// Its modification time, in nanoseconds from the Unix epoch.
    pub modified: i128,
}

pub struct BackupView {
    pub name: Seq<char>,
    pub path: Seq<char>,
    pub is_file: bool,
    pub modified: i128,
}

impl DeepView for BackupEntry {
    type V = BackupView;

    open spec fn deep_view(&self) -> BackupView {
        BackupView { name: self.name@, path: self.path@, is_file: self.is_file, modified: self.modified }
    }
}

/// The entry is a backup of `base_name`: a file whose name starts with it
/// and holds `.bak.`.
pub open spec fn is_backup_of(e: BackupView, base_name: Seq<char>) -> bool {
    has_prefix(e.name, base_name) && has_infix(e.name, ".bak."@) && e.is_file
}

/// Entry `q` comes before entry `p` among the backups newest first:
/// it is newer, or as new and listed earlier.
pub open spec fn newer_than(es: Seq<BackupView>, q: int, p: int) -> bool {
    es[q].modified > es[p].modified || (es[q].modified == es[p].modified && q < p)
}

/// How many of the first `n` entries are backups of `base_name` that come
/// before entry `p` newest first.
pub open spec fn count_newer(es: Seq<BackupView>, base_name: Seq<char>, p: int, n: nat) -> nat
    decreases n,
{
    if n == 0 {
        0
    } else {
        count_newer(es, base_name, p, (n - 1) as nat) + if is_backup_of(es[n - 1], base_name) && newer_than(es, n - 1, p) {
            1nat
        } else {
            0nat
        }
    }
}

/// The paths of the backups among the first `n` entries that are to go,
/// in listing order: those with at least `max` backups before them newest
/// first, that is, all but the `max` newest.
pub open spec fn pruned_paths(es: Seq<BackupView>, base_name: Seq<char>, max: nat, n: nat) -> Seq<Seq<char>>
    decreases n,
{
    if n == 0 {
        Seq::empty()
    } else {
        let rest = pruned_paths(es, base_name, max, (n - 1) as nat);
        if is_backup_of(es[n - 1], base_name) && count_newer(es, base_name, n - 1, es.len()) >= max {
            rest.push(es[n - 1].path)
        } else {
            rest
        }
    }
}

proof fn lemma_count_newer_bound(es: Seq<BackupView>, base_name: Seq<char>, p: int, n: nat)
    ensures
        count_newer(es, base_name, p, n) <= n,
    decreases n,
{
    if n > 0 {
        lemma_count_newer_bound(es, base_name, p, (n - 1) as nat);
    }
}

fn is_backup(e: &BackupEntry, base_name: &str) -> (r: bool)
    ensures
        r == is_backup_of(e.deep_view(), base_name@),
{
    e.is_file && starts_with(e.name.as_str(), base_name) && contains_text(e.name.as_str(), ".bak.")
}

/// The paths of the backups of `base_name` among the directory entries
/// `entries` that are to be deleted so that only the `max` newest remain
/// (see [`pruned_paths`]).
pub fn prune_backups(entries: &Vec<BackupEntry>, base_name: &str, max: usize) -> (r: Vec<String>)
    ensures
        r.deep_view() == pruned_paths(entries.deep_view(), base_name@, max as nat, entries@.len()),
{
    let ghost es = entries.deep_view();
    let n = entries.len();
    let mut r: Vec<String> = Vec::new();
    let mut p: usize = 0;
    while p < n
        invariant
            n == entries@.len(),
            es == entries.deep_view(),
            p <= n,
            r.deep_view() == pruned_paths(es, base_name@, max as nat, p as nat),
        decreases n - p,
    {
        if is_backup(&entries[p], base_name) {
            let mut count: usize = 0;
            let mut q: usize = 0;
            while q < n
                invariant
                    n == entries@.len(),
                    es == entries.deep_view(),
                    p < n,
                    q <= n,
                    count == count_newer(es, base_name@, p as int, q as nat),
                decreases n - q,
            {
                proof {
                    lemma_count_newer_bound(es, base_name@, p as int, q as nat);
                }
                let e = &entries[q];
                if is_backup(e, base_name) && (e.modified > entries[p].modified || (e.modified == entries[p].modified && q < p)) {
                    count += 1;
                }
                q += 1;
            }
            if count >= max {
                let ghost before = r.deep_view();
                r.push(entries[p].path.clone());
                assert(r.deep_view() =~= before.push(es[p as int].path));
            }
        }
        p += 1;
    }
    r
}

// ─── Laws ───

/// Making the same account active a second time changes nothing more.
pub proof fn lemma_set_active_idempotent(r: RegistryView, email: Seq<char>, t1: i64, t2: i64)
    ensures
        set_active_spec(set_active_spec(r, email, t1), email, t2) == set_active_spec(r, email, t1),
{
}

/// Merging the same record a second time changes nothing more.
pub proof fn lemma_upsert_idempotent(s: Seq<AccountView>, rec: AccountView)
    ensures
        upsert_spec(upsert_spec(s, rec), rec) == upsert_spec(s, rec),
{
    let s1 = upsert_spec(s, rec);
    lemma_email_index(s, rec.email);
    lemma_email_index(s1, rec.email);
    let i = email_index(s, rec.email);
    if i < 0 {
        assert(s1[s.len() as int].email == rec.email);
        lemma_email_index_is(s1, rec.email, s.len() as int);
    } else {
        assert(s1[i].email == rec.email);
        lemma_email_index_is(s1, rec.email, i);
    }
}

/// After a merge, the record kept for the merged address is at least as
/// fresh as both the record merged in and the one there before.
pub proof fn lemma_upsert_keeps_fresher(s: Seq<AccountView>, rec: AccountView)
    ensures
        ({
            let s1 = upsert_spec(s, rec);
            let k = email_index(s1, rec.email);
            &&& 0 <= k < s1.len()
            &&& freshness(s1[k]) >= freshness(rec)
            &&& email_index(s, rec.email) >= 0 ==> k == email_index(s, rec.email) && freshness(s1[k]) >= freshness(s[k])
        }),
{
    let s1 = upsert_spec(s, rec);
    lemma_email_index(s, rec.email);
    lemma_email_index(s1, rec.email);
    let i = email_index(s, rec.email);
    if i < 0 {
        assert(s1[s.len() as int].email == rec.email);
        lemma_email_index_is(s1, rec.email, s.len() as int);
    } else {
        assert(s1[i].email == rec.email);
        lemma_email_index_is(s1, rec.email, i);
    }
}

/// A merge leaves the record of every other address where it was, and
/// every record after it is the merged one or the one there before.
pub proof fn lemma_upsert_others(s: Seq<AccountView>, rec: AccountView, e: Seq<char>)
    ensures
        e != rec.email ==> email_index(upsert_spec(s, rec), e) == email_index(s, e),
        e != rec.email && email_index(s, e) >= 0 ==> upsert_spec(s, rec)[email_index(s, e)] == s[email_index(s, e)],
        forall|x: int|
            0 <= x < upsert_spec(s, rec).len() ==> #[trigger] upsert_spec(s, rec)[x] == rec || (x < s.len()
                && upsert_spec(s, rec)[x] == s[x]),
{
    let s1 = upsert_spec(s, rec);
    lemma_email_index(s, rec.email);
    lemma_email_index(s, e);
    lemma_email_index(s1, e);
    if e != rec.email {
        let i = email_index(s, rec.email);
        assert forall|j: int| 0 <= j < s.len() implies #[trigger] s1[j].email == s[j].email by {
            if i >= 0 && j == i {
            }
        }
        let k = email_index(s, e);
        if k >= 0 {
            lemma_email_index_is(s1, e, k);
        } else {
            let k1 = email_index(s1, e);
            if k1 >= 0 {
                if k1 < s.len() {
                    assert(s1[k1].email == s[k1].email);
                } else {
                    assert(s1[k1] == rec);
                }
            }
        }
    }
}

proof fn lemma_update_keeps_unique(s: Seq<AccountView>, i: int, a: AccountView)
    requires
        emails_unique(s),
        0 <= i < s.len(),
        a.email == s[i].email,
    ensures
        emails_unique(s.update(i, a)),
{
    let t = s.update(i, a);
    assert forall|x: int, y: int| 0 <= x < t.len() && 0 <= y < t.len() && x != y implies t[x].email != t[y].email by {
        assert(t[x].email == s[x].email);
        assert(t[y].email == s[y].email);
    }
}

proof fn lemma_kept_unique(s: Seq<AccountView>, indices: Seq<usize>, n: nat)
    requires
        emails_unique(s),
        n <= s.len(),
    ensures
        emails_unique(kept_accounts(s, indices, n)),
        forall|x: int| 0 <= x < kept_accounts(s, indices, n).len() ==> exists|j: int|
            0 <= j < n && #[trigger] kept_accounts(s, indices, n)[x] == s[j],
    decreases n,
{
    if n > 0 {
        lemma_kept_unique(s, indices, (n - 1) as nat);
        let rest = kept_accounts(s, indices, (n - 1) as nat);
        if !is_marked(indices, n - 1) {
            let t = rest.push(s[n - 1]);
            assert forall|x: int| 0 <= x < t.len() implies exists|j: int| 0 <= j < n && #[trigger] t[x] == s[j] by {
                if x < rest.len() {
                    let j = choose|j: int| 0 <= j < n - 1 && rest[x] == s[j];
                    assert(t[x] == s[j]);
                } else {
                    assert(t[x] == s[n - 1]);
                }
            }
            assert forall|x: int, y: int| 0 <= x < t.len() && 0 <= y < t.len() && x != y implies t[x].email != t[y].email by {
                if x < rest.len() && y < rest.len() {
                    assert(t[x] == rest[x] && t[y] == rest[y]);
                } else if x < rest.len() {
                    let j = choose|j: int| 0 <= j < n - 1 && rest[x] == s[j];
                    assert(t[x] == s[j] && t[y] == s[n - 1]);
                } else if y < rest.len() {
                    let j = choose|j: int| 0 <= j < n - 1 && rest[y] == s[j];
                    assert(t[y] == s[j] && t[x] == s[n - 1]);
                }
            }
        }
    }
}

/// No operation on the registry makes two accounts share an address:
/// activating an account, storing a quota snapshot, refreshing from the
/// authentication files, removing accounts, following the active
/// authentication file and importing one all keep the addresses distinct.
pub proof fn lemma_operations_keep_emails_unique(
    r: RegistryView,
    email: Seq<char>,
    now: i64,
    snapshot: SnapshotView,
    infos: Seq<Option<AuthInfoView>>,
    indices: Seq<usize>,
    info: AuthInfoView,
    explicit_alias: Option<Seq<char>>,
)
    requires
        emails_unique(r.accounts),
    ensures
        emails_unique(set_active_spec(r, email, now).accounts),
        emails_unique(update_usage_spec(r.accounts, email, snapshot, now)),
        emails_unique(
            Seq::new(
                r.accounts.len(),
                |i: int| if i < infos.len() { refreshed_record(r.accounts[i], infos[i]) } else { r.accounts[i] },
            ),
        ),
        emails_unique(kept_accounts(r.accounts, indices, r.accounts.len())),
        emails_unique(sync_spec(r, info, now).0.accounts),
        info.email is Some ==> emails_unique(import_spec(r.accounts, info, explicit_alias, now)),
{
    let s = r.accounts;
    lemma_email_index(s, email);
    if email_index(s, email) >= 0 {
        let i = email_index(s, email);
        lemma_update_keeps_unique(s, i, AccountView { last_used_at: Some(now), ..s[i] });
        lemma_update_keeps_unique(s, i, AccountView { last_usage: Some(snapshot), last_usage_at: Some(now), ..s[i] });
    }
    let t = Seq::new(
        s.len(),
        |i: int| if i < infos.len() { refreshed_record(s[i], infos[i]) } else { s[i] },
    );
    assert forall|x: int, y: int| 0 <= x < t.len() && 0 <= y < t.len() && x != y implies t[x].email != t[y].email by {
        assert(t[x].email == s[x].email);
        assert(t[y].email == s[y].email);
    }
    lemma_kept_unique(s, indices, s.len());
    if info.email is Some {
        let e = info.email->0;
        let rec = record_from_auth(import_alias(explicit_alias), info, now);
        lemma_upsert_unique(s, rec);
        lemma_upsert_keeps_fresher(s, rec);
        if explicit_alias is Some {
            let merged = upsert_spec(s, rec);
            let k = email_index(merged, e);
            lemma_update_keeps_unique(merged, k, AccountView { alias: explicit_alias->0, ..merged[k] });
        }
        lemma_email_index(s, e);
        let i = email_index(s, e);
        if i < 0 {
            let rec0 = record_from_auth(""@, info, now);
            lemma_upsert_unique(s, rec0);
            let s1 = upsert_spec(s, rec0);
            lemma_email_index(s1, e);
            if email_index(s1, e) >= 0 {
                let k = email_index(s1, e);
                lemma_update_keeps_unique(s1, k, AccountView { last_used_at: Some(now), ..s1[k] });
            }
        } else {
            let upd = AccountView {
                plan: if info.plan is Some { info.plan } else { s[i].plan },
                auth_mode: Some(info.auth_mode),
                ..s[i]
            };
            lemma_update_keeps_unique(s, i, upd);
            let s1 = s.update(i, upd);
            lemma_email_index(s1, e);
            if email_index(s1, e) >= 0 {
                let k = email_index(s1, e);
                lemma_update_keeps_unique(s1, k, AccountView { last_used_at: Some(now), ..s1[k] });
            }
        }
    }
}

/// A merge keeps the addresses distinct.
pub proof fn lemma_upsert_unique(s: Seq<AccountView>, rec: AccountView)
    requires
        emails_unique(s),
    ensures
        emails_unique(upsert_spec(s, rec)),
{
    lemma_email_index(s, rec.email);
    let i = email_index(s, rec.email);
    if i < 0 {
        let t = s.push(rec);
        assert forall|x: int, y: int| 0 <= x < t.len() && 0 <= y < t.len() && x != y implies t[x].email != t[y].email by {
            if x < s.len() && y < s.len() {
            } else if x < s.len() {
                assert(s[x].email != rec.email);
            } else if y < s.len() {
                assert(s[y].email != rec.email);
            }
        }
    } else if freshness(rec) > freshness(s[i]) {
        lemma_update_keeps_unique(s, i, rec);
    }
}

proof fn lemma_count_newer_order(es: Seq<BackupView>, base_name: Seq<char>, p: int, q: int, n: nat)
    requires
        n <= es.len(),
        0 <= p < es.len(),
        0 <= q < es.len(),
        newer_than(es, q, p),
    ensures
        count_newer(es, base_name, q, n) + (if q < n && is_backup_of(es[q], base_name) { 1int } else { 0int })
            <= count_newer(es, base_name, p, n),
    decreases n,
{
    if n > 0 {
        lemma_count_newer_order(es, base_name, p, q, (n - 1) as nat);
    }
}

/// Pruning keeps the newest backups: every backup that goes is older than
/// every backup that stays, or as old and listed later.
pub proof fn lemma_pruning_keeps_newest(es: Seq<BackupView>, base_name: Seq<char>, max: nat, p: int, q: int)
    requires
        0 <= p < es.len(),
        0 <= q < es.len(),
        is_backup_of(es[p], base_name),
        is_backup_of(es[q], base_name),
        count_newer(es, base_name, p, es.len()) >= max,
        count_newer(es, base_name, q, es.len()) < max,
    ensures
        newer_than(es, q, p),
{
    if !newer_than(es, q, p) {
        assert(p != q);
        assert(newer_than(es, p, q));
        lemma_count_newer_order(es, base_name, q, p, es.len());
    }
}

proof fn lemma_join_path_cancel(base: Seq<char>, p1: Seq<char>, p2: Seq<char>)
    requires
        join_path_spec(base, p1) == join_path_spec(base, p2),
    ensures
        p1 == p2,
{
    let j = join_path_spec(base, p1);
    if base.len() == 0 {
    } else if base.last() == '/' {
        assert(p1 =~= j.subrange(base.len() as int, j.len() as int));
        assert(p2 =~= j.subrange(base.len() as int, j.len() as int));
    } else {
        assert(p1 =~= j.subrange(base.len() as int + 1, j.len() as int));
        assert(p2 =~= j.subrange(base.len() as int + 1, j.len() as int));
    }
}

/// Different addresses get different account files, and no account file
/// is the registry or the authentication file that Codex reads.
pub proof fn lemma_account_paths_distinct(codex_home: Seq<char>, e1: Seq<char>, e2: Seq<char>)
    ensures
        e1 != e2 ==> account_auth_path_spec(codex_home, e1) != account_auth_path_spec(codex_home, e2),
        account_auth_path_spec(codex_home, e1) != join_path_spec(accounts_dir_spec(codex_home), "registry.json"@),
        account_auth_path_spec(codex_home, e1) != join_path_spec(codex_home, "auth.json"@),
{
    reveal_strlit("registry.json");
    reveal_strlit(".auth.json");
    reveal_strlit("auth.json");
    reveal_strlit("accounts");
    let key = base64_url_text(encode_utf8(e1));
    let name = key + ".auth.json"@;
    let dir = accounts_dir_spec(codex_home);
    if account_auth_path_spec(codex_home, e1) == join_path_spec(dir, "registry.json"@) {
        lemma_join_path_cancel(dir, name, "registry.json"@);
        assert(key.len() == 3);
        assert(name[3] == '.');
    }
    let path = account_auth_path_spec(codex_home, e1);
    let auth = join_path_spec(codex_home, "auth.json"@);
    let h = codex_home.len() as int;
    if codex_home.len() == 0 {
        assert(dir =~= "accounts"@);
        assert(path[1] == 'c' && auth[1] == 'u');
    } else if codex_home.last() == '/' {
        assert(dir =~= codex_home + "accounts"@);
        assert(dir.last() == 's');
        assert(path[h + 1] == 'c' && auth[h + 1] == 'u');
    } else {
        assert(dir =~= codex_home + seq!['/'] + "accounts"@);
        assert(dir.last() == 's');
        assert(path[h + 2] == 'c' && auth[h + 2] == 'u');
    }
    if account_auth_path_spec(codex_home, e1) == account_auth_path_spec(codex_home, e2) {
        let k1 = base64_url_text(encode_utf8(e1));
        let k2 = base64_url_text(encode_utf8(e2));
        let suffix = ".auth.json"@;
        lemma_join_path_cancel(accounts_dir_spec(codex_home), k1 + suffix, k2 + suffix);
        assert(k1 =~= (k1 + suffix).subrange(0, k1.len() as int));
        assert(k2 =~= (k2 + suffix).subrange(0, k2.len() as int));
        assert(k1.len() == k2.len());
        lemma_base64_url_injective(encode_utf8(e1), encode_utf8(e2));
        vstd::utf8::encode_utf8_decode_utf8(e1);
        vstd::utf8::encode_utf8_decode_utf8(e2);
    }
}

/// With room for at least one backup, a backup that no other backup is
/// newer than is never pruned.
pub proof fn lemma_newest_backup_stays(es: Seq<BackupView>, base_name: Seq<char>, max: nat, p: int)
    requires
        0 <= p < es.len(),
        max >= 1,
        forall|x: int| 0 <= x < es.len() && is_backup_of(es[x], base_name) ==> !newer_than(es, x, p),
    ensures
        count_newer(es, base_name, p, es.len()) < max,
{
    lemma_count_newer_zero(es, base_name, p, es.len());
}

proof fn lemma_count_newer_zero(es: Seq<BackupView>, base_name: Seq<char>, p: int, n: nat)
    requires
        n <= es.len(),
        forall|x: int| 0 <= x < es.len() && is_backup_of(es[x], base_name) ==> !newer_than(es, x, p),
    ensures
        count_newer(es, base_name, p, n) == 0,
    decreases n,
{
    if n > 0 {
        lemma_count_newer_zero(es, base_name, p, (n - 1) as nat);
    }
}

/// How many of the first `n` entries are backups of `base_name`.
pub open spec fn backup_count(es: Seq<BackupView>, base_name: Seq<char>, n: nat) -> nat
    decreases n,
{
    if n == 0 {
        0
    } else {
        backup_count(es, base_name, (n - 1) as nat) + if is_backup_of(es[n - 1], base_name) {
            1nat
        } else {
            0nat
        }
    }
}

/// The indices below `n` that satisfy `f`.
spec fn indices_where(n: int, f: spec_fn(int) -> bool) -> Set<int> {
    Set::new(|p: int| 0 <= p < n && f(p))
}

proof fn lemma_indices_where_finite(n: int, f: spec_fn(int) -> bool)
    requires
        0 <= n,
    ensures
        indices_where(n, f).finite(),
{
    vstd::set_lib::lemma_int_range(0, n);
    vstd::set_lib::lemma_len_subset(indices_where(n, f), vstd::set_lib::set_int_range(0, n));
}

proof fn lemma_indices_where_step(n: int, f: spec_fn(int) -> bool)
    requires
        0 <= n,
    ensures
        indices_where(n + 1, f).finite(),
        indices_where(n + 1, f).len() == indices_where(n, f).len() + if f(n) { 1int } else { 0int },
{
    lemma_indices_where_finite(n, f);
    lemma_indices_where_finite(n + 1, f);
    if f(n) {
        assert(indices_where(n + 1, f) =~= indices_where(n, f).insert(n));
    } else {
        assert(indices_where(n + 1, f) =~= indices_where(n, f));
    }
}

proof fn lemma_backup_count_is_len(es: Seq<BackupView>, base_name: Seq<char>, n: nat)
    ensures
        indices_where(n as int, |p: int| is_backup_of(es[p], base_name)).len() == backup_count(es, base_name, n),
    decreases n,
{
    let f = |p: int| is_backup_of(es[p], base_name);
    if n == 0 {
        assert(indices_where(0, f) =~= Set::empty());
    } else {
        lemma_backup_count_is_len(es, base_name, (n - 1) as nat);
        lemma_indices_where_step(n - 1, f);
    }
}

proof fn lemma_pruned_is_len(es: Seq<BackupView>, base_name: Seq<char>, max: nat, n: nat)
    requires
        n <= es.len(),
    ensures
        indices_where(
            n as int,
            |p: int| is_backup_of(es[p], base_name) && count_newer(es, base_name, p, es.len()) >= max,
        ).len() == pruned_paths(es, base_name, max, n).len(),
    decreases n,
{
    let f = |p: int| is_backup_of(es[p], base_name) && count_newer(es, base_name, p, es.len()) >= max;
    if n == 0 {
        assert(indices_where(0, f) =~= Set::empty());
    } else {
        lemma_pruned_is_len(es, base_name, max, (n - 1) as nat);
        lemma_indices_where_step(n - 1, f);
    }
}

proof fn lemma_rank_below_count(es: Seq<BackupView>, base_name: Seq<char>, p: int, n: nat)
    requires
        n <= es.len(),
        0 <= p < es.len(),
        is_backup_of(es[p], base_name),
    ensures
        count_newer(es, base_name, p, n) + (if p < n { 1int } else { 0int }) <= backup_count(es, base_name, n),
    decreases n,
{
    if n > 0 {
        lemma_rank_below_count(es, base_name, p, (n - 1) as nat);
    }
}

/// Pruning leaves the `max` newest backups: of `k` backups, `k - max` go
/// where there are more than `max`, and none otherwise.
pub proof fn lemma_pruning_leaves_max(es: Seq<BackupView>, base_name: Seq<char>, max: nat)
    ensures
        ({
            let k = backup_count(es, base_name, es.len());
            pruned_paths(es, base_name, max, es.len()).len() == if k > max { k - max } else { 0 }
        }),
{
    let n = es.len() as int;
    let k = backup_count(es, base_name, es.len());
    let isb = |p: int| is_backup_of(es[p], base_name);
    let rank = |p: int| count_newer(es, base_name, p, es.len()) as int;
    let goes = |p: int| is_backup_of(es[p], base_name) && count_newer(es, base_name, p, es.len()) >= max;
    let stays = |p: int| is_backup_of(es[p], base_name) && count_newer(es, base_name, p, es.len()) < max;
    let b = indices_where(n, isb);
    let pruned = indices_where(n, goes);
    let kept = indices_where(n, stays);
    lemma_indices_where_finite(n, isb);
    lemma_indices_where_finite(n, goes);
    lemma_indices_where_finite(n, stays);
    lemma_backup_count_is_len(es, base_name, es.len());
    lemma_pruned_is_len(es, base_name, max, es.len());

    // Backups are ranked from 0 up, no two alike.
    assert forall|p: int| b.contains(p) implies 0 <= #[trigger] rank(p) < k by {
        lemma_rank_below_count(es, base_name, p, es.len());
    }
    assert(vstd::relations::injective_on(rank, b)) by {
        assert forall|x: int, y: int| b.contains(x) && b.contains(y) && #[trigger] rank(x) == #[trigger] rank(y) implies x == y by {
            if x != y {
                if newer_than(es, x, y) {
                    lemma_count_newer_order(es, base_name, y, x, es.len());
                } else {
                    lemma_count_newer_order(es, base_name, x, y, es.len());
                }
            }
        }
    }
    let ranks = b.map(rank);
    vstd::set_lib::lemma_map_size(b, ranks, rank);
    vstd::set_lib::lemma_int_range(0, k as int);
    assert(ranks.subset_of(vstd::set_lib::set_int_range(0, k as int)));
    vstd::set_lib::lemma_subset_equality(ranks, vstd::set_lib::set_int_range(0, k as int));

    // The backups that stay take exactly the ranks below `max`.
    let m: int = if k > max { max as int } else { k as int };
    assert(kept.subset_of(b));
    assert(vstd::relations::injective_on(rank, kept));
    assert(kept.map(rank) =~= vstd::set_lib::set_int_range(0, m)) by {
        assert forall|r: int| 0 <= r < m implies #[trigger] kept.map(rank).contains(r) by {
            assert(ranks.contains(r));
            let p = choose|p: int| b.contains(p) && r == rank(p);
            assert(kept.contains(p));
        }
    }
    vstd::set_lib::lemma_map_size(kept, kept.map(rank), rank);
    vstd::set_lib::lemma_int_range(0, m);

    // Every backup either stays or goes.
    assert(pruned + kept =~= b);
    assert(pruned.disjoint(kept));
    vstd::set_lib::lemma_set_disjoint_lens(pruned, kept);
}

} // verus!
