//! The data of the registry: accounts, their plans, and the quota
//! snapshots taken of them, with the mathematical model of each.
use vstd::prelude::*;

use crate::json::{JsonNumber, NumberView};
use crate::text::{eq_ignore_ascii_case, equals_ignore_ascii_case};

verus! {

/// The format version that the registry is written in.
pub const REGISTRY_VERSION: u32 = 2;

/// The subscription plan of an account.
#[derive(Clone, Copy, Debug, PartialEq, Eq, Structural)]
pub enum PlanType {
    Free,
    Plus,
    Pro,
    Team,
    Business,
    Enterprise,
    Edu,
    Unknown,
}

impl DeepView for PlanType {
    type V = PlanType;

    open spec fn deep_view(&self) -> PlanType {
        *self
    }
}

/// How an account authenticates.
#[derive(Clone, Copy, Debug, PartialEq, Eq, Structural)]
pub enum AuthMode {
    Chatgpt,
    Apikey,
}

impl DeepView for AuthMode {
    type V = AuthMode;

    open spec fn deep_view(&self) -> AuthMode {
        *self
    }
}

/// The name under which a plan is written.
pub open spec fn plan_name(p: PlanType) -> Seq<char> {
    match p {
        PlanType::Free => "free"@,
        PlanType::Plus => "plus"@,
        PlanType::Pro => "pro"@,
        PlanType::Team => "team"@,
        PlanType::Business => "business"@,
        PlanType::Enterprise => "enterprise"@,
        PlanType::Edu => "edu"@,
        PlanType::Unknown => "unknown"@,
    }
}

/// The plan that a name stands for, ASCII letters compared without regard
/// to case; a name that is no plan's stands for [`PlanType::Unknown`].
pub open spec fn plan_from_text(t: Seq<char>) -> PlanType {
    if eq_ignore_ascii_case(t, "free"@) {
        PlanType::Free
    } else if eq_ignore_ascii_case(t, "plus"@) {
        PlanType::Plus
    } else if eq_ignore_ascii_case(t, "pro"@) {
        PlanType::Pro
    } else if eq_ignore_ascii_case(t, "team"@) {
        PlanType::Team
    } else if eq_ignore_ascii_case(t, "business"@) {
        PlanType::Business
    } else if eq_ignore_ascii_case(t, "enterprise"@) {
        PlanType::Enterprise
    } else if eq_ignore_ascii_case(t, "edu"@) {
        PlanType::Edu
    } else {
        PlanType::Unknown
    }
}

/// The name under which an authentication mode is written.
pub open spec fn auth_mode_name(m: AuthMode) -> Seq<char> {
    match m {
        AuthMode::Chatgpt => "chatgpt"@,
        AuthMode::Apikey => "apikey"@,
    }
}

/// The authentication mode that a name stands for, if any.
pub open spec fn auth_mode_from_name(t: Seq<char>) -> Option<AuthMode> {
    if t == "chatgpt"@ {
        Some(AuthMode::Chatgpt)
    } else if t == "apikey"@ {
        Some(AuthMode::Apikey)
    } else {
        None
    }
}

/// Whether `s` holds exactly the text `lit`.
pub fn text_is(s: &String, lit: &str) -> (r: bool)
    ensures
        r == (s@ == lit@),
{
    let l = String::from_str(lit);
    *s == l
}

impl PlanType {
    /// Reads a plan name, ignoring the case of ASCII letters; a name that is no plan's gives
    /// [`PlanType::Unknown`].
    pub fn from_str_loose(s: &str) -> (r: PlanType)
        ensures
            r == plan_from_text(s@),
    {
        if equals_ignore_ascii_case(s, "free") {
            PlanType::Free
        } else if equals_ignore_ascii_case(s, "plus") {
            PlanType::Plus
        } else if equals_ignore_ascii_case(s, "pro") {
            PlanType::Pro
        } else if equals_ignore_ascii_case(s, "team") {
            PlanType::Team
        } else if equals_ignore_ascii_case(s, "business") {
            PlanType::Business
        } else if equals_ignore_ascii_case(s, "enterprise") {
            PlanType::Enterprise
        } else if equals_ignore_ascii_case(s, "edu") {
            PlanType::Edu
        } else {
            PlanType::Unknown
        }
    }

    /// The name under which this plan is shown and written.
    pub fn name(&self) -> (r: &'static str)
        ensures
            r@ == plan_name(*self),
    {
        match self {
            PlanType::Free => "free",
            PlanType::Plus => "plus",
            PlanType::Pro => "pro",
            PlanType::Team => "team",
            PlanType::Business => "business",
            PlanType::Enterprise => "enterprise",
            PlanType::Edu => "edu",
            PlanType::Unknown => "unknown",
        }
    }
}

impl AuthMode {
    /// The name under which this mode is written.
    pub fn name(&self) -> (r: &'static str)
        ensures
            r@ == auth_mode_name(*self),
    {
        match self {
            AuthMode::Chatgpt => "chatgpt",
            AuthMode::Apikey => "apikey",
        }
    }
}

/// Reads an authentication mode name (`"chatgpt"` or `"apikey"`).
pub fn parse_auth_mode(s: &String) -> (r: Option<AuthMode>)
    ensures
        r == auth_mode_from_name(s@),
{
    if text_is(s, "chatgpt") {
        Some(AuthMode::Chatgpt)
    } else if text_is(s, "apikey") {
        Some(AuthMode::Apikey)
    } else {
        None
    }
}

impl DeepView for JsonNumber {
    type V = NumberView;

    open spec fn deep_view(&self) -> NumberView {
        self@
    }
}

/// One quota window: how much of it is used, how long it is, and when it
/// starts over.
pub struct RateLimitWindow {
    pub used_percent: JsonNumber,
    pub window_minutes: Option<i64>,
    pub resets_at: Option<i64>,
}

pub struct WindowView {
    pub used_percent: NumberView,
    pub window_minutes: Option<i64>,
    pub resets_at: Option<i64>,
}

impl DeepView for RateLimitWindow {
    type V = WindowView;

    open spec fn deep_view(&self) -> WindowView {
        WindowView {
            used_percent: self.used_percent@,
            window_minutes: self.window_minutes,
            resets_at: self.resets_at,
        }
    }
}

impl View for RateLimitWindow {
    type V = WindowView;

    open spec fn view(&self) -> WindowView {
        self.deep_view()
    }
}

/// The credits an account holds.
pub struct CreditsSnapshot {
    pub has_credits: bool,
    pub unlimited: bool,
    pub balance: Option<String>,
}

pub struct CreditsView {
    pub has_credits: bool,
    pub unlimited: bool,
    pub balance: Option<Seq<char>>,
}

impl DeepView for CreditsSnapshot {
    type V = CreditsView;

    open spec fn deep_view(&self) -> CreditsView {
        CreditsView {
            has_credits: self.has_credits,
            unlimited: self.unlimited,
            balance: self.balance.deep_view(),
        }
    }
}

impl View for CreditsSnapshot {
    type V = CreditsView;

    open spec fn view(&self) -> CreditsView {
        self.deep_view()
    }
}

/// A snapshot of an account's quota: its two windows, its credits and the
/// plan it was taken under.
pub struct RateLimitSnapshot {
    pub primary: Option<RateLimitWindow>,
    pub secondary: Option<RateLimitWindow>,
    pub credits: Option<CreditsSnapshot>,
    pub plan_type: Option<PlanType>,
}

pub struct SnapshotView {
    pub primary: Option<WindowView>,
    pub secondary: Option<WindowView>,
    pub credits: Option<CreditsView>,
    pub plan_type: Option<PlanType>,
}

impl DeepView for RateLimitSnapshot {
    type V = SnapshotView;

    open spec fn deep_view(&self) -> SnapshotView {
        SnapshotView {
            primary: self.primary.deep_view(),
            secondary: self.secondary.deep_view(),
            credits: self.credits.deep_view(),
            plan_type: self.plan_type,
        }
    }
}

impl View for RateLimitSnapshot {
    type V = SnapshotView;

    open spec fn view(&self) -> SnapshotView {
        self.deep_view()
    }
}

/// One managed account.
pub struct AccountRecord {
    pub email: String,
    pub alias: String,
    pub plan: Option<PlanType>,
    pub auth_mode: Option<AuthMode>,
    pub created_at: i64,
    pub last_used_at: Option<i64>,
    pub last_usage: Option<RateLimitSnapshot>,
    pub last_usage_at: Option<i64>,
}

pub struct AccountView {
    pub email: Seq<char>,
    pub alias: Seq<char>,
    pub plan: Option<PlanType>,
    pub auth_mode: Option<AuthMode>,
    pub created_at: i64,
    pub last_used_at: Option<i64>,
    pub last_usage: Option<SnapshotView>,
    pub last_usage_at: Option<i64>,
}

impl DeepView for AccountRecord {
    type V = AccountView;

    open spec fn deep_view(&self) -> AccountView {
        AccountView {
            email: self.email@,
            alias: self.alias@,
            plan: self.plan,
            auth_mode: self.auth_mode,
            created_at: self.created_at,
            last_used_at: self.last_used_at,
            last_usage: self.last_usage.deep_view(),
            last_usage_at: self.last_usage_at,
        }
    }
}

impl View for AccountRecord {
    type V = AccountView;

    open spec fn view(&self) -> AccountView {
        self.deep_view()
    }
}

/// The registry of managed accounts: which one is active, and the
/// accounts in the order they were added.
pub struct Registry {
    pub version: u32,
    pub active_email: Option<String>,
    pub accounts: Vec<AccountRecord>,
}

pub struct RegistryView {
    pub version: u32,
    pub active_email: Option<Seq<char>>,
    pub accounts: Seq<AccountView>,
}

impl View for Registry {
    type V = RegistryView;

    open spec fn view(&self) -> RegistryView {
        RegistryView {
            version: self.version,
            active_email: self.active_email.deep_view(),
            accounts: self.accounts.deep_view(),
        }
    }
}

/// The registry that holds no account.
pub open spec fn empty_registry() -> RegistryView {
    RegistryView { version: REGISTRY_VERSION, active_email: None, accounts: Seq::empty() }
}

impl Registry {
    /// A registry with no account and none active, in the current format.
    pub fn new() -> (r: Registry)
        ensures
            r@ == empty_registry(),
    {
        let r = Registry { version: REGISTRY_VERSION, active_email: None, accounts: Vec::new() };
        assert(r@.accounts =~= Seq::<AccountView>::empty());
        r
    }
}

/// What an authentication file tells of its account.
pub struct AuthInfo {
    pub email: Option<String>,
    pub plan: Option<PlanType>,
    pub auth_mode: AuthMode,
}

pub struct AuthInfoView {
    pub email: Option<Seq<char>>,
    pub plan: Option<PlanType>,
    pub auth_mode: AuthMode,
}

impl DeepView for AuthInfo {
    type V = AuthInfoView;

    open spec fn deep_view(&self) -> AuthInfoView {
        AuthInfoView { email: self.email.deep_view(), plan: self.plan, auth_mode: self.auth_mode }
    }
}

impl View for AuthInfo {
    type V = AuthInfoView;

    open spec fn view(&self) -> AuthInfoView {
        self.deep_view()
    }
}

/// How many files an import took in, and how many it passed over.
pub struct ImportSummary {
    pub imported: usize,
    pub skipped: usize,
}

/// The remaining share of a window, in whole percent from 0 to 100, for a
/// used share that rounds to `used`.
pub open spec fn remaining_from_used(used: i64) -> i64 {
    if used >= 100 {
        0
    } else if used <= 0 {
        100
    } else {
        (100 - used) as i64
    }
}

/// The remaining share of a window, in whole percent from 0 to 100.
pub fn remaining_percent(used_percent: &JsonNumber) -> (r: i64)
    ensures
        r == remaining_from_used(used_percent.rounded),
        0 <= r <= 100,
{
    let used = used_percent.rounded;
    if used >= 100 {
        0
    } else if used <= 0 {
        100
    } else {
        (100 - used) as i64
    }
}

/// The window of a snapshot that is `minutes` long: the primary one if it
/// is, else the secondary one if it is; when neither is, the primary window
/// if `fallback_primary` holds and the secondary one otherwise.
pub open spec fn resolve_window(
    usage: Option<SnapshotView>,
    minutes: i64,
    fallback_primary: bool,
) -> Option<WindowView> {
    match usage {
        None => None,
        Some(s) => {
            if s.primary is Some && s.primary->0.window_minutes == Some(minutes) {
                s.primary
            } else if s.secondary is Some && s.secondary->0.window_minutes == Some(minutes) {
                s.secondary
            } else if fallback_primary {
                s.primary
            } else {
                s.secondary
            }
        },
    }
}

/// Picks the window of a snapshot that is `minutes` long (see [`resolve_window`]).
pub fn resolve_rate_window(
    usage: &Option<RateLimitSnapshot>,
    minutes: i64,
    fallback_primary: bool,
) -> (r: Option<&RateLimitWindow>)
    ensures
        match r {
            Some(w) => resolve_window(usage.deep_view(), minutes, fallback_primary) == Some(w.deep_view()),
            None => resolve_window(usage.deep_view(), minutes, fallback_primary) is None,
        },
{
    match usage {
        None => None,
        Some(s) => {
            if let Some(p) = &s.primary {
                if p.window_minutes == Some(minutes) {
                    return Some(p);
                }
            }
            if let Some(q) = &s.secondary {
                if q.window_minutes == Some(minutes) {
                    return Some(q);
                }
            }
            if fallback_primary {
                s.primary.as_ref()
            } else {
                s.secondary.as_ref()
            }
        },
    }
}

/// The plan shown for an account: its own, else the one of its last snapshot.
pub open spec fn shown_plan(rec: AccountView) -> Option<PlanType> {
    if rec.plan is Some {
        rec.plan
    } else {
        match rec.last_usage {
            Some(u) => u.plan_type,
            None => None,
        }
    }
}

/// The plan shown for an account (see [`shown_plan`]).
pub fn resolve_plan(rec: &AccountRecord) -> (r: Option<PlanType>)
    ensures
        r == shown_plan(rec.deep_view()),
{
    if rec.plan.is_some() {
        rec.plan
    } else {
        match &rec.last_usage {
            Some(u) => u.plan_type,
            None => None,
        }
    }
}

} // verus!
