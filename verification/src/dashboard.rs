//! The decisions of the quota monitor: which quota alerts to raise, when to
//! switch to another account, what each quota line shows, and the event
//! log that the monitor keeps.
use chrono::{Local, TimeZone};
use vstd::prelude::*;

use crate::models::{remaining_percent, resolve_rate_window, resolve_window, AccountView, Registry, RegistryView, WindowView};
use crate::registry::{
    clock_since_epoch, email_index, find_account, lemma_email_index, ranks_above, select_best_account_index_by_usage,
    window_remaining,
};
use crate::text::decimal;

verus! {

/// The mark of an exhausted quota.
pub const CROSS: &'static str = "✗";
/// The mark of a low quota.
pub const WARN: &'static str = "⚠";
/// The mark of an automatic switch.
pub const REFRESH: &'static str = "↻";

/// How many characters of an address the monitor shows.
pub const SHORT_EMAIL_CHARS: usize = 20;

/// An address as the monitor shows it: its first 20 characters.
pub open spec fn short_text(email: Seq<char>) -> Seq<char> {
    if email.len() <= SHORT_EMAIL_CHARS {
        email
    } else {
        email.take(SHORT_EMAIL_CHARS as int)
    }
}

/// An address as the monitor shows it (see [`short_text`]).
pub fn short_email(email: &str) -> (r: String)
    ensures
        r@ == short_text(email@),
{
    let n = email.unicode_len();
    if n <= SHORT_EMAIL_CHARS {
        String::from_str(email)
    } else {
        let part = email.substring_char(0, SHORT_EMAIL_CHARS);
        assert(email@.subrange(0, SHORT_EMAIL_CHARS as int) =~= email@.take(SHORT_EMAIL_CHARS as int));
        String::from_str(part)
    }
}

/// `s` cut to at most `max` characters: unchanged when it fits; otherwise
/// its first `max - 1` characters and a `.`, or just `.` when `max` is at most 1.
pub open spec fn truncated(s: Seq<char>, max: nat) -> Seq<char> {
    if s.len() <= max {
        s
    } else if max <= 1 {
        "."@
    } else {
        s.take(max - 1) + "."@
    }
}

/// Cuts `s` to at most `max` characters (see [`truncated`]).
pub fn truncate_str(s: &str, max: usize) -> (r: String)
    ensures
        r@ == truncated(s@, max as nat),
{
    let n = s.unicode_len();
    if n <= max {
        String::from_str(s)
    } else if max <= 1 {
        String::from_str(".")
    } else {
        let part = s.substring_char(0, max - 1);
        assert(s@.subrange(0, max - 1) =~= s@.take(max - 1));
        let mut r = String::from_str(part);
        r.append(".");
        r
    }
}

// ─── Event log ───

/// One entry of the monitor's event log.
pub struct EventEntry {
    pub time: String,
    pub message: String,
}

pub struct EventView {
    pub time: Seq<char>,
    pub message: Seq<char>,
}

impl DeepView for EventEntry {
    type V = EventView;

    open spec fn deep_view(&self) -> EventView {
        EventView { time: self.time@, message: self.message@ }
    }
}

/// The monitor's event log: the most recent events, oldest first.
pub struct DashboardState {
    pub events: Vec<EventEntry>,
    pub max_events: usize,
}

/// The number of events the monitor keeps.
pub const MAX_EVENTS: usize = 10;

/// The log after an event is added: appended, then the oldest dropped
/// until no more than `max` remain.
pub open spec fn add_event_spec(events: Seq<EventView>, e: EventView, max: nat) -> Seq<EventView> {
    let all = events.push(e);
    if all.len() <= max {
        all
    } else {
        all.skip(all.len() - max)
    }
}

/// The latest Unix time, in seconds, whose local time of day the monitor
/// asks chrono for: the end of the year 262141, a year before the last that
/// chrono can represent.
pub const LOCAL_TIME_LIMIT: i64 = 8210235340799;

/// The time of day shown for a clock that reads before the Unix epoch or
/// past the span chrono is asked about.
pub const UNKNOWN_TIME: &'static str = "--:--:--";

/// The local time of day at Unix time `secs`, as `HH:MM:SS`: chrono's
/// `Local.timestamp_opt(secs, 0)`, taken when it is a single local time, and
/// formatted with `"%H:%M:%S"`. For a time in this span chrono's
/// `timestamp_opt` always gives a single local time, so the result is
/// `Some`; its text depends on the machine's time zone and is not stated.
/// chrono reads the zone from the machine; it can still panic on zone data
/// that give no usable offset, which no argument here can rule out.
#[verifier::external_body]
fn local_clock_text(secs: i64) -> (r: Option<String>)
    requires
        0 <= secs <= LOCAL_TIME_LIMIT,
    ensures
        r is Some,
{
    match Local.timestamp_opt(secs, 0).single() {
        Some(t) => Some(t.format("%H:%M:%S").to_string()),
        None => None,
    }
}

/// The time of day that stamps an event logged at the clock reading
/// `reading` (see [`clock_since_epoch`]): the local time of its whole
/// seconds when they are in the span chrono is asked about, else
/// [`UNKNOWN_TIME`], as for a clock set before the epoch.
fn event_time(reading: Option<(u64, u128)>) -> (r: String)
    ensures
        match reading {
            Some((secs, _)) => secs > LOCAL_TIME_LIMIT ==> r@ == UNKNOWN_TIME@,
            None => r@ == UNKNOWN_TIME@,
        },
{
    match reading {
        Some((secs, _)) => {
            if secs <= LOCAL_TIME_LIMIT as u64 {
                match local_clock_text(secs as i64) {
                    Some(t) => t,
                    None => String::from_str(UNKNOWN_TIME),
                }
            } else {
                String::from_str(UNKNOWN_TIME)
            }
        },
        None => String::from_str(UNKNOWN_TIME),
    }
}

impl DashboardState {
    /// An empty log that keeps the last ten events.
    pub fn new() -> (r: DashboardState)
        ensures
            r.events.deep_view() == Seq::<EventView>::empty(),
            r.max_events == MAX_EVENTS,
    {
        let r = DashboardState { events: Vec::new(), max_events: MAX_EVENTS };
        assert(r.events.deep_view() =~= Seq::<EventView>::empty());
        r
    }

    /// Adds an event stamped `time`, keeping only the last `max_events`
    /// (see [`add_event_spec`]).
    pub fn add_event_at(&mut self, time: String, message: String)
        ensures
            final(self).max_events == old(self).max_events,
            final(self).events.deep_view() == add_event_spec(
                old(self).events.deep_view(),
                EventView { time: time@, message: message@ },
                old(self).max_events as nat,
            ),
    {
        let ghost e = EventView { time: time@, message: message@ };
        let ghost all = self.events.deep_view().push(e);
        self.events.push(EventEntry { time, message });
        assert(self.events.deep_view() =~= all);
        let ghost mut dropped: int = 0;
        while self.events.len() > self.max_events
            invariant
                self.max_events == old(self).max_events,
                0 <= dropped <= all.len(),
                self.events.deep_view() == all.skip(dropped),
                dropped > 0 ==> all.len() - dropped >= self.max_events,
            decreases self.events.len(),
        {
            let ghost before = self.events.deep_view();
            self.events.remove(0);
            assert(self.events.deep_view() =~= before.drop_first());
            proof {
                assert(all.skip(dropped).drop_first() =~= all.skip(dropped + 1));
                dropped = dropped + 1;
            }
        }
        proof {
            if all.len() <= self.max_events {
                assert(dropped == 0);
                assert(all.skip(0) =~= all);
            } else {
                assert(dropped == all.len() - self.max_events);
            }
        }
    }

    /// Adds an event stamped with the local time, keeping only the last
    /// `max_events` (see [`add_event_spec`]).
    pub fn add_event(&mut self, message: String)
        ensures
            final(self).max_events == old(self).max_events,
            exists|time: Seq<char>| final(self).events.deep_view() == add_event_spec(
                old(self).events.deep_view(),
                EventView { time, message: message@ },
                old(self).max_events as nat,
            ),
    {
        let time = event_time(clock_since_epoch());
        self.add_event_at(time, message);
    }
}

/// However many events are added, the log never holds more than it keeps
/// (once it holds no more than that).
pub proof fn lemma_event_log_bounded(events: Seq<EventView>, e: EventView, max: nat)
    requires
        events.len() <= max,
    ensures
        add_event_spec(events, e, max).len() <= max,
        add_event_spec(events, e, max).len() == if events.len() + 1 <= max { (events.len() + 1) as int } else { max as int },
        max > 0 ==> add_event_spec(events, e, max).last() == e,
{
}

// ─── Alerts ───

/// The alert raised for one quota window of an account, if any: the window
/// is exhausted, or has less than `threshold` percent left.
pub open spec fn window_alert(label: Seq<char>, w: Option<WindowView>, email: Seq<char>, threshold: int) -> Seq<Seq<char>> {
    match w {
        None => Seq::empty(),
        Some(w) => {
            let rem = window_remaining(w) as int;
            if rem == 0 {
                seq![CROSS@ + " "@ + short_text(email) + " "@ + label + " 额度已耗尽"@]
            } else if rem < threshold {
                seq![
                    WARN@ + " "@ + short_text(email) + " "@ + label + " 额度低于 "@ + decimal(threshold) + "%（剩余 "@
                        + decimal(rem) + "%）"@,
                ]
            } else {
                Seq::empty()
            }
        },
    }
}

/// The alerts raised for one account: its 5-hour window, then its weekly window.
pub open spec fn account_alerts(a: AccountView, threshold: int) -> Seq<Seq<char>> {
    window_alert("5H"@, resolve_window(a.last_usage, 300, true), a.email, threshold) + window_alert(
        "WEEKLY"@,
        resolve_window(a.last_usage, 10080, false),
        a.email,
        threshold,
    )
}

/// The alerts raised for the first `n` accounts, in order.
pub open spec fn all_alerts(s: Seq<AccountView>, threshold: int, n: nat) -> Seq<Seq<char>>
    decreases n,
{
    if n == 0 {
        Seq::empty()
    } else {
        all_alerts(s, threshold, (n - 1) as nat) + account_alerts(s[n - 1], threshold)
    }
}

fn push_window_alert(out: &mut Vec<String>, label: &str, w: Option<&crate::models::RateLimitWindow>, email: &str, threshold: i64)
    ensures
        final(out).deep_view() == old(out).deep_view() + window_alert(
            label@,
            match w {
                Some(x) => Some(x.deep_view()),
                None => None,
            },
            email@,
            threshold as int,
        ),
{
    let ghost before = out.deep_view();
    match w {
        None => {
            assert(out.deep_view() =~= before + Seq::<Seq<char>>::empty());
        },
        Some(w) => {
            let rem = remaining_percent(&w.used_percent);
            if rem == 0 {
                let mut msg = String::from_str(CROSS);
                msg.append(" ");
                msg.append(short_email(email).as_str());
                msg.append(" ");
                msg.append(label);
                msg.append(" 额度已耗尽");
                out.push(msg);
                assert(out.deep_view() =~= before + seq![msg@]);
            } else if rem < threshold {
                let mut msg = String::from_str(WARN);
                msg.append(" ");
                msg.append(short_email(email).as_str());
                msg.append(" ");
                msg.append(label);
                msg.append(" 额度低于 ");
                crate::text::push_decimal(&mut msg, threshold);
                msg.append("%（剩余 ");
                crate::text::push_decimal(&mut msg, rem);
                msg.append("%）");
                out.push(msg);
                assert(out.deep_view() =~= before + seq![msg@]);
            } else {
                assert(out.deep_view() =~= before + Seq::<Seq<char>>::empty());
            }
        },
    }
}

// ─── Switching ───

/// Account `k` is the one with the most quota left: none ranks above it,
/// and it ranks above every account before it.
pub open spec fn is_best(s: Seq<AccountView>, k: int) -> bool {
    &&& 0 <= k < s.len()
    &&& forall|j: int| 0 <= j < s.len() ==> !ranks_above(s[j], #[trigger] s[k])
    &&& forall|j: int| 0 <= j < k ==> ranks_above(s[k], #[trigger] s[j])
}

/// There is only one account with the most quota left.
pub proof fn lemma_best_unique(s: Seq<AccountView>, k1: int, k2: int)
    requires
        is_best(s, k1),
        is_best(s, k2),
    ensures
        k1 == k2,
{
    if k1 < k2 {
        assert(ranks_above(s[k2], s[k1]));
    } else if k2 < k1 {
        assert(ranks_above(s[k1], s[k2]));
    }
}

/// The 5-hour window of the account is short of quota: it is exhausted,
/// or has less than `threshold` percent left.
pub open spec fn five_hour_short(a: AccountView, threshold: int) -> bool {
    match resolve_window(a.last_usage, 300, true) {
        Some(w) => window_remaining(w) == 0 || window_remaining(w) < threshold,
        None => false,
    }
}

/// The 5-hour share left on an account, 0 when it has no such window.
pub open spec fn five_hour_left(a: AccountView) -> i64 {
    match resolve_window(a.last_usage, 300, true) {
        Some(w) => window_remaining(w),
        None => 0,
    }
}

/// The monitor switches to account `k`: switching is on, the active
/// account is in the registry with its 5-hour window exhausted or below
/// `threshold` percent, and `k` is the account with the most quota left,
/// which is another account.
pub open spec fn switches_to(r: RegistryView, auto_switch: bool, threshold: int, k: int) -> bool {
    &&& auto_switch
    &&& r.active_email is Some
    &&& email_index(r.accounts, r.active_email->0) >= 0
    &&& five_hour_short(r.accounts[email_index(r.accounts, r.active_email->0)], threshold)
    &&& is_best(r.accounts, k)
    &&& r.accounts[k].email != r.active_email->0
}

/// `a` is one of the alerts raised for one of the first `n` accounts.
pub open spec fn alert_of_an_account(s: Seq<AccountView>, threshold: int, n: nat, a: Seq<char>) -> bool {
    exists|i: int| 0 <= i < n && #[trigger] account_alerts(s[i], threshold).contains(a)
}

proof fn lemma_alerts_prefix(s: Seq<AccountView>, threshold: int, n: nat)
    requires
        n <= s.len(),
    ensures
        forall|i: int, a: Seq<char>|
            0 <= i < n && #[trigger] account_alerts(s[i], threshold).contains(a) ==> #[trigger] all_alerts(
                s,
                threshold,
                n,
            ).contains(a),
        forall|x: int|
            0 <= x < all_alerts(s, threshold, n).len() ==> alert_of_an_account(
                s,
                threshold,
                n,
                #[trigger] all_alerts(s, threshold, n)[x],
            ),
    decreases n,
{
    if n > 0 {
        let m = (n - 1) as nat;
        lemma_alerts_prefix(s, threshold, m);
        let before = all_alerts(s, threshold, m);
        let last = account_alerts(s[m as int], threshold);
        let all = all_alerts(s, threshold, n);
        assert(all == before + last);
        assert forall|i: int, a: Seq<char>|
            0 <= i < n && #[trigger] account_alerts(s[i], threshold).contains(a) implies #[trigger] all.contains(a) by {
            if i < m {
                assert(before.contains(a));
                let j = choose|j: int| 0 <= j < before.len() && before[j] == a;
                assert(all[j] == a);
            } else {
                let j = choose|j: int| 0 <= j < last.len() && last[j] == a;
                assert(all[before.len() + j] == a);
            }
        }
        assert forall|x: int| 0 <= x < all.len() implies alert_of_an_account(s, threshold, n, #[trigger] all[x]) by {
            if x < before.len() {
                assert(all[x] == before[x]);
                assert(alert_of_an_account(s, threshold, m, before[x]));
                let i = choose|i: int| 0 <= i < m && #[trigger] account_alerts(s[i], threshold).contains(before[x]);
                assert(account_alerts(s[i], threshold).contains(all[x]));
            } else {
                assert(all[x] == last[x - before.len()]);
                assert(last.contains(all[x]));
                assert(account_alerts(s[m as int], threshold).contains(all[x]));
            }
        }
    }
}

/// Every account is looked at, the last one too: for each account whose
/// 5-hour or weekly window is exhausted the alerts hold an exhausted alert
/// naming it and the window, for each whose window has less than
/// `threshold` percent left (but some) a low alert with the share left;
/// and every alert raised is one about some account.
pub proof fn lemma_alerts_cover_every_account(s: Seq<AccountView>, threshold: int)
    ensures
        forall|i: int|
            0 <= i < s.len() ==> {
                let all = all_alerts(s, threshold, s.len());
                let e = short_text(#[trigger] s[i].email);
                &&& (resolve_window(s[i].last_usage, 300, true) matches Some(w) ==> (window_remaining(w) == 0 ==> all.contains(
                    CROSS@ + " "@ + e + " "@ + "5H"@ + " 额度已耗尽"@,
                )))
                &&& (resolve_window(s[i].last_usage, 300, true) matches Some(w) ==> (window_remaining(w) != 0
                    && window_remaining(w) < threshold ==> all.contains(
                    WARN@ + " "@ + e + " "@ + "5H"@ + " 额度低于 "@ + decimal(threshold) + "%（剩余 "@ + decimal(
                        window_remaining(w) as int,
                    ) + "%）"@,
                )))
                &&& (resolve_window(s[i].last_usage, 10080, false) matches Some(w) ==> (window_remaining(w) == 0
                    ==> all.contains(CROSS@ + " "@ + e + " "@ + "WEEKLY"@ + " 额度已耗尽"@)))
                &&& (resolve_window(s[i].last_usage, 10080, false) matches Some(w) ==> (window_remaining(w) != 0
                    && window_remaining(w) < threshold ==> all.contains(
                    WARN@ + " "@ + e + " "@ + "WEEKLY"@ + " 额度低于 "@ + decimal(threshold) + "%（剩余 "@ + decimal(
                        window_remaining(w) as int,
                    ) + "%）"@,
                )))
            },
        forall|x: int|
            0 <= x < all_alerts(s, threshold, s.len()).len() ==> alert_of_an_account(
                s,
                threshold,
                s.len(),
                #[trigger] all_alerts(s, threshold, s.len())[x],
            ),
{
    lemma_alerts_prefix(s, threshold, s.len());
    assert forall|i: int| 0 <= i < s.len() implies {
        let all = all_alerts(s, threshold, s.len());
        let e = short_text(#[trigger] s[i].email);
        &&& (resolve_window(s[i].last_usage, 300, true) matches Some(w) ==> (window_remaining(w) == 0 ==> all.contains(
            CROSS@ + " "@ + e + " "@ + "5H"@ + " 额度已耗尽"@,
        )))
        &&& (resolve_window(s[i].last_usage, 300, true) matches Some(w) ==> (window_remaining(w) != 0 && window_remaining(w)
            < threshold ==> all.contains(
            WARN@ + " "@ + e + " "@ + "5H"@ + " 额度低于 "@ + decimal(threshold) + "%（剩余 "@ + decimal(
                window_remaining(w) as int,
            ) + "%）"@,
        )))
        &&& (resolve_window(s[i].last_usage, 10080, false) matches Some(w) ==> (window_remaining(w) == 0 ==> all.contains(
            CROSS@ + " "@ + e + " "@ + "WEEKLY"@ + " 额度已耗尽"@,
        )))
        &&& (resolve_window(s[i].last_usage, 10080, false) matches Some(w) ==> (window_remaining(w) != 0
            && window_remaining(w) < threshold ==> all.contains(
            WARN@ + " "@ + e + " "@ + "WEEKLY"@ + " 额度低于 "@ + decimal(threshold) + "%（剩余 "@ + decimal(
                window_remaining(w) as int,
            ) + "%）"@,
        )))
    } by {
        let a = s[i];
        let w5 = window_alert("5H"@, resolve_window(a.last_usage, 300, true), a.email, threshold);
        let ww = window_alert("WEEKLY"@, resolve_window(a.last_usage, 10080, false), a.email, threshold);
        let aa = account_alerts(a, threshold);
        assert(aa == w5 + ww);
        if w5.len() > 0 {
            assert(aa[0] == w5[0]);
            assert(aa.contains(w5[0]));
        }
        if ww.len() > 0 {
            assert(aa[w5.len() as int] == ww[0]);
            assert(aa.contains(ww[0]));
        }
    }
}

/// The monitor switches only away from an active account whose 5-hour
/// window is exhausted or has less than `threshold` percent left, whatever
/// its weekly window; and it does switch then, to the account with the most
/// quota left, when switching is on and that is another account.
pub proof fn lemma_switch_follows_five_hour_window(r: RegistryView, auto_switch: bool, threshold: int, k: int)
    ensures
        switches_to(r, auto_switch, threshold, k) ==> {
            &&& auto_switch
            &&& r.active_email is Some
            &&& email_index(r.accounts, r.active_email->0) >= 0
            &&& resolve_window(r.accounts[email_index(r.accounts, r.active_email->0)].last_usage, 300, true) matches Some(
                w,
            ) && (window_remaining(w) == 0 || window_remaining(w) < threshold)
            &&& r.accounts[k].email != r.active_email->0
        },
        ({
            &&& auto_switch
            &&& r.active_email is Some
            &&& email_index(r.accounts, r.active_email->0) >= 0
            &&& resolve_window(r.accounts[email_index(r.accounts, r.active_email->0)].last_usage, 300, true) matches Some(
                w,
            ) && (window_remaining(w) == 0 || window_remaining(w) < threshold)
            &&& is_best(r.accounts, k)
            &&& r.accounts[k].email != r.active_email->0
        }) ==> switches_to(r, auto_switch, threshold, k),
{
}

/// The account the monitor switches to, and the 5-hour share left on it.
pub struct SwitchPlan {
    pub index: usize,
    pub best_remaining: i64,
}

/// What one look at the registry raises: the alerts, in order, and the
/// account to switch to, if any.
pub struct ThresholdReport {
    pub alerts: Vec<String>,
    pub switch_to: Option<SwitchPlan>,
}

/// Looks at every account's quota windows against `threshold` (percent
/// left) and, when `auto_switch` is on, decides whether to switch away from
/// an active account whose 5-hour quota is exhausted or below the threshold
/// (see [`all_alerts`] and [`switches_to`]).
pub fn check_thresholds(reg: &Registry, threshold: u64, auto_switch: bool) -> (r: ThresholdReport)
    ensures
        r.alerts.deep_view() == all_alerts(reg@.accounts, (threshold as i64) as int, reg@.accounts.len()),
        match r.switch_to {
            Some(p) => switches_to(reg@, auto_switch, (threshold as i64) as int, p.index as int)
                && p.best_remaining == five_hour_left(reg@.accounts[p.index as int]),
            None => forall|k: int| !#[trigger] switches_to(reg@, auto_switch, (threshold as i64) as int, k),
        },
{
    let ghost s = reg@.accounts;
    let t = threshold as i64;
    let mut alerts: Vec<String> = Vec::new();
    let mut i: usize = 0;
    while i < reg.accounts.len()
        invariant
            s == reg@.accounts,
            i <= s.len(),
            t == threshold as i64,
            alerts.deep_view() == all_alerts(s, t as int, i as nat),
        decreases reg.accounts.len() - i,
    {
        let rec = &reg.accounts[i];
        assert(rec.deep_view() == s[i as int]);
        let ghost before = alerts.deep_view();
        push_window_alert(&mut alerts, "5H", resolve_rate_window(&rec.last_usage, 300, true), rec.email.as_str(), t);
        push_window_alert(&mut alerts, "WEEKLY", resolve_rate_window(&rec.last_usage, 10080, false), rec.email.as_str(), t);
        assert(alerts.deep_view() =~= before + account_alerts(s[i as int], t as int));
        i += 1;
    }
    let switch_to = decide_switch(reg, auto_switch, t);
    ThresholdReport { alerts, switch_to }
}

fn decide_switch(reg: &Registry, auto_switch: bool, threshold: i64) -> (r: Option<SwitchPlan>)
    ensures
        match r {
            Some(p) => switches_to(reg@, auto_switch, threshold as int, p.index as int)
                && p.best_remaining == five_hour_left(reg@.accounts[p.index as int]),
            None => forall|k: int| !#[trigger] switches_to(reg@, auto_switch, threshold as int, k),
        },
{
    let ghost s = reg@.accounts;
    if !auto_switch {
        return None;
    }
    let active = match &reg.active_email {
        Some(a) => a,
        None => return None,
    };
    let ai = match find_account(&reg.accounts, active) {
        Some(i) => i,
        None => return None,
    };
    proof {
        lemma_email_index(s, active@);
    }
    let short = match resolve_rate_window(&reg.accounts[ai].last_usage, 300, true) {
        Some(w) => {
            let rem = remaining_percent(&w.used_percent);
            rem == 0 || rem < threshold
        },
        None => false,
    };
    if !short {
        return None;
    }
    let best = match select_best_account_index_by_usage(reg) {
        Some(b) => b,
        None => return None,
    };
    assert(is_best(s, best as int));
    if reg.accounts[best].email == *active {
        proof {
            assert forall|k: int| !switches_to(reg@, auto_switch, threshold as int, k) by {
                if switches_to(reg@, auto_switch, threshold as int, k) {
                    lemma_best_unique(s, k, best as int);
                }
            }
        }
        return None;
    }
    let best_remaining = match resolve_rate_window(&reg.accounts[best].last_usage, 300, true) {
        Some(w) => remaining_percent(&w.used_percent),
        None => 0,
    };
    Some(SwitchPlan { index: best, best_remaining })
}

/// The event written when the monitor has switched to `email`, which has
/// `remaining` percent of its 5-hour window left.
pub open spec fn switch_message(email: Seq<char>, remaining: i64) -> Seq<char> {
    REFRESH@ + " 自动切换到 "@ + short_text(email) + "（额度最高 "@ + decimal(remaining as int) + "%）"@
}

/// Writes the event of a switch to `email` (see [`switch_message`]).
pub fn auto_switch_message(email: &str, remaining: i64) -> (r: String)
    ensures
        r@ == switch_message(email@, remaining),
{
    let mut msg = String::from_str(REFRESH);
    msg.append(" 自动切换到 ");
    msg.append(short_email(email).as_str());
    msg.append("（额度最高 ");
    crate::text::push_decimal(&mut msg, remaining);
    msg.append("%）");
    msg
}

// ─── What a quota line shows ───

/// How a quota line is flagged.
#[derive(Debug, PartialEq, Eq, Structural)]
pub enum QuotaAlert {
    /// Nothing is left.
    Exhausted,
    /// Less than the threshold is left.
    Low,
    /// Enough is left.
    Fine,
}

/// How a window with `remaining` percent left is flagged against `threshold`.
pub open spec fn quota_alert_spec(remaining: i64, threshold: i64) -> QuotaAlert {
    if remaining == 0 {
        QuotaAlert::Exhausted
    } else if remaining < threshold {
        QuotaAlert::Low
    } else {
        QuotaAlert::Fine
    }
}

/// Flags a window with `remaining` percent left against `threshold`.
pub fn quota_alert(remaining: i64, threshold: i64) -> (r: QuotaAlert)
    ensures
        r == quota_alert_spec(remaining, threshold),
{
    if remaining == 0 {
        QuotaAlert::Exhausted
    } else if remaining < threshold {
        QuotaAlert::Low
    } else {
        QuotaAlert::Fine
    }
}

/// When a window starts over, as a quota line tells it.
#[derive(Debug, PartialEq, Eq, Structural)]
pub enum ResetNote {
    /// It starts over at this Unix time, which is still to come.
    At(i64),
    /// Its reset time has passed.
    AlreadyReset,
    /// Its reset time is not known.
    Unknown,
}

/// When a window that starts over at `resets_at` does so, seen at `now`.
pub open spec fn reset_note_spec(resets_at: Option<i64>, now: i64) -> ResetNote {
    match resets_at {
        Some(r) => if now < r { ResetNote::At(r) } else { ResetNote::AlreadyReset },
        None => ResetNote::Unknown,
    }
}

/// Tells when a window that starts over at `resets_at` does so, seen at `now`.
pub fn reset_note(resets_at: Option<i64>, now: i64) -> (r: ResetNote)
    ensures
        r == reset_note_spec(resets_at, now),
{
    match resets_at {
        Some(r) => if now < r {
            ResetNote::At(r)
        } else {
            ResetNote::AlreadyReset
        },
        None => ResetNote::Unknown,
    }
}

} // verus!
