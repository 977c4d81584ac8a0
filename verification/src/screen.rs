//! The quota monitor's screen: every line it draws, laid out for the width
//! of the terminal, and the keys that stop it.
use vstd::prelude::*;
use vstd::utf8::encode_utf8;

use crate::dashboard::{
    quota_alert, quota_alert_spec, reset_note, reset_note_spec, truncate_str, truncated, QuotaAlert,
    ResetNote, CROSS, WARN,
};
use crate::dashboard::{EventEntry, EventView};
use crate::models::{
    plan_name, remaining_percent, resolve_plan, resolve_rate_window, resolve_window, shown_plan, AccountView,
    PlanType, RateLimitWindow, Registry, RegistryView, WindowView,
};
use crate::registry::window_remaining;
use crate::text::{decimal, decimal_string, nat_digits, push_digits};

verus! {

// ─── Styles ───

/// The terminal style of the title and of the active account.
pub const ACTIVE_STYLE: &'static str = "1;36";
/// The terminal style of secondary text.
pub const DIM_STYLE: &'static str = "2";
/// The terminal style of an exhausted quota.
pub const ERROR_STYLE: &'static str = "31";
/// The terminal style of a low quota.
pub const LOW_STYLE: &'static str = "33";
/// The terminal style of a quota with enough left.
pub const FINE_STYLE: &'static str = "32";

/// `s` shown in the terminal style `code`, with the style reset after it.
pub open spec fn styled_spec(code: Seq<char>, s: Seq<char>) -> Seq<char> {
    "\x1b["@ + code + "m"@ + s + "\x1b[0m"@
}

/// `s` shown in the terminal style `code` (see [`styled_spec`]).
pub fn styled(code: &str, s: &str) -> (r: String)
    ensures
        r@ == styled_spec(code@, s@),
{
    let mut r = String::from_str("\x1b[");
    r.append(code);
    r.append("m");
    r.append(s);
    r.append("\x1b[0m");
    r
}

// ─── Layout ───

/// `s` written `n` times.
pub open spec fn repeated(s: Seq<char>, n: nat) -> Seq<char>
    decreases n,
{
    if n == 0 {
        Seq::empty()
    } else {
        repeated(s, (n - 1) as nat) + s
    }
}

fn push_repeated(out: &mut String, s: &str, n: usize)
    ensures
        final(out)@ == old(out)@ + repeated(s@, n as nat),
{
    let ghost start = out@;
    let mut i: usize = 0;
    assert(start =~= start + repeated(s@, 0));
    while i < n
        invariant
            i <= n,
            out@ == start + repeated(s@, i as nat),
        decreases n - i,
    {
        out.append(s);
        assert(out@ =~= start + repeated(s@, (i + 1) as nat));
        i += 1;
    }
}

/// The length of `s` in UTF-8 bytes, which is how the screen measures text
/// when it pads a line.
pub open spec fn byte_len(s: Seq<char>) -> nat {
    encode_utf8(s).len()
}

fn text_bytes(s: &str) -> (r: usize)
    ensures
        r == byte_len(s@),
{
    s.as_bytes().len()
}

/// The spaces that pad a line whose text takes `used` bytes inside a box
/// `inner` wide: `inner - used - 1`, or none when that is not positive.
pub open spec fn pad_after(inner: nat, used: nat) -> nat {
    if inner > used + 1 {
        (inner - used - 1) as nat
    } else {
        0
    }
}

fn pad_count(inner: usize, used: usize) -> (r: usize)
    ensures
        r == pad_after(inner as nat, used as nat),
{
    if inner > used && inner - used > 1 {
        inner - used - 1
    } else {
        0
    }
}

/// A line of the box holding `content` (drawn as `shown`) and padded to
/// the box's right edge.
pub open spec fn boxed_line(shown: Seq<char>, content_bytes: nat, inner: nat) -> Seq<char> {
    "  ║ "@ + shown + repeated(" "@, pad_after(inner, content_bytes)) + "║"@
}

// ─── Quota lines ───

/// The bar of a share of `rem` percent: ten cells, one filled per full ten percent.
pub open spec fn progress_bar_spec(rem: i64) -> Seq<char> {
    let c: int = if rem < 0 { 0 } else if rem > 100 { 100 } else { rem as int };
    let filled = (c / 10) as nat;
    "["@ + repeated("█"@, filled) + repeated("░"@, (10 - filled) as nat) + "] "@
}

fn progress_bar(rem: i64) -> (r: String)
    ensures
        r@ == progress_bar_spec(rem),
{
    let c: i64 = if rem < 0 { 0 } else if rem > 100 { 100 } else { rem };
    let filled: usize = (c / 10) as usize;
    let mut r = String::from_str("[");
    push_repeated(&mut r, "█", filled);
    push_repeated(&mut r, "░", 10 - filled);
    r.append("] ");
    r
}

/// `s` right-aligned in `n` characters.
pub open spec fn right_aligned(s: Seq<char>, n: nat) -> Seq<char> {
    if s.len() < n {
        repeated(" "@, (n - s.len()) as nat) + s
    } else {
        s
    }
}

/// The style of a share of `rem` percent against `threshold`.
pub open spec fn percent_style(rem: i64, threshold: i64) -> Seq<char> {
    match quota_alert_spec(rem, threshold) {
        QuotaAlert::Exhausted => ERROR_STYLE@,
        QuotaAlert::Low => LOW_STYLE@,
        QuotaAlert::Fine => FINE_STYLE@,
    }
}

/// What a quota line says of the window's reset: the local clock time
/// `clock` of a reset still to come (nothing when it is not known), that
/// the reset has passed, or nothing.
pub open spec fn reset_text(note: ResetNote, clock: Option<Seq<char>>) -> Seq<char> {
    match note {
        ResetNote::At(_) => match clock {
            Some(t) => "  重置 "@ + t,
            None => Seq::empty(),
        },
        ResetNote::AlreadyReset => "  已重置"@,
        ResetNote::Unknown => Seq::empty(),
    }
}

/// The flag a quota line ends with.
pub open spec fn alert_text(a: QuotaAlert) -> Seq<char> {
    match a {
        QuotaAlert::Exhausted => styled_spec(ERROR_STYLE@, "        "@ + CROSS@ + " 已耗尽"@),
        QuotaAlert::Low => styled_spec(LOW_STYLE@, "        "@ + WARN@ + " 额度不足"@),
        QuotaAlert::Fine => Seq::empty(),
    }
}

/// The line of one quota window labelled `label`, seen at `now` against
/// `threshold`, in a box `inner` wide; `clock` is the local clock time of
/// the window's reset. A missing window shows `-`; otherwise the bar, the
/// share left, the reset and the flag.
pub open spec fn quota_line_spec(
    label: Seq<char>,
    window: Option<WindowView>,
    now: i64,
    threshold: i64,
    inner: nat,
    clock: Option<Seq<char>>,
) -> Seq<char> {
    let prefix = "  ║ "@ + "    "@ + label + "  "@;
    match window {
        None => prefix + styled_spec(DIM_STYLE@, "-"@) + repeated(" "@, pad_after(inner, 4 + byte_len(label) + 2 + 1))
            + "║"@,
        Some(w) => {
            let rem = window_remaining(w);
            prefix + progress_bar_spec(rem) + styled_spec(percent_style(rem, threshold), right_aligned(decimal(rem as int), 3) + "%"@)
                + styled_spec(DIM_STYLE@, reset_text(reset_note_spec(w.resets_at, now), clock)) + alert_text(
                quota_alert_spec(rem, threshold),
            ) + "  "@ + "║"@
        },
    }
}

/// The line of one quota window (see [`quota_line_spec`]).
pub fn quota_line(
    label: &str,
    window: Option<&RateLimitWindow>,
    now: i64,
    threshold: i64,
    inner_width: usize,
    reset_clock: Option<String>,
) -> (r: String)
    ensures
        r@ == quota_line_spec(
            label@,
            match window {
                Some(w) => Some(w.deep_view()),
                None => None,
            },
            now,
            threshold,
            inner_width as nat,
            reset_clock.deep_view(),
        ),
{
    let mut r = String::from_str("  ║ ");
    r.append("    ");
    r.append(label);
    r.append("  ");
    let ghost prefix = r@;
    assert(prefix =~= "  ║ "@ + "    "@ + label@ + "  "@);
    match window {
        None => {
            let dash = styled(DIM_STYLE, "-");
            r.append(dash.as_str());
            let lb = text_bytes(label);
            let used: usize = if lb < usize::MAX - 8 { lb + 7 } else { usize::MAX };
            let pad = if lb < usize::MAX - 8 { pad_count(inner_width, used) } else { 0 };
            push_repeated(&mut r, " ", pad);
            r.append("║");
            assert(r@ =~= prefix + styled_spec(DIM_STYLE@, "-"@) + repeated(" "@, pad_after(inner_width as nat, 4 + byte_len(label@) + 2 + 1)) + "║"@) by {
                if !(lb < usize::MAX - 8) {
                    assert(pad_after(inner_width as nat, 4 + byte_len(label@) + 2 + 1) == 0);
                }
            }
        },
        Some(w) => {
            let rem = remaining_percent(&w.used_percent);
            let bar = progress_bar(rem);
            r.append(bar.as_str());
            let ghost after_bar = r@;
            let digits = decimal_string(rem);
            let mut percent = String::new();
            let dn = digits.as_str().unicode_len();
            if dn < 3 {
                push_repeated(&mut percent, " ", 3 - dn);
            }
            percent.append(digits.as_str());
            percent.append("%");
            assert(percent@ =~= right_aligned(decimal(rem as int), 3) + "%"@);
            let code = match quota_alert(rem, threshold) {
                QuotaAlert::Exhausted => ERROR_STYLE,
                QuotaAlert::Low => LOW_STYLE,
                QuotaAlert::Fine => FINE_STYLE,
            };
            let shown = styled(code, percent.as_str());
            assert(code@ == percent_style(rem, threshold));
            r.append(shown.as_str());
            let ghost after_percent = r@;
            let reset = match reset_note(w.resets_at, now) {
                ResetNote::At(_) => match &reset_clock {
                    Some(t) => {
                        let mut s = String::from_str("  重置 ");
                        s.append(t.as_str());
                        s
                    },
                    None => String::new(),
                },
                ResetNote::AlreadyReset => String::from_str("  已重置"),
                ResetNote::Unknown => String::new(),
            };
            assert(reset@ =~= reset_text(reset_note_spec(w.deep_view().resets_at, now), reset_clock.deep_view()));
            let reset_shown = styled(DIM_STYLE, reset.as_str());
            r.append(reset_shown.as_str());
            let ghost after_reset = r@;
            let ghost flag_text = alert_text(quota_alert_spec(rem, threshold));
            match quota_alert(rem, threshold) {
                QuotaAlert::Exhausted => {
                    let mut flag = String::from_str("        ");
                    flag.append(CROSS);
                    flag.append(" 已耗尽");
                    let f = styled(ERROR_STYLE, flag.as_str());
                    r.append(f.as_str());
                },
                QuotaAlert::Low => {
                    let mut flag = String::from_str("        ");
                    flag.append(WARN);
                    flag.append(" 额度不足");
                    let f = styled(LOW_STYLE, flag.as_str());
                    r.append(f.as_str());
                },
                QuotaAlert::Fine => {
                    assert(r@ =~= after_reset + flag_text);
                },
            }
            assert(r@ =~= after_reset + flag_text);
            r.append("  ");
            r.append("║");
            assert(r@ =~= quota_line_spec(label@, Some(w.deep_view()), now, threshold, inner_width as nat, reset_clock.deep_view()));
        },
    }
    r
}

// ─── The whole screen ───

/// The narrowest box the monitor draws.
pub const MIN_WIDTH: usize = 60;

/// A horizontal border of the box, between the corner pieces `left` and `right`.
pub open spec fn border_line(left: Seq<char>, right: Seq<char>, inner: nat) -> Seq<char> {
    "  "@ + left + repeated("═"@, inner) + right
}

fn border(left: &str, right: &str, inner: usize) -> (r: String)
    ensures
        r@ == border_line(left@, right@, inner as nat),
{
    let mut r = String::from_str("  ");
    r.append(left);
    push_repeated(&mut r, "═", inner);
    r.append(right);
    r
}

/// The title: the refresh interval, the threshold and when the registry
/// was last looked at.
pub open spec fn title_text(interval: u64, threshold: u64, last_check: Seq<char>) -> Seq<char> {
    "  cx-switch 额度监控  ⏱ 每 "@ + nat_digits(interval as nat) + "s 刷新 · 阈值 "@ + nat_digits(threshold as nat)
        + "% · 上次 "@ + last_check
}

/// The title line, cut to the box and padded.
pub open spec fn title_line(interval: u64, threshold: u64, last_check: Seq<char>, inner: nat) -> Seq<char> {
    let t = title_text(interval, threshold, last_check);
    boxed_line(styled_spec(ACTIVE_STYLE@, truncated(t, (inner - 2) as nat)), byte_len(t), inner)
}

/// The plan an account header shows.
pub open spec fn plan_text(p: Option<PlanType>) -> Seq<char> {
    match p {
        Some(p) => plan_name(p),
        None => "-"@,
    }
}

/// The header of an account: a mark and `[ACTIVE]` for the active one,
/// its address and its plan.
pub open spec fn header_text(a: AccountView, active: bool) -> Seq<char> {
    "  "@ + (if active { "●"@ } else { " "@ }) + " "@ + a.email + " ["@ + plan_text(shown_plan(a)) + "]"@ + (if active {
        "  [ACTIVE]"@
    } else {
        Seq::empty()
    })
}

/// The header line of an account, highlighted when it is the active one.
pub open spec fn header_line(a: AccountView, active: bool, inner: nat) -> Seq<char> {
    let h = header_text(a, active);
    boxed_line(if active { styled_spec(ACTIVE_STYLE@, h) } else { h }, byte_len(h), inner)
}

/// The empty line after an account.
pub open spec fn blank_line(inner: nat) -> Seq<char> {
    "  ║ "@ + repeated(" "@, (inner - 1) as nat) + "║"@
}

/// The clock text at position `j` of `clocks`, none past its end.
pub open spec fn clock_at(clocks: Seq<Option<Seq<char>>>, j: int) -> Option<Seq<char>> {
    if 0 <= j < clocks.len() {
        clocks[j]
    } else {
        None
    }
}

/// The four lines of account `i`: its header, its 5-hour and weekly quota
/// lines (their reset clocks at positions `2i` and `2i + 1` of `clocks`)
/// and an empty line.
pub open spec fn account_lines(
    r: RegistryView,
    i: int,
    now: i64,
    threshold: u64,
    inner: nat,
    clocks: Seq<Option<Seq<char>>>,
) -> Seq<Seq<char>> {
    let a = r.accounts[i];
    seq![
        header_line(a, r.active_email == Some(a.email), inner),
        quota_line_spec("5H  "@, resolve_window(a.last_usage, 300, true), now, threshold as i64, inner, clock_at(clocks, 2 * i)),
        quota_line_spec("WEEK"@, resolve_window(a.last_usage, 10080, false), now, threshold as i64, inner, clock_at(clocks, 2 * i + 1)),
        blank_line(inner),
    ]
}

/// The lines of the first `n` accounts, in order.
pub open spec fn accounts_lines(
    r: RegistryView,
    n: nat,
    now: i64,
    threshold: u64,
    inner: nat,
    clocks: Seq<Option<Seq<char>>>,
) -> Seq<Seq<char>>
    decreases n,
{
    if n == 0 {
        Seq::empty()
    } else {
        accounts_lines(r, (n - 1) as nat, now, threshold, inner, clocks) + account_lines(r, n - 1, now, threshold, inner, clocks)
    }
}

/// The text of a logged event.
pub open spec fn event_text(e: EventView) -> Seq<char> {
    "  [事件] "@ + e.time + " "@ + e.message
}

/// The line of a logged event, dimmed, cut to the box and padded.
pub open spec fn event_line(e: EventView, inner: nat) -> Seq<char> {
    boxed_line(styled_spec(DIM_STYLE@, truncated(event_text(e), (inner - 2) as nat)), byte_len(event_text(e)), inner)
}

/// The lines of the first `n` events, in order.
pub open spec fn events_lines(events: Seq<EventView>, n: nat, inner: nat) -> Seq<Seq<char>>
    decreases n,
{
    if n == 0 {
        Seq::empty()
    } else {
        events_lines(events, (n - 1) as nat, inner).push(event_line(events[n - 1], inner))
    }
}

/// The box width drawn in a terminal `width` wide: at least [`MIN_WIDTH`].
pub open spec fn box_width(width: usize) -> nat {
    if width < MIN_WIDTH { MIN_WIDTH as nat } else { width as nat }
}

/// The monitor's screen, line by line: the box's top, the title, a
/// separator, four lines per account, the events after a separator when
/// there are any, the box's bottom and how to quit. `now` is when the
/// quota lines are seen, `last_check` the clock time of the title and
/// `clocks` the local clock times of the windows' resets (see
/// [`account_lines`]).
pub open spec fn dashboard_lines_spec(
    r: RegistryView,
    interval: u64,
    threshold: u64,
    events: Seq<EventView>,
    now: i64,
    width: usize,
    last_check: Seq<char>,
    clocks: Seq<Option<Seq<char>>>,
) -> Seq<Seq<char>> {
    let inner = (box_width(width) - 4) as nat;
    seq![border_line("╔"@, "╗"@, inner), title_line(interval, threshold, last_check, inner), border_line("╠"@, "╣"@, inner)]
        + accounts_lines(r, r.accounts.len(), now, threshold, inner, clocks) + (if events.len() > 0 {
        seq![border_line("╠"@, "╣"@, inner)] + events_lines(events, events.len(), inner)
    } else {
        Seq::empty()
    }) + seq![border_line("╚"@, "╝"@, inner), "  "@ + styled_spec(DIM_STYLE@, "Ctrl+C 或 q 退出"@)]
}

fn boxed(shown: &str, content_bytes: usize, inner: usize) -> (r: String)
    ensures
        r@ == boxed_line(shown@, content_bytes as nat, inner as nat),
{
    let mut r = String::from_str("  ║ ");
    r.append(shown);
    push_repeated(&mut r, " ", pad_count(inner, content_bytes));
    r.append("║");
    r
}

fn title(interval: u64, threshold: u64, last_check: &str, inner: usize) -> (r: String)
    requires
        inner >= 2,
    ensures
        r@ == title_line(interval, threshold, last_check@, inner as nat),
{
    let mut t = String::from_str("  cx-switch 额度监控  ⏱ 每 ");
    push_digits(&mut t, interval);
    t.append("s 刷新 · 阈值 ");
    push_digits(&mut t, threshold);
    t.append("% · 上次 ");
    t.append(last_check);
    assert(t@ =~= title_text(interval, threshold, last_check@));
    let cut = truncate_str(t.as_str(), inner - 2);
    let shown = styled(ACTIVE_STYLE, cut.as_str());
    boxed(shown.as_str(), text_bytes(t.as_str()), inner)
}

fn header(rec: &crate::models::AccountRecord, active: bool, inner: usize) -> (r: String)
    ensures
        r@ == header_line(rec.deep_view(), active, inner as nat),
{
    let mut h = String::from_str("  ");
    h.append(if active { "●" } else { " " });
    h.append(" ");
    h.append(rec.email.as_str());
    h.append(" [");
    match resolve_plan(rec) {
        Some(p) => h.append(p.name()),
        None => h.append("-"),
    }
    h.append("]");
    if active {
        h.append("  [ACTIVE]");
    }
    assert(h@ =~= header_text(rec.deep_view(), active));
    let bytes = text_bytes(h.as_str());
    if active {
        let shown = styled(ACTIVE_STYLE, h.as_str());
        boxed(shown.as_str(), bytes, inner)
    } else {
        boxed(h.as_str(), bytes, inner)
    }
}

fn clock_of(clocks: &Vec<Option<String>>, j: usize) -> (r: Option<String>)
    ensures
        r.deep_view() == clock_at(clocks.deep_view(), j as int),
{
    if j < clocks.len() {
        match &clocks[j] {
            Some(t) => Some(t.clone()),
            None => None,
        }
    } else {
        None
    }
}

/// The monitor's screen, line by line (see [`dashboard_lines_spec`]).
/// `clocks` holds, for each account in order, the local clock time of the
/// reset of its 5-hour window and then of its weekly window.
pub fn dashboard_lines(
    reg: &Registry,
    interval: u64,
    threshold: u64,
    events: &Vec<EventEntry>,
    now: i64,
    width: usize,
    last_check: &str,
    clocks: &Vec<Option<String>>,
) -> (r: Vec<String>)
    ensures
        r.deep_view() == dashboard_lines_spec(
            reg@,
            interval,
            threshold,
            events.deep_view(),
            now,
            width,
            last_check@,
            clocks.deep_view(),
        ),
{
    let w: usize = if width < MIN_WIDTH { MIN_WIDTH } else { width };
    let inner = w - 4;
    let ghost iv = inner as nat;
    let ghost rv = reg@;
    let ghost cv = clocks.deep_view();
    let mut lines: Vec<String> = Vec::new();
    lines.push(border("╔", "╗", inner));
    lines.push(title(interval, threshold, last_check, inner));
    lines.push(border("╠", "╣", inner));
    let ghost head = lines.deep_view();
    assert(head =~= seq![border_line("╔"@, "╗"@, iv), title_line(interval, threshold, last_check@, iv), border_line("╠"@, "╣"@, iv)]);
    let n = reg.accounts.len();
    let mut i: usize = 0;
    while i < n
        invariant
            n == reg.accounts@.len(),
            rv == reg@,
            cv == clocks.deep_view(),
            inner == w - 4,
            iv == inner as nat,
            inner >= 56,
            i <= n,
            lines.deep_view() == head + accounts_lines(rv, i as nat, now, threshold, iv, cv),
        decreases n - i,
    {
        let rec = &reg.accounts[i];
        assert(rec.deep_view() == rv.accounts[i as int]);
        let active = match &reg.active_email {
            Some(a) => *a == rec.email,
            None => false,
        };
        assert(active == (rv.active_email == Some(rv.accounts[i as int].email)));
        let ghost before = lines.deep_view();
        lines.push(header(rec, active, inner));
        // The number of clock texts bounds every position that has one.
        let clock_count = clocks.len();
        assert(clock_count == clocks@.len());
        let (c5, cw) = match i.checked_mul(2) {
            Some(j) => {
                let second = match j.checked_add(1) {
                    Some(j1) => clock_of(clocks, j1),
                    None => None,
                };
                (clock_of(clocks, j), second)
            },
            None => (None, None),
        };
        let w5 = resolve_rate_window(&rec.last_usage, 300, true);
        let ww = resolve_rate_window(&rec.last_usage, 10080, false);
        lines.push(quota_line("5H  ", w5, now, threshold as i64, inner, c5));
        lines.push(quota_line("WEEK", ww, now, threshold as i64, inner, cw));
        let mut blank = String::from_str("  ║ ");
        push_repeated(&mut blank, " ", inner - 1);
        blank.append("║");
        lines.push(blank);
        assert(lines.deep_view() =~= before + account_lines(rv, i as int, now, threshold, iv, cv));
        i += 1;
    }
    let ghost after_accounts = lines.deep_view();
    let ghost ev = events.deep_view();
    if events.len() > 0 {
        lines.push(border("╠", "╣", inner));
        let ghost sep = lines.deep_view();
        let mut k: usize = 0;
        assert(sep =~= after_accounts + seq![border_line("╠"@, "╣"@, iv)] + events_lines(ev, 0, iv));
        while k < events.len()
            invariant
                k <= events@.len(),
                ev == events.deep_view(),
                inner >= 56,
                iv == inner as nat,
                lines.deep_view() == after_accounts + seq![border_line("╠"@, "╣"@, iv)] + events_lines(ev, k as nat, iv),
            decreases events@.len() - k,
        {
            let e = &events[k];
            assert(e.deep_view() == ev[k as int]);
            let mut text = String::from_str("  [事件] ");
            text.append(e.time.as_str());
            text.append(" ");
            text.append(e.message.as_str());
            assert(text@ =~= event_text(ev[k as int]));
            let cut = truncate_str(text.as_str(), inner - 2);
            let shown = styled(DIM_STYLE, cut.as_str());
            let line = boxed(shown.as_str(), text_bytes(text.as_str()), inner);
            let ghost before = lines.deep_view();
            lines.push(line);
            assert(lines.deep_view() =~= before.push(event_line(ev[k as int], iv)));
            k += 1;
        }
    }
    let ghost after_events = lines.deep_view();
    lines.push(border("╚", "╝", inner));
    let mut quit = String::from_str("  ");
    let hint = styled(DIM_STYLE, "Ctrl+C 或 q 退出");
    quit.append(hint.as_str());
    lines.push(quit);
    assert(lines.deep_view() =~= after_events + seq![border_line("╚"@, "╝"@, iv), "  "@ + styled_spec(DIM_STYLE@, "Ctrl+C 或 q 退出"@)]);
    lines
}

proof fn lemma_accounts_lines_at(
    r: RegistryView,
    n: nat,
    now: i64,
    threshold: u64,
    inner: nat,
    clocks: Seq<Option<Seq<char>>>,
)
    requires
        n <= r.accounts.len(),
    ensures
        accounts_lines(r, n, now, threshold, inner, clocks).len() == 4 * n,
        forall|i: int, j: int|
            0 <= i < n && 0 <= j < 4 ==> #[trigger] accounts_lines(r, n, now, threshold, inner, clocks)[4 * i + j]
                == #[trigger] account_lines(r, i, now, threshold, inner, clocks)[j],
    decreases n,
{
    if n > 0 {
        let m = (n - 1) as nat;
        lemma_accounts_lines_at(r, m, now, threshold, inner, clocks);
        let before = accounts_lines(r, m, now, threshold, inner, clocks);
        let all = accounts_lines(r, n, now, threshold, inner, clocks);
        assert(all == before + account_lines(r, m as int, now, threshold, inner, clocks));
        assert forall|i: int, j: int| 0 <= i < n && 0 <= j < 4 implies #[trigger] all[4 * i + j]
            == #[trigger] account_lines(r, i, now, threshold, inner, clocks)[j] by {
            if i < m {
                assert(all[4 * i + j] == before[4 * i + j]);
            } else {
                assert(all[4 * i + j] == account_lines(r, m as int, now, threshold, inner, clocks)[j]);
            }
        }
    }
}

/// On the monitor's screen, account `i` takes the four lines from `3 + 4i`
/// on: its header (highlighted when it is the active account), the line of
/// its 5-hour window, the line of its weekly window, each with its own
/// reset clock, and an empty line; the events and the bottom follow all
/// accounts.
pub proof fn lemma_screen_lines_of_accounts(
    r: RegistryView,
    interval: u64,
    threshold: u64,
    events: Seq<EventView>,
    now: i64,
    width: usize,
    last_check: Seq<char>,
    clocks: Seq<Option<Seq<char>>>,
)
    ensures
        ({
            let lines = dashboard_lines_spec(r, interval, threshold, events, now, width, last_check, clocks);
            let inner = (box_width(width) - 4) as nat;
            &&& lines.len() == 3 + 4 * r.accounts.len() + (if events.len() > 0 { 1 + events.len() } else { 0 }) + 2
            &&& forall|i: int|
                0 <= i < r.accounts.len() ==> {
                    &&& lines[3 + 4 * i] == header_line(
                        #[trigger] r.accounts[i],
                        r.active_email == Some(r.accounts[i].email),
                        inner,
                    )
                    &&& lines[3 + 4 * i + 1] == quota_line_spec(
                        "5H  "@,
                        resolve_window(r.accounts[i].last_usage, 300, true),
                        now,
                        threshold as i64,
                        inner,
                        clock_at(clocks, 2 * i),
                    )
                    &&& lines[3 + 4 * i + 2] == quota_line_spec(
                        "WEEK"@,
                        resolve_window(r.accounts[i].last_usage, 10080, false),
                        now,
                        threshold as i64,
                        inner,
                        clock_at(clocks, 2 * i + 1),
                    )
                    &&& lines[3 + 4 * i + 3] == blank_line(inner)
                }
        }),
{
    let inner = (box_width(width) - 4) as nat;
    let n = r.accounts.len();
    lemma_accounts_lines_at(r, n, now, threshold, inner, clocks);
    let lines = dashboard_lines_spec(r, interval, threshold, events, now, width, last_check, clocks);
    let al = accounts_lines(r, n, now, threshold, inner, clocks);
    let head = seq![border_line("╔"@, "╗"@, inner), title_line(interval, threshold, last_check, inner), border_line("╠"@, "╣"@, inner)];
    let ev = if events.len() > 0 {
        seq![border_line("╠"@, "╣"@, inner)] + events_lines(events, events.len(), inner)
    } else {
        Seq::<Seq<char>>::empty()
    };
    lemma_events_lines_len(events, events.len(), inner);
    assert(lines == head + al + ev + seq![border_line("╚"@, "╝"@, inner), "  "@ + styled_spec(DIM_STYLE@, "Ctrl+C 或 q 退出"@)]);
    assert forall|i: int| 0 <= i < n implies {
        &&& lines[3 + 4 * i] == header_line(#[trigger] r.accounts[i], r.active_email == Some(r.accounts[i].email), inner)
        &&& lines[3 + 4 * i + 1] == quota_line_spec(
            "5H  "@,
            resolve_window(r.accounts[i].last_usage, 300, true),
            now,
            threshold as i64,
            inner,
            clock_at(clocks, 2 * i),
        )
        &&& lines[3 + 4 * i + 2] == quota_line_spec(
            "WEEK"@,
            resolve_window(r.accounts[i].last_usage, 10080, false),
            now,
            threshold as i64,
            inner,
            clock_at(clocks, 2 * i + 1),
        )
        &&& lines[3 + 4 * i + 3] == blank_line(inner)
    } by {
        let acc = account_lines(r, i, now, threshold, inner, clocks);
        assert(al[4 * i + 0] == acc[0]);
        assert(al[4 * i + 1] == acc[1]);
        assert(al[4 * i + 2] == acc[2]);
        assert(al[4 * i + 3] == acc[3]);
        assert(lines[3 + 4 * i] == al[4 * i]);
        assert(lines[3 + 4 * i + 1] == al[4 * i + 1]);
        assert(lines[3 + 4 * i + 2] == al[4 * i + 2]);
        assert(lines[3 + 4 * i + 3] == al[4 * i + 3]);
    }
}

proof fn lemma_events_lines_len(events: Seq<EventView>, n: nat, inner: nat)
    ensures
        events_lines(events, n, inner).len() == n,
    decreases n,
{
    if n > 0 {
        lemma_events_lines_len(events, (n - 1) as nat, inner);
    }
}

// ─── Keys ───

/// A key pressed while the monitor runs, as far as the monitor tells keys apart.
#[derive(Debug, PartialEq, Eq, Structural)]
pub enum MonitorKey {
    /// A character key.
    Char(char),
    /// The escape key.
    Escape,
    /// Any other key.
    Other,
}

/// The key stops the monitor: `q`, Esc, or `c` with Control held.
pub open spec fn quits_spec(key: MonitorKey, control: bool) -> bool {
    key == MonitorKey::Escape || key == MonitorKey::Char('q') || (key == MonitorKey::Char('c') && control)
}

/// Whether a key stops the monitor (see [`quits_spec`]).
pub fn quits_monitor(key: MonitorKey, control: bool) -> (r: bool)
    ensures
        r == quits_spec(key, control),
{
    match key {
        MonitorKey::Char(c) => c == 'q' || (c == 'c' && control),
        MonitorKey::Escape => true,
        MonitorKey::Other => false,
    }
}

} // verus!
