//! What the tray shows: display keys, status text, refresh decisions, menu
//! commands and the polling worker's cache of the last reading.

use vstd::prelude::*;
use vstd::string::StringExecFns;
use crate::device::BatteryReading;
use crate::protocol::STALE_READING_SEC;
use crate::text::{push_decimal, spec_decimal_chars};

verus! {

/// What the tray icon and tooltip depend on.
#[derive(Debug, Clone, Copy, PartialEq, Eq)]
pub struct DisplayKey {
    pub percent: Option<u8>,
    pub charging: bool,
    pub stale: bool,
}

pub open spec fn spec_display_key_for(reading: Option<&BatteryReading>, stale: bool) -> DisplayKey {
    match reading {
        None => DisplayKey { percent: None, charging: false, stale },
        Some(r) => DisplayKey { percent: Some(r.percent), charging: r.charging, stale },
    }
}

pub fn display_key_for(reading: Option<&BatteryReading>, stale: bool) -> (k: DisplayKey)
    ensures
        k == spec_display_key_for(reading, stale),
{
    match reading {
        None => DisplayKey { percent: None, charging: false, stale },
        Some(r) => DisplayKey { percent: Some(r.percent), charging: r.charging, stale },
    }
}

/// The tooltip and menu status line.
pub open spec fn spec_status_text(reading: Option<&BatteryReading>, stale: bool) -> Seq<char> {
    match reading {
        None => "Attack Shark R11 Ultra: disconnected"@,
        Some(r) => "Attack Shark R11 Ultra: "@ + spec_decimal_chars(r.percent as nat) + "%"@ + if r.charging {
            " (charging)"@
        } else if stale {
            " (last reading)"@
        } else {
            Seq::<char>::empty()
        },
    }
}

pub fn status_text(reading: Option<&BatteryReading>, stale: bool) -> (text: String)
    ensures
        text@ == spec_status_text(reading, stale),
{
    match reading {
        None => String::from_str("Attack Shark R11 Ultra: disconnected"),
        Some(r) => {
            let mut label = String::from_str("Attack Shark R11 Ultra: ");
            push_decimal(&mut label, r.percent as u64);
            label.append("%");
            if r.charging {
                label.append(" (charging)");
            } else if stale {
                label.append(" (last reading)");
            }
            label
        },
    }
}

/// The one-line report of a single poll.
pub open spec fn spec_once_report(reading: Option<&BatteryReading>) -> Seq<char> {
    match reading {
        None => "No battery reading available."@,
        Some(r) => "Attack Shark R11 Ultra \u{2014} "@ + spec_decimal_chars(r.percent as nat) + if r.charging {
            "% (charging)"@
        } else {
            "%"@
        },
    }
}

pub fn once_report(reading: Option<&BatteryReading>) -> (line: String)
    ensures
        line@ == spec_once_report(reading),
{
    match reading {
        None => String::from_str("No battery reading available."),
        Some(r) => {
            let mut line = String::from_str("Attack Shark R11 Ultra \u{2014} ");
            push_decimal(&mut line, r.percent as u64);
            if r.charging {
                line.append("% (charging)");
            } else {
                line.append("%");
            }
            line
        },
    }
}

/// What a tray refresh has to redo.
#[derive(Debug, Clone, Copy, PartialEq, Eq)]
pub struct RefreshPlan {
    pub update_icon: bool,
    pub update_text: bool,
}

/// The icon depends on the percentage and the charging state only; the text
/// also on staleness.
pub open spec fn spec_refresh_plan(key: DisplayKey, last: DisplayKey) -> RefreshPlan {
    RefreshPlan {
        update_icon: key.percent != last.percent || key.charging != last.charging,
        update_text: key != last,
    }
}

/// Decides what a refresh to `key` redoes after `last_key` was shown, and
/// records `key` as shown.
pub fn plan_refresh(key: DisplayKey, last_key: &mut DisplayKey) -> (plan: RefreshPlan)
    ensures
        plan == spec_refresh_plan(key, *old(last_key)),
        *final(last_key) == key,
{
    let update_icon = key.percent != last_key.percent || key.charging != last_key.charging;
    let update_text = key.percent != last_key.percent || key.charging != last_key.charging
        || key.stale != last_key.stale;
    if update_text {
        *last_key = key;
    }
    RefreshPlan { update_icon, update_text }
}

/// The icon is redrawn exactly when the percentage or the charging state
/// changed; the text is redone exactly when anything shown changed, so a new
/// icon always comes with a new text, and refreshing to what is already shown
/// redoes nothing.
pub proof fn lemma_refresh_plan(key: DisplayKey, last: DisplayKey)
    ensures
        key.charging != last.charging ==> spec_refresh_plan(key, last).update_icon,
        key.percent != last.percent ==> spec_refresh_plan(key, last).update_icon,
        key.charging == last.charging && key.percent == last.percent ==> !spec_refresh_plan(
            key,
            last,
        ).update_icon,
        spec_refresh_plan(key, last).update_text <==> (key.percent != last.percent || key.charging
            != last.charging || key.stale != last.stale),
        spec_refresh_plan(key, last).update_icon ==> spec_refresh_plan(key, last).update_text,
        spec_refresh_plan(key, key) == (RefreshPlan { update_icon: false, update_text: false }),
{
}

/// The status line for a reading: the percentage followed by "%", then
/// " (charging)" exactly while the reading says charging, else
/// " (last reading)" for a kept reading, else nothing.
pub proof fn lemma_status_text(r: BatteryReading, stale: bool)
    ensures
        r.charging ==> spec_status_text(Some(&r), stale) == "Attack Shark R11 Ultra: "@
            + spec_decimal_chars(r.percent as nat) + "% (charging)"@,
        !r.charging && stale ==> spec_status_text(Some(&r), stale) == "Attack Shark R11 Ultra: "@
            + spec_decimal_chars(r.percent as nat) + "% (last reading)"@,
        !r.charging && !stale ==> spec_status_text(Some(&r), stale) == "Attack Shark R11 Ultra: "@
            + spec_decimal_chars(r.percent as nat) + "%"@,
        spec_status_text(None, stale) == "Attack Shark R11 Ultra: disconnected"@,
{
    reveal_strlit("%");
    reveal_strlit(" (charging)");
    reveal_strlit(" (last reading)");
    reveal_strlit("% (charging)");
    reveal_strlit("% (last reading)");
    let head = "Attack Shark R11 Ultra: "@ + spec_decimal_chars(r.percent as nat);
    assert(head + "%"@ + " (charging)"@ =~= head + "% (charging)"@);
    assert(head + "%"@ + " (last reading)"@ =~= head + "% (last reading)"@);
    assert(head + "%"@ + Seq::<char>::empty() =~= head + "%"@);
}

/// Readings that differ only in the cable flag, the voltage or the device
/// show the same status line and the same one-line report.
pub proof fn lemma_texts_ignore_cable(r1: BatteryReading, r2: BatteryReading, stale: bool)
    requires
        r1.percent == r2.percent,
        r1.charging == r2.charging,
    ensures
        spec_status_text(Some(&r1), stale) == spec_status_text(Some(&r2), stale),
        spec_once_report(Some(&r1)) == spec_once_report(Some(&r2)),
{
}

/// The one-line report says "(charging)" exactly while the reading says
/// charging.
pub proof fn lemma_once_report(r: BatteryReading)
    ensures
        r.charging ==> spec_once_report(Some(&r)) == "Attack Shark R11 Ultra \u{2014} "@
            + spec_decimal_chars(r.percent as nat) + "% (charging)"@,
        !r.charging ==> spec_once_report(Some(&r)) == "Attack Shark R11 Ultra \u{2014} "@
            + spec_decimal_chars(r.percent as nat) + "%"@,
        spec_once_report(None) == "No battery reading available."@,
{
}

/// What a tray menu item asks for.
#[derive(Debug, Clone, Copy, PartialEq, Eq)]
pub enum MenuAction {
    Refresh,
    Exit,
    ToggleAutostart,
    Ignore,
}

pub open spec fn spec_menu_action(id: Seq<char>) -> MenuAction {
    if id == "refresh"@ {
        MenuAction::Refresh
    } else if id == "exit"@ {
        MenuAction::Exit
    } else if id == "autostart"@ {
        MenuAction::ToggleAutostart
    } else {
        MenuAction::Ignore
    }
}

/// The action of the menu item with identifier `id`.
pub fn menu_action(id: &str) -> (a: MenuAction)
    ensures
        a == spec_menu_action(id@),
{
    let id = String::from_str(id);
    if id == String::from_str("refresh") {
        MenuAction::Refresh
    } else if id == String::from_str("exit") {
        MenuAction::Exit
    } else if id == String::from_str("autostart") {
        MenuAction::ToggleAutostart
    } else {
        MenuAction::Ignore
    }
}

/// What the polling worker hands to the tray: a reading (or none) and whether
/// it is a kept earlier reading rather than a fresh one.
#[derive(Debug, Clone)]
pub struct BatteryDisplay {
    pub reading: Option<BatteryReading>,
    pub stale: bool,
}

/// What the tray asks of the polling worker.
#[derive(Debug, Clone, Copy, PartialEq, Eq)]
pub enum WorkerCommand {
    PollNow,
    Shutdown,
}

/// Why the polling worker woke up.
#[derive(Debug, Clone, Copy, PartialEq, Eq)]
pub enum WorkerWake {
    Command(WorkerCommand),
    TimedOut,
    Disconnected,
}

/// The worker polls on a request or when its interval runs out, and stops on
/// shutdown or when the tray is gone.
pub open spec fn spec_should_poll(wake: WorkerWake) -> bool {
    match wake {
        WorkerWake::Command(WorkerCommand::PollNow) => true,
        WorkerWake::TimedOut => true,
        _ => false,
    }
}

pub fn should_poll(wake: WorkerWake) -> (poll: bool)
    ensures
        poll == spec_should_poll(wake),
{
    match wake {
        WorkerWake::Command(WorkerCommand::Shutdown) => false,
        WorkerWake::Command(WorkerCommand::PollNow) => true,
        WorkerWake::TimedOut => true,
        WorkerWake::Disconnected => false,
    }
}

/// How long a reading stays on show after polls stop answering, in
/// nanoseconds.
pub open spec fn stale_limit_ns() -> int {
    STALE_READING_SEC * 1_000_000_000
}

/// Time from `at` to `now`, zero when `now` is earlier.
pub open spec fn elapsed(at: u64, now: u64) -> int {
    if now >= at {
        now - at
    } else {
        0
    }
}

/// One poll outcome: the kept reading afterwards, what is shown, and whether
/// the worker then looks for a pending shutdown.
pub open spec fn spec_on_poll(
    last: Option<(BatteryReading, u64)>,
    now: u64,
    reading: Option<BatteryReading>,
) -> (Option<(BatteryReading, u64)>, BatteryDisplay, bool) {
    match reading {
        Some(r) => (Some((r, now)), BatteryDisplay { reading: Some(r), stale: false }, false),
        None => match last {
            Some((c, at)) => if elapsed(at, now) <= stale_limit_ns() {
                (last, BatteryDisplay { reading: Some(c), stale: true }, false)
            } else {
                (None, BatteryDisplay { reading: None, stale: false }, true)
            },
            None => (None, BatteryDisplay { reading: None, stale: false }, true),
        },
    }
}

fn copy_reading(r: &BatteryReading) -> (c: BatteryReading)
    ensures
        c == *r,
{
    BatteryReading {
        percent: r.percent,
        wired: r.wired,
        charging: r.charging,
        voltage_mv: r.voltage_mv,
        vendor_id: r.vendor_id,
        product_id: r.product_id,
        product_string: r.product_string.clone(),
    }
}

/// The polling worker's memory: the last reading and when it was taken, in
/// nanoseconds on a monotonic clock.
pub struct PollWorker {
    pub last: Option<(BatteryReading, u64)>,
}

impl PollWorker {
    pub fn new() -> (w: Self)
        ensures
            w.last is None,
    {
        PollWorker { last: None }
    }

    /// Takes the outcome of a poll at time `now`: a fresh reading is shown and
    /// kept; a miss shows the kept reading as stale while it is at most
    /// `STALE_READING_SEC` old, and otherwise shows nothing and forgets it. The
    /// flag tells the worker to look for a pending shutdown, which it does
    /// after showing nothing.
    pub fn on_poll(&mut self, now: u64, reading: Option<BatteryReading>) -> (r: (
        BatteryDisplay,
        bool,
    ))
        ensures
            ({
                let (last, display, check) = spec_on_poll(old(self).last, now, reading);
                &&& final(self).last == last
                &&& r.0 == display
                &&& r.1 == check
            }),
    {
        match reading {
            Some(r) => {
                let kept = copy_reading(&r);
                self.last = Some((kept, now));
                (BatteryDisplay { reading: Some(r), stale: false }, false)
            },
            None => {
                let fresh_enough = match &self.last {
                    Some((_, at)) => {
                        let age: u64 = if now >= *at {
                            now - *at
                        } else {
                            0
                        };
                        age <= STALE_READING_SEC * 1_000_000_000
                    },
                    None => false,
                };
                if fresh_enough {
                    let shown = match &self.last {
                        Some((c, _)) => Some(copy_reading(c)),
                        None => None,
                    };
                    (BatteryDisplay { reading: shown, stale: true }, false)
                } else {
                    self.last = None;
                    (BatteryDisplay { reading: None, stale: false }, true)
                }
            },
        }
    }
}

/// A kept reading stays on show for five minutes.
pub proof fn lemma_stale_limit()
    ensures
        stale_limit_ns() == 300_000_000_000,
{
}

/// The worker polls on a request and when its interval runs out, and stops
/// on shutdown and when the tray is gone.
pub proof fn lemma_should_poll()
    ensures
        spec_should_poll(WorkerWake::Command(WorkerCommand::PollNow)),
        spec_should_poll(WorkerWake::TimedOut),
        !spec_should_poll(WorkerWake::Command(WorkerCommand::Shutdown)),
        !spec_should_poll(WorkerWake::Disconnected),
{
}

/// The menu items "refresh", "exit" and "autostart" ask for a refresh, to
/// quit and to toggle start-up; any other identifier asks for nothing, and
/// different items never ask for the same thing.
pub proof fn lemma_menu_actions(id: Seq<char>)
    ensures
        spec_menu_action("refresh"@) == MenuAction::Refresh,
        spec_menu_action("exit"@) == MenuAction::Exit,
        spec_menu_action("autostart"@) == MenuAction::ToggleAutostart,
        id != "refresh"@ && id != "exit"@ && id != "autostart"@ ==> spec_menu_action(id)
            == MenuAction::Ignore,
{
    reveal_strlit("refresh");
    reveal_strlit("exit");
    reveal_strlit("autostart");
    assert("refresh"@ != "exit"@ && "exit"@ != "autostart"@ && "refresh"@ != "autostart"@) by {
        assert("refresh"@.len() != "exit"@.len());
        assert("exit"@.len() != "autostart"@.len());
        assert("refresh"@.len() != "autostart"@.len());
    }
}

/// A reading taken at `t` stays on show, marked stale, through every missed
/// poll up to `STALE_READING_SEC` later.
pub proof fn lemma_reading_survives_misses(
    last: Option<(BatteryReading, u64)>,
    r: BatteryReading,
    t: u64,
    later: u64,
)
    requires
        t <= later,
        later - t <= stale_limit_ns(),
    ensures
        ({
            let (kept, _, _) = spec_on_poll(last, t, Some(r));
            let (kept2, display, check) = spec_on_poll(kept, later, None);
            &&& display == (BatteryDisplay { reading: Some(r), stale: true })
            &&& kept2 == kept
            &&& !check
        }),
{
}

/// Past `STALE_READING_SEC`, a miss forgets the kept reading, and misses show
/// nothing until a fresh reading arrives.
pub proof fn lemma_reading_expires(
    last: Option<(BatteryReading, u64)>,
    r: BatteryReading,
    t: u64,
    later: u64,
    even_later: u64,
)
    requires
        t <= later,
        later - t > stale_limit_ns(),
    ensures
        ({
            let (kept, _, _) = spec_on_poll(last, t, Some(r));
            let (kept2, display, check) = spec_on_poll(kept, later, None);
            let (kept3, display3, _) = spec_on_poll(kept2, even_later, None);
            &&& display == (BatteryDisplay { reading: None, stale: false })
            &&& kept2 is None
            &&& check
            &&& display3 == (BatteryDisplay { reading: None, stale: false })
            &&& kept3 is None
        }),
{
}

} // verus!
