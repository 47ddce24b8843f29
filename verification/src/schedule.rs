use vstd::prelude::*;

use chrono::Timelike;

verus! {

/// A wall-clock time of day, used both for the fixed daily
/// trigger instant and for the current moment.
pub struct TriggerTime {
    pub hour: u32,
    pub minute: u32,
    pub second: u32,
}

impl TriggerTime {
    /// A time of day is well formed when each component is in
    /// range.
    pub open spec fn wf(&self) -> bool {
        self.hour < 24 && self.minute < 60 && self.second < 60
    }

    /// The instant expressed as seconds since midnight.
    pub open spec fn spec_seconds_of_day(&self) -> int {
        self.hour * 3600 + self.minute * 60 + self.second
    }

    pub fn seconds_of_day(&self) -> (s: u32)
        requires
            self.wf(),
        ensures
            s == self.spec_seconds_of_day(),
            s < 86400,
    {
        self.hour * 3600 + self.minute * 60 + self.second
    }
}

/// How long the scheduler waits before the next cycle: the gap
/// to today's trigger instant when that instant is still ahead,
/// and otherwise the gap to the same instant tomorrow.  The wait
/// is never zero — a cycle that starts exactly at the trigger
/// instant schedules the next one a full day ahead — and never
/// more than a day.
pub fn next_trigger_delay(now: &TriggerTime, trigger: &TriggerTime) -> (d: u32)
    requires
        now.wf(),
        trigger.wf(),
    ensures
        trigger.spec_seconds_of_day() > now.spec_seconds_of_day() ==> d
            == trigger.spec_seconds_of_day() - now.spec_seconds_of_day(),
        trigger.spec_seconds_of_day() <= now.spec_seconds_of_day() ==> d
            == trigger.spec_seconds_of_day() + 86400 - now.spec_seconds_of_day(),
        0 < d <= 86400,
{
    let t = trigger.seconds_of_day();
    let n = now.seconds_of_day();
    if t > n {
        t - n
    } else {
        t + 86400 - n
    }
}

/// Relies on chrono's `Local::now` and the `Timelike` accessors
/// `hour`, `minute` and `second`, whose documentation bounds them
/// to 0..24, 0..60 and 0..60: reads the clock's current local
/// time of day.
#[verifier::external_body]
fn now_time_of_day() -> (t: TriggerTime)
    ensures
        t.wf(),
{
    let now = chrono::Local::now();
    TriggerTime { hour: now.hour(), minute: now.minute(), second: now.second() }
}

/// Reads the clock and computes the wait until the next daily
/// trigger; whatever the clock reported, the wait is positive
/// and at most one day.
pub fn seconds_until_next_trigger(trigger: &TriggerTime) -> (d: u32)
    requires
        trigger.wf(),
    ensures
        0 < d <= 86400,
{
    let now = now_time_of_day();
    next_trigger_delay(&now, trigger)
}

} // verus!
