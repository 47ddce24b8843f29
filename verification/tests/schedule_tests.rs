use mysql_dump_schedule::schedule::{next_trigger_delay, seconds_until_next_trigger, TriggerTime};

#[test]
fn midnight_trigger_already_past_waits_for_next_day() {
    // trigger 00:00:00, current time 23:00:00 the same day:
    // midnight has passed, so the next trigger is tomorrow's
    let now = TriggerTime { hour: 23, minute: 0, second: 0 };
    let trigger = TriggerTime { hour: 0, minute: 0, second: 0 };
    assert_eq!(next_trigger_delay(&now, &trigger), 3600);
}

#[test]
fn trigger_still_ahead_waits_until_today() {
    let now = TriggerTime { hour: 10, minute: 0, second: 0 };
    let trigger = TriggerTime { hour: 12, minute: 30, second: 15 };
    assert_eq!(next_trigger_delay(&now, &trigger), 2 * 3600 + 30 * 60 + 15);
}

#[test]
fn trigger_exactly_now_waits_a_full_day() {
    let now = TriggerTime { hour: 6, minute: 15, second: 0 };
    let trigger = TriggerTime { hour: 6, minute: 15, second: 0 };
    assert_eq!(next_trigger_delay(&now, &trigger), 86400);
}

#[test]
fn wait_from_the_clock_is_within_a_day() {
    let trigger = TriggerTime { hour: 0, minute: 0, second: 0 };
    let d = seconds_until_next_trigger(&trigger);
    assert!(d >= 1 && d <= 86400);
}
