use sdp_task_timer::timer::{Timer, TimerColor, TimerStatus};

#[test]
fn pausing_a_stopped_timer_changes_nothing() {
    let mut t = Timer::start(1_000);
    t.pause(4_000);
    let before = t;
    t.pause(5_000);
    t.pause(9_000);
    assert_eq!(t, before);
    assert_eq!(t.elapsed(20_000), 3_000);
}

#[test]
fn resuming_a_running_timer_changes_nothing() {
    let mut t = Timer::start(1_000);
    t.resume(2_000);
    t.resume(3_500);
    assert_eq!(t, Timer::start(1_000));
    assert_eq!(t.elapsed(6_000), 5_000);
}

#[test]
fn finalize_excludes_paused_gap() {
    // pause at +45 s, wait 5 s, resume, wait 15 s, quit
    let mut t = Timer::start(10_000);
    t.pause(55_000);
    t.resume(60_000);
    let total = t.finalize(75_000);
    assert_eq!(total, 60_000);
    assert_eq!(t.status(), TimerStatus::Stopped);
    assert_eq!(t.total_duration, 60_000);
}

#[test]
fn finalize_of_a_stopped_timer_is_its_total() {
    let mut t = Timer::start(0);
    t.pause(2_500);
    assert_eq!(t.finalize(9_000), 2_500);
}

#[test]
fn elapsed_grows_with_the_clock_while_running() {
    let t = Timer::start(500);
    let mut last = t.elapsed(500);
    assert_eq!(last, 0);
    for now in [700u64, 1_500, 1_500, 4_000] {
        let e = t.elapsed(now);
        assert!(e >= last);
        last = e;
    }
    assert_eq!(last, 3_500);
}

#[test]
fn finalize_sums_several_intervals() {
    let mut t = Timer::start(0);
    t.pause(1_000);
    t.resume(3_000);
    t.pause(3_200);
    t.pause(3_300);
    t.resume(10_000);
    t.resume(10_500);
    assert_eq!(t.finalize(12_000), 1_000 + 200 + 2_000);
}

#[test]
fn action_text_and_color_follow_status() {
    assert_eq!(TimerStatus::Running.action_text(), " Pause ");
    assert_eq!(TimerStatus::Stopped.action_text(), " Resume ");
    assert_eq!(TimerStatus::Running.timer_color(), TimerColor::Green);
    assert_eq!(TimerStatus::Stopped.timer_color(), TimerColor::Red);
}

#[test]
fn clock_text_is_minutes_and_seconds() {
    let t = Timer::start(0);
    assert_eq!(t.clock_text(0), "00:00");
    assert_eq!(t.clock_text(65_999), "01:05");
    assert_eq!(t.clock_text(600_000), "10:00");
    assert_eq!(t.clock_text(6_000_000), "100:00");
}
