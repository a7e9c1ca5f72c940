use sdp_task_timer::issue::Issue;
use sdp_task_timer::store::DataStore;
use sdp_task_timer::timer::TimerStatus;
use sdp_task_timer::tui::{App, InputEvent, KeyInput, POLL_TIMEOUT_MS};

fn issue() -> Issue {
    Issue::new(12, "Add login page".to_string())
}

fn press(c: char) -> Option<InputEvent> {
    Some(InputEvent::Key { code: KeyInput::Char(c), press: true })
}

#[test]
fn idle_polls_for_two_seconds_only_advance_the_display() {
    let mut app = App::new(&issue(), 0);
    let mut now = 0u64;
    let mut shown = app.timer.elapsed(now);
    let mut cycles = 0;
    while now < 2_000 {
        now += POLL_TIMEOUT_MS;
        app.handle_events(None, now);
        let e = app.timer.elapsed(now);
        assert!(e > shown);
        shown = e;
        cycles += 1;
    }
    assert_eq!(cycles, 8);
    assert_eq!(shown, 2_000);
    assert!(app.is_running());
    assert_eq!(app.timer.status(), TimerStatus::Running);
    assert_eq!(app.timer.clock_text(now), "00:02");
}

#[test]
fn pause_key_toggles_and_quit_key_ends() {
    let mut app = App::new(&issue(), 0);
    app.handle_events(press('p'), 45_000);
    assert_eq!(app.timer.status(), TimerStatus::Stopped);
    app.handle_events(press('p'), 50_000);
    assert_eq!(app.timer.status(), TimerStatus::Running);
    app.handle_events(press('q'), 65_000);
    assert!(!app.is_running());
    assert_eq!(app.timer.total_duration, 60_000);
    assert_eq!(app.session_seconds(), 60);
}

#[test]
fn other_input_is_ignored() {
    let mut app = App::new(&issue(), 0);
    app.handle_events(press('x'), 100);
    app.handle_events(Some(InputEvent::Key { code: KeyInput::Other, press: true }), 200);
    app.handle_events(Some(InputEvent::Key { code: KeyInput::Char('q'), press: false }), 300);
    app.handle_events(Some(InputEvent::Other), 400);
    assert!(app.is_running());
    assert_eq!(app.timer.status(), TimerStatus::Running);
    assert_eq!(app.timer.elapsed(1_000), 1_000);
}

#[test]
fn quit_while_paused_keeps_the_paused_total() {
    let mut app = App::new(&issue(), 1_000);
    app.handle_pause(4_000);
    app.exit(9_000);
    assert!(app.exit);
    assert_eq!(app.timer.total_duration, 3_000);
}

#[test]
fn title_names_the_issue() {
    let app = App::new(&issue(), 0);
    assert_eq!(app.title_text(), " Working on Task #12: Add login page ");
}

#[test]
fn commit_records_the_sitting_in_whole_seconds() {
    let mut store = DataStore::new();
    store.record_session(12, "Old title", 30);
    let mut app = App::new(&issue(), 0);
    app.exit(90_750);
    app.commit(&mut store);
    assert_eq!(store.time_on_task(12), 120);
    assert_eq!(store.tasks[0].title, "Old title");
    assert_eq!(store.tasks[0].sessions.len(), 2);
}
