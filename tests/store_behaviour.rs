use sdp_task_timer::store::{time_spent_on_task, DataStore, Session, StoreError, Task};
use sdp_task_timer::text::format_minutes;

fn task(id: u64, title: &str, secs: &[u64]) -> Task {
    Task {
        id,
        title: title.to_string(),
        sessions: secs.iter().map(|&d| Session { duration_seconds: d }).collect(),
    }
}

#[test]
fn sessions_of_ninety_and_thirty_seconds_make_two_minutes() {
    let store = DataStore::from_tasks(vec![task(7, "Write docs", &[90, 30])]).unwrap();
    assert_eq!(store.time_on_task(7), 120);
    assert_eq!(format_minutes(store.time_on_task(7)), "2.00");
}

#[test]
fn time_spent_on_task_sums_durations() {
    assert_eq!(time_spent_on_task(&task(1, "a", &[])), 0);
    assert_eq!(time_spent_on_task(&task(1, "a", &[5, 6, 7])), 18);
    assert_eq!(
        time_spent_on_task(&task(1, "a", &[u64::MAX, u64::MAX])),
        2 * (u64::MAX as u128)
    );
}

#[test]
fn record_session_adds_and_keeps_prior_sessions() {
    let mut store = DataStore::new();
    store.record_session(3, "Fix login", 40);
    store.record_session(3, "Renamed later", 25);
    store.record_session(3, "Renamed again", 10);
    assert_eq!(store.time_on_task(3), 75);
    assert_eq!(store.tasks.len(), 1);
    assert_eq!(store.tasks[0].title, "Fix login");
    let durations: Vec<u64> = store.tasks[0].sessions.iter().map(|s| s.duration_seconds).collect();
    assert_eq!(durations, vec![40, 25, 10]);
}

#[test]
fn record_session_total_ignores_call_order() {
    let mut a = DataStore::new();
    let mut b = DataStore::new();
    for d in [10u64, 20, 30] {
        a.record_session(9, "t", d);
    }
    for d in [30u64, 10, 20] {
        b.record_session(9, "t", d);
    }
    assert_eq!(a.time_on_task(9), 60);
    assert_eq!(b.time_on_task(9), 60);
}

#[test]
fn record_session_leaves_other_tasks_alone() {
    let mut store = DataStore::new();
    store.record_session(1, "one", 5);
    store.record_session(2, "two", 8);
    store.record_session(1, "one", 5);
    assert_eq!(store.time_on_task(1), 10);
    assert_eq!(store.time_on_task(2), 8);
}

#[test]
fn unknown_task_has_zero_time_and_no_entry() {
    let mut store = DataStore::new();
    store.record_session(1, "one", 5);
    assert_eq!(store.time_on_task(42), 0);
    assert_eq!(store.tasks.len(), 1);
    assert_eq!(store.tasks[0].id, 1);
}

#[test]
fn persisted_tasks_load_back_equal() {
    let mut store = DataStore::new();
    store.record_session(4, "four", 12);
    store.record_session(2, "two", 3);
    store.record_session(4, "four", 1);
    let mut persisted = store.tasks.clone();
    persisted.reverse();
    let loaded = DataStore::from_tasks(persisted).unwrap();
    assert_eq!(loaded.tasks.len(), 2);
    for id in [2u64, 4] {
        let a = store.tasks.iter().find(|t| t.id == id).unwrap();
        let b = loaded.tasks.iter().find(|t| t.id == id).unwrap();
        assert_eq!(a.title, b.title);
        assert_eq!(a.sessions, b.sessions);
        assert_eq!(store.time_on_task(id), loaded.time_on_task(id));
    }
}

#[test]
fn missing_store_then_one_session_reloads_as_one_task() {
    let mut store = DataStore::new();
    assert_eq!(store.tasks.len(), 0);
    store.record_session(11, "Only task", 300);
    let loaded = DataStore::from_tasks(store.tasks.clone()).unwrap();
    assert_eq!(loaded.tasks.len(), 1);
    assert_eq!(loaded.tasks[0].id, 11);
    assert_eq!(loaded.tasks[0].title, "Only task");
    assert_eq!(loaded.tasks[0].sessions, vec![Session { duration_seconds: 300 }]);
}

#[test]
fn duplicate_ids_are_refused() {
    let r = DataStore::from_tasks(vec![task(1, "a", &[1]), task(2, "b", &[]), task(1, "c", &[])]);
    assert_eq!(r.unwrap_err(), StoreError::DuplicateTask(1));
}

#[test]
fn minutes_are_rounded_to_hundredths() {
    assert_eq!(format_minutes(0), "0.00");
    assert_eq!(format_minutes(1), "0.02");
    assert_eq!(format_minutes(59), "0.98");
    assert_eq!(format_minutes(90), "1.50");
    assert_eq!(format_minutes(3_601), "60.02");
    assert_eq!(format_minutes(u128::MAX), "5671372782015641057722910123862803524.25");
}
