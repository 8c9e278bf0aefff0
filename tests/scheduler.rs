use host_plugins::moment::Moment;
use host_plugins::scheduler::{
    add_task, check_tasks, check_tasks_at, confirmation_text, SchedulerError, TaskStore,
};

const FAR_FUTURE: &str = "253402300799";

#[test]
fn future_task_stays_after_sweep() {
    let mut store = TaskStore::new();
    assert!(add_task(&mut store, FAR_FUTURE, "later").is_ok());
    assert!(check_tasks(&mut store).is_empty());
    assert_eq!(store.len(), 1);
}

#[test]
fn past_task_fires_once() {
    let mut store = TaskStore::new();
    assert!(add_task(&mut store, "1000", "hello").is_ok());
    assert_eq!(check_tasks(&mut store), vec!["hello".to_string()]);
    assert!(check_tasks(&mut store).is_empty());
    assert_eq!(store.len(), 0);
}

#[test]
fn two_due_tasks_fire_together() {
    let mut store = TaskStore::new();
    assert!(add_task(&mut store, "1000", "first").is_ok());
    assert!(add_task(&mut store, "2000", "second").is_ok());
    let mut fired = check_tasks(&mut store);
    fired.sort();
    assert_eq!(fired, vec!["first".to_string(), "second".to_string()]);
    assert_eq!(store.len(), 0);
}

#[test]
fn only_due_tasks_fire() {
    let mut store = TaskStore::new();
    assert!(add_task(&mut store, "1000", "old").is_ok());
    assert!(add_task(&mut store, FAR_FUTURE, "new").is_ok());
    assert_eq!(check_tasks(&mut store), vec!["old".to_string()]);
    assert_eq!(store.len(), 1);
}

#[test]
fn task_due_exactly_now_fires() {
    let mut store = TaskStore::new();
    assert!(add_task(&mut store, "500", "edge").is_ok());
    assert!(check_tasks_at(&mut store, Moment { secs: 499, nanos: 999_999_999 }).is_empty());
    assert_eq!(check_tasks_at(&mut store, Moment { secs: 500, nanos: 0 }), vec!["edge".to_string()]);
}

#[test]
fn non_numeric_timestamp_is_refused() {
    let mut store = TaskStore::new();
    assert!(add_task(&mut store, FAR_FUTURE, "keep").is_ok());
    let before = store.len();
    assert_eq!(add_task(&mut store, "not-a-number", "x"), Err(SchedulerError::InvalidTimestampError));
    assert_eq!(store.len(), before);
}

#[test]
fn unrepresentable_timestamps_are_refused() {
    let mut store = TaskStore::new();
    for ts in ["", "1.5", "99999999999999999999", "9000000000000", "8210266876800", "-8334601228801"] {
        assert_eq!(add_task(&mut store, ts, "x"), Err(SchedulerError::InvalidTimestampError), "{ts:?}");
    }
    assert_eq!(store.len(), 0);
}

#[test]
fn every_representable_year_is_accepted() {
    let mut store = TaskStore::new();
    assert_eq!(
        add_task(&mut store, "253402300800", "year ten thousand"),
        Ok("Task scheduled for Sat, 1 Jan +10000 00:00:00 +0000".to_string())
    );
    assert_eq!(
        add_task(&mut store, "-62167219200", "year zero"),
        Ok("Task scheduled for Sat, 1 Jan 0000 00:00:00 +0000".to_string())
    );
    assert_eq!(
        add_task(&mut store, "-62167219201", "before year zero"),
        Ok("Task scheduled for Fri, 31 Dec -0001 23:59:59 +0000".to_string())
    );
    assert!(add_task(&mut store, "8210266876799", "last").is_ok());
    assert!(add_task(&mut store, "-8334601228800", "first").is_ok());
    assert_eq!(store.len(), 5);
}

#[test]
fn confirmation_names_the_time() {
    let mut store = TaskStore::new();
    assert_eq!(add_task(&mut store, "0", "m"), Ok("Task scheduled for Thu, 1 Jan 1970 00:00:00 +0000".to_string()));
    assert_eq!(
        add_task(&mut store, "1700000000", "m"),
        Ok("Task scheduled for Tue, 14 Nov 2023 22:13:20 +0000".to_string())
    );
}

#[test]
fn every_insertion_is_kept() {
    let mut store = TaskStore::new();
    let mut accepted = 0;
    for i in 0..200 {
        let ts = if i % 3 == 0 { "bad".to_string() } else { format!("{}", 4_000_000_000i64 + i) };
        if store.has_room() && add_task(&mut store, &ts, "m").is_ok() {
            accepted += 1;
        }
    }
    assert_eq!(store.len(), accepted);
    assert_eq!(check_tasks_at(&mut store, Moment { secs: 5_000_000_000, nanos: 0 }).len(), accepted);
}

#[test]
fn scheduler_error_message() {
    assert_eq!(SchedulerError::InvalidTimestampError.message(), "Invalid timestamp");
}

#[test]
fn refused_timestamp_leaves_a_full_store_alone() {
    let mut store = TaskStore::new();
    assert!(add_task(&mut store, "1000", "a").is_ok());
    assert!(add_task(&mut store, FAR_FUTURE, "b").is_ok());
    assert_eq!(add_task(&mut store, "not-a-number", "x"), Err(SchedulerError::InvalidTimestampError));
    assert_eq!(store.len(), 2);
    assert_eq!(check_tasks_at(&mut store, Moment { secs: 2000, nanos: 0 }), vec!["a".to_string()]);
}

#[test]
fn confirmation_prefixes_the_time() {
    assert_eq!(confirmation_text("Thu, 1 Jan 1970 00:00:00 +0000"), "Task scheduled for Thu, 1 Jan 1970 00:00:00 +0000");
}

#[test]
fn new_store_is_empty() {
    let mut store = TaskStore::new();
    assert_eq!(store.len(), 0);
    assert!(store.has_room());
    assert!(check_tasks(&mut store).is_empty());
}
