use package_worker::entries::{collect_entries, make_entry, task_result, NewEntry};
use package_worker::types::{File, FileKind, Task, Timestamp};
use package_worker::worker::Worker;

fn task() -> Task {
    Task {
        created: Timestamp { seconds: 1, nanoseconds: 2 },
        file: File {
            path: "a.lexc".to_string(),
            size: 30,
            revision: 40,
            sha: "abc".to_string(),
            last_author: "alice".to_string(),
            last_changed: Timestamp { seconds: 5, nanoseconds: 6 },
        },
        kind: FileKind { name: "lexc".to_string() },
    }
}

fn values(entries: &Vec<NewEntry<&'static str, u32>>) -> Vec<(&'static str, u32)> {
    entries.iter().map(|e| (e.stat_kind, e.value)).collect()
}

#[test]
fn entry_holds_what_the_task_is_about() {
    let entry = make_entry("p", &task(), ("stems", 7), Timestamp { seconds: 8, nanoseconds: 9 });
    assert_eq!(entry.name, "p");
    assert_eq!(entry.created, Timestamp { seconds: 8, nanoseconds: 9 });
    assert_eq!(entry.requested, Timestamp { seconds: 1, nanoseconds: 2 });
    assert_eq!(entry.path, "a.lexc");
    assert_eq!(entry.stat_kind, "stems");
    assert_eq!(entry.file_kind, FileKind { name: "lexc".to_string() });
    assert_eq!(entry.value, 7);
    assert_eq!(entry.revision, 40);
    assert_eq!(entry.sha, "abc");
    assert_eq!(entry.size, 30);
    assert_eq!(entry.last_author, "alice");
    assert_eq!(entry.last_changed, Timestamp { seconds: 5, nanoseconds: 6 });
}

#[test]
fn completed_task_leaves_its_entries() {
    let mut worker = Worker::new();
    worker.record_new_tasks("p", vec![task()]);
    let entries = worker.complete_task("p", &task(), Ok(vec![("stems", 7), ("rules", 1)])).unwrap();
    assert_eq!(values(&entries), vec![("stems", 7), ("rules", 1)]);
    assert_eq!(entries[1].sha, "abc");
    assert_eq!(entries[1].requested, Timestamp { seconds: 1, nanoseconds: 2 });
    assert!(entries[1].created.seconds > 1_431_648_000);
    assert!(worker.get_tasks_in_progress("p").is_none());
}

#[test]
fn failed_task_is_over_too() {
    let mut worker = Worker::new();
    worker.record_new_tasks("p", vec![task()]);
    let failed = worker.complete_task::<&str, u32>("p", &task(), Err("timeout".to_string()));
    assert_eq!(failed.unwrap_err(), "Error executing task: timeout");
    assert!(worker.get_tasks_in_progress("p").is_none());
}

#[test]
fn result_of_a_task() {
    let entries = || vec![make_entry("p", &task(), ("stems", 7), Timestamp { seconds: 8, nanoseconds: 9 })];
    let (left, error) = task_result(Ok(entries()), Ok(()));
    assert_eq!(values(&left.unwrap()), vec![("stems", 7)]);
    assert!(error.is_none());
    let (left, error) = task_result(Ok(entries()), Err("no connection".to_string()));
    assert_eq!(values(&left.unwrap()), vec![("stems", 7)]);
    assert_eq!(error.unwrap(), "Error persisting task results: no connection");
    let (left, error) = task_result::<&str, u32>(Err("Error executing task: x".to_string()), Ok(()));
    assert!(left.is_none());
    assert_eq!(error.unwrap(), "Error executing task: x");
}

#[test]
fn entries_of_all_tasks() {
    let entry = |kind: &'static str, value: u32| make_entry("p", &task(), (kind, value), Timestamp { seconds: 8, nanoseconds: 9 });
    let results = vec![
        (Some(vec![entry("stems", 1), entry("rules", 2)]), None),
        (None, Some("failed".to_string())),
        (Some(vec![]), None),
        (Some(vec![entry("stems", 3)]), Some("not stored".to_string())),
    ];
    assert_eq!(values(&collect_entries(results)), vec![("stems", 1), ("rules", 2), ("stems", 3)]);
    assert!(collect_entries::<&str, u32>(vec![]).is_empty());
}
