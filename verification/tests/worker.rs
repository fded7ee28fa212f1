use package_worker::types::{File, FileKind, Task, Timestamp};
use package_worker::worker::Worker;

fn kind(name: &str) -> FileKind {
    FileKind { name: name.to_string() }
}

fn task(kind_name: &str, path: &str, seconds: i64) -> Task {
    Task {
        created: Timestamp { seconds, nanoseconds: 0 },
        file: File {
            path: path.to_string(),
            size: 1,
            revision: 2,
            sha: "abc".to_string(),
            last_author: "alice".to_string(),
            last_changed: Timestamp { seconds: 3, nanoseconds: 4 },
        },
        kind: kind(kind_name),
    }
}

fn described(tasks: &Vec<Task>) -> Vec<(String, String, i64)> {
    tasks.iter().map(|t| (t.kind.name.clone(), t.file.path.clone(), t.created.seconds)).collect()
}

fn paths(tasks: &Vec<Task>) -> Vec<String> {
    tasks.iter().map(|t| t.file.path.clone()).collect()
}

#[test]
fn new_worker_has_no_tasks() {
    assert!(Worker::new().get_tasks_in_progress("p").is_none());
}

#[test]
fn recorded_tasks_are_in_progress() {
    let mut worker = Worker::new();
    let (new_tasks, all) = worker.record_new_tasks("p", vec![task("lexc", "a", 1), task("lexc", "b", 2)]);
    assert_eq!(paths(&new_tasks), vec!["a", "b"]);
    assert_eq!(paths(&all), vec!["a", "b"]);
    let (new_tasks, all) = worker.record_new_tasks("p", vec![task("lexc", "c", 3)]);
    assert_eq!(paths(&new_tasks), vec!["c"]);
    assert_eq!(paths(&all), vec!["a", "b", "c"]);
    let told = worker.get_tasks_in_progress("p").unwrap();
    assert_eq!(paths(&told), vec!["a", "b", "c"]);
    assert_eq!(told[0].file.sha, "abc");
    assert_eq!(told[0].file.last_changed, Timestamp { seconds: 3, nanoseconds: 4 });
    assert!(worker.get_tasks_in_progress("q").is_none());
}

#[test]
fn recording_nothing_enters_no_package() {
    let mut worker = Worker::new();
    let (new_tasks, all) = worker.record_new_tasks("p", vec![]);
    assert!(new_tasks.is_empty() && all.is_empty());
    assert!(worker.get_tasks_in_progress("p").is_none());
    worker.record_new_tasks("p", vec![task("lexc", "a", 1)]);
    let (new_tasks, all) = worker.record_new_tasks("p", vec![]);
    assert!(new_tasks.is_empty());
    assert_eq!(paths(&all), vec!["a"]);
}

#[test]
fn completion_takes_the_first_match() {
    let mut worker = Worker::new();
    worker.record_new_tasks(
        "p",
        vec![task("twolc", "a", 1), task("lexc", "b", 2), task("lexc", "a", 3), task("lexc", "a", 4)],
    );
    worker.record_task_completion("p", &task("lexc", "a", 99));
    let told = worker.get_tasks_in_progress("p").unwrap();
    assert_eq!(
        described(&told),
        vec![
            ("twolc".to_string(), "a".to_string(), 1),
            ("lexc".to_string(), "b".to_string(), 2),
            ("lexc".to_string(), "a".to_string(), 4),
        ],
    );
}

#[test]
fn package_goes_with_its_last_task() {
    let mut worker = Worker::new();
    worker.record_new_tasks("p", vec![task("lexc", "a", 1), task("lexc", "b", 2)]);
    worker.record_task_completion("p", &task("lexc", "a", 1));
    assert_eq!(paths(&worker.get_tasks_in_progress("p").unwrap()), vec!["b"]);
    worker.record_task_completion("p", &task("lexc", "b", 2));
    assert!(worker.get_tasks_in_progress("p").is_none());
}

#[test]
fn completion_of_an_unknown_task_changes_nothing() {
    let mut worker = Worker::new();
    worker.record_task_completion("p", &task("lexc", "a", 1));
    assert!(worker.get_tasks_in_progress("p").is_none());
    worker.record_new_tasks("p", vec![task("lexc", "a", 1)]);
    worker.record_task_completion("p", &task("twolc", "a", 1));
    worker.record_task_completion("p", &task("lexc", "b", 1));
    worker.record_task_completion("q", &task("lexc", "a", 1));
    assert_eq!(paths(&worker.get_tasks_in_progress("p").unwrap()), vec!["a"]);
}

#[test]
fn packages_are_independent() {
    let mut worker = Worker::new();
    worker.record_new_tasks("p", vec![task("lexc", "a", 1)]);
    worker.record_new_tasks("q", vec![task("lexc", "a", 2)]);
    worker.record_task_completion("p", &task("lexc", "a", 1));
    assert!(worker.get_tasks_in_progress("p").is_none());
    assert_eq!(worker.get_tasks_in_progress("q").unwrap()[0].created.seconds, 2);
}

#[test]
fn completions_in_any_order_undo_a_launch() {
    for order in [["a", "b", "c"], ["c", "a", "b"], ["b", "c", "a"], ["c", "b", "a"]] {
        let mut worker = Worker::new();
        worker.record_new_tasks("p", vec![task("lexc", "old", 1)]);
        worker.record_new_tasks("p", vec![task("lexc", "a", 2), task("lexc", "b", 2), task("lexc", "c", 2)]);
        for path in order {
            worker.record_task_completion("p", &task("lexc", path, 2));
        }
        assert_eq!(paths(&worker.get_tasks_in_progress("p").unwrap()), vec!["old"]);
    }
}

#[test]
fn task_in_progress_is_found() {
    let mut worker = Worker::new();
    worker.record_new_tasks("p", vec![task("lexc", "a", 1)]);
    assert!(worker.is_in_progress("p", &kind("lexc"), &"a".to_string()));
    assert!(!worker.is_in_progress("p", &kind("twolc"), &"a".to_string()));
    assert!(!worker.is_in_progress("p", &kind("lexc"), &"b".to_string()));
    assert!(!worker.is_in_progress("q", &kind("lexc"), &"a".to_string()));
}
