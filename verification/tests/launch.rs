use package_worker::launch::{make_task, unique_revisions, Candidate, RequestedFile};
use package_worker::types::{FileKind, FileWithoutSha, Task, Timestamp};
use package_worker::worker::Worker;

fn kind(name: &str) -> FileKind {
    FileKind { name: name.to_string() }
}

fn file(path: &str, revision: i32) -> FileWithoutSha {
    FileWithoutSha {
        path: path.to_string(),
        size: 10,
        revision,
        last_author: "alice".to_string(),
        last_changed: Timestamp { seconds: 5, nanoseconds: 6 },
    }
}

fn candidate(path: &str, revision: i32, kind_name: Option<&str>) -> Candidate {
    Candidate { file: file(path, revision), kind: kind_name.map(kind) }
}

fn candidates() -> Vec<Candidate> {
    vec![
        candidate("a.lexc", 7, Some("lexc")),
        candidate("README", 1, None),
        candidate("b.twolc", 3, Some("twolc")),
        candidate("c.lexc", 7, Some("lexc")),
        candidate("d.lexc", -2, Some("lexc")),
    ]
}

fn sha(text: &str) -> Option<String> {
    Some(text.to_string())
}

fn paths(tasks: &Vec<Task>) -> Vec<String> {
    tasks.iter().map(|t| t.file.path.clone()).collect()
}

fn requested_paths(requested: &Vec<RequestedFile>) -> Vec<String> {
    requested.iter().map(|r| r.file.path.clone()).collect()
}

#[test]
fn every_kind_is_requested_if_none_is_named() {
    let plan = Worker::new().plan_launch("p", None, candidates());
    assert_eq!(requested_paths(&plan.requested), vec!["a.lexc", "b.twolc", "c.lexc", "d.lexc"]);
    assert_eq!(plan.requested[1].kind, kind("twolc"));
    assert_eq!(plan.revisions, vec![-2, 3, 7]);
}

#[test]
fn only_the_named_kind_is_requested() {
    let plan = Worker::new().plan_launch("p", Some(&kind("twolc")), candidates());
    assert_eq!(requested_paths(&plan.requested), vec!["b.twolc"]);
    assert_eq!(plan.revisions, vec![3]);
    let plan = Worker::new().plan_launch("p", Some(&kind("xml")), candidates());
    assert!(plan.requested.is_empty() && plan.revisions.is_empty());
}

#[test]
fn revisions_are_sorted_and_unique() {
    let requested: Vec<RequestedFile> = [5, 1, 5, 9, -3, 1, 2147483647, -2147483648, 9]
        .iter()
        .map(|&revision| RequestedFile { kind: kind("lexc"), file: file("x", revision) })
        .collect();
    assert_eq!(unique_revisions(&requested), vec![-2147483648, -3, 1, 5, 9, 2147483647]);
    assert_eq!(unique_revisions(&vec![]), Vec::<i32>::new());
}

#[test]
fn task_is_made_of_the_file() {
    let wanted = RequestedFile { kind: kind("lexc"), file: file("a", 7) };
    let made = make_task(wanted, &"abc".to_string(), Timestamp { seconds: 1, nanoseconds: 2 });
    assert_eq!(made.created, Timestamp { seconds: 1, nanoseconds: 2 });
    assert_eq!(made.kind, kind("lexc"));
    assert_eq!(made.file.path, "a");
    assert_eq!(made.file.size, 10);
    assert_eq!(made.file.revision, 7);
    assert_eq!(made.file.sha, "abc");
    assert_eq!(made.file.last_author, "alice");
    assert_eq!(made.file.last_changed, Timestamp { seconds: 5, nanoseconds: 6 });
}

#[test]
fn files_with_a_known_sha_are_launched() {
    let mut worker = Worker::new();
    let plan = worker.plan_launch("p", None, candidates());
    let (new_tasks, all, _) = worker.launch_tasks("p", plan, Ok(vec![sha("m2"), None, sha("s7")])).unwrap();
    assert_eq!(paths(&new_tasks), vec!["a.lexc", "c.lexc", "d.lexc"]);
    assert_eq!(paths(&all), vec!["a.lexc", "c.lexc", "d.lexc"]);
    assert_eq!(new_tasks[0].file.sha, "s7");
    assert_eq!(new_tasks[1].file.sha, "s7");
    assert_eq!(new_tasks[2].file.sha, "m2");
    assert_eq!(paths(&worker.get_tasks_in_progress("p").unwrap()), vec!["a.lexc", "c.lexc", "d.lexc"]);
    // The clock is past the year of the first release of the standard library.
    assert!(new_tasks[0].created.seconds > 1_431_648_000);
}

#[test]
fn revision_without_partner_has_no_sha() {
    let mut worker = Worker::new();
    let plan = worker.plan_launch("p", None, candidates());
    let (new_tasks, _, _) = worker.launch_tasks("p", plan, Ok(vec![sha("m2")])).unwrap();
    assert_eq!(paths(&new_tasks), vec!["d.lexc"]);
    let mut worker = Worker::new();
    let plan = worker.plan_launch("p", Some(&kind("twolc")), candidates());
    let (new_tasks, _, _) = worker.launch_tasks("p", plan, Ok(vec![sha("s3"), sha("s4")])).unwrap();
    assert_eq!(new_tasks[0].file.sha, "s3");
}

#[test]
fn files_in_progress_are_not_launched_again() {
    let mut worker = Worker::new();
    let plan = worker.plan_launch("p", None, candidates());
    worker.launch_tasks("p", plan, Ok(vec![sha("m2"), None, sha("s7")])).unwrap();
    // Only the file whose commit was not known is left.
    let plan = worker.plan_launch("p", None, candidates());
    assert_eq!(requested_paths(&plan.requested), vec!["b.twolc"]);
    let (new_tasks, all, _) = worker.launch_tasks("p", plan, Ok(vec![sha("s3")])).unwrap();
    assert_eq!(paths(&new_tasks), vec!["b.twolc"]);
    assert_eq!(paths(&all), vec!["a.lexc", "c.lexc", "d.lexc", "b.twolc"]);
    let plan = worker.plan_launch("p", None, candidates());
    assert!(plan.requested.is_empty());
    let (new_tasks, all, _) = worker.launch_tasks("p", plan, Ok(vec![])).unwrap();
    assert!(new_tasks.is_empty());
    assert_eq!(all.len(), 4);
    // Another package is not affected.
    assert_eq!(worker.plan_launch("q", None, candidates()).requested.len(), 4);
}

#[test]
fn finished_file_can_be_launched_again() {
    let mut worker = Worker::new();
    let plan = worker.plan_launch("p", Some(&kind("twolc")), candidates());
    let (new_tasks, _, _) = worker.launch_tasks("p", plan, Ok(vec![sha("s3")])).unwrap();
    worker.record_task_completion("p", &new_tasks[0]);
    let plan = worker.plan_launch("p", Some(&kind("twolc")), candidates());
    assert_eq!(requested_paths(&plan.requested), vec!["b.twolc"]);
}

#[test]
fn shas_that_cannot_be_fetched() {
    let mut worker = Worker::new();
    let plan = worker.plan_launch("p", None, candidates());
    match worker.launch_tasks("p", plan, Err("out of processes".to_string())) {
        Err(message) => assert_eq!(message, "Unable to fetch Git SHAs: out of processes"),
        Ok(_) => panic!("launched"),
    }
    assert!(worker.get_tasks_in_progress("p").is_none());
}

#[test]
fn files_without_a_sha_are_handed_out() {
    let mut worker = Worker::new();
    let plan = worker.plan_launch("p", None, candidates());
    let (new_tasks, _, without_sha) = worker.launch_tasks("p", plan, Ok(vec![sha("m2"), None])).unwrap();
    assert_eq!(paths(&new_tasks), vec!["d.lexc"]);
    assert_eq!(requested_paths(&without_sha), vec!["a.lexc", "b.twolc", "c.lexc"]);
    assert_eq!(without_sha[1].kind, kind("twolc"));
    assert_eq!(without_sha[1].file.revision, 3);
}

#[test]
fn relaunch_with_the_same_answers_begins_nothing() {
    let mut worker = Worker::new();
    let plan = worker.plan_launch("p", None, candidates());
    worker.launch_tasks("p", plan, Ok(vec![sha("m2"), None, sha("s7")])).unwrap();
    let plan = worker.plan_launch("p", None, candidates());
    assert_eq!(plan.revisions, vec![3]);
    let (new_tasks, all, without_sha) = worker.launch_tasks("p", plan, Ok(vec![None])).unwrap();
    assert!(new_tasks.is_empty());
    assert_eq!(all.len(), 3);
    assert_eq!(requested_paths(&without_sha), vec!["b.twolc"]);
}

#[test]
fn file_that_is_listed_twice_leaves_no_trace() {
    let twice = || vec![
        candidate("a.lexc", 7, Some("lexc")),
        candidate("b.lexc", 7, Some("lexc")),
        candidate("a.lexc", 8, Some("lexc")),
    ];
    let mut worker = Worker::new();
    let plan = worker.plan_launch("p", None, twice());
    let (new_tasks, _, _) = worker.launch_tasks("p", plan, Ok(vec![sha("s7"), sha("s8")])).unwrap();
    assert_eq!(paths(&new_tasks), vec!["a.lexc", "b.lexc", "a.lexc"]);
    // They end in another order than they began.
    worker.record_task_completion("p", &new_tasks[2]);
    let left = worker.get_tasks_in_progress("p").unwrap();
    assert_eq!(paths(&left), vec!["b.lexc", "a.lexc"]);
    assert_eq!(left[1].file.sha, "s8");
    worker.record_task_completion("p", &new_tasks[1]);
    worker.record_task_completion("p", &new_tasks[0]);
    assert!(worker.get_tasks_in_progress("p").is_none());
}
