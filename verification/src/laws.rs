//! What holds of launching and ending tasks, whichever packages and files there are.
use vstd::prelude::*;
use vstd::seq_lib::*;

use crate::launch::{
    files_without_sha, known_sha, launched_subjects, lemma_files_without_sha_push,
    lemma_launched_subjects_push, lemma_requested_files_push, needs_task, requested_files,
    sha_among, strictly_increasing, subject, subjects, CandidateView, RequestedFileView,
};
use crate::types::{FileView, TaskView};
use crate::worker::{
    in_progress, is_about, lemma_without_first, no_idle_package, tasks_of, with_new_tasks,
    with_task_over, TaskTable,
};

verus! {

// ---------------------------------------------------------------------------
// The table of tasks in progress
// ---------------------------------------------------------------------------

/// Launching and ending tasks of one package leaves every other package as it is.
pub proof fn law_other_packages_unchanged(
    table: TaskTable,
    package: Seq<char>,
    other: Seq<char>,
    new_tasks: Seq<TaskView>,
    task: TaskView,
)
    requires
        package != other,
    ensures
        with_new_tasks(table, package, new_tasks).contains_key(other) == table.contains_key(other),
        tasks_of(with_new_tasks(table, package, new_tasks), other) == tasks_of(table, other),
        with_task_over(table, package, task).contains_key(other) == table.contains_key(other),
        tasks_of(with_task_over(table, package, task), other) == tasks_of(table, other),
{
}

/// The tasks of a package are those that the table has for it, and none if it has none.
pub proof fn law_tasks_stand_under_their_package(table: TaskTable, package: Seq<char>)
    ensures
        table.contains_key(package) ==> tasks_of(table, package) == table[package],
        !table.contains_key(package) ==> tasks_of(table, package).len() == 0,
        no_idle_package(table) <==> forall|name: Seq<char>| #[trigger]
            table.contains_key(name) ==> table[name].len() > 0,
{
}

/// A file has a task in progress if and only if one of the tasks has its path and its kind,
/// whatever else the task holds.
pub proof fn law_in_progress_goes_by_kind_and_path(
    tasks: Seq<TaskView>,
    kind: Seq<char>,
    path: Seq<char>,
)
    ensures
        in_progress(tasks, kind, path) <==> exists|i: int|
            0 <= i < tasks.len() && (#[trigger] tasks[i]).kind == kind && tasks[i].file.path
                == path,
{
    if exists|i: int|
        0 <= i < tasks.len() && (#[trigger] tasks[i]).kind == kind && tasks[i].file.path == path {
        let i = choose|i: int|
            0 <= i < tasks.len() && (#[trigger] tasks[i]).kind == kind && tasks[i].file.path
                == path;
        assert(is_about(tasks[i], kind, path));
    }
}

/// A launch enters its package if it begins a task, and changes nothing if it begins none.
pub proof fn law_launch_enters_its_package(
    table: TaskTable,
    package: Seq<char>,
    new_tasks: Seq<TaskView>,
)
    ensures
        new_tasks.len() > 0 ==> with_new_tasks(table, package, new_tasks).contains_key(package),
        new_tasks.len() == 0 ==> with_new_tasks(table, package, new_tasks) == table,
{
}

/// After a launch, the tasks in progress of the package are those from before, in their order,
/// followed by the new ones.
pub proof fn law_launch_appends(table: TaskTable, package: Seq<char>, new_tasks: Seq<TaskView>)
    ensures
        tasks_of(with_new_tasks(table, package, new_tasks), package) == tasks_of(table, package)
            + new_tasks,
{
    assert(tasks_of(table, package) + Seq::<TaskView>::empty() =~= tasks_of(table, package));
    if new_tasks.len() == 0 {
        assert(new_tasks =~= Seq::<TaskView>::empty());
    }
}

/// A package stands in the table exactly while a task of it is in progress, and launching and
/// ending tasks keep it so.
pub proof fn law_no_idle_package(
    table: TaskTable,
    package: Seq<char>,
    new_tasks: Seq<TaskView>,
    task: TaskView,
)
    requires
        no_idle_package(table),
    ensures
        table.contains_key(package) <==> tasks_of(table, package).len() > 0,
        no_idle_package(with_new_tasks(table, package, new_tasks)),
        no_idle_package(with_task_over(table, package, task)),
{
}

/// Ending a task that is not in progress changes nothing.
pub proof fn law_ending_unknown_task(table: TaskTable, package: Seq<char>, task: TaskView)
    requires
        !in_progress(tasks_of(table, package), task.kind, task.file.path),
    ensures
        with_task_over(table, package, task) == table,
{
}

/// A package leaves the table when its last task ends, and not before.
pub proof fn law_package_goes_with_its_last_task(
    table: TaskTable,
    package: Seq<char>,
    task: TaskView,
)
    requires
        in_progress(tasks_of(table, package), task.kind, task.file.path),
    ensures
        with_task_over(table, package, task).contains_key(package) <==> tasks_of(
            table,
            package,
        ).len() > 1,
{
    let at = law_ending_takes_one(table, package, task);
}

/// Ending a task that is in progress takes out exactly one task, the first that is about the
/// same file and kind, and keeps the order of the others.
pub proof fn law_ending_takes_one(
    table: TaskTable,
    package: Seq<char>,
    task: TaskView,
) -> (at: int)
    requires
        in_progress(tasks_of(table, package), task.kind, task.file.path),
    ensures
        0 <= at < tasks_of(table, package).len(),
        is_about(tasks_of(table, package)[at], task.kind, task.file.path),
        tasks_of(table, package)[at].kind == task.kind,
        tasks_of(table, package)[at].file.path == task.file.path,
        forall|i: int|
            0 <= i < at ==> !is_about(
                #[trigger] tasks_of(table, package)[i],
                task.kind,
                task.file.path,
            ),
        forall|i: int|
            0 <= i < at ==> (#[trigger] tasks_of(table, package)[i]).kind != task.kind || tasks_of(
                table,
                package,
            )[i].file.path != task.file.path,
        tasks_of(with_task_over(table, package, task), package) == tasks_of(table, package).remove(
            at,
        ),
{
    let tasks = tasks_of(table, package);
    let found = choose|i: int|
        0 <= i < tasks.len() && is_about(#[trigger] tasks[i], task.kind, task.file.path);
    let at = first_about(tasks, task.kind, task.file.path, found);
    lemma_without_first(tasks, task.kind, task.file.path, at);
    assert(tasks.remove(at).len() == 0 ==> tasks.remove(at) =~= Seq::<TaskView>::empty());
    at
}

/// Where the first task about a file stands, given one that is about it.
proof fn first_about(tasks: Seq<TaskView>, kind: Seq<char>, path: Seq<char>, found: int) -> (at: int)
    requires
        0 <= found < tasks.len(),
        is_about(tasks[found], kind, path),
    ensures
        0 <= at <= found,
        is_about(tasks[at], kind, path),
        forall|i: int| 0 <= i < at ==> !is_about(#[trigger] tasks[i], kind, path),
    decreases found,
{
    if exists|i: int| 0 <= i < found && is_about(#[trigger] tasks[i], kind, path) {
        let earlier = choose|i: int| 0 <= i < found && is_about(#[trigger] tasks[i], kind, path);
        first_about(tasks, kind, path, earlier)
    } else {
        found
    }
}

/// None of `tasks` is about a file and kind that one of `others` is about.
pub open spec fn about_other_files(tasks: Seq<TaskView>, others: Seq<TaskView>) -> bool {
    forall|i: int|
        0 <= i < others.len() ==> !in_progress(
            tasks,
            (#[trigger] others[i]).kind,
            others[i].file.path,
        )
}

/// The table once tasks of a package have ended, one after the other.
pub open spec fn with_tasks_over(
    table: TaskTable,
    package: Seq<char>,
    ended: Seq<TaskView>,
) -> TaskTable
    decreases ended.len(),
{
    if ended.len() == 0 {
        table
    } else {
        with_tasks_over(
            with_task_over(table, package, ended.first()),
            package,
            ended.drop_first(),
        )
    }
}

/// The table in which a package has the tasks `tasks`, and does not stand if there are none.
spec fn with_tasks(table: TaskTable, package: Seq<char>, tasks: Seq<TaskView>) -> TaskTable {
    if tasks.len() == 0 {
        table.remove(package)
    } else {
        table.insert(package, tasks)
    }
}

/// The kind and the path that a task is about.
pub open spec fn kind_and_path(task: TaskView) -> (Seq<char>, Seq<char>) {
    (task.kind, task.file.path)
}

/// The kinds and paths that the tasks of a list are about.
pub open spec fn kinds_and_paths(tasks: Seq<TaskView>) -> Seq<(Seq<char>, Seq<char>)> {
    tasks.map_values(|task: TaskView| kind_and_path(task))
}

/// Ending, in any order, as many tasks about each file as stand behind `kept` leaves `kept`.
proof fn lemma_ending_all(
    table: TaskTable,
    package: Seq<char>,
    kept: Seq<TaskView>,
    running: Seq<TaskView>,
    ended: Seq<TaskView>,
)
    requires
        about_other_files(kept, running),
        kinds_and_paths(ended).to_multiset() == kinds_and_paths(running).to_multiset(),
    ensures
        with_tasks_over(with_tasks(table, package, kept + running), package, ended) == with_tasks(
            table,
            package,
            kept,
        ),
    decreases ended.len(),
{
    broadcast use group_to_multiset_ensures;

    let (ended_keys, running_keys) = (kinds_and_paths(ended), kinds_and_paths(running));
    assert(ended_keys.to_multiset().len() == ended_keys.len());
    assert(running_keys.to_multiset().len() == running_keys.len());
    if ended.len() == 0 {
        assert(kept + running =~= kept);
    } else {
        let task = ended.first();
        assert(ended_keys[0] == kind_and_path(task));
        assert(ended_keys.contains(ended_keys[0]));
        assert(running_keys.to_multiset().count(kind_and_path(task)) > 0);
        let found = choose|k: int|
            0 <= k < running_keys.len() && running_keys[k] == kind_and_path(task);
        assert(kind_and_path(running[found]) == kind_and_path(task));
        let k = first_about(running, task.kind, task.file.path, found);
        let all = kept + running;
        let at = kept.len() + k;
        assert(all[at] == running[k]);
        assert forall|i: int| 0 <= i < at implies !is_about(
            #[trigger] all[i],
            task.kind,
            task.file.path,
        ) by {
            if i < kept.len() {
                assert(all[i] == kept[i]);
                assert(!in_progress(kept, running[k].kind, running[k].file.path));
            } else {
                assert(all[i] == running[i - kept.len()]);
            }
        }
        lemma_without_first(all, task.kind, task.file.path, at);
        let rest = running.remove(k);
        assert(all.remove(at) =~= kept + rest);
        let before = with_tasks(table, package, all);
        assert(in_progress(all, task.kind, task.file.path));
        assert(with_task_over(before, package, task) =~= with_tasks(table, package, kept + rest));
        assert forall|i: int| 0 <= i < rest.len() implies !in_progress(
            kept,
            (#[trigger] rest[i]).kind,
            rest[i].file.path,
        ) by {
            let i0 = if i < k { i } else { i + 1 };
            assert(rest[i] == running[i0]);
        }
        assert(running_keys[k] == kind_and_path(task));
        assert(kinds_and_paths(ended.drop_first()) =~= ended_keys.remove(0));
        assert(kinds_and_paths(rest) =~= running_keys.remove(k));
        assert(ended_keys.remove(0).to_multiset() =~= ended_keys.to_multiset().remove(
            ended_keys[0],
        ));
        assert(running_keys.remove(k).to_multiset() =~= running_keys.to_multiset().remove(
            running_keys[k],
        ));
        lemma_ending_all(table, package, kept, rest, ended.drop_first());
    }
}

/// Ending all tasks that a launch began, in whatever order they end, undoes the launch. None of
/// the new tasks is to be about a file that had a task in progress already. What ends is told by
/// kind and path alone, and a file may stand several times among the new tasks if it ends as
/// often.
pub proof fn law_ending_undoes_launch(
    table: TaskTable,
    package: Seq<char>,
    new_tasks: Seq<TaskView>,
    ended: Seq<TaskView>,
)
    requires
        no_idle_package(table),
        about_other_files(tasks_of(table, package), new_tasks),
        kinds_and_paths(ended).to_multiset() == kinds_and_paths(new_tasks).to_multiset(),
    ensures
        with_tasks_over(with_new_tasks(table, package, new_tasks), package, ended) == table,
{
    broadcast use group_to_multiset_ensures;

    let kept = tasks_of(table, package);
    lemma_ending_all(table, package, kept, new_tasks, ended);
    assert(with_tasks(table, package, kept) =~= table);
    if new_tasks.len() == 0 {
        assert(kinds_and_paths(ended).to_multiset().len() == kinds_and_paths(
            new_tasks,
        ).to_multiset().len());
    } else {
        assert(with_tasks(table, package, kept + new_tasks) =~= with_new_tasks(
            table,
            package,
            new_tasks,
        ));
    }
}

// ---------------------------------------------------------------------------
// Which tasks are launched
// ---------------------------------------------------------------------------

/// Each requested file is a candidate that needs a task.
proof fn lemma_requested_is_candidate(
    candidates: Seq<CandidateView>,
    maybe_kind: Option<Seq<char>>,
    current: Seq<TaskView>,
    i: int,
) -> (j: int)
    requires
        0 <= i < requested_files(candidates, maybe_kind, current).len(),
    ensures
        0 <= j < candidates.len(),
        needs_task(candidates[j], maybe_kind, current),
        candidates[j].kind == Some(requested_files(candidates, maybe_kind, current)[i].kind),
        candidates[j].file == requested_files(candidates, maybe_kind, current)[i].file,
{
    let pred = |candidate: CandidateView| needs_task(candidate, maybe_kind, current);
    let kept = candidates.filter(pred);
    candidates.lemma_filter_pred(pred, i);
    assert(kept.contains(kept[i]));
    candidates.lemma_filter_contains_rev(pred, kept[i]);
    choose|j: int| 0 <= j < candidates.len() && candidates[j] == kept[i]
}

/// Each candidate that needs a task is requested.
proof fn lemma_candidate_is_requested(
    candidates: Seq<CandidateView>,
    maybe_kind: Option<Seq<char>>,
    current: Seq<TaskView>,
    j: int,
) -> (i: int)
    requires
        0 <= j < candidates.len(),
        needs_task(candidates[j], maybe_kind, current),
    ensures
        0 <= i < requested_files(candidates, maybe_kind, current).len(),
        candidates[j].kind == Some(requested_files(candidates, maybe_kind, current)[i].kind),
        candidates[j].file == requested_files(candidates, maybe_kind, current)[i].file,
{
    let pred = |candidate: CandidateView| needs_task(candidate, maybe_kind, current);
    let kept = candidates.filter(pred);
    candidates.lemma_filter_contains(pred, j);
    choose|i: int| 0 <= i < kept.len() && kept[i] == candidates[j]
}

/// Each task that begins is about a requested file whose commit is known.
proof fn lemma_launched_is_requested(
    requested: Seq<RequestedFileView>,
    revisions: Seq<i32>,
    shas: Seq<Option<Seq<char>>>,
    i: int,
) -> (j: int)
    requires
        0 <= i < launched_subjects(requested, revisions, shas).len(),
    ensures
        0 <= j < requested.len(),
        known_sha(revisions, shas, requested[j].file.revision) is Some,
        launched_subjects(requested, revisions, shas)[i] == (
            requested[j].kind,
            requested[j].file.with_sha(
                known_sha(revisions, shas, requested[j].file.revision)->0,
            ),
        ),
{
    let pred = |wanted: RequestedFileView|
        known_sha(revisions, shas, wanted.file.revision) is Some;
    let kept = requested.filter(pred);
    requested.lemma_filter_pred(pred, i);
    assert(kept.contains(kept[i]));
    requested.lemma_filter_contains_rev(pred, kept[i]);
    choose|j: int| 0 <= j < requested.len() && requested[j] == kept[i]
}

/// A task begins for each requested file whose commit is known.
proof fn lemma_requested_is_launched(
    requested: Seq<RequestedFileView>,
    revisions: Seq<i32>,
    shas: Seq<Option<Seq<char>>>,
    j: int,
) -> (i: int)
    requires
        0 <= j < requested.len(),
        known_sha(revisions, shas, requested[j].file.revision) is Some,
    ensures
        0 <= i < launched_subjects(requested, revisions, shas).len(),
        launched_subjects(requested, revisions, shas)[i] == (
            requested[j].kind,
            requested[j].file.with_sha(
                known_sha(revisions, shas, requested[j].file.revision)->0,
            ),
        ),
{
    let pred = |wanted: RequestedFileView|
        known_sha(revisions, shas, wanted.file.revision) is Some;
    let kept = requested.filter(pred);
    requested.lemma_filter_contains(pred, j);
    choose|i: int| 0 <= i < kept.len() && kept[i] == requested[j]
}

/// One more candidate is requested, behind the others and as it is, if and only if it is of a
/// kind, of the one that was asked for if one was, and no task in progress has its kind and its
/// path. Nothing else about it counts, nor how many there are; no candidates request nothing.
pub proof fn law_one_more_candidate(
    candidates: Seq<CandidateView>,
    candidate: CandidateView,
    maybe_kind: Option<Seq<char>>,
    current: Seq<TaskView>,
)
    ensures
        requested_files(Seq::empty(), maybe_kind, current).len() == 0,
        ({
            let wanted = candidate.kind is Some && (maybe_kind is None || maybe_kind
                == candidate.kind) && forall|i: int|
                0 <= i < current.len() ==> (#[trigger] current[i]).kind != candidate.kind->0
                    || current[i].file.path != candidate.file.path;
            requested_files(candidates.push(candidate), maybe_kind, current) == if wanted {
                requested_files(candidates, maybe_kind, current).push(
                    RequestedFileView { kind: candidate.kind->0, file: candidate.file },
                )
            } else {
                requested_files(candidates, maybe_kind, current)
            }
        }),
{
    lemma_requested_files_push(candidates, candidate, maybe_kind, current);
    if let Some(kind) = candidate.kind {
        law_in_progress_goes_by_kind_and_path(current, kind, candidate.file.path);
    }
    assert(requested_files(Seq::empty(), maybe_kind, current).len() == 0) by {
        reveal(Seq::filter);
    }
}

/// Each candidate of a kind, of the one that was asked for if one was, stands among the requested
/// files with its kind and as it was listed, unless a task in progress has its kind and its path.
pub proof fn law_wanted_candidate_is_requested(
    candidates: Seq<CandidateView>,
    maybe_kind: Option<Seq<char>>,
    current: Seq<TaskView>,
    j: int,
)
    requires
        0 <= j < candidates.len(),
        candidates[j].kind is Some,
        maybe_kind is None || maybe_kind == candidates[j].kind,
        forall|i: int|
            0 <= i < current.len() ==> (#[trigger] current[i]).kind != candidates[j].kind->0
                || current[i].file.path != candidates[j].file.path,
    ensures
        requested_files(candidates, maybe_kind, current).contains(
            RequestedFileView { kind: candidates[j].kind->0, file: candidates[j].file },
        ),
{
    law_in_progress_goes_by_kind_and_path(
        current,
        candidates[j].kind->0,
        candidates[j].file.path,
    );
    let i = lemma_candidate_is_requested(candidates, maybe_kind, current, j);
    assert(requested_files(candidates, maybe_kind, current)[i] == (RequestedFileView {
        kind: candidates[j].kind->0,
        file: candidates[j].file,
    }));
}

/// One more requested file begins a task, behind the others and about the file as it is, if its
/// commit is known, and is left out, behind the others, if not. No requested files begin nothing
/// and leave nothing out.
pub proof fn law_one_more_requested_file(
    requested: Seq<RequestedFileView>,
    wanted: RequestedFileView,
    revisions: Seq<i32>,
    shas: Seq<Option<Seq<char>>>,
)
    ensures
        launched_subjects(Seq::empty(), revisions, shas).len() == 0,
        files_without_sha(Seq::empty(), revisions, shas).len() == 0,
        match known_sha(revisions, shas, wanted.file.revision) {
            Some(sha) => {
                &&& launched_subjects(requested.push(wanted), revisions, shas)
                    == launched_subjects(requested, revisions, shas).push(
                    (
                        wanted.kind,
                        FileView {
                            path: wanted.file.path,
                            size: wanted.file.size,
                            revision: wanted.file.revision,
                            sha,
                            last_author: wanted.file.last_author,
                            last_changed: wanted.file.last_changed,
                        },
                    ),
                )
                &&& files_without_sha(requested.push(wanted), revisions, shas)
                    == files_without_sha(requested, revisions, shas)
            },
            None => {
                &&& launched_subjects(requested.push(wanted), revisions, shas)
                    == launched_subjects(requested, revisions, shas)
                &&& files_without_sha(requested.push(wanted), revisions, shas)
                    == files_without_sha(requested, revisions, shas).push(wanted)
            },
        },
{
    lemma_launched_subjects_push(requested, wanted, revisions, shas);
    lemma_files_without_sha_push(requested, wanted, revisions, shas);
    assert(launched_subjects(Seq::empty(), revisions, shas).len() == 0) by {
        reveal(Seq::filter);
    }
    assert(files_without_sha(Seq::empty(), revisions, shas).len() == 0) by {
        reveal(Seq::filter);
    }
}

/// Each requested file either begins a task or is left out.
pub proof fn law_requested_files_are_accounted_for(
    requested: Seq<RequestedFileView>,
    revisions: Seq<i32>,
    shas: Seq<Option<Seq<char>>>,
)
    ensures
        launched_subjects(requested, revisions, shas).len() + files_without_sha(
            requested,
            revisions,
            shas,
        ).len() == requested.len(),
    decreases requested.len(),
{
    if requested.len() > 0 {
        let before = requested.drop_last();
        law_requested_files_are_accounted_for(before, revisions, shas);
        law_one_more_requested_file(before, requested.last(), revisions, shas);
        assert(before.push(requested.last()) =~= requested);
    } else {
        assert(requested =~= Seq::<RequestedFileView>::empty());
        reveal(Seq::filter);
    }
}

/// A requested file is of the kind that was asked for, if one was named, and has no task in
/// progress.
pub proof fn law_requested_files_are_wanted(
    candidates: Seq<CandidateView>,
    maybe_kind: Option<Seq<char>>,
    current: Seq<TaskView>,
)
    ensures
        forall|i: int|
            #![trigger requested_files(candidates, maybe_kind, current)[i]]
            0 <= i < requested_files(candidates, maybe_kind, current).len() ==> {
                let wanted = requested_files(candidates, maybe_kind, current)[i];
                &&& maybe_kind is None || maybe_kind == Some(wanted.kind)
                &&& !in_progress(current, wanted.kind, wanted.file.path)
            },
{
    assert forall|i: int|
        #![trigger requested_files(candidates, maybe_kind, current)[i]]
        0 <= i < requested_files(candidates, maybe_kind, current).len() implies {
        let wanted = requested_files(candidates, maybe_kind, current)[i];
        &&& maybe_kind is None || maybe_kind == Some(wanted.kind)
        &&& !in_progress(current, wanted.kind, wanted.file.path)
    } by {
        let j = lemma_requested_is_candidate(candidates, maybe_kind, current, i);
    }
}

/// A launch never begins a task about a file and kind that a task in progress is about already.
pub proof fn law_running_files_are_not_launched(
    candidates: Seq<CandidateView>,
    maybe_kind: Option<Seq<char>>,
    current: Seq<TaskView>,
    revisions: Seq<i32>,
    shas: Seq<Option<Seq<char>>>,
    new_tasks: Seq<TaskView>,
)
    requires
        subjects(new_tasks) == launched_subjects(
            requested_files(candidates, maybe_kind, current),
            revisions,
            shas,
        ),
    ensures
        about_other_files(current, new_tasks),
{
    let requested = requested_files(candidates, maybe_kind, current);
    assert forall|i: int| 0 <= i < new_tasks.len() implies !in_progress(
        current,
        (#[trigger] new_tasks[i]).kind,
        new_tasks[i].file.path,
    ) by {
        assert(subjects(new_tasks)[i] == subject(new_tasks[i]));
        let j = lemma_launched_is_requested(requested, revisions, shas, i);
        let k = lemma_requested_is_candidate(candidates, maybe_kind, current, j);
    }
}

/// No two of the tasks are about the same file and kind.
pub open spec fn all_different(tasks: Seq<TaskView>) -> bool {
    forall|i: int, j: int|
        0 <= i < j < tasks.len() ==> !is_about(
            #[trigger] tasks[j],
            (#[trigger] tasks[i]).kind,
            tasks[i].file.path,
        )
}

/// No two of the candidates are the same file of the same kind.
pub open spec fn different_candidates(candidates: Seq<CandidateView>) -> bool {
    forall|i: int, j: int|
        0 <= i < j < candidates.len() && (#[trigger] candidates[i]).kind is Some ==> !(
        (#[trigger] candidates[j]).kind == candidates[i].kind && candidates[j].file.path
            == candidates[i].file.path)
}

/// No two of the requested files are the same file of the same kind.
spec fn different_requested(requested: Seq<RequestedFileView>) -> bool {
    forall|i: int, j: int|
        0 <= i < j < requested.len() ==> !((#[trigger] requested[j]).kind == (
        #[trigger] requested[i]).kind && requested[j].file.path == requested[i].file.path)
}

proof fn lemma_different_requested(
    candidates: Seq<CandidateView>,
    maybe_kind: Option<Seq<char>>,
    current: Seq<TaskView>,
)
    requires
        different_candidates(candidates),
    ensures
        different_requested(requested_files(candidates, maybe_kind, current)),
    decreases candidates.len(),
{
    if candidates.len() == 0 {
        reveal(Seq::filter);
    } else {
        let shorter = candidates.drop_last();
        let last = candidates.last();
        assert(shorter.push(last) =~= candidates);
        assert forall|i: int, j: int|
            0 <= i < j < shorter.len() && (#[trigger] shorter[i]).kind is Some implies !(
        (#[trigger] shorter[j]).kind == shorter[i].kind && shorter[j].file.path
            == shorter[i].file.path) by {
            assert(shorter[i] == candidates[i] && shorter[j] == candidates[j]);
        }
        lemma_different_requested(shorter, maybe_kind, current);
        lemma_requested_files_push(shorter, last, maybe_kind, current);
        let before = requested_files(shorter, maybe_kind, current);
        let after = requested_files(candidates, maybe_kind, current);
        assert forall|i: int, j: int| 0 <= i < j < after.len() implies !((
        #[trigger] after[j]).kind == (#[trigger] after[i]).kind && after[j].file.path
            == after[i].file.path) by {
            assert(after[i] == before[i]);
            if j < before.len() {
                assert(after[j] == before[j]);
            } else {
                let k = lemma_requested_is_candidate(shorter, maybe_kind, current, i);
                assert(shorter[k] == candidates[k]);
                assert(candidates[candidates.len() - 1] == last);
            }
        }
    }
}

/// No two of the subjects are the same file of the same kind.
spec fn different_subjects(about: Seq<(Seq<char>, FileView)>) -> bool {
    forall|i: int, j: int|
        0 <= i < j < about.len() ==> !((#[trigger] about[j]).0 == (#[trigger] about[i]).0
            && about[j].1.path == about[i].1.path)
}

proof fn lemma_different_subjects(
    requested: Seq<RequestedFileView>,
    revisions: Seq<i32>,
    shas: Seq<Option<Seq<char>>>,
)
    requires
        different_requested(requested),
    ensures
        different_subjects(launched_subjects(requested, revisions, shas)),
    decreases requested.len(),
{
    if requested.len() == 0 {
        reveal(Seq::filter);
    } else {
        let shorter = requested.drop_last();
        let last = requested.last();
        assert(shorter.push(last) =~= requested);
        assert forall|i: int, j: int| 0 <= i < j < shorter.len() implies !((
        #[trigger] shorter[j]).kind == (#[trigger] shorter[i]).kind && shorter[j].file.path
            == shorter[i].file.path) by {
            assert(shorter[i] == requested[i] && shorter[j] == requested[j]);
        }
        lemma_different_subjects(shorter, revisions, shas);
        lemma_launched_subjects_push(shorter, last, revisions, shas);
        let before = launched_subjects(shorter, revisions, shas);
        let after = launched_subjects(requested, revisions, shas);
        assert forall|i: int, j: int| 0 <= i < j < after.len() implies !((#[trigger] after[j]).0 == (
        #[trigger] after[i]).0 && after[j].1.path == after[i].1.path) by {
            assert(after[i] == before[i]);
            if j < before.len() {
                assert(after[j] == before[j]);
            } else {
                let k = lemma_launched_is_requested(shorter, revisions, shas, i);
                assert(shorter[k] == requested[k]);
                assert(requested[requested.len() - 1] == last);
            }
        }
    }
}

/// From a listing that has no file twice, tasks about different files are launched.
proof fn lemma_new_tasks_differ(
    candidates: Seq<CandidateView>,
    maybe_kind: Option<Seq<char>>,
    current: Seq<TaskView>,
    revisions: Seq<i32>,
    shas: Seq<Option<Seq<char>>>,
    new_tasks: Seq<TaskView>,
)
    requires
        different_candidates(candidates),
        subjects(new_tasks) == launched_subjects(
            requested_files(candidates, maybe_kind, current),
            revisions,
            shas,
        ),
    ensures
        all_different(new_tasks),
{
    let requested = requested_files(candidates, maybe_kind, current);
    lemma_different_requested(candidates, maybe_kind, current);
    lemma_different_subjects(requested, revisions, shas);
    let about = launched_subjects(requested, revisions, shas);
    assert forall|i: int, j: int| 0 <= i < j < new_tasks.len() implies !is_about(
        #[trigger] new_tasks[j],
        (#[trigger] new_tasks[i]).kind,
        new_tasks[i].file.path,
    ) by {
        assert(about[i] == subject(new_tasks[i]));
        assert(about[j] == subject(new_tasks[j]));
    }
}

/// If the tasks in progress are about different files and a listing has no file twice, then the
/// tasks in progress are about different files after the launch as well.
pub proof fn law_no_file_has_two_tasks(
    candidates: Seq<CandidateView>,
    maybe_kind: Option<Seq<char>>,
    current: Seq<TaskView>,
    revisions: Seq<i32>,
    shas: Seq<Option<Seq<char>>>,
    new_tasks: Seq<TaskView>,
)
    requires
        different_candidates(candidates),
        all_different(current),
        subjects(new_tasks) == launched_subjects(
            requested_files(candidates, maybe_kind, current),
            revisions,
            shas,
        ),
    ensures
        all_different(new_tasks),
        all_different(current + new_tasks),
{
    lemma_new_tasks_differ(candidates, maybe_kind, current, revisions, shas, new_tasks);
    law_running_files_are_not_launched(
        candidates,
        maybe_kind,
        current,
        revisions,
        shas,
        new_tasks,
    );
    let all = current + new_tasks;
    assert forall|i: int, j: int| 0 <= i < j < all.len() implies !is_about(
        #[trigger] all[j],
        (#[trigger] all[i]).kind,
        all[i].file.path,
    ) by {
        if j < current.len() {
            assert(all[i] == current[i] && all[j] == current[j]);
        } else {
            let later = new_tasks[j - current.len()];
            assert(all[j] == later);
            if i < current.len() {
                assert(all[i] == current[i]);
                assert(!in_progress(current, later.kind, later.file.path));
            } else {
                assert(all[i] == new_tasks[i - current.len()]);
            }
        }
    }
}

/// A launch leaves no trace: when all its tasks have ended, in whatever order, the table is what
/// it was before.
pub proof fn law_launch_leaves_no_trace(
    table: TaskTable,
    package: Seq<char>,
    candidates: Seq<CandidateView>,
    maybe_kind: Option<Seq<char>>,
    revisions: Seq<i32>,
    shas: Seq<Option<Seq<char>>>,
    new_tasks: Seq<TaskView>,
    ended: Seq<TaskView>,
)
    requires
        no_idle_package(table),
        subjects(new_tasks) == launched_subjects(
            requested_files(candidates, maybe_kind, tasks_of(table, package)),
            revisions,
            shas,
        ),
        kinds_and_paths(ended).to_multiset() == kinds_and_paths(new_tasks).to_multiset(),
    ensures
        with_tasks_over(with_new_tasks(table, package, new_tasks), package, ended) == table,
{
    let current = tasks_of(table, package);
    law_running_files_are_not_launched(
        candidates,
        maybe_kind,
        current,
        revisions,
        shas,
        new_tasks,
    );
    law_ending_undoes_launch(table, package, new_tasks, ended);
}

/// Asking for the same files again, while the tasks that a launch began are in progress, only
/// finds files whose commits were not known. So nothing is found if all commits were known.
pub proof fn law_relaunch_finds_what_was_left(
    candidates: Seq<CandidateView>,
    maybe_kind: Option<Seq<char>>,
    current: Seq<TaskView>,
    revisions: Seq<i32>,
    shas: Seq<Option<Seq<char>>>,
    new_tasks: Seq<TaskView>,
)
    requires
        subjects(new_tasks) == launched_subjects(
            requested_files(candidates, maybe_kind, current),
            revisions,
            shas,
        ),
    ensures
        forall|i: int|
            #![trigger requested_files(candidates, maybe_kind, current + new_tasks)[i]]
            0 <= i < requested_files(candidates, maybe_kind, current + new_tasks).len()
                ==> known_sha(
                revisions,
                shas,
                requested_files(candidates, maybe_kind, current + new_tasks)[i].file.revision,
            ) is None,
        (forall|i: int|
            #![trigger requested_files(candidates, maybe_kind, current)[i]]
            0 <= i < requested_files(candidates, maybe_kind, current).len() ==> known_sha(
                revisions,
                shas,
                requested_files(candidates, maybe_kind, current)[i].file.revision,
            ) is Some) ==> requested_files(candidates, maybe_kind, current + new_tasks).len() == 0,
{
    let requested = requested_files(candidates, maybe_kind, current);
    let all = current + new_tasks;
    let again = requested_files(candidates, maybe_kind, all);
    assert forall|i: int| 0 <= i < again.len() implies known_sha(
        revisions,
        shas,
        (#[trigger] again[i]).file.revision,
    ) is None && exists|k: int|
        0 <= k < requested.len() && (#[trigger] requested[k]).file == again[i].file by {
        let j = lemma_requested_is_candidate(candidates, maybe_kind, all, i);
        let kind = again[i].kind;
        let path = again[i].file.path;
        if in_progress(current, kind, path) {
            let at = choose|at: int| 0 <= at < current.len() && is_about(#[trigger] current[at], kind, path);
            assert(all[at] == current[at]);
            assert(in_progress(all, kind, path));
        }
        let k = lemma_candidate_is_requested(candidates, maybe_kind, current, j);
        if known_sha(revisions, shas, again[i].file.revision) is Some {
            let at = lemma_requested_is_launched(requested, revisions, shas, k);
            assert(subjects(new_tasks)[at] == subject(new_tasks[at]));
            assert(all[current.len() + at] == new_tasks[at]);
            assert(is_about(all[current.len() + at], kind, path));
            assert(in_progress(all, kind, path));
        }
    }
    if again.len() > 0 {
        assert(known_sha(revisions, shas, again[0].file.revision) is None);
    }
}

/// Launching the same files again, while the tasks that a launch began are in progress, begins
/// nothing if the answers about the commits are the same: no file that is found again has a
/// commit now that it did not have before.
pub proof fn law_relaunch_begins_nothing(
    candidates: Seq<CandidateView>,
    maybe_kind: Option<Seq<char>>,
    current: Seq<TaskView>,
    revisions: Seq<i32>,
    shas: Seq<Option<Seq<char>>>,
    new_tasks: Seq<TaskView>,
    revisions_again: Seq<i32>,
    shas_again: Seq<Option<Seq<char>>>,
)
    requires
        subjects(new_tasks) == launched_subjects(
            requested_files(candidates, maybe_kind, current),
            revisions,
            shas,
        ),
        forall|revision: i32| #[trigger]
            known_sha(revisions_again, shas_again, revision) is Some ==> known_sha(
                revisions,
                shas,
                revision,
            ) is Some,
    ensures
        launched_subjects(
            requested_files(candidates, maybe_kind, current + new_tasks),
            revisions_again,
            shas_again,
        ).len() == 0,
{
    let again = requested_files(candidates, maybe_kind, current + new_tasks);
    law_relaunch_finds_what_was_left(
        candidates,
        maybe_kind,
        current,
        revisions,
        shas,
        new_tasks,
    );
    if launched_subjects(again, revisions_again, shas_again).len() > 0 {
        let j = lemma_launched_is_requested(again, revisions_again, shas_again, 0);
        assert(known_sha(revisions, shas, again[j].file.revision) is None);
    }
}

/// The revisions to ask for are fixed by the requested files: there is only one list of numbers
/// in ascending order, each once, with given members.
pub proof fn law_revisions_are_determined(left: Seq<i32>, right: Seq<i32>)
    requires
        strictly_increasing(left),
        strictly_increasing(right),
        forall|n: i32| #[trigger] left.contains(n) <==> #[trigger] right.contains(n),
    ensures
        left == right,
    decreases left.len(),
{
    if left.len() == 0 {
        if right.len() > 0 {
            assert(right.contains(right[0]));
            assert(left.contains(right[0]));
        }
        assert(left =~= right);
    } else {
        assert(left.contains(left.last()));
        assert(right.contains(left.last()));
        assert(right.contains(right.last()));
        assert(left.contains(right.last()));
        let i = choose|i: int| 0 <= i < right.len() && right[i] == left.last();
        let j = choose|j: int| 0 <= j < left.len() && left[j] == right.last();
        assert(left.last() == right.last());
        let shorter_left = left.drop_last();
        let shorter_right = right.drop_last();
        assert forall|n: i32| #[trigger] shorter_left.contains(n) <==> #[trigger]
            shorter_right.contains(n) by {
            if shorter_left.contains(n) {
                let k = choose|k: int| 0 <= k < shorter_left.len() && shorter_left[k] == n;
                assert(left[k] == n);
                assert(left.contains(n));
                assert(right.contains(n));
                let m = choose|m: int| 0 <= m < right.len() && right[m] == n;
                assert(shorter_right[m] == n);
            }
            if shorter_right.contains(n) {
                let k = choose|k: int| 0 <= k < shorter_right.len() && shorter_right[k] == n;
                assert(right[k] == n);
                assert(right.contains(n));
                assert(left.contains(n));
                let m = choose|m: int| 0 <= m < left.len() && left[m] == n;
                assert(shorter_left[m] == n);
            }
        }
        law_revisions_are_determined(shorter_left, shorter_right);
        assert(left =~= shorter_left.push(left.last()));
        assert(right =~= shorter_right.push(right.last()));
    }
}

proof fn lemma_sha_among(
    revisions: Seq<i32>,
    shas: Seq<Option<Seq<char>>>,
    count: nat,
    at: int,
)
    requires
        strictly_increasing(revisions),
        0 <= at < count <= revisions.len(),
    ensures
        sha_among(revisions, shas, count, revisions[at]) == shas[at],
    decreases count,
{
    if at < count - 1 {
        assert(revisions[at] < revisions[count - 1]);
        lemma_sha_among(revisions, shas, (count - 1) as nat, at);
    }
}

/// Each revision gets the commit that was told for it.
pub proof fn law_revision_gets_its_own_sha(
    revisions: Seq<i32>,
    shas: Seq<Option<Seq<char>>>,
    at: int,
)
    requires
        strictly_increasing(revisions),
        revisions.len() == shas.len(),
        0 <= at < revisions.len(),
    ensures
        known_sha(revisions, shas, revisions[at]) == shas[at],
{
    lemma_sha_among(revisions, shas, revisions.len(), at);
}

/// A known commit stands at the place of its revision.
proof fn lemma_sha_has_a_place(
    revisions: Seq<i32>,
    shas: Seq<Option<Seq<char>>>,
    count: nat,
    revision: i32,
) -> (at: int)
    requires
        sha_among(revisions, shas, count, revision) is Some,
    ensures
        0 <= at < count,
        revisions[at] == revision,
        shas[at] == sha_among(revisions, shas, count, revision),
    decreases count,
{
    if revisions[count - 1] == revision {
        count - 1
    } else {
        lemma_sha_has_a_place(revisions, shas, (count - 1) as nat, revision)
    }
}

/// The commit of a revision is the one that was told in its place, the last time if it was asked
/// for several times; a revision that was not asked for, or whose place has no answer, has none.
pub proof fn law_sha_is_the_one_told(
    revisions: Seq<i32>,
    shas: Seq<Option<Seq<char>>>,
    revision: i32,
)
    ensures
        forall|at: int|
            0 <= at < revisions.len() && at < shas.len() && #[trigger] revisions[at] == revision && (
            forall|later: int|
                at < later < revisions.len() && later < shas.len() ==> #[trigger] revisions[later]
                    != revision) ==> known_sha(revisions, shas, revision) == shas[at],
        (forall|at: int|
            0 <= at < revisions.len() && at < shas.len() ==> #[trigger] revisions[at] != revision)
            ==> known_sha(revisions, shas, revision) is None,
{
    let count = if revisions.len() < shas.len() {
        revisions.len()
    } else {
        shas.len()
    };
    assert forall|at: int|
        0 <= at < revisions.len() && at < shas.len() && #[trigger] revisions[at] == revision && (
        forall|later: int|
            at < later < revisions.len() && later < shas.len() ==> #[trigger] revisions[later]
                != revision) implies known_sha(revisions, shas, revision) == shas[at] by {
        lemma_last_sha(revisions, shas, count, revision, at);
    }
    if known_sha(revisions, shas, revision) is Some {
        let at = lemma_sha_has_a_place(revisions, shas, count, revision);
    }
}

proof fn lemma_last_sha(
    revisions: Seq<i32>,
    shas: Seq<Option<Seq<char>>>,
    count: nat,
    revision: i32,
    at: int,
)
    requires
        0 <= at < count <= revisions.len(),
        revisions[at] == revision,
        forall|later: int| at < later < count ==> #[trigger] revisions[later] != revision,
    ensures
        sha_among(revisions, shas, count, revision) == shas[at],
    decreases count,
{
    if at < count - 1 {
        assert(revisions[count - 1] != revision);
        lemma_last_sha(revisions, shas, (count - 1) as nat, revision, at);
    }
}

/// Each task that begins is about a candidate of its kind, as it was listed, with the commit
/// that was told for its revision.
pub proof fn law_task_is_about_a_listed_file(
    candidates: Seq<CandidateView>,
    maybe_kind: Option<Seq<char>>,
    current: Seq<TaskView>,
    revisions: Seq<i32>,
    shas: Seq<Option<Seq<char>>>,
    new_tasks: Seq<TaskView>,
    i: int,
) -> (places: (int, int))
    requires
        subjects(new_tasks) == launched_subjects(
            requested_files(candidates, maybe_kind, current),
            revisions,
            shas,
        ),
        0 <= i < new_tasks.len(),
    ensures
        0 <= places.0 < candidates.len(),
        candidates[places.0].kind == Some(new_tasks[i].kind),
        new_tasks[i].file == candidates[places.0].file.with_sha(new_tasks[i].file.sha),
        0 <= places.1 < revisions.len(),
        places.1 < shas.len(),
        revisions[places.1] == new_tasks[i].file.revision,
        shas[places.1] == Some(new_tasks[i].file.sha),
{
    let requested = requested_files(candidates, maybe_kind, current);
    assert(subjects(new_tasks)[i] == subject(new_tasks[i]));
    let j = lemma_launched_is_requested(requested, revisions, shas, i);
    let k = lemma_requested_is_candidate(candidates, maybe_kind, current, j);
    let count = if revisions.len() < shas.len() {
        revisions.len()
    } else {
        shas.len()
    };
    let at = lemma_sha_has_a_place(revisions, shas, count, requested[j].file.revision);
    (k, at)
}

} // verus!
