//! Launching tasks: which files of a package need one, which commits have to be asked for, and
//! which tasks begin.
use std::collections::HashMap;

use vstd::prelude::*;

use crate::clock::now;
use crate::text::optional_text;
use crate::types::{
    task_views, File, FileKind, FileView, FileWithoutSha, FileWithoutShaView, Task, TaskView,
    Timestamp,
};
use crate::worker::{in_progress, tasks_of, with_new_tasks, Worker};

verus! {

broadcast use vstd::std_specs::hash::group_hash_axioms;

// ---------------------------------------------------------------------------
// Which files need a task
// ---------------------------------------------------------------------------

/// A listed file, and its kind if it is of a kind that statistics are gathered for.
#[derive(Debug)]
pub struct Candidate {
    pub file: FileWithoutSha,
    pub kind: Option<FileKind>,
}

/// What a `Candidate` holds.
pub struct CandidateView {
    pub file: FileWithoutShaView,
    pub kind: Option<Seq<char>>,
}

/// What an optional kind holds.
pub open spec fn optional_kind(kind: Option<FileKind>) -> Option<Seq<char>> {
    match kind {
        Some(kind) => Some(kind@),
        None => None,
    }
}

/// What an optional kind that is asked for holds.
pub open spec fn requested_kind(kind: Option<&FileKind>) -> Option<Seq<char>> {
    match kind {
        Some(kind) => Some(kind@),
        None => None,
    }
}

impl View for Candidate {
    type V = CandidateView;

    open spec fn view(&self) -> CandidateView {
        CandidateView { file: self.file@, kind: optional_kind(self.kind) }
    }
}

/// What the candidates of a list hold.
pub open spec fn candidate_views(candidates: Seq<Candidate>) -> Seq<CandidateView> {
    candidates.map_values(|candidate: Candidate| candidate@)
}

/// A file that needs a task.
#[derive(Debug)]
pub struct RequestedFile {
    pub kind: FileKind,
    pub file: FileWithoutSha,
}

/// What a `RequestedFile` holds.
pub struct RequestedFileView {
    pub kind: Seq<char>,
    pub file: FileWithoutShaView,
}

impl View for RequestedFile {
    type V = RequestedFileView;

    open spec fn view(&self) -> RequestedFileView {
        RequestedFileView { kind: self.kind@, file: self.file@ }
    }
}

/// What the requested files of a list hold.
pub open spec fn requested_views(requested: Seq<RequestedFile>) -> Seq<RequestedFileView> {
    requested.map_values(|file: RequestedFile| file@)
}

/// Whether a candidate needs a task: it is of a kind that was asked for, any kind if none was
/// named, and no task in progress is about it.
pub open spec fn needs_task(
    candidate: CandidateView,
    maybe_kind: Option<Seq<char>>,
    current: Seq<TaskView>,
) -> bool {
    match candidate.kind {
        Some(kind) => {
            &&& maybe_kind is None || maybe_kind == Some(kind)
            &&& !in_progress(current, kind, candidate.file.path)
        },
        None => false,
    }
}

/// The candidates that need a task, in their order.
pub open spec fn requested_files(
    candidates: Seq<CandidateView>,
    maybe_kind: Option<Seq<char>>,
    current: Seq<TaskView>,
) -> Seq<RequestedFileView> {
    candidates.filter(
        |candidate: CandidateView| needs_task(candidate, maybe_kind, current),
    ).map_values(
        |candidate: CandidateView|
            RequestedFileView { kind: candidate.kind->0, file: candidate.file },
    )
}

/// One more candidate adds at most itself.
pub(crate) proof fn lemma_requested_files_push(
    candidates: Seq<CandidateView>,
    candidate: CandidateView,
    maybe_kind: Option<Seq<char>>,
    current: Seq<TaskView>,
)
    ensures
        requested_files(candidates.push(candidate), maybe_kind, current) == (if needs_task(
            candidate,
            maybe_kind,
            current,
        ) {
            requested_files(candidates, maybe_kind, current).push(
                RequestedFileView { kind: candidate.kind->0, file: candidate.file },
            )
        } else {
            requested_files(candidates, maybe_kind, current)
        }),
{
    reveal(Seq::filter);
    assert(candidates.push(candidate).drop_last() =~= candidates);
    assert(requested_files(candidates.push(candidate), maybe_kind, current) =~= (if needs_task(
        candidate,
        maybe_kind,
        current,
    ) {
        requested_files(candidates, maybe_kind, current).push(
            RequestedFileView { kind: candidate.kind->0, file: candidate.file },
        )
    } else {
        requested_files(candidates, maybe_kind, current)
    }));
}

/// The candidates of a package that need a task.
fn select_files(
    worker: &Worker,
    name: &str,
    maybe_kind: Option<&FileKind>,
    candidates: Vec<Candidate>,
) -> (requested: Vec<RequestedFile>)
    ensures
        requested_views(requested@) == requested_files(
            candidate_views(candidates@),
            requested_kind(maybe_kind),
            tasks_of(worker@, name@),
        ),
{
    let ghost views = candidate_views(candidates@);
    let ghost wanted = requested_kind(maybe_kind);
    let ghost current = tasks_of(worker@, name@);
    let mut requested: Vec<RequestedFile> = Vec::new();
    proof {
        reveal(Seq::filter);
        assert(requested_views(requested@) =~= requested_files(views.take(0), wanted, current));
    }
    for candidate in it: candidates
        invariant
            views == candidate_views(it.seq()),
            wanted == requested_kind(maybe_kind),
            current == tasks_of(worker@, name@),
            requested_views(requested@) == requested_files(
                views.take(it.index() as int),
                wanted,
                current,
            ),
    {
        let ghost at = it.index() as int;
        let ghost before = requested@;
        let ghost view = candidate@;
        proof {
            assert(views[at] == view);
            assert(views.take(at).push(view) =~= views.take(at + 1));
            lemma_requested_files_push(views.take(at), view, wanted, current);
        }
        if let Some(kind) = candidate.kind {
            let of_kind = match maybe_kind {
                Some(wanted_kind) => *wanted_kind == kind,
                None => true,
            };
            if of_kind && !worker.is_in_progress(name, &kind, &candidate.file.path) {
                requested.push(RequestedFile { kind, file: candidate.file });
                assert(requested_views(requested@) =~= requested_views(before).push(
                    RequestedFileView { kind: view.kind->0, file: view.file },
                ));
            }
        }
    }
    assert(views.take(views.len() as int) =~= views);
    requested
}

// ---------------------------------------------------------------------------
// Which commits have to be asked for
// ---------------------------------------------------------------------------

/// Each number is greater than the one before it.
pub open spec fn strictly_increasing(numbers: Seq<i32>) -> bool {
    forall|i: int, j: int| 0 <= i < j < numbers.len() ==> numbers[i] < numbers[j]
}

/// Whether one of the files was last changed in `revision`.
pub open spec fn is_revision_of(requested: Seq<RequestedFileView>, revision: i32) -> bool {
    exists|i: int| 0 <= i < requested.len() && #[trigger] requested[i].file.revision == revision
}

/// Puts a number where it belongs, unless it is there already.
fn insert_number(numbers: &mut Vec<i32>, number: i32)
    requires
        strictly_increasing(old(numbers)@),
    ensures
        strictly_increasing(final(numbers)@),
        forall|n: i32| #[trigger]
            final(numbers)@.contains(n) <==> n == number || old(numbers)@.contains(n),
{
    let mut low: usize = 0;
    let mut high: usize = numbers.len();
    while low < high
        invariant
            low <= high <= numbers@.len(),
            numbers@ == old(numbers)@,
            strictly_increasing(numbers@),
            forall|i: int| 0 <= i < low ==> numbers@[i] < number,
            forall|i: int| high <= i < numbers@.len() ==> numbers@[i] >= number,
        decreases high - low,
    {
        let middle: usize = low + (high - low) / 2;
        if numbers[middle] < number {
            low = middle + 1;
        } else {
            high = middle;
        }
    }
    if low < numbers.len() && numbers[low] == number {
        assert(numbers@.contains(number));
        return;
    }
    let ghost before = numbers@;
    numbers.insert(low, number);
    assert(numbers@ =~= before.insert(low as int, number));
    assert forall|n: i32| #[trigger] numbers@.contains(n) <==> n == number || before.contains(n) by {
        if n == number {
            assert(numbers@[low as int] == number);
        }
        if before.contains(n) {
            let i = choose|i: int| 0 <= i < before.len() && before[i] == n;
            if i < low {
                assert(numbers@[i] == n);
            } else {
                assert(numbers@[i + 1] == n);
            }
        }
        if numbers@.contains(n) && n != number {
            let i = choose|i: int| 0 <= i < numbers@.len() && numbers@[i] == n;
            if i < low {
                assert(before[i] == n);
            } else {
                assert(before[i - 1] == n);
            }
        }
    }
}

/// The revisions of the requested files, in ascending order, each once.
pub fn unique_revisions(requested: &Vec<RequestedFile>) -> (revisions: Vec<i32>)
    ensures
        forall|i: int, j: int| 0 <= i < j < revisions@.len() ==> revisions@[i] < revisions@[j],
        forall|i: int|
            0 <= i < requested@.len() ==> revisions@.contains(
                (#[trigger] requested@[i]).file.revision,
            ),
        forall|revision: i32| #[trigger]
            revisions@.contains(revision) ==> exists|i: int|
                0 <= i < requested@.len() && (#[trigger] requested@[i]).file.revision == revision,
        strictly_increasing(revisions@),
        forall|revision: i32| #[trigger]
            revisions@.contains(revision) <==> is_revision_of(
                requested_views(requested@),
                revision,
            ),
{
    let ghost views = requested_views(requested@);
    let mut revisions: Vec<i32> = Vec::new();
    for i in 0..requested.len()
        invariant
            views == requested_views(requested@),
            strictly_increasing(revisions@),
            forall|revision: i32| #[trigger]
                revisions@.contains(revision) <==> is_revision_of(views.take(i as int), revision),
    {
        let ghost before = revisions@;
        let revision: i32 = requested[i].file.revision;
        assert(views[i as int].file.revision == revision);
        insert_number(&mut revisions, revision);
        assert forall|n: i32| #[trigger]
            revisions@.contains(n) <==> is_revision_of(views.take(i + 1), n) by {
            assert(before.contains(n) <==> is_revision_of(views.take(i as int), n));
            if n == revision {
                assert(views.take(i + 1)[i as int].file.revision == n);
            }
            if is_revision_of(views.take(i as int), n) {
                let j = choose|j: int|
                    0 <= j < i && #[trigger] views.take(i as int)[j].file.revision == n;
                assert(views.take(i + 1)[j].file.revision == n);
            }
            if is_revision_of(views.take(i + 1), n) && n != revision {
                let j = choose|j: int|
                    0 <= j < i + 1 && #[trigger] views.take(i + 1)[j].file.revision == n;
                assert(views.take(i as int)[j].file.revision == n);
            }
        }
    }
    assert(views.take(views.len() as int) =~= views);
    proof {
        lemma_revisions_of_files(requested@, revisions@);
    }
    revisions
}

/// The revisions of requested files are those that the files have.
proof fn lemma_revisions_of_files(requested: Seq<RequestedFile>, revisions: Seq<i32>)
    requires
        forall|revision: i32| #[trigger]
            revisions.contains(revision) <==> is_revision_of(requested_views(requested), revision),
    ensures
        forall|i: int|
            0 <= i < requested.len() ==> revisions.contains(
                (#[trigger] requested[i]).file.revision,
            ),
        forall|revision: i32| #[trigger]
            revisions.contains(revision) ==> exists|i: int|
                0 <= i < requested.len() && (#[trigger] requested[i]).file.revision == revision,
{
    let views = requested_views(requested);
    assert forall|i: int| 0 <= i < requested.len() implies revisions.contains(
        (#[trigger] requested[i]).file.revision,
    ) by {
        assert(views[i].file.revision == requested[i].file.revision);
        assert(is_revision_of(views, requested[i].file.revision));
    }
    assert forall|revision: i32| #[trigger] revisions.contains(revision) implies exists|i: int|
        0 <= i < requested.len() && (#[trigger] requested[i]).file.revision == revision by {
        let i = choose|i: int|
            0 <= i < views.len() && #[trigger] views[i].file.revision == revision;
        assert(requested[i].file.revision == revision);
    }
}

/// What has to be done to launch the tasks of a package: the files that need a task, and the
/// revisions whose commits have to be asked for.
#[derive(Debug)]
pub struct LaunchPlan {
    pub requested: Vec<RequestedFile>,
    pub revisions: Vec<i32>,
}

impl Worker {
    /// Plans the launch of the tasks of a package.
    pub fn plan_launch(
        &self,
        name: &str,
        maybe_kind: Option<&FileKind>,
        candidates: Vec<Candidate>,
    ) -> (plan: LaunchPlan)
        ensures
            requested_views(plan.requested@) == requested_files(
                candidate_views(candidates@),
                requested_kind(maybe_kind),
                tasks_of(self@, name@),
            ),
            forall|i: int, j: int|
                0 <= i < j < plan.revisions@.len() ==> plan.revisions@[i] < plan.revisions@[j],
            forall|i: int|
                0 <= i < plan.requested@.len() ==> plan.revisions@.contains(
                    (#[trigger] plan.requested@[i]).file.revision,
                ),
            forall|revision: i32| #[trigger]
                plan.revisions@.contains(revision) ==> exists|i: int|
                    0 <= i < plan.requested@.len() && (#[trigger] plan.requested@[i]).file.revision
                        == revision,
            strictly_increasing(plan.revisions@),
            forall|revision: i32| #[trigger]
                plan.revisions@.contains(revision) <==> is_revision_of(
                    requested_views(plan.requested@),
                    revision,
                ),
    {
        let requested = select_files(self, name, maybe_kind, candidates);
        let revisions = unique_revisions(&requested);
        LaunchPlan { requested, revisions }
    }
}

// ---------------------------------------------------------------------------
// Which tasks begin
// ---------------------------------------------------------------------------

/// What the commits of a list hold.
pub open spec fn sha_views(shas: Seq<Option<String>>) -> Seq<Option<Seq<char>>> {
    shas.map_values(|sha: Option<String>| optional_text(sha))
}

/// The commit of `revision` among the first `count` revisions, each of which has its commit at
/// the same place of `shas`.
pub open spec fn sha_among(
    revisions: Seq<i32>,
    shas: Seq<Option<Seq<char>>>,
    count: nat,
    revision: i32,
) -> Option<Seq<char>>
    decreases count,
{
    if count == 0 {
        None
    } else if revisions[count - 1] == revision {
        shas[count - 1]
    } else {
        sha_among(revisions, shas, (count - 1) as nat, revision)
    }
}

/// The commit of `revision`, if it is known. A revision without a partner has none.
pub open spec fn known_sha(
    revisions: Seq<i32>,
    shas: Seq<Option<Seq<char>>>,
    revision: i32,
) -> Option<Seq<char>> {
    let count = if revisions.len() < shas.len() {
        revisions.len()
    } else {
        shas.len()
    };
    sha_among(revisions, shas, count, revision)
}

/// What a task is about: the kind and the file.
pub open spec fn subject(task: TaskView) -> (Seq<char>, FileView) {
    (task.kind, task.file)
}

/// What the tasks of a list are about.
pub open spec fn subjects(tasks: Seq<TaskView>) -> Seq<(Seq<char>, FileView)> {
    tasks.map_values(|task: TaskView| subject(task))
}

/// What the tasks that begin are about: the requested files whose commits are known, in their
/// order.
pub open spec fn launched_subjects(
    requested: Seq<RequestedFileView>,
    revisions: Seq<i32>,
    shas: Seq<Option<Seq<char>>>,
) -> Seq<(Seq<char>, FileView)> {
    requested.filter(
        |wanted: RequestedFileView| known_sha(revisions, shas, wanted.file.revision) is Some,
    ).map_values(
        |wanted: RequestedFileView|
            (
                wanted.kind,
                wanted.file.with_sha(known_sha(revisions, shas, wanted.file.revision)->0),
            ),
    )
}

/// One more requested file adds at most itself.
pub(crate) proof fn lemma_launched_subjects_push(
    requested: Seq<RequestedFileView>,
    wanted: RequestedFileView,
    revisions: Seq<i32>,
    shas: Seq<Option<Seq<char>>>,
)
    ensures
        launched_subjects(requested.push(wanted), revisions, shas) == (match known_sha(
            revisions,
            shas,
            wanted.file.revision,
        ) {
            Some(sha) => launched_subjects(requested, revisions, shas).push(
                (wanted.kind, wanted.file.with_sha(sha)),
            ),
            None => launched_subjects(requested, revisions, shas),
        }),
{
    reveal(Seq::filter);
    assert(requested.push(wanted).drop_last() =~= requested);
    assert(launched_subjects(requested.push(wanted), revisions, shas) =~= (match known_sha(
        revisions,
        shas,
        wanted.file.revision,
    ) {
        Some(sha) => launched_subjects(requested, revisions, shas).push(
            (wanted.kind, wanted.file.with_sha(sha)),
        ),
        None => launched_subjects(requested, revisions, shas),
    }));
}

/// The requested files whose commits are not known, in their order. No task begins for them.
pub open spec fn files_without_sha(
    requested: Seq<RequestedFileView>,
    revisions: Seq<i32>,
    shas: Seq<Option<Seq<char>>>,
) -> Seq<RequestedFileView> {
    requested.filter(
        |wanted: RequestedFileView| known_sha(revisions, shas, wanted.file.revision) is None,
    )
}

/// One more requested file adds at most itself.
pub(crate) proof fn lemma_files_without_sha_push(
    requested: Seq<RequestedFileView>,
    wanted: RequestedFileView,
    revisions: Seq<i32>,
    shas: Seq<Option<Seq<char>>>,
)
    ensures
        files_without_sha(requested.push(wanted), revisions, shas) == (match known_sha(
            revisions,
            shas,
            wanted.file.revision,
        ) {
            Some(_) => files_without_sha(requested, revisions, shas),
            None => files_without_sha(requested, revisions, shas).push(wanted),
        }),
{
    reveal(Seq::filter);
    assert(requested.push(wanted).drop_last() =~= requested);
}

/// The task for a requested file whose commit is known.
pub fn make_task(wanted: RequestedFile, sha: &String, created: Timestamp) -> (task: Task)
    ensures
        task@ == (TaskView { created, file: wanted@.file.with_sha(sha@), kind: wanted@.kind }),
        task.created == created,
        task.kind.name@ == wanted.kind.name@,
        task.file.path@ == wanted.file.path@,
        task.file.size == wanted.file.size,
        task.file.revision == wanted.file.revision,
        task.file.sha@ == sha@,
        task.file.last_author@ == wanted.file.last_author@,
        task.file.last_changed == wanted.file.last_changed,
{
    Task {
        created,
        file: File {
            path: wanted.file.path,
            size: wanted.file.size,
            revision: wanted.file.revision,
            sha: sha.clone(),
            last_author: wanted.file.last_author,
            last_changed: wanted.file.last_changed,
        },
        kind: wanted.kind,
    }
}

/// The commit of each revision.
fn sha_mapping(revisions: &Vec<i32>, shas: Vec<Option<String>>) -> (mapping: HashMap<
    i32,
    Option<String>,
>)
    ensures
        forall|revision: i32| #[trigger]
            mapping@.contains_key(revision) ==> optional_text(mapping@[revision])
                == known_sha(revisions@, sha_views(shas@), revision),
        forall|revision: i32|
            !#[trigger] mapping@.contains_key(revision) ==> known_sha(
                revisions@,
                sha_views(shas@),
                revision,
            ) is None,
{
    let ghost views = sha_views(shas@);
    let mut mapping: HashMap<i32, Option<String>> = HashMap::new();
    let mut i: usize = 0;
    for sha in it: shas
        invariant
            views == sha_views(it.seq()),
            i == it.index(),
            i <= revisions@.len(),
            forall|revision: i32| #[trigger]
                mapping@.contains_key(revision) ==> optional_text(
                    mapping@[revision],
                ) == sha_among(revisions@, views, i as nat, revision),
            forall|revision: i32|
                !#[trigger] mapping@.contains_key(revision) ==> sha_among(
                    revisions@,
                    views,
                    i as nat,
                    revision,
                ) is None,
    {
        assert(views[i as int] == optional_text(sha));
        if i == revisions.len() {
            return mapping;
        }
        mapping.insert(revisions[i], sha);
        i = i + 1;
    }
    mapping
}

/// The tasks that begin, and the files for which none can begin. When each task was created is
/// left to the clock.
pub fn resolve_tasks(
    requested: Vec<RequestedFile>,
    revisions: &Vec<i32>,
    shas: Vec<Option<String>>,
) -> (resolved: (Vec<Task>, Vec<RequestedFile>))
    ensures
        subjects(task_views(resolved.0@)) == launched_subjects(
            requested_views(requested@),
            revisions@,
            sha_views(shas@),
        ),
        requested_views(resolved.1@) == files_without_sha(
            requested_views(requested@),
            revisions@,
            sha_views(shas@),
        ),
{
    let ghost views = requested_views(requested@);
    let ghost sha_seq = sha_views(shas@);
    let mapping = sha_mapping(revisions, shas);
    let mut tasks: Vec<Task> = Vec::new();
    let mut without_sha: Vec<RequestedFile> = Vec::new();
    proof {
        reveal(Seq::filter);
        assert(subjects(task_views(tasks@)) =~= launched_subjects(
            views.take(0),
            revisions@,
            sha_seq,
        ));
        assert(requested_views(without_sha@) =~= files_without_sha(
            views.take(0),
            revisions@,
            sha_seq,
        ));
    }
    for wanted in it: requested
        invariant
            views == requested_views(it.seq()),
            forall|revision: i32| #[trigger]
                mapping@.contains_key(revision) ==> optional_text(
                    mapping@[revision],
                ) == known_sha(revisions@, sha_seq, revision),
            forall|revision: i32|
                !#[trigger] mapping@.contains_key(revision) ==> known_sha(
                    revisions@,
                    sha_seq,
                    revision,
                ) is None,
            subjects(task_views(tasks@)) == launched_subjects(
                views.take(it.index() as int),
                revisions@,
                sha_seq,
            ),
            requested_views(without_sha@) == files_without_sha(
                views.take(it.index() as int),
                revisions@,
                sha_seq,
            ),
    {
        let ghost at = it.index() as int;
        let ghost before = tasks@;
        let ghost left_out = without_sha@;
        let ghost view = wanted@;
        proof {
            assert(views[at] == view);
            assert(views.take(at).push(view) =~= views.take(at + 1));
            lemma_launched_subjects_push(views.take(at), view, revisions@, sha_seq);
            lemma_files_without_sha_push(views.take(at), view, revisions@, sha_seq);
        }
        if let Some(Some(sha)) = mapping.get(&wanted.file.revision) {
            let task = make_task(wanted, sha, now());
            let ghost added = task@;
            tasks.push(task);
            assert(subjects(task_views(tasks@)) =~= subjects(task_views(before)).push(
                subject(added),
            ));
        } else {
            without_sha.push(wanted);
            assert(requested_views(without_sha@) =~= requested_views(left_out).push(view));
        }
    }
    assert(views.take(views.len() as int) =~= views);
    (tasks, without_sha)
}

impl Worker {
    /// Launches the planned tasks of a package, now that the commits of the revisions are known,
    /// or that it is known why they cannot be had. Hands out the tasks that begin, all tasks of
    /// the package that are then in progress, and the planned files for which no task begins
    /// since their commits are not known.
    pub fn launch_tasks(
        &mut self,
        name: &str,
        plan: LaunchPlan,
        shas: Result<Vec<Option<String>>, String>,
    ) -> (launched: Result<(Vec<Task>, Vec<Task>, Vec<RequestedFile>), String>)
        ensures
            match (shas, launched) {
                (Ok(shas), Ok((new_tasks, in_progress_tasks, without_sha))) => {
                    &&& subjects(task_views(new_tasks@)) == launched_subjects(
                        requested_views(plan.requested@),
                        plan.revisions@,
                        sha_views(shas@),
                    )
                    &&& final(self)@ == with_new_tasks(old(self)@, name@, task_views(new_tasks@))
                    &&& task_views(in_progress_tasks@) == tasks_of(final(self)@, name@)
                    &&& requested_views(without_sha@) == files_without_sha(
                        requested_views(plan.requested@),
                        plan.revisions@,
                        sha_views(shas@),
                    )
                },
                (Err(reason), Err(message)) => {
                    &&& message@ == "Unable to fetch Git SHAs: "@ + reason@
                    &&& final(self)@ == old(self)@
                },
                _ => false,
            },
            old(self).wf() ==> final(self).wf(),
    {
        match shas {
            Ok(shas) => {
                let (tasks, without_sha) = resolve_tasks(plan.requested, &plan.revisions, shas);
                let (new_tasks, in_progress_tasks) = self.record_new_tasks(name, tasks);
                Ok((new_tasks, in_progress_tasks, without_sha))
            },
            Err(reason) => {
                let mut message = "Unable to fetch Git SHAs: ".to_owned();
                message.append(reason.as_str());
                Err(message)
            },
        }
    }
}

} // verus!
