//! The statistics entries that a task leaves behind when it is over.
use vstd::prelude::*;

use crate::clock::now;
use crate::types::{FileKind, Task, TaskView, Timestamp};
use crate::worker::{with_task_over, Worker};

verus! {

/// One statistic of a file. `S` tells statistics apart, `V` is the value of one.
#[derive(Debug)]
pub struct NewEntry<S, V> {
    pub name: String,
    pub created: Timestamp,
    pub requested: Timestamp,
    pub path: String,
    pub stat_kind: S,
    pub file_kind: FileKind,
    pub value: V,
    pub revision: i32,
    pub sha: String,
    pub size: i32,
    pub last_author: String,
    pub last_changed: Timestamp,
}

/// What a `NewEntry` holds.
pub struct NewEntryView<S, V> {
    pub name: Seq<char>,
    pub created: Timestamp,
    pub requested: Timestamp,
    pub path: Seq<char>,
    pub stat_kind: S,
    pub file_kind: Seq<char>,
    pub value: V,
    pub revision: i32,
    pub sha: Seq<char>,
    pub size: i32,
    pub last_author: Seq<char>,
    pub last_changed: Timestamp,
}

impl<S, V> View for NewEntry<S, V> {
    type V = NewEntryView<S, V>;

    open spec fn view(&self) -> NewEntryView<S, V> {
        NewEntryView {
            name: self.name@,
            created: self.created,
            requested: self.requested,
            path: self.path@,
            stat_kind: self.stat_kind,
            file_kind: self.file_kind@,
            value: self.value,
            revision: self.revision,
            sha: self.sha@,
            size: self.size,
            last_author: self.last_author@,
            last_changed: self.last_changed,
        }
    }
}

/// The entry for one statistic that a task of a package found, made at the moment `created`.
pub open spec fn entry_of<S, V>(
    package: Seq<char>,
    task: TaskView,
    stat: (S, V),
    created: Timestamp,
) -> NewEntryView<S, V> {
    NewEntryView {
        name: package,
        created,
        requested: task.created,
        path: task.file.path,
        stat_kind: stat.0,
        file_kind: task.kind,
        value: stat.1,
        revision: task.file.revision,
        sha: task.file.sha,
        size: task.file.size,
        last_author: task.file.last_author,
        last_changed: task.file.last_changed,
    }
}

/// The entry for one statistic that a task of a package found, made at the moment `created`.
pub fn make_entry<S, V>(
    package_name: &str,
    task: &Task,
    stat: (S, V),
    created: Timestamp,
) -> (entry: NewEntry<S, V>)
    ensures
        entry@ == entry_of(package_name@, task@, stat, created),
        entry.name@ == package_name@,
        entry.created == created,
        entry.requested == task.created,
        entry.path@ == task.file.path@,
        entry.stat_kind == stat.0,
        entry.file_kind.name@ == task.kind.name@,
        entry.value == stat.1,
        entry.revision == task.file.revision,
        entry.sha@ == task.file.sha@,
        entry.size == task.file.size,
        entry.last_author@ == task.file.last_author@,
        entry.last_changed == task.file.last_changed,
{
    NewEntry {
        name: package_name.to_owned(),
        created,
        requested: task.created,
        path: task.file.path.clone(),
        stat_kind: stat.0,
        file_kind: task.kind.clone(),
        value: stat.1,
        revision: task.file.revision,
        sha: task.file.sha.clone(),
        size: task.file.size,
        last_author: task.file.last_author.clone(),
        last_changed: task.file.last_changed,
    }
}

/// Whether `entries` has, for each statistic and in the same order, the entry that was made for
/// it at some moment.
pub open spec fn are_entries_of<S, V>(
    entries: Seq<NewEntry<S, V>>,
    package: Seq<char>,
    task: TaskView,
    stats: Seq<(S, V)>,
) -> bool {
    &&& entries.len() == stats.len()
    &&& forall|i: int|
        0 <= i < stats.len() ==> (#[trigger] entries[i])@ == entry_of(
            package,
            task,
            stats[i],
            entries[i].created,
        )
}

/// The entries for the statistics that a task of a package found. When each was created is
/// left to the clock.
pub fn make_entries<S, V>(package_name: &str, task: &Task, stats: Vec<(S, V)>) -> (entries: Vec<
    NewEntry<S, V>,
>)
    ensures
        are_entries_of(entries@, package_name@, task@, stats@),
{
    let mut entries: Vec<NewEntry<S, V>> = Vec::new();
    for stat in it: stats
        invariant
            entries@.len() == it.index(),
            forall|i: int|
                0 <= i < it.index() ==> (#[trigger] entries@[i])@ == entry_of(
                    package_name@,
                    task@,
                    it.seq()[i],
                    entries@[i].created,
                ),
    {
        entries.push(make_entry(package_name, task, stat, now()));
    }
    entries
}

impl Worker {
    /// Ends a task of a package. It is no longer in progress, whatever came of it; if it found
    /// statistics, their entries are handed out, else the message that says why there are none.
    pub fn complete_task<S, V>(
        &mut self,
        package_name: &str,
        task: &Task,
        stats: Result<Vec<(S, V)>, String>,
    ) -> (entries: Result<Vec<NewEntry<S, V>>, String>)
        ensures
            final(self)@ == with_task_over(old(self)@, package_name@, task@),
            old(self).wf() ==> final(self).wf(),
            match (stats, entries) {
                (Ok(stats), Ok(entries)) => are_entries_of(
                    entries@,
                    package_name@,
                    task@,
                    stats@,
                ),
                (Err(reason), Err(message)) => message@ == "Error executing task: "@ + reason@,
                _ => false,
            },
    {
        self.record_task_completion(package_name, task);
        match stats {
            Ok(stats) => Ok(make_entries(package_name, task, stats)),
            Err(reason) => {
                let mut message = "Error executing task: ".to_owned();
                message.append(reason.as_str());
                Err(message)
            },
        }
    }
}

/// What came of a task: the entries, if it found statistics, and what went wrong, if anything
/// did.
pub type TaskResult<S, V> = (Option<Vec<NewEntry<S, V>>>, Option<String>);

/// What came of a task, now that it is known whether its entries could be stored. Entries that
/// could not be stored are handed out all the same.
pub fn task_result<S, V>(
    entries: Result<Vec<NewEntry<S, V>>, String>,
    stored: Result<(), String>,
) -> (result: TaskResult<S, V>)
    ensures
        match (entries, stored) {
            (Ok(entries), Ok(())) => result.0 == Some(entries) && result.1 is None,
            (Ok(entries), Err(reason)) => {
                &&& result.0 == Some(entries)
                &&& result.1 is Some
                &&& result.1->0@ == "Error persisting task results: "@ + reason@
            },
            (Err(message), _) => result.0 is None && result.1 == Some(message),
        },
{
    match entries {
        Ok(entries) => match stored {
            Ok(()) => (Some(entries), None),
            Err(reason) => {
                let mut message = "Error persisting task results: ".to_owned();
                message.append(reason.as_str());
                (Some(entries), Some(message))
            },
        },
        Err(message) => (None, Some(message)),
    }
}

/// The entries that one task left.
pub open spec fn entries_left<S, V>(result: TaskResult<S, V>) -> Seq<NewEntry<S, V>> {
    match result.0 {
        Some(entries) => entries@,
        None => Seq::empty(),
    }
}

/// The entries that tasks left, one task after the other.
pub open spec fn all_entries<S, V>(results: Seq<TaskResult<S, V>>) -> Seq<NewEntry<S, V>>
    decreases results.len(),
{
    if results.len() == 0 {
        Seq::empty()
    } else {
        all_entries(results.drop_last()) + entries_left(results.last())
    }
}

/// The entries that tasks left, one task after the other.
pub fn collect_entries<S, V>(results: Vec<TaskResult<S, V>>) -> (entries: Vec<NewEntry<S, V>>)
    ensures
        entries@ == all_entries(results@),
{
    let mut entries: Vec<NewEntry<S, V>> = Vec::new();
    for result in it: results
        invariant
            entries@ == all_entries(it.seq().take(it.index() as int)),
    {
        let ghost upto = it.seq().take(it.index() + 1);
        assert(upto.drop_last() =~= it.seq().take(it.index() as int));
        assert(upto.last() == result);
        if let Some(mut left) = result.0 {
            entries.append(&mut left);
        }
        assert(entries@ =~= all_entries(upto));
    }
    assert(results@.take(results@.len() as int) =~= results@);
    entries
}

} // verus!
