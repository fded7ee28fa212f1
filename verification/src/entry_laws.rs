//! What holds of the entries that tasks leave: each describes its file and its request, and none
//! is lost.
use vstd::prelude::*;

use crate::entries::{
    all_entries, are_entries_of, entry_of, NewEntry, TaskResult,
};
use crate::types::{TaskView, Timestamp};

verus! {

/// An entry says of the package, the task and the statistic what they are, whatever the other
/// parts of them hold: it was requested when the task was created, it is about the file of the
/// task, and it holds the statistic.
pub proof fn law_entry_describes_its_task<S, V>(
    package: Seq<char>,
    task: TaskView,
    stat: (S, V),
    created: Timestamp,
)
    ensures
        ({
            let entry = entry_of(package, task, stat, created);
            &&& entry.name == package
            &&& entry.created == created
            &&& entry.requested == task.created
            &&& entry.path == task.file.path
            &&& entry.stat_kind == stat.0
            &&& entry.file_kind == task.kind
            &&& entry.value == stat.1
            &&& entry.revision == task.file.revision
            &&& entry.sha == task.file.sha
            &&& entry.size == task.file.size
            &&& entry.last_author == task.file.last_author
            &&& entry.last_changed == task.file.last_changed
        }),
{
}

/// There is one entry for each statistic of a task, in the same order, and each holds its
/// statistic and says what the task was about.
pub proof fn law_each_statistic_has_its_entry<S, V>(
    entries: Seq<NewEntry<S, V>>,
    package: Seq<char>,
    task: TaskView,
    stats: Seq<(S, V)>,
)
    requires
        are_entries_of(entries, package, task, stats),
    ensures
        entries.len() == stats.len(),
        forall|i: int|
            #![trigger entries[i]]
            #![trigger stats[i]]
            0 <= i < stats.len() ==> {
                &&& entries[i].name@ == package
                &&& entries[i].requested == task.created
                &&& entries[i].path@ == task.file.path
                &&& entries[i].stat_kind == stats[i].0
                &&& entries[i].file_kind.name@ == task.kind
                &&& entries[i].value == stats[i].1
                &&& entries[i].revision == task.file.revision
                &&& entries[i].sha@ == task.file.sha
                &&& entries[i].size == task.file.size
                &&& entries[i].last_author@ == task.file.last_author
                &&& entries[i].last_changed == task.file.last_changed
            },
{
    assert forall|i: int|
        #![trigger entries[i]]
        #![trigger stats[i]]
        0 <= i < stats.len() implies {
        &&& entries[i].name@ == package
        &&& entries[i].requested == task.created
        &&& entries[i].path@ == task.file.path
        &&& entries[i].stat_kind == stats[i].0
        &&& entries[i].file_kind.name@ == task.kind
        &&& entries[i].value == stats[i].1
        &&& entries[i].revision == task.file.revision
        &&& entries[i].sha@ == task.file.sha
        &&& entries[i].size == task.file.size
        &&& entries[i].last_author@ == task.file.last_author
        &&& entries[i].last_changed == task.file.last_changed
    } by {
        assert(entries[i]@ == entry_of(package, task, stats[i], entries[i].created));
    }
}

/// One more task adds the entries that it left, and nothing else, behind those of the tasks
/// before it; no tasks leave no entries.
pub proof fn law_one_more_task_adds_its_entries<S, V>(
    results: Seq<TaskResult<S, V>>,
    last: TaskResult<S, V>,
)
    ensures
        all_entries(Seq::<TaskResult<S, V>>::empty()).len() == 0,
        match last.0 {
            Some(entries) => all_entries(results.push(last)) == all_entries(results) + entries@,
            None => all_entries(results.push(last)) == all_entries(results),
        },
{
    assert(results.push(last).drop_last() =~= results);
    assert(all_entries(results) + Seq::<NewEntry<S, V>>::empty() =~= all_entries(results));
}

/// What two runs of tasks leave is what the first leaves, followed by what the second leaves.
pub proof fn law_entries_of_runs_add_up<S, V>(
    left: Seq<TaskResult<S, V>>,
    right: Seq<TaskResult<S, V>>,
)
    ensures
        all_entries(left + right) == all_entries(left) + all_entries(right),
    decreases right.len(),
{
    if right.len() == 0 {
        assert(left + right =~= left);
        assert(all_entries(left) + all_entries(right) =~= all_entries(left));
    } else {
        law_entries_of_runs_add_up(left, right.drop_last());
        assert((left + right).drop_last() =~= left + right.drop_last());
        assert(all_entries(left + right) =~= all_entries(left) + all_entries(right));
    }
}

/// The number of entries that a task left.
pub open spec fn number_left<S, V>(result: TaskResult<S, V>) -> int {
    match result.0 {
        Some(entries) => entries@.len() as int,
        None => 0,
    }
}

/// No entry of any task is lost: as many entries are collected as the tasks left together, and
/// the entries of each task stand together, in their order, behind those of the tasks before it.
pub proof fn law_no_entry_is_lost<S, V>(results: Seq<TaskResult<S, V>>, i: int)
    requires
        0 <= i < results.len(),
    ensures
        all_entries(results).len() == results.map_values(
            |result: TaskResult<S, V>| number_left(result),
        ).fold_left(0, |sum: int, number: int| sum + number),
        results[i].0 matches Some(entries) ==> all_entries(results).subrange(
            all_entries(results.take(i)).len() as int,
            (all_entries(results.take(i)).len() + entries@.len()) as int,
        ) == entries@,
        results[i].0 matches Some(entries) ==> forall|j: int|
            0 <= j < entries@.len() ==> all_entries(results).contains(#[trigger] entries@[j]),
{
    lemma_number_collected(results);
    if let Some(entries) = results[i].0 {
        let start = all_entries(results.take(i)).len() as int;
        let all = all_entries(results);
        assert(results =~= results.take(i).push(results[i]) + results.skip(i + 1));
        law_entries_of_runs_add_up(results.take(i).push(results[i]), results.skip(i + 1));
        law_one_more_task_adds_its_entries(results.take(i), results[i]);
        assert(all.subrange(start, start + entries@.len()) =~= entries@);
        assert forall|j: int| 0 <= j < entries@.len() implies all.contains(
            #[trigger] entries@[j],
        ) by {
            assert(all[start + j] == entries@[j]);
        }
    }
}

proof fn lemma_number_collected<S, V>(results: Seq<TaskResult<S, V>>)
    ensures
        all_entries(results).len() == results.map_values(
            |result: TaskResult<S, V>| number_left(result),
        ).fold_left(0, |sum: int, number: int| sum + number),
    decreases results.len(),
{
    reveal_with_fuel(Seq::fold_left, 2);
    let numbers = results.map_values(|result: TaskResult<S, V>| number_left(result));
    if results.len() > 0 {
        let before = results.drop_last();
        lemma_number_collected(before);
        assert(numbers.drop_last() =~= before.map_values(
            |result: TaskResult<S, V>| number_left(result),
        ));
        assert(before.push(results.last()) =~= results);
        law_one_more_task_adds_its_entries(before, results.last());
    }
}

} // verus!
