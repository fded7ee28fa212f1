//! The tasks in progress of each package.
use vstd::hash_map::StringHashMap;
use vstd::prelude::*;

use crate::types::{copy_tasks, task_views, FileKind, Task, TaskView};

verus! {

/// The tasks in progress, by the name of the package that they belong to.
pub type TaskTable = Map<Seq<char>, Seq<TaskView>>;

/// Whether a task is about the file at `path`, taken as a file of `kind`.
pub open spec fn is_about(task: TaskView, kind: Seq<char>, path: Seq<char>) -> bool {
    task.kind == kind && task.file.path == path
}

/// Whether one of the tasks is about the file at `path`, taken as a file of `kind`.
pub open spec fn in_progress(tasks: Seq<TaskView>, kind: Seq<char>, path: Seq<char>) -> bool {
    exists|i: int| 0 <= i < tasks.len() && is_about(#[trigger] tasks[i], kind, path)
}

/// The tasks of a package; none when the table does not know the package.
pub open spec fn tasks_of(table: TaskTable, package: Seq<char>) -> Seq<TaskView> {
    if table.contains_key(package) {
        table[package]
    } else {
        Seq::empty()
    }
}

/// No package stands in the table without a task.
pub open spec fn no_idle_package(table: TaskTable) -> bool {
    forall|package: Seq<char>| #[trigger]
        table.contains_key(package) ==> table[package].len() > 0
}

/// The table once new tasks of a package have begun.
pub open spec fn with_new_tasks(
    table: TaskTable,
    package: Seq<char>,
    new_tasks: Seq<TaskView>,
) -> TaskTable {
    if new_tasks.len() == 0 {
        table
    } else {
        table.insert(package, tasks_of(table, package) + new_tasks)
    }
}

/// The tasks without the first one that is about the file at `path`, taken as a file of `kind`.
pub open spec fn without_first(tasks: Seq<TaskView>, kind: Seq<char>, path: Seq<char>) -> Seq<
    TaskView,
>
    decreases tasks.len(),
{
    if tasks.len() == 0 {
        tasks
    } else if is_about(tasks.first(), kind, path) {
        tasks.drop_first()
    } else {
        seq![tasks.first()] + without_first(tasks.drop_first(), kind, path)
    }
}

/// The table once a task of a package is over. The package goes with its last task.
pub open spec fn with_task_over(table: TaskTable, package: Seq<char>, task: TaskView) -> TaskTable {
    if !in_progress(tasks_of(table, package), task.kind, task.file.path) {
        table
    } else {
        let rest = without_first(table[package], task.kind, task.file.path);
        if rest.len() == 0 {
            table.remove(package)
        } else {
            table.insert(package, rest)
        }
    }
}

/// Removing the first match leaves everything before and behind it.
pub(crate) proof fn lemma_without_first(tasks: Seq<TaskView>, kind: Seq<char>, path: Seq<char>, at: int)
    requires
        0 <= at < tasks.len(),
        is_about(tasks[at], kind, path),
        forall|i: int| 0 <= i < at ==> !is_about(#[trigger] tasks[i], kind, path),
    ensures
        without_first(tasks, kind, path) == tasks.remove(at),
    decreases tasks.len(),
{
    if at > 0 {
        let rest = tasks.drop_first();
        assert forall|i: int| 0 <= i < at - 1 implies !is_about(#[trigger] rest[i], kind, path) by {
            assert(rest[i] == tasks[i + 1]);
        }
        lemma_without_first(rest, kind, path, at - 1);
        assert(seq![tasks.first()] + rest.remove(at - 1) =~= tasks.remove(at));
    } else {
        assert(tasks.drop_first() =~= tasks.remove(0));
    }
}

/// Keeps the tasks that are in progress, package by package.
pub struct Worker {
    current_tasks: StringHashMap<Vec<Task>>,
}

impl View for Worker {
    type V = TaskTable;

    closed spec fn view(&self) -> TaskTable {
        self.current_tasks@.map_values(|tasks: Vec<Task>| task_views(tasks@))
    }
}

impl Worker {
    /// No package stands in the table without a task.
    pub open spec fn wf(&self) -> bool {
        no_idle_package(self@)
    }

    /// No task is in progress yet.
    pub fn new() -> (worker: Worker)
        ensures
            worker@ == Map::<Seq<char>, Seq<TaskView>>::empty(),
            worker.wf(),
    {
        let worker = Worker { current_tasks: StringHashMap::new() };
        assert(worker@ =~= Map::<Seq<char>, Seq<TaskView>>::empty());
        worker
    }

    /// The tasks of a package that are in progress, if there are any.
    pub fn get_tasks_in_progress(&self, name: &str) -> (tasks: Option<Vec<Task>>)
        ensures
            match tasks {
                Some(tasks) => self@.contains_key(name@) && task_views(tasks@) == self@[name@],
                None => !self@.contains_key(name@),
            },
    {
        match self.current_tasks.get(name) {
            Some(tasks) => Some(copy_tasks(tasks)),
            None => None,
        }
    }

    /// Whether a task of the package is about the file at `path`, taken as a file of `kind`.
    pub fn is_in_progress(&self, name: &str, kind: &FileKind, path: &String) -> (found:
        bool)
        ensures
            found == in_progress(tasks_of(self@, name@), kind@, path@),
    {
        match self.current_tasks.get(name) {
            Some(tasks) => {
                match find_task(tasks, kind, path) {
                    Some(_) => true,
                    None => false,
                }
            },
            None => false,
        }
    }

    /// Enters new tasks of a package. Hands out the new tasks, and all tasks of the package that
    /// are then in progress.
    pub fn record_new_tasks(&mut self, name: &str, new_tasks: Vec<Task>) -> (recorded: (
        Vec<Task>,
        Vec<Task>,
    ))
        ensures
            final(self)@ == with_new_tasks(old(self)@, name@, task_views(new_tasks@)),
            recorded.0 == new_tasks,
            task_views(recorded.1@) == tasks_of(final(self)@, name@),
            old(self).wf() ==> final(self).wf(),
    {
        let ghost table = self@;
        let ghost new_views = task_views(new_tasks@);
        let mut all = match self.current_tasks.get(name) {
            Some(tasks) => copy_tasks(tasks),
            None => Vec::new(),
        };
        assert(task_views(all@) =~= tasks_of(table, name@));
        if new_tasks.is_empty() {
            return (new_tasks, all);
        }
        let ghost before = all@;
        let mut added = copy_tasks(&new_tasks);
        let ghost added_tasks = added@;
        all.append(&mut added);
        assert(task_views(all@) =~= task_views(before) + task_views(added_tasks));
        let kept = copy_tasks(&all);
        self.current_tasks.insert(name.to_owned(), kept);
        assert(self@ =~= table.insert(name@, tasks_of(table, name@) + new_views));
        (new_tasks, all)
    }

    /// Takes out a task of a package that is over.
    pub fn record_task_completion(&mut self, name: &str, task: &Task)
        ensures
            final(self)@ == with_task_over(old(self)@, name@, task@),
            old(self).wf() ==> final(self).wf(),
    {
        let ghost table = self@;
        let mut tasks = match self.current_tasks.get(name) {
            Some(tasks) => copy_tasks(tasks),
            None => {
                return;
            },
        };
        let ghost before = task_views(tasks@);
        assert(before =~= table[name@]);
        match find_task(&tasks, &task.kind, &task.file.path) {
            Some(position) => {
                proof {
                    lemma_without_first(before, task.kind@, task.file.path@, position as int);
                }
                tasks.remove(position);
                assert(task_views(tasks@) =~= before.remove(position as int));
                if tasks.is_empty() {
                    self.current_tasks.remove(name);
                    assert(self@ =~= table.remove(name@));
                } else {
                    self.current_tasks.insert(name.to_owned(), tasks);
                    assert(self@ =~= table.insert(name@, before.remove(position as int)));
                }
            },
            None => {},
        }
    }
}

/// Where the first task stands that is about the file at `path`, taken as a file of `kind`.
fn find_task(tasks: &Vec<Task>, kind: &FileKind, path: &String) -> (position: Option<
    usize,
>)
    ensures
        match position {
            Some(at) => at < tasks@.len() && is_about(task_views(tasks@)[at as int], kind@, path@)
                && forall|i: int|
                0 <= i < at ==> !is_about(#[trigger] task_views(tasks@)[i], kind@, path@),
            None => !in_progress(task_views(tasks@), kind@, path@),
        },
{
    let ghost views = task_views(tasks@);
    for at in 0..tasks.len()
        invariant
            views == task_views(tasks@),
            forall|i: int| 0 <= i < at ==> !is_about(#[trigger] views[i], kind@, path@),
    {
        assert(views[at as int] == tasks@[at as int]@);
        if tasks[at].kind == *kind && tasks[at].file.path == *path {
            return Some(at);
        }
    }
    None
}

} // verus!
