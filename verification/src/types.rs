//! The files of a package and the tasks that are run on them.
use vstd::prelude::*;

verus! {

/// A moment in time: whole seconds since the Unix epoch and the nanoseconds that follow them.
#[derive(Clone, Copy, Debug, PartialEq, Eq, Structural)]
pub struct Timestamp {
    pub seconds: i64,
    pub nanoseconds: u32,
}

/// The kind of a source file. Kinds are told apart by their names.
#[derive(Debug, Eq)]
pub struct FileKind {
    pub name: String,
}

impl View for FileKind {
    type V = Seq<char>;

    open spec fn view(&self) -> Seq<char> {
        self.name@
    }
}

impl Clone for FileKind {
    fn clone(&self) -> (copy: Self)
        ensures
            copy@ == self@,
    {
        FileKind { name: self.name.clone() }
    }
}

impl PartialEq for FileKind {
    fn eq(&self, other: &Self) -> (same: bool) {
        self.name == other.name
    }
}

impl vstd::std_specs::cmp::PartialEqSpecImpl for FileKind {
    open spec fn obeys_eq_spec() -> bool {
        true
    }

    open spec fn eq_spec(&self, other: &Self) -> bool {
        self@ == other@
    }
}

/// A file of a package at the revision that last changed it, with the commit of that revision.
#[derive(Debug)]
pub struct File {
    pub path: String,
    pub size: i32,
    pub revision: i32,
    pub sha: String,
    pub last_author: String,
    pub last_changed: Timestamp,
}

/// What a `File` holds.
pub struct FileView {
    pub path: Seq<char>,
    pub size: i32,
    pub revision: i32,
    pub sha: Seq<char>,
    pub last_author: Seq<char>,
    pub last_changed: Timestamp,
}

impl View for File {
    type V = FileView;

    open spec fn view(&self) -> FileView {
        FileView {
            path: self.path@,
            size: self.size,
            revision: self.revision,
            sha: self.sha@,
            last_author: self.last_author@,
            last_changed: self.last_changed,
        }
    }
}

impl Clone for File {
    fn clone(&self) -> (copy: Self)
        ensures
            copy@ == self@,
    {
        File {
            path: self.path.clone(),
            size: self.size,
            revision: self.revision,
            sha: self.sha.clone(),
            last_author: self.last_author.clone(),
            last_changed: self.last_changed,
        }
    }
}

/// A file as the listing of a package describes it: its commit is not known yet.
#[derive(Debug)]
pub struct FileWithoutSha {
    pub path: String,
    pub size: i32,
    pub revision: i32,
    pub last_author: String,
    pub last_changed: Timestamp,
}

/// What a `FileWithoutSha` holds.
pub struct FileWithoutShaView {
    pub path: Seq<char>,
    pub size: i32,
    pub revision: i32,
    pub last_author: Seq<char>,
    pub last_changed: Timestamp,
}

impl View for FileWithoutSha {
    type V = FileWithoutShaView;

    open spec fn view(&self) -> FileWithoutShaView {
        FileWithoutShaView {
            path: self.path@,
            size: self.size,
            revision: self.revision,
            last_author: self.last_author@,
            last_changed: self.last_changed,
        }
    }
}

impl FileWithoutShaView {
    /// The file once the commit of its revision is known.
    pub open spec fn with_sha(self, sha: Seq<char>) -> FileView {
        FileView {
            path: self.path,
            size: self.size,
            revision: self.revision,
            sha,
            last_author: self.last_author,
            last_changed: self.last_changed,
        }
    }
}

/// What the files of a list hold.
pub open spec fn file_views(files: Seq<FileWithoutSha>) -> Seq<FileWithoutShaView> {
    files.map_values(|file: FileWithoutSha| file@)
}

/// A task that gathers the statistics of one file.
#[derive(Debug)]
pub struct Task {
    pub created: Timestamp,
    pub file: File,
    pub kind: FileKind,
}

/// What a `Task` holds.
pub struct TaskView {
    pub created: Timestamp,
    pub file: FileView,
    pub kind: Seq<char>,
}

impl View for Task {
    type V = TaskView;

    open spec fn view(&self) -> TaskView {
        TaskView { created: self.created, file: self.file@, kind: self.kind@ }
    }
}

impl Clone for Task {
    fn clone(&self) -> (copy: Self)
        ensures
            copy@ == self@,
    {
        Task { created: self.created, file: self.file.clone(), kind: self.kind.clone() }
    }
}

/// What the tasks of a list hold.
pub open spec fn task_views(tasks: Seq<Task>) -> Seq<TaskView> {
    tasks.map_values(|task: Task| task@)
}

/// Copies a list of tasks.
pub fn copy_tasks(tasks: &Vec<Task>) -> (copies: Vec<Task>)
    ensures
        task_views(copies@) == task_views(tasks@),
{
    let mut copies: Vec<Task> = Vec::new();
    for i in 0..tasks.len()
        invariant
            task_views(copies@) == task_views(tasks@).take(i as int),
    {
        let ghost before = copies@;
        copies.push(tasks[i].clone());
        assert(task_views(copies@) =~= task_views(before).push(tasks@[i as int]@));
        assert(task_views(copies@) =~= task_views(tasks@).take(i + 1));
    }
    assert(task_views(tasks@).take(tasks@.len() as int) =~= task_views(tasks@));
    copies
}

} // verus!
