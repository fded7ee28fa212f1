//! What values hold is what they are made of: no view leaves anything out or changes it.
use vstd::prelude::*;
use vstd::std_specs::cmp::PartialEqSpec;

use crate::entries::NewEntry;
use crate::launch::{
    candidate_views, optional_kind, requested_kind, requested_views, sha_views, subject, subjects,
    Candidate, RequestedFile,
};
use crate::listing::{date_view, facts_views, EntryFacts, Listing, ListingError, ListingView};
use crate::svn::{run_view, text_views, CommandOutput, CommandOutputView, FileList, FileListView};
use crate::types::{
    file_views, task_views, File, FileKind, FileWithoutSha, FileWithoutShaView, Task, TaskView,
    Timestamp,
};
use crate::xml::{
    attribute_view, attribute_views, item_views, XmlAttribute, XmlEvent, XmlEventView, XmlItem,
};

verus! {

// ---------------------------------------------------------------------------
// Files and tasks
// ---------------------------------------------------------------------------

/// The view of a file holds each of its parts.
pub proof fn law_file_view(file: File)
    ensures
        file@.path == file.path@,
        file@.size == file.size,
        file@.revision == file.revision,
        file@.sha == file.sha@,
        file@.last_author == file.last_author@,
        file@.last_changed == file.last_changed,
{
}

/// The view of a file without a commit holds each of its parts.
pub proof fn law_file_without_sha_view(file: FileWithoutSha)
    ensures
        file@.path == file.path@,
        file@.size == file.size,
        file@.revision == file.revision,
        file@.last_author == file.last_author@,
        file@.last_changed == file.last_changed,
{
}

/// A file gets the commit that it is given, and keeps everything else.
pub proof fn law_file_gets_its_sha(file: FileWithoutShaView, sha: Seq<char>)
    ensures
        file.with_sha(sha).sha == sha,
        file.with_sha(sha).path == file.path,
        file.with_sha(sha).size == file.size,
        file.with_sha(sha).revision == file.revision,
        file.with_sha(sha).last_author == file.last_author,
        file.with_sha(sha).last_changed == file.last_changed,
{
}

/// The view of a task holds each of its parts, and so does what the task is about.
pub proof fn law_task_view(task: Task, view: TaskView)
    ensures
        task@.created == task.created,
        task@.file == task.file@,
        task@.kind == task.kind.name@,
        subject(view) == (view.kind, view.file),
{
}

/// Kinds are told apart by their names alone.
pub proof fn law_kind_is_its_name(left: FileKind, right: FileKind)
    ensures
        left@ == left.name@,
        optional_kind(Some(left)) == Some(left.name@),
        optional_kind(None) is None,
        requested_kind(Some(&left)) == Some(left.name@),
        requested_kind(None) is None,
        left.eq_spec(&right) <==> left.name@ == right.name@,
{
}

/// The view of a candidate holds each of its parts.
pub proof fn law_candidate_view(candidate: Candidate)
    ensures
        candidate@.file == candidate.file@,
        candidate.kind matches Some(kind) ==> candidate@.kind == Some(kind.name@),
        candidate.kind is None ==> candidate@.kind is None,
{
}

/// The view of a requested file holds each of its parts.
pub proof fn law_requested_file_view(wanted: RequestedFile)
    ensures
        wanted@.file == wanted.file@,
        wanted@.kind == wanted.kind.name@,
{
}

/// The view of a list holds the view of each member, in the same order.
pub proof fn law_list_views(
    files: Seq<FileWithoutSha>,
    tasks: Seq<Task>,
    candidates: Seq<Candidate>,
    requested: Seq<RequestedFile>,
    task_seq: Seq<TaskView>,
    i: int,
)
    ensures
        file_views(files).len() == files.len(),
        0 <= i < files.len() ==> file_views(files)[i] == files[i]@,
        task_views(tasks).len() == tasks.len(),
        0 <= i < tasks.len() ==> task_views(tasks)[i] == tasks[i]@,
        candidate_views(candidates).len() == candidates.len(),
        0 <= i < candidates.len() ==> candidate_views(candidates)[i] == candidates[i]@,
        requested_views(requested).len() == requested.len(),
        0 <= i < requested.len() ==> requested_views(requested)[i] == requested[i]@,
        subjects(task_seq).len() == task_seq.len(),
        0 <= i < task_seq.len() ==> subjects(task_seq)[i] == (task_seq[i].kind, task_seq[i].file),
{
}

/// The view of a list of texts holds each text, in the same order.
pub proof fn law_text_list_views(texts: Seq<String>, shas: Seq<Option<String>>, i: int)
    ensures
        text_views(texts).len() == texts.len(),
        0 <= i < texts.len() ==> text_views(texts)[i] == texts[i]@,
        sha_views(shas).len() == shas.len(),
        0 <= i < shas.len() ==> (shas[i] matches Some(sha) ==> sha_views(shas)[i] == Some(sha@)),
        0 <= i < shas.len() && shas[i] is None ==> sha_views(shas)[i] is None,
{
}

/// The view of an entry holds each of its parts.
pub proof fn law_new_entry_view<S, V>(entry: NewEntry<S, V>)
    ensures
        entry@.name == entry.name@,
        entry@.created == entry.created,
        entry@.requested == entry.requested,
        entry@.path == entry.path@,
        entry@.stat_kind == entry.stat_kind,
        entry@.file_kind == entry.file_kind.name@,
        entry@.value == entry.value,
        entry@.revision == entry.revision,
        entry@.sha == entry.sha@,
        entry@.size == entry.size,
        entry@.last_author == entry.last_author@,
        entry@.last_changed == entry.last_changed,
{
}

// ---------------------------------------------------------------------------
// Listings and commands
// ---------------------------------------------------------------------------

/// The view of what an entry says holds each part that is said.
pub proof fn law_entry_facts_view(facts: EntryFacts)
    ensures
        facts.name matches Some(name) ==> facts@.name == Some(name@),
        facts.name is None ==> facts@.name is None,
        facts@.size == facts.size,
        facts@.revision == facts.revision,
        facts.author matches Some(author) ==> facts@.author == Some(author@),
        facts.author is None ==> facts@.author is None,
        facts@.date == facts.date,
{
}

/// The view of a list of what entries say holds each of them, in the same order.
pub proof fn law_facts_list_view(facts: Seq<EntryFacts>, i: int)
    ensures
        facts_views(facts).len() == facts.len(),
        0 <= i < facts.len() ==> facts_views(facts)[i] == facts[i]@,
{
}

/// The view of an error holds each of its parts.
pub proof fn law_listing_error_view(error: ListingError)
    ensures
        error@.kind == error.kind,
        error@.position == error.position,
        error@.detail == error.detail@,
{
}

/// The view of a listing holds what came of reading it.
pub proof fn law_listing_view(listing: Listing)
    ensures
        match listing {
            Listing::Files { files, incomplete } => listing@ == (ListingView::Files {
                files: file_views(files@),
                incomplete: facts_views(incomplete@),
            }),
            Listing::Rejected(error) => listing@ == ListingView::Rejected(error@),
            Listing::Malformed { position, detail } => listing@ == (ListingView::Malformed {
                position,
                detail: detail@,
            }),
        },
{
}

/// The view of a list of files holds what came of listing them.
pub proof fn law_file_list_view(list: FileList)
    ensures
        match list {
            FileList::Found { files, incomplete } => list@ == (FileListView::Found {
                files: file_views(files@),
                incomplete: facts_views(incomplete@),
            }),
            FileList::Failed(message) => list@ == FileListView::Failed(message@),
            FileList::Malformed(message) => list@ == FileListView::Malformed(message@),
        },
{
}

/// The view of the run of a command holds its output, or why it could not be run.
pub proof fn law_run_view(output: CommandOutput, reason: String)
    ensures
        output@.success == output.success,
        output@.stdout == output.stdout@,
        output@.stderr == output.stderr@,
        run_view(Ok(output)) == Ok::<_, Seq<char>>(output@),
        run_view(Err(reason)) == Err::<CommandOutputView, _>(reason@),
{
}

/// The view of what could be made of a date holds the moment, or the reason why there is none.
pub proof fn law_date_view(moment: Timestamp, reason: String)
    ensures
        date_view(Ok(moment)) == Ok::<_, Seq<char>>(moment),
        date_view(Err(reason)) == Err::<Timestamp, _>(reason@),
{
}

// ---------------------------------------------------------------------------
// Documents
// ---------------------------------------------------------------------------

/// The view of an attribute holds its key and its value.
pub proof fn law_attribute_view(attribute: XmlAttribute)
    ensures
        attribute_view(Some(attribute)) matches Some(view) && view.key == attribute.key@
            && view.value == attribute.value@,
        attribute_view(None) is None,
{
}

/// The view of a list of attributes holds each of them, in the same order.
pub proof fn law_attribute_list_view(attributes: Seq<Option<XmlAttribute>>, i: int)
    ensures
        attribute_views(attributes).len() == attributes.len(),
        0 <= i < attributes.len() ==> attribute_views(attributes)[i] == attribute_view(
            attributes[i],
        ),
{
}

/// The view of an event holds each of its parts.
pub proof fn law_event_view(event: XmlEvent)
    ensures
        match event {
            XmlEvent::Start { name, attributes } => event@ == (XmlEventView::Start {
                name: name@,
                attributes: attribute_views(attributes@),
            }),
            XmlEvent::End { name } => event@ == (XmlEventView::End { name: name@ }),
            XmlEvent::Text { content: Ok(text) } => event@ == (XmlEventView::Text {
                content: Ok(text@),
            }),
            XmlEvent::Text { content: Err(detail) } => event@ == (XmlEventView::Text {
                content: Err(detail@),
            }),
            XmlEvent::Other => event@ == XmlEventView::Other,
            XmlEvent::Eof => event@ == XmlEventView::Eof,
            XmlEvent::Failed { detail } => event@ == (XmlEventView::Failed { detail: detail@ }),
        },
{
}

/// The view of a list of items holds the event and the position of each, in the same order.
pub proof fn law_item_list_view(items: Seq<XmlItem>, i: int)
    ensures
        item_views(items).len() == items.len(),
        0 <= i < items.len() ==> item_views(items)[i].event == items[i].event@,
        0 <= i < items.len() ==> item_views(items)[i].position == items[i].position,
{
}

} // verus!
