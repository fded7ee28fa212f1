//! What a listing is made of: entries of files, the parts of an entry, and everything else.
//!
//! The model says which events a listing consists of and what it tells. It speaks of events and
//! not of items, since where an event stands in a document has no part in what it means.
use vstd::prelude::*;
use vstd::utf8::encode_utf8;

use crate::listing::{
    commit_facts, is_called, is_file_entry, text_facts, EntryFactsView, FaultView, Field,
    ListingStateView,
};
use crate::types::FileWithoutShaView;
use crate::xml::{is_final, XmlAttributeView, XmlEventView, XmlItemView};

verus! {

// ---------------------------------------------------------------------------
// Runs of events
// ---------------------------------------------------------------------------

/// The events of some items.
pub open spec fn events_of(items: Seq<XmlItemView>) -> Seq<XmlEventView> {
    items.map_values(|item: XmlItemView| item.event)
}

/// None of the events ends a reading.
pub open spec fn all_inner(events: Seq<XmlEventView>) -> bool {
    forall|i: int| 0 <= i < events.len() ==> !is_final(#[trigger] events[i])
}

/// A fault, and the index of the event that it is in.
pub struct FaultIn {
    pub index: nat,
    pub fault: FaultView,
}

/// What is said of a run of events, said of a longer run with `by` more events in front.
pub open spec fn shifted<T>(outcome: Result<T, FaultIn>, by: nat) -> Result<T, FaultIn> {
    match outcome {
        Ok(value) => Ok(value),
        Err(at) => Err(FaultIn { index: by + at.index, fault: at.fault }),
    }
}

/// What is said of one event.
pub open spec fn in_first<T>(outcome: Result<T, FaultView>) -> Result<T, FaultIn> {
    match outcome {
        Ok(value) => Ok(value),
        Err(fault) => Err(FaultIn { index: 0, fault }),
    }
}

/// After several events none of which ends the reading: the state that is reached, or the first
/// fault.
pub open spec fn after_all(state: ListingStateView, events: Seq<XmlEventView>) -> Result<
    ListingStateView,
    FaultIn,
>
    decreases events.len(),
{
    if events.len() == 0 {
        Ok(state)
    } else {
        match after_all(state, events.drop_last()) {
            Ok(before) => shifted(
                in_first(before.after(events.last())),
                (events.len() - 1) as nat,
            ),
            Err(at) => Err(at),
        }
    }
}

// ---------------------------------------------------------------------------
// The parts of an entry
// ---------------------------------------------------------------------------

/// Whether a tag is one of those that mean something.
pub open spec fn is_known(tag: Seq<u8>) -> bool {
    is_called(tag, "entry") || is_called(tag, "author") || is_called(tag, "date") || is_called(
        tag,
        "name",
    ) || is_called(tag, "size") || is_called(tag, "commit")
}

/// The tag in which a field is written.
pub open spec fn field_tag(field: Field) -> Seq<u8> {
    match field {
        Field::Name => encode_utf8("name"@),
        Field::Size => encode_utf8("size"@),
        Field::Author => encode_utf8("author"@),
        Field::Date => encode_utf8("date"@),
    }
}

/// A part of the entry of a file.
pub enum EntryPart {
    /// A field: its tag, with texts and unknown tags in it.
    Field {
        field: Field,
        attributes: Seq<Option<XmlAttributeView>>,
        content: Seq<XmlEventView>,
    },
    /// The opening tag of a commit.
    Commit { attributes: Seq<Option<XmlAttributeView>> },
    /// An event that tells nothing: a text between the tags, a tag of an unknown element, the
    /// closing tag of a commit, a comment.
    Beside { event: XmlEventView },
}

/// Whether an event can stand in the tag of a field.
pub open spec fn fits_in_field(event: XmlEventView) -> bool {
    match event {
        XmlEventView::Start { name, .. } => !is_known(name),
        XmlEventView::End { name } => !is_known(name),
        XmlEventView::Text { .. } => true,
        XmlEventView::Other => true,
        _ => false,
    }
}

/// Whether an event can stand beside the parts of an entry.
pub open spec fn fits_beside(event: XmlEventView) -> bool {
    match event {
        XmlEventView::Start { name, .. } => !is_known(name),
        XmlEventView::End { name } => !is_called(name, "entry"),
        XmlEventView::Text { .. } => true,
        XmlEventView::Other => true,
        _ => false,
    }
}

/// What the texts in the tag of a field tell. Of several texts the last one counts, but each of
/// them has to be readable.
pub open spec fn content_facts(field: Field, content: Seq<XmlEventView>) -> Result<
    EntryFactsView,
    FaultIn,
>
    decreases content.len(),
{
    if content.len() == 0 {
        Ok(EntryFactsView::nothing())
    } else {
        match content_facts(field, content.drop_last()) {
            Ok(before) => match content.last() {
                XmlEventView::Text { content: text } => match text_facts(field, text) {
                    Ok(facts) => Ok(before.and(facts)),
                    Err(fault) => Err(
                        FaultIn { index: (content.len() - 1) as nat, fault },
                    ),
                },
                _ => Ok(before),
            },
            Err(at) => Err(at),
        }
    }
}

/// What a part is about.
pub enum Aspect {
    Field(Field),
    Commit,
    Nothing,
}

impl EntryPart {
    /// The part is what it is meant to be.
    pub open spec fn well_formed(self) -> bool {
        match self {
            EntryPart::Field { content, .. } => forall|i: int|
                0 <= i < content.len() ==> fits_in_field(#[trigger] content[i]),
            EntryPart::Commit { .. } => true,
            EntryPart::Beside { event } => fits_beside(event),
        }
    }

    /// The events of the part.
    pub open spec fn events(self) -> Seq<XmlEventView> {
        match self {
            EntryPart::Field { field, attributes, content } => seq![
                XmlEventView::Start { name: field_tag(field), attributes },
            ] + content + seq![XmlEventView::End { name: field_tag(field) }],
            EntryPart::Commit { attributes } => seq![
                XmlEventView::Start { name: encode_utf8("commit"@), attributes },
            ],
            EntryPart::Beside { event } => seq![event],
        }
    }

    /// What the part tells, or why it cannot be read.
    pub open spec fn facts(self) -> Result<EntryFactsView, FaultIn> {
        match self {
            EntryPart::Field { field, content, .. } => shifted(content_facts(field, content), 1),
            EntryPart::Commit { attributes } => in_first(commit_facts(attributes)),
            EntryPart::Beside { .. } => Ok(EntryFactsView::nothing()),
        }
    }

    /// What the part tells, if it can be read.
    pub open spec fn told(self) -> Option<EntryFactsView> {
        match self.facts() {
            Ok(facts) => Some(facts),
            Err(_) => None,
        }
    }

    /// What the part is about.
    pub open spec fn aspect(self) -> Aspect {
        match self {
            EntryPart::Field { field, .. } => Aspect::Field(field),
            EntryPart::Commit { .. } => Aspect::Commit,
            EntryPart::Beside { .. } => Aspect::Nothing,
        }
    }
}

/// The events of some parts.
pub open spec fn part_events(parts: Seq<EntryPart>) -> Seq<XmlEventView>
    decreases parts.len(),
{
    if parts.len() == 0 {
        Seq::empty()
    } else {
        part_events(parts.drop_last()) + parts.last().events()
    }
}

/// What some parts tell, or the first fault in them.
pub open spec fn part_facts(parts: Seq<EntryPart>) -> Result<EntryFactsView, FaultIn>
    decreases parts.len(),
{
    if parts.len() == 0 {
        Ok(EntryFactsView::nothing())
    } else {
        match part_facts(parts.drop_last()) {
            Ok(before) => match parts.last().facts() {
                Ok(facts) => Ok(before.and(facts)),
                Err(at) => Err(
                    FaultIn {
                        index: part_events(parts.drop_last()).len() + at.index,
                        fault: at.fault,
                    },
                ),
            },
            Err(at) => Err(at),
        }
    }
}

/// What the parts about one aspect tell, one after the other.
pub open spec fn told_about(parts: Seq<EntryPart>, aspect: Aspect) -> Seq<Option<EntryFactsView>> {
    parts.filter(|part: EntryPart| part.aspect() == aspect).map_values(
        |part: EntryPart| part.told(),
    )
}

// ---------------------------------------------------------------------------
// Entries and listings
// ---------------------------------------------------------------------------

/// The entry of a file.
pub struct FileEntry {
    /// The attributes of its tag, which say that it is a file.
    pub attributes: Seq<Option<XmlAttributeView>>,
    /// What stands in it, in any order.
    pub parts: Seq<EntryPart>,
}

/// The opening tag of an entry.
pub open spec fn entry_start(attributes: Seq<Option<XmlAttributeView>>) -> XmlEventView {
    XmlEventView::Start { name: encode_utf8("entry"@), attributes }
}

/// The closing tag of an entry.
pub open spec fn entry_end() -> XmlEventView {
    XmlEventView::End { name: encode_utf8("entry"@) }
}

/// All parts are what they are meant to be.
pub open spec fn well_formed_parts(parts: Seq<EntryPart>) -> bool {
    forall|i: int| 0 <= i < parts.len() ==> (#[trigger] parts[i]).well_formed()
}

impl FileEntry {
    /// The entry is that of a file, and its parts are what they are meant to be.
    pub open spec fn well_formed(self) -> bool {
        is_file_entry(self.attributes) && well_formed_parts(self.parts)
    }

    /// The events of the entry.
    pub open spec fn events(self) -> Seq<XmlEventView> {
        seq![entry_start(self.attributes)] + part_events(self.parts) + seq![entry_end()]
    }

    /// What the entry tells about the file, or the first fault in it.
    pub open spec fn facts(self) -> Result<EntryFactsView, FaultIn> {
        shifted(part_facts(self.parts), 1)
    }

    /// What is found in the entry, if it can be read.
    pub open spec fn found(self) -> FoundView {
        let facts = self.facts()->Ok_0;
        match facts.file() {
            Some(file) => FoundView { files: seq![file], incomplete: Seq::empty() },
            None => FoundView { files: Seq::empty(), incomplete: seq![facts] },
        }
    }
}

/// What is found in a listing: files, and what is told by entries that do not tell everything.
pub struct FoundView {
    pub files: Seq<FileWithoutShaView>,
    pub incomplete: Seq<EntryFactsView>,
}

impl FoundView {
    /// Nothing is found.
    pub open spec fn nothing() -> FoundView {
        FoundView { files: Seq::empty(), incomplete: Seq::empty() }
    }

    /// What is found when `more` is found as well.
    pub open spec fn and(self, more: FoundView) -> FoundView {
        FoundView {
            files: self.files + more.files,
            incomplete: self.incomplete + more.incomplete,
        }
    }
}

/// A state in which `found` has been found as well.
pub open spec fn with_found(state: ListingStateView, found: FoundView) -> ListingStateView {
    ListingStateView {
        files: state.files + found.files,
        incomplete: state.incomplete + found.incomplete,
        ..state
    }
}

/// Whether an event opens the entry of a file.
pub open spec fn opens_file_entry(event: XmlEventView) -> bool {
    match event {
        XmlEventView::Start { name, attributes } => is_called(name, "entry") && is_file_entry(
            attributes,
        ),
        _ => false,
    }
}

/// A piece of a listing.
pub enum Piece {
    /// The entry of a file.
    Entry { entry: FileEntry },
    /// An event outside the entries of files.
    Rest { event: XmlEventView },
}

impl Piece {
    /// The piece is what it is meant to be.
    pub open spec fn well_formed(self) -> bool {
        match self {
            Piece::Entry { entry } => entry.well_formed(),
            Piece::Rest { event } => !opens_file_entry(event) && !is_final(event),
        }
    }

    /// The events of the piece.
    pub open spec fn events(self) -> Seq<XmlEventView> {
        match self {
            Piece::Entry { entry } => entry.events(),
            Piece::Rest { event } => seq![event],
        }
    }

    /// What is found in the piece, or the first fault in it.
    pub open spec fn found(self) -> Result<FoundView, FaultIn> {
        match self {
            Piece::Entry { entry } => match entry.facts() {
                Ok(_) => Ok(entry.found()),
                Err(at) => Err(at),
            },
            Piece::Rest { .. } => Ok(FoundView::nothing()),
        }
    }

    /// The entries that the piece is: one or none.
    pub open spec fn entries(self) -> Seq<FileEntry> {
        match self {
            Piece::Entry { entry } => seq![entry],
            Piece::Rest { .. } => Seq::empty(),
        }
    }
}

/// All pieces are what they are meant to be.
pub open spec fn well_formed_pieces(pieces: Seq<Piece>) -> bool {
    forall|i: int| 0 <= i < pieces.len() ==> (#[trigger] pieces[i]).well_formed()
}

/// The events of some pieces.
pub open spec fn piece_events(pieces: Seq<Piece>) -> Seq<XmlEventView>
    decreases pieces.len(),
{
    if pieces.len() == 0 {
        Seq::empty()
    } else {
        piece_events(pieces.drop_last()) + pieces.last().events()
    }
}

/// The entries of files among some pieces.
pub open spec fn entries_of(pieces: Seq<Piece>) -> Seq<FileEntry>
    decreases pieces.len(),
{
    if pieces.len() == 0 {
        Seq::empty()
    } else {
        entries_of(pieces.drop_last()) + pieces.last().entries()
    }
}

/// All entries can be read.
pub open spec fn readable(entries: Seq<FileEntry>) -> bool {
    forall|i: int| 0 <= i < entries.len() ==> (#[trigger] entries[i]).facts() is Ok
}

/// What is found in entries that can be read: what each of them describes, in their order.
pub open spec fn found_in(entries: Seq<FileEntry>) -> FoundView
    decreases entries.len(),
{
    if entries.len() == 0 {
        FoundView::nothing()
    } else {
        found_in(entries.drop_last()).and(entries.last().found())
    }
}

/// What is found in some pieces, or the first fault in them.
pub open spec fn found_in_pieces(pieces: Seq<Piece>) -> Result<FoundView, FaultIn>
    decreases pieces.len(),
{
    if pieces.len() == 0 {
        Ok(FoundView::nothing())
    } else {
        match found_in_pieces(pieces.drop_last()) {
            Ok(before) => match pieces.last().found() {
                Ok(found) => Ok(before.and(found)),
                Err(at) => Err(
                    FaultIn {
                        index: piece_events(pieces.drop_last()).len() + at.index,
                        fault: at.fault,
                    },
                ),
            },
            Err(at) => Err(at),
        }
    }
}

/// The items are the events of the pieces, with the end of the document behind them.
pub open spec fn is_document(items: Seq<XmlItemView>, pieces: Seq<Piece>) -> bool {
    events_of(items) == piece_events(pieces).push(XmlEventView::Eof)
}

} // verus!
