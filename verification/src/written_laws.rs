//! What holds of listings as `svn` writes them: the files that are written are the files that are
//! found.
use vstd::prelude::*;

use crate::clock::naive_datetime;
use crate::listing::{
    initial_state, listing_of, EntryFactsView, Field, ListingErrorKind, ListingErrorView,
    ListingView,
};
use crate::listing_laws::{
    attribute, events_up_to, law_commit_tells_its_revision, law_kind_marks_files,
    law_listing_is_read_back, law_unreadable_part_is_rejected, law_unreadable_text_has_its_kind,
    lemma_entries_concat, lemma_tags_differ, lemma_well_formed_concat, written_items,
};
use crate::listing_model::{
    content_facts, entries_of, events_of, field_tag, found_in, opens_file_entry,
    part_events, part_facts, piece_events, readable, well_formed_parts, well_formed_pieces,
    EntryPart, FaultIn, FileEntry, Piece,
};
use crate::reading_laws::{close_tag, law_entry_is_a_file_or_incomplete, open_tag};
use crate::svn::{listed_files, CommandOutputView, FileListView};
use crate::text::{i32_error_text, parsed_i32};
use crate::types::FileWithoutShaView;
use crate::xml::{is_final, XmlAttributeView, XmlEventView, XmlItemView};

verus! {

// ---------------------------------------------------------------------------
// How entries are written
// ---------------------------------------------------------------------------

/// What is written about a file; each part may be missing. The gap stands between the tags.
pub struct WrittenEntry {
    pub name: Option<Seq<char>>,
    pub size: Option<Seq<char>>,
    pub revision: Option<Seq<char>>,
    pub author: Option<Seq<char>>,
    pub date: Option<Seq<char>>,
    pub gap: Seq<XmlEventView>,
}

/// A tag with a text in it, and a gap behind it; nothing if there is no text.
pub open spec fn element(tag: Seq<char>, text: Option<Seq<char>>, gap: Seq<XmlEventView>) -> Seq<
    XmlEventView,
> {
    match text {
        Some(text) => seq![
            open_tag(tag, Seq::empty()),
            XmlEventView::Text { content: Ok(text) },
            close_tag(tag),
        ] + gap,
        None => Seq::empty(),
    }
}

/// The attributes of a commit.
pub open spec fn revision_attributes(revision: Option<Seq<char>>) -> Seq<
    Option<XmlAttributeView>,
> {
    match revision {
        Some(revision) => seq![attribute("revision"@, revision)],
        None => Seq::empty(),
    }
}

impl WrittenEntry {
    /// The events of the entry, as `svn` writes it.
    pub open spec fn events(self) -> Seq<XmlEventView> {
        seq![open_tag("entry"@, seq![attribute("kind"@, "file"@)])] + self.inner() + seq![
            close_tag("entry"@),
        ]
    }

    /// What stands between the tags of the entry.
    pub open spec fn inner(self) -> Seq<XmlEventView> {
        self.gap + element("name"@, self.name, self.gap) + element("size"@, self.size, self.gap)
            + seq![open_tag("commit"@, revision_attributes(self.revision))] + self.gap + element(
            "author"@,
            self.author,
            self.gap,
        ) + element("date"@, self.date, self.gap) + seq![close_tag("commit"@)] + self.gap
    }

    /// Nothing but texts, comments and the like stands in the gaps, the numbers are numbers, and
    /// the date is one.
    pub open spec fn readable(self) -> bool {
        &&& forall|i: int|
            0 <= i < self.gap.len() ==> (#[trigger] self.gap[i]) is Text || self.gap[i] is Other
        &&& self.size is Some ==> parsed_i32(self.size->0) is Some
        &&& self.revision is Some ==> parsed_i32(self.revision->0) is Some
        &&& self.date is Some ==> naive_datetime(self.date->0, "%Y-%m-%dT%H:%M:%S.%fZ"@) is Ok
    }

    /// Everything is written about the file.
    pub open spec fn complete(self) -> bool {
        self.name is Some && self.size is Some && self.revision is Some && self.author is Some
            && self.date is Some
    }

    /// Whether a file is the one that is written.
    pub open spec fn is_of(self, file: FileWithoutShaView) -> bool {
        &&& self.name == Some(file.path)
        &&& self.size is Some && parsed_i32(self.size->0) == Some(file.size)
        &&& self.revision is Some && parsed_i32(self.revision->0) == Some(file.revision)
        &&& self.author == Some(file.last_author)
        &&& self.date is Some && naive_datetime(self.date->0, "%Y-%m-%dT%H:%M:%S.%fZ"@) == Ok::<
            _,
            Seq<char>,
        >(file.last_changed)
    }

    /// Whether facts are those that are written.
    pub open spec fn tells(self, facts: EntryFactsView) -> bool {
        &&& facts.name == self.name
        &&& facts.size == match self.size {
            Some(text) => parsed_i32(text),
            None => None,
        }
        &&& facts.revision == match self.revision {
            Some(text) => parsed_i32(text),
            None => None,
        }
        &&& facts.author == self.author
        &&& facts.date == match self.date {
            Some(text) => match naive_datetime(text, "%Y-%m-%dT%H:%M:%S.%fZ"@) {
                Ok(date) => Some(date),
                Err(_) => None,
            },
            None => None,
        }
    }
}

// ---------------------------------------------------------------------------
// Entries as parts
// ---------------------------------------------------------------------------

spec fn besides(gap: Seq<XmlEventView>) -> Seq<EntryPart> {
    gap.map_values(|event: XmlEventView| EntryPart::Beside { event })
}

spec fn field_parts(field: Field, text: Option<Seq<char>>, gap: Seq<XmlEventView>) -> Seq<
    EntryPart,
> {
    match text {
        Some(text) => seq![
            EntryPart::Field {
                field,
                attributes: Seq::empty(),
                content: seq![XmlEventView::Text { content: Ok(text) }],
            },
        ] + besides(gap),
        None => Seq::empty(),
    }
}

spec fn is_gap(gap: Seq<XmlEventView>) -> bool {
    forall|i: int| 0 <= i < gap.len() ==> (#[trigger] gap[i]) is Text || gap[i] is Other
}

proof fn lemma_parts_concat(left: Seq<EntryPart>, right: Seq<EntryPart>)
    requires
        well_formed_parts(left),
        well_formed_parts(right),
    ensures
        well_formed_parts(left + right),
        part_events(left + right) == part_events(left) + part_events(right),
        part_facts(left) is Ok && part_facts(right) is Ok ==> part_facts(left + right) == Ok::<
            _,
            FaultIn,
        >(part_facts(left)->Ok_0.and(part_facts(right)->Ok_0)),
    decreases right.len(),
{
    let both = left + right;
    assert forall|i: int| 0 <= i < both.len() implies (#[trigger] both[i]).well_formed() by {
        if i < left.len() {
            assert(both[i] == left[i]);
        } else {
            assert(both[i] == right[i - left.len()]);
        }
    }
    if right.len() == 0 {
        assert(both =~= left);
        assert(part_events(left) + part_events(right) =~= part_events(left));
    } else {
        let before = right.drop_last();
        assert forall|i: int| 0 <= i < before.len() implies (
        #[trigger] before[i]).well_formed() by {
            assert(before[i] == right[i]);
        }
        lemma_parts_concat(left, before);
        assert(both.drop_last() =~= left + before);
        assert(part_events(both) =~= part_events(left) + part_events(right));
    }
}

proof fn lemma_one_part(part: EntryPart)
    requires
        part.well_formed(),
    ensures
        well_formed_parts(seq![part]),
        part_events(seq![part]) == part.events(),
        part.facts() is Ok ==> part_facts(seq![part]) == Ok::<_, FaultIn>(part.facts()->Ok_0),
{
    reveal_with_fuel(part_events, 2);
    reveal_with_fuel(part_facts, 2);
    assert(seq![part].drop_last() =~= Seq::<EntryPart>::empty());
    assert(part_events(seq![part]) =~= part.events());
}

proof fn lemma_gap(gap: Seq<XmlEventView>)
    requires
        is_gap(gap),
    ensures
        well_formed_parts(besides(gap)),
        part_events(besides(gap)) == gap,
        part_facts(besides(gap)) == Ok::<_, FaultIn>(EntryFactsView::nothing()),
    decreases gap.len(),
{
    let parts = besides(gap);
    assert forall|i: int| 0 <= i < parts.len() implies (#[trigger] parts[i]).well_formed() by {
        assert(gap[i] is Text || gap[i] is Other);
    }
    if gap.len() == 0 {
        assert(part_events(parts) =~= gap);
    } else {
        let before = gap.drop_last();
        assert forall|i: int| 0 <= i < before.len() implies (#[trigger] before[i]) is Text
            || before[i] is Other by {
            assert(before[i] == gap[i]);
        }
        lemma_gap(before);
        assert(parts.drop_last() =~= besides(before));
        assert(part_events(parts) =~= gap);
    }
}

proof fn lemma_field(field: Field, text: Option<Seq<char>>, gap: Seq<XmlEventView>)
    requires
        is_gap(gap),
        field is Size && text is Some ==> parsed_i32(text->0) is Some,
        field is Date && text is Some ==> naive_datetime(
            text->0,
            "%Y-%m-%dT%H:%M:%S.%fZ"@,
        ) is Ok,
    ensures
        well_formed_parts(field_parts(field, text, gap)),
        part_facts(field_parts(field, text, gap)) is Ok,
        ({
            let facts = part_facts(field_parts(field, text, gap))->Ok_0;
            let events = part_events(field_parts(field, text, gap));
            &&& facts.revision is None
            &&& match field {
                Field::Name => facts == (EntryFactsView {
                    name: text,
                    ..EntryFactsView::nothing()
                }) && events == element("name"@, text, gap),
                Field::Size => facts == (EntryFactsView {
                    size: match text {
                        Some(text) => parsed_i32(text),
                        None => None,
                    },
                    ..EntryFactsView::nothing()
                }) && events == element("size"@, text, gap),
                Field::Author => facts == (EntryFactsView {
                    author: text,
                    ..EntryFactsView::nothing()
                }) && events == element("author"@, text, gap),
                Field::Date => facts == (EntryFactsView {
                    date: match text {
                        Some(text) => Some(
                            naive_datetime(text, "%Y-%m-%dT%H:%M:%S.%fZ"@)->Ok_0,
                        ),
                        None => None,
                    },
                    ..EntryFactsView::nothing()
                }) && events == element("date"@, text, gap),
            }
        }),
{
    if let Some(text) = text {
        let event = XmlEventView::Text { content: Ok(text) };
        let content = seq![event];
        let part = EntryPart::Field { field, attributes: Seq::empty(), content };
        reveal_with_fuel(content_facts, 2);
        assert(content.drop_last() =~= Seq::<XmlEventView>::empty());
        assert(part.well_formed());
        assert(part.facts() is Ok);
        lemma_one_part(part);
        lemma_gap(gap);
        lemma_parts_concat(seq![part], besides(gap));
        assert(part.events() =~= seq![
            XmlEventView::Start { name: field_tag(field), attributes: Seq::empty() },
            event,
            XmlEventView::End { name: field_tag(field) },
        ]);
    }
}

impl WrittenEntry {
    spec fn parts(self) -> Seq<EntryPart> {
        besides(self.gap) + field_parts(Field::Name, self.name, self.gap) + field_parts(
            Field::Size,
            self.size,
            self.gap,
        ) + seq![EntryPart::Commit { attributes: revision_attributes(self.revision) }] + besides(
            self.gap,
        ) + field_parts(Field::Author, self.author, self.gap) + field_parts(
            Field::Date,
            self.date,
            self.gap,
        ) + seq![EntryPart::Beside { event: close_tag("commit"@) }] + besides(self.gap)
    }

    spec fn entry(self) -> FileEntry {
        FileEntry { attributes: seq![attribute("kind"@, "file"@)], parts: self.parts() }
    }

    proof fn lemma_entry(self)
        requires
            self.readable(),
        ensures
            self.entry().well_formed(),
            self.entry().events() == self.events(),
            self.entry().facts() is Ok,
            self.tells(self.entry().facts()->Ok_0),
    {
        let gap = self.gap;
        let attributes = revision_attributes(self.revision);
        let commit = EntryPart::Commit { attributes };
        let close = EntryPart::Beside { event: close_tag("commit"@) };
        lemma_gap(gap);
        lemma_field(Field::Name, self.name, gap);
        lemma_field(Field::Size, self.size, gap);
        lemma_field(Field::Author, self.author, gap);
        lemma_field(Field::Date, self.date, gap);
        if let Some(revision) = self.revision {
            law_commit_tells_its_revision(Seq::empty(), revision, Seq::empty());
            assert(Seq::<Option<XmlAttributeView>>::empty() + seq![
                attribute("revision"@, revision),
            ] + Seq::<Option<XmlAttributeView>>::empty() =~= attributes);
        }
        lemma_tags_differ();
        lemma_one_part(commit);
        lemma_one_part(close);
        let p1 = besides(gap) + field_parts(Field::Name, self.name, gap);
        lemma_parts_concat(besides(gap), field_parts(Field::Name, self.name, gap));
        let p2 = p1 + field_parts(Field::Size, self.size, gap);
        lemma_parts_concat(p1, field_parts(Field::Size, self.size, gap));
        let p3 = p2 + seq![commit];
        lemma_parts_concat(p2, seq![commit]);
        let p4 = p3 + besides(gap);
        lemma_parts_concat(p3, besides(gap));
        let p5 = p4 + field_parts(Field::Author, self.author, gap);
        lemma_parts_concat(p4, field_parts(Field::Author, self.author, gap));
        let p6 = p5 + field_parts(Field::Date, self.date, gap);
        lemma_parts_concat(p5, field_parts(Field::Date, self.date, gap));
        let p7 = p6 + seq![close];
        lemma_parts_concat(p6, seq![close]);
        lemma_parts_concat(p7, besides(gap));
        let kind = seq![attribute("kind"@, "file"@)];
        assert(kind[0] == attribute("kind"@, "file"@));
        law_kind_marks_files(kind);
    }
}

// ---------------------------------------------------------------------------
// Whole documents
// ---------------------------------------------------------------------------

/// The events of written entries, one entry after the other.
pub open spec fn written_events(written: Seq<WrittenEntry>) -> Seq<XmlEventView>
    decreases written.len(),
{
    if written.len() == 0 {
        Seq::empty()
    } else {
        written_events(written.drop_last()) + written.last().events()
    }
}

/// None of the events opens the entry of a file or ends the document.
pub open spec fn are_outside(events: Seq<XmlEventView>) -> bool {
    forall|i: int|
        0 <= i < events.len() ==> !opens_file_entry(#[trigger] events[i]) && !is_final(events[i])
}

spec fn rests(events: Seq<XmlEventView>) -> Seq<Piece> {
    events.map_values(|event: XmlEventView| Piece::Rest { event })
}

spec fn entry_pieces(written: Seq<WrittenEntry>) -> Seq<Piece> {
    written.map_values(|entry: WrittenEntry| Piece::Entry { entry: entry.entry() })
}

spec fn entries_written(written: Seq<WrittenEntry>) -> Seq<FileEntry> {
    written.map_values(|entry: WrittenEntry| entry.entry())
}

proof fn lemma_piece_events_concat(left: Seq<Piece>, right: Seq<Piece>)
    ensures
        piece_events(left + right) == piece_events(left) + piece_events(right),
    decreases right.len(),
{
    if right.len() == 0 {
        assert(left + right =~= left);
        assert(piece_events(left) + piece_events(right) =~= piece_events(left));
    } else {
        lemma_piece_events_concat(left, right.drop_last());
        assert((left + right).drop_last() =~= left + right.drop_last());
        assert(piece_events(left + right) =~= piece_events(left) + piece_events(right));
    }
}

proof fn lemma_rests(events: Seq<XmlEventView>)
    requires
        are_outside(events),
    ensures
        well_formed_pieces(rests(events)),
        piece_events(rests(events)) == events,
        entries_of(rests(events)).len() == 0,
    decreases events.len(),
{
    let pieces = rests(events);
    assert forall|i: int| 0 <= i < pieces.len() implies (#[trigger] pieces[i]).well_formed() by {
        assert(!opens_file_entry(events[i]) && !is_final(events[i]));
    }
    if events.len() == 0 {
        assert(piece_events(pieces) =~= events);
    } else {
        let before = events.drop_last();
        assert forall|i: int| 0 <= i < before.len() implies !opens_file_entry(#[trigger] before[i])
            && !is_final(before[i]) by {
            assert(before[i] == events[i]);
        }
        lemma_rests(before);
        assert(pieces.drop_last() =~= rests(before));
        assert(piece_events(pieces) =~= events);
    }
}

/// All entries are readable.
pub open spec fn all_readable(written: Seq<WrittenEntry>) -> bool {
    forall|i: int| 0 <= i < written.len() ==> (#[trigger] written[i]).readable()
}

proof fn lemma_entry_pieces(written: Seq<WrittenEntry>)
    requires
        all_readable(written),
    ensures
        well_formed_pieces(entry_pieces(written)),
        piece_events(entry_pieces(written)) == written_events(written),
        entries_of(entry_pieces(written)) == entries_written(written),
        readable(entries_written(written)),
    decreases written.len(),
{
    let pieces = entry_pieces(written);
    let entries = entries_written(written);
    assert forall|i: int| 0 <= i < pieces.len() implies (#[trigger] pieces[i]).well_formed() by {
        assert(written[i].readable());
        written[i].lemma_entry();
    }
    assert forall|i: int| 0 <= i < entries.len() implies (#[trigger] entries[i]).facts() is Ok by {
        assert(written[i].readable());
        written[i].lemma_entry();
    }
    if written.len() == 0 {
        assert(entries_of(pieces) =~= entries);
    } else {
        let before = written.drop_last();
        assert forall|i: int| 0 <= i < before.len() implies (#[trigger] before[i]).readable() by {
            assert(before[i] == written[i]);
        }
        lemma_entry_pieces(before);
        assert(pieces.drop_last() =~= entry_pieces(before));
        assert(written[written.len() - 1].readable());
        written.last().lemma_entry();
        assert(entries_of(pieces) =~= entries);
    }
}

/// The entries that say everything about a file, in their order.
pub open spec fn complete_ones(written: Seq<WrittenEntry>) -> Seq<WrittenEntry> {
    written.filter(|entry: WrittenEntry| entry.complete())
}

/// The entries that leave something out, in their order.
pub open spec fn incomplete_ones(written: Seq<WrittenEntry>) -> Seq<WrittenEntry> {
    written.filter(|entry: WrittenEntry| !entry.complete())
}

/// Files are those that complete entries describe, one by one.
pub open spec fn are_files_of(files: Seq<FileWithoutShaView>, written: Seq<WrittenEntry>) -> bool {
    &&& files.len() == written.len()
    &&& forall|i: int|
        0 <= i < files.len() ==> (#[trigger] written[i]).is_of(#[trigger] files[i])
}

/// Facts are those that entries tell, one by one.
pub open spec fn are_facts_of(facts: Seq<EntryFactsView>, written: Seq<WrittenEntry>) -> bool {
    &&& facts.len() == written.len()
    &&& forall|i: int| 0 <= i < facts.len() ==> (#[trigger] written[i]).tells(#[trigger] facts[i])
}

proof fn lemma_found_in_written(written: Seq<WrittenEntry>)
    requires
        all_readable(written),
    ensures
        are_files_of(found_in(entries_written(written)).files, complete_ones(written)),
        are_facts_of(found_in(entries_written(written)).incomplete, incomplete_ones(written)),
    decreases written.len(),
{
    reveal(Seq::filter);
    if written.len() > 0 {
        let before = written.drop_last();
        let last = written.last();
        assert forall|i: int| 0 <= i < before.len() implies (#[trigger] before[i]).readable() by {
            assert(before[i] == written[i]);
        }
        lemma_found_in_written(before);
        assert(written[written.len() - 1].readable());
        last.lemma_entry();
        law_entry_is_a_file_or_incomplete(last.entry(), last.entry().facts()->Ok_0);
        let entries = entries_written(written);
        assert(entries.drop_last() =~= entries_written(before));
        assert(entries.last() == last.entry());
        let old_found = found_in(entries_written(before));
        let found = found_in(entries);
        if last.complete() {
            assert(complete_ones(written) == complete_ones(before).push(last));
            assert(incomplete_ones(written) == incomplete_ones(before));
            assert(found.incomplete =~= old_found.incomplete);
            assert(found.files =~= old_found.files.push(last.entry().found().files[0]));
        } else {
            assert(complete_ones(written) == complete_ones(before));
            assert(incomplete_ones(written) == incomplete_ones(before).push(last));
            assert(found.files =~= old_found.files);
            assert(found.incomplete =~= old_found.incomplete.push(last.entry().facts()->Ok_0));
        }
    }
}

/// What is written is found. A document of any number of entries of files, with anything else
/// before and behind them, is read as exactly the files that are written completely, each with
/// the path, size, revision, author and date that are written, in their order; the other entries
/// are told as incomplete, with what is written in them.
pub proof fn law_written_files_are_found(
    head: Seq<XmlEventView>,
    written: Seq<WrittenEntry>,
    tail: Seq<XmlEventView>,
    items: Seq<XmlItemView>,
)
    requires
        are_outside(head),
        all_readable(written),
        are_outside(tail),
        events_of(items) == (head + written_events(written) + tail).push(XmlEventView::Eof),
    ensures
        match listing_of(initial_state(), items) {
            ListingView::Files { files, incomplete } => {
                &&& are_files_of(files, complete_ones(written))
                &&& are_facts_of(incomplete, incomplete_ones(written))
            },
            _ => false,
        },
{
    let pieces = rests(head) + entry_pieces(written) + rests(tail);
    lemma_rests(head);
    lemma_rests(tail);
    lemma_entry_pieces(written);
    lemma_piece_events_concat(rests(head), entry_pieces(written));
    lemma_piece_events_concat(rests(head) + entry_pieces(written), rests(tail));
    lemma_entries_concat(rests(head), entry_pieces(written));
    lemma_entries_concat(rests(head) + entry_pieces(written), rests(tail));
    lemma_well_formed_concat(rests(head), entry_pieces(written));
    lemma_well_formed_concat(rests(head) + entry_pieces(written), rests(tail));
    assert(entries_of(pieces) =~= entries_written(written));
    law_listing_is_read_back(pieces, items);
    lemma_found_in_written(written);
}

/// What a list command writes about files is what is listed, as it is found in its document.
pub proof fn law_written_files_are_listed(
    head: Seq<XmlEventView>,
    written: Seq<WrittenEntry>,
    tail: Seq<XmlEventView>,
    output: CommandOutputView,
)
    requires
        output.success,
        are_outside(head),
        all_readable(written),
        are_outside(tail),
        events_of(written_items(output)) == (head + written_events(written) + tail).push(
            XmlEventView::Eof,
        ),
    ensures
        match listed_files(Ok(output)) {
            FileListView::Found { files, incomplete } => {
                &&& are_files_of(files, complete_ones(written))
                &&& are_facts_of(incomplete, incomplete_ones(written))
            },
            _ => false,
        },
{
    law_written_files_are_found(head, written, tail, written_items(output));
}

/// If everything is written about each file, then each of them is found and nothing is left out.
pub proof fn law_complete_listing_is_found_whole(
    head: Seq<XmlEventView>,
    written: Seq<WrittenEntry>,
    tail: Seq<XmlEventView>,
    items: Seq<XmlItemView>,
)
    requires
        are_outside(head),
        all_readable(written),
        forall|i: int| 0 <= i < written.len() ==> (#[trigger] written[i]).complete(),
        are_outside(tail),
        events_of(items) == (head + written_events(written) + tail).push(XmlEventView::Eof),
    ensures
        match listing_of(initial_state(), items) {
            ListingView::Files { files, incomplete } => {
                &&& incomplete.len() == 0
                &&& are_files_of(files, written)
            },
            _ => false,
        },
{
    law_written_files_are_found(head, written, tail, items);
    lemma_all_complete(written);
}

proof fn lemma_all_complete(written: Seq<WrittenEntry>)
    requires
        forall|i: int| 0 <= i < written.len() ==> (#[trigger] written[i]).complete(),
    ensures
        complete_ones(written) == written,
        incomplete_ones(written).len() == 0,
    decreases written.len(),
{
    reveal(Seq::filter);
    if written.len() > 0 {
        let before = written.drop_last();
        assert forall|i: int| 0 <= i < before.len() implies (#[trigger] before[i]).complete() by {
            assert(before[i] == written[i]);
        }
        lemma_all_complete(before);
        assert(written[written.len() - 1].complete());
        assert(before.push(written.last()) =~= written);
    } else {
        assert(complete_ones(written) =~= written);
    }
}

// ---------------------------------------------------------------------------
// What cannot be read
// ---------------------------------------------------------------------------

/// A document is rejected for the first element of the entry of a file whose text cannot be read,
/// at the position of that text, whatever follows: a text that cannot be decoded, a size that is
/// no number, a date in another form. What stands before can be read.
pub proof fn law_unreadable_element_is_rejected(
    pieces: Seq<Piece>,
    attributes: Seq<Option<XmlAttributeView>>,
    parts: Seq<EntryPart>,
    tag: Seq<char>,
    text: Result<Seq<char>, Seq<char>>,
    items: Seq<XmlItemView>,
)
    requires
        well_formed_pieces(pieces),
        readable(entries_of(pieces)),
        attributes.contains(attribute("kind"@, "file"@)),
        well_formed_parts(parts),
        part_facts(parts) is Ok,
        tag == "name"@ || tag == "size"@ || tag == "author"@ || tag == "date"@,
        match text {
            Err(_) => true,
            Ok(text) => tag == "size"@ && parsed_i32(text) is None || tag == "date"@
                && naive_datetime(text, "%Y-%m-%dT%H:%M:%S.%fZ"@) is Err,
        },
        (events_up_to(pieces, attributes, parts) + seq![
            open_tag(tag, Seq::empty()),
            XmlEventView::Text { content: text },
            close_tag(tag),
        ]).is_prefix_of(events_of(items)),
    ensures
        listing_of(initial_state(), items) == ListingView::Rejected(
            ListingErrorView {
                kind: match text {
                    Err(_) => ListingErrorKind::Decoding,
                    Ok(_) => if tag == "size"@ {
                        ListingErrorKind::Size
                    } else {
                        ListingErrorKind::Datetime
                    },
                },
                position: items[events_up_to(pieces, attributes, parts).len() as int + 1].position,
                detail: match text {
                    Err(detail) => detail,
                    Ok(text) => if tag == "size"@ {
                        i32_error_text(text)
                    } else {
                        naive_datetime(text, "%Y-%m-%dT%H:%M:%S.%fZ"@)->Err_0
                    },
                },
            },
        ),
{
    reveal_strlit("name");
    reveal_strlit("size");
    reveal_strlit("author");
    reveal_strlit("date");
    assert("name"@[0] == 'n' && "size"@[0] == 's' && "author"@[0] == 'a' && "date"@[0] == 'd');
    let field = if tag == "name"@ {
        Field::Name
    } else if tag == "size"@ {
        Field::Size
    } else if tag == "author"@ {
        Field::Author
    } else {
        Field::Date
    };
    let event = XmlEventView::Text { content: text };
    let part = EntryPart::Field { field, attributes: Seq::empty(), content: seq![event] };
    law_unreadable_text_has_its_kind(field, Seq::empty(), Seq::empty(), text, Seq::empty());
    assert(Seq::<XmlEventView>::empty() + seq![event] + Seq::<XmlEventView>::empty() =~= seq![
        event,
    ]);
    assert(part.events() =~= seq![open_tag(tag, Seq::empty()), event, close_tag(tag)]);
    assert(part.well_formed());
    law_kind_marks_files(attributes);
    law_unreadable_part_is_rejected(pieces, attributes, parts, part, items);
}

/// A document is rejected for the first commit in the entry of a file whose revision is no
/// number, at the position of its tag, whatever follows. What stands before can be read.
pub proof fn law_unreadable_revision_is_rejected(
    pieces: Seq<Piece>,
    attributes: Seq<Option<XmlAttributeView>>,
    parts: Seq<EntryPart>,
    revision: Seq<char>,
    items: Seq<XmlItemView>,
)
    requires
        well_formed_pieces(pieces),
        readable(entries_of(pieces)),
        attributes.contains(attribute("kind"@, "file"@)),
        well_formed_parts(parts),
        part_facts(parts) is Ok,
        parsed_i32(revision) is None,
        events_up_to(pieces, attributes, parts).push(
            open_tag("commit"@, seq![attribute("revision"@, revision)]),
        ).is_prefix_of(events_of(items)),
    ensures
        listing_of(initial_state(), items) == ListingView::Rejected(
            ListingErrorView {
                kind: ListingErrorKind::Revision,
                position: items[events_up_to(pieces, attributes, parts).len() as int].position,
                detail: i32_error_text(revision),
            },
        ),
{
    let given = seq![attribute("revision"@, revision)];
    let part = EntryPart::Commit { attributes: given };
    law_commit_tells_its_revision(Seq::empty(), revision, Seq::empty());
    assert(Seq::<Option<XmlAttributeView>>::empty() + given
        + Seq::<Option<XmlAttributeView>>::empty() =~= given);
    let lead = events_up_to(pieces, attributes, parts);
    assert(lead + part.events() =~= lead.push(open_tag("commit"@, given)));
    law_kind_marks_files(attributes);
    law_unreadable_part_is_rejected(pieces, attributes, parts, part, items);
}

} // verus!
