//! What holds of reading listings: every file that a listing describes is found, and nothing
//! else; what cannot be read is reported where it stands.
use vstd::prelude::*;
use vstd::utf8::{
    decode_utf8, encode_utf8, encode_utf8_decode_utf8, encode_utf8_valid_utf8, valid_utf8,
};

use crate::clock::naive_datetime;
use crate::listing::{
    commit_facts, initial_state, is_called, is_file_entry, listing_of, revision_facts,
    says_file, EntryFactsView, FaultView, Field, ListingErrorKind, ListingStateView, ListingView,
    DATE_FORMAT,
};
use crate::listing_model::{
    after_all, all_inner, content_facts, entries_of, entry_end, entry_start, events_of, field_tag,
    fits_in_field, found_in, found_in_pieces, in_first, is_document, opens_file_entry, part_events,
    part_facts, piece_events, readable, shifted, told_about, well_formed_parts, well_formed_pieces,
    with_found, Aspect, EntryPart, FaultIn, FileEntry, FoundView, Piece,
};
use crate::svn::{listed_files, output_text, CommandOutputView, FileListView};
use crate::text::{i32_error_text, parsed_i32};
use crate::xml::{document_items, is_final, XmlAttributeView, XmlEventView, XmlItemView};

verus! {

// ---------------------------------------------------------------------------
// Reading several events
// ---------------------------------------------------------------------------

/// One run of events behind another.
proof fn lemma_after_concat(
    state: ListingStateView,
    left: Seq<XmlEventView>,
    right: Seq<XmlEventView>,
)
    ensures
        after_all(state, left + right) == match after_all(state, left) {
            Ok(middle) => shifted(after_all(middle, right), left.len()),
            Err(at) => Err(at),
        },
    decreases right.len(),
{
    if right.len() == 0 {
        assert(left + right =~= left);
    } else {
        lemma_after_concat(state, left, right.drop_last());
        assert((left + right).drop_last() =~= left + right.drop_last());
        assert((left + right).last() == right.last());
    }
}

/// A run of one event.
proof fn lemma_after_one(state: ListingStateView, event: XmlEventView)
    ensures
        after_all(state, seq![event]) == in_first(state.after(event)),
{
    reveal_with_fuel(after_all, 2);
    assert(seq![event].drop_last() =~= Seq::<XmlEventView>::empty());
}

/// Reading a listing that begins with some events: it goes on behind them, or ends with the
/// first fault in them, at the position of the item that it is in.
pub proof fn law_reading_goes_event_by_event(
    state: ListingStateView,
    lead: Seq<XmlEventView>,
    items: Seq<XmlItemView>,
)
    requires
        all_inner(lead),
        lead.is_prefix_of(events_of(items)),
    ensures
        listing_of(state, items) == match after_all(state, lead) {
            Ok(next) => listing_of(next, items.skip(lead.len() as int)),
            Err(at) => ListingView::Rejected(at.fault.at(items[at.index as int].position)),
        },
    decreases lead.len(),
{
    if lead.len() == 0 {
        assert(items.skip(0) =~= items);
    } else {
        let before = lead.drop_last();
        let n = before.len() as int;
        assert(all_inner(before)) by {
            assert forall|i: int| 0 <= i < before.len() implies !is_final(#[trigger] before[i]) by {
                assert(before[i] == lead[i]);
            }
        }
        assert(before.is_prefix_of(events_of(items)));
        law_reading_goes_event_by_event(state, before, items);
        let rest = items.skip(n);
        assert(lead[n] == events_of(items)[n]);
        assert(rest.first() == items[n]);
        assert(rest.drop_first() =~= items.skip(n + 1));
        assert(!is_final(lead[n]));
    }
}

/// Where the events of a listing stand in its text has no effect on the files that are found.
pub proof fn law_positions_have_no_effect(
    state: ListingStateView,
    left: Seq<XmlItemView>,
    right: Seq<XmlItemView>,
)
    requires
        left.len() == right.len(),
        forall|i: int|
            0 <= i < left.len() ==> (#[trigger] left[i]).event == (#[trigger] right[i]).event,
        listing_of(state, left) is Files,
    ensures
        listing_of(state, right) == listing_of(state, left),
    decreases left.len(),
{
    if left.len() > 0 {
        assert(left[0].event == right[0].event);
        if let Ok(next) = state.after(left[0].event) {
            if !is_final(left[0].event) {
                let (l, r) = (left.drop_first(), right.drop_first());
                assert forall|i: int| 0 <= i < l.len() implies (#[trigger] l[i]).event == (
                #[trigger] r[i]).event by {
                    assert(left[i + 1].event == right[i + 1].event);
                }
                law_positions_have_no_effect(next, l, r);
            }
        }
    }
}

/// What has been read is never taken back: what was found stays, in its order, at the front of
/// what is found in the end.
pub proof fn law_found_files_stay(state: ListingStateView, items: Seq<XmlItemView>)
    ensures
        listing_of(state, items) matches ListingView::Files { files, incomplete }
            ==> state.files.is_prefix_of(files) && state.incomplete.is_prefix_of(incomplete),
    decreases items.len(),
{
    if items.len() > 0 && !is_final(items.first().event) {
        if let Ok(next) = state.after(items.first().event) {
            law_found_files_stay(next, items.drop_first());
            assert(state.files.is_prefix_of(next.files));
            assert(state.incomplete.is_prefix_of(next.incomplete));
        }
    }
}

// ---------------------------------------------------------------------------
// Outside the entries of files
// ---------------------------------------------------------------------------

/// The reading stands outside the entries of files, and nothing is left over from one.
pub open spec fn outside_entries(state: ListingStateView) -> bool {
    state == ListingStateView {
        files: state.files,
        incomplete: state.incomplete,
        ..initial_state()
    }
}

/// Whatever stands outside the entries of files has no effect: other tags and texts, and the
/// entries of directories with everything in them.
pub proof fn law_rest_is_passed_over(state: ListingStateView, events: Seq<XmlEventView>)
    requires
        outside_entries(state),
        forall|i: int| 0 <= i < events.len() ==> !opens_file_entry(#[trigger] events[i]),
    ensures
        after_all(state, events) == Ok::<_, FaultIn>(state),
    decreases events.len(),
{
    if events.len() > 0 {
        let before = events.drop_last();
        assert forall|i: int| 0 <= i < before.len() implies !opens_file_entry(
            #[trigger] before[i],
        ) by {
            assert(before[i] == events[i]);
        }
        law_rest_is_passed_over(state, before);
        assert(!opens_file_entry(events[events.len() - 1]));
        assert(state.after(events.last()) == Ok::<_, FaultView>(state));
    }
}

/// No run of events has an influence on what is read from another one behind it, provided that
/// it closes the entries that it opens: both together yield what the first yields, followed by
/// what the second yields.
pub proof fn law_runs_are_independent(
    left: Seq<XmlEventView>,
    right: Seq<XmlEventView>,
    one: ListingStateView,
    two: ListingStateView,
)
    requires
        after_all(initial_state(), left) == Ok::<_, FaultIn>(one),
        outside_entries(one),
        after_all(initial_state(), right) == Ok::<_, FaultIn>(two),
    ensures
        after_all(initial_state(), left + right) == Ok::<_, FaultIn>(
            ListingStateView {
                files: one.files + two.files,
                incomplete: one.incomplete + two.incomplete,
                ..two
            },
        ),
{
    let found = FoundView { files: one.files, incomplete: one.incomplete };
    lemma_after_concat(initial_state(), left, right);
    lemma_found_before(found, initial_state(), right);
    assert(found_before(found, initial_state()).files =~= one.files);
    assert(found_before(found, initial_state()).incomplete =~= one.incomplete);
}

/// A state in which `found` was found before everything else.
spec fn found_before(found: FoundView, state: ListingStateView) -> ListingStateView {
    ListingStateView {
        files: found.files + state.files,
        incomplete: found.incomplete + state.incomplete,
        ..state
    }
}

/// What was found before has no effect on what is read.
proof fn lemma_found_before(
    found: FoundView,
    state: ListingStateView,
    events: Seq<XmlEventView>,
)
    ensures
        after_all(found_before(found, state), events) == match after_all(state, events) {
            Ok(next) => Ok(found_before(found, next)),
            Err(at) => Err(at),
        },
    decreases events.len(),
{
    if events.len() > 0 {
        lemma_found_before(found, state, events.drop_last());
        if let Ok(before) = after_all(state, events.drop_last()) {
            let event = events.last();
            let shown = found_before(found, before);
            if let XmlEventView::End { name } = event {
                let next = before.after_end(name);
                assert(shown.after_end(name).files =~= found.files + next.files);
                assert(shown.after_end(name).incomplete =~= found.incomplete + next.incomplete);
            }
            assert(shown.after(event) == match before.after(event) {
                Ok(next) => Ok(found_before(found, next)),
                Err(fault) => Err(fault),
            });
        }
    }
}

// ---------------------------------------------------------------------------
// The entry of a file
// ---------------------------------------------------------------------------

/// Two different names are never the same tag.
proof fn lemma_different_names(left: &str, right: &str)
    requires
        left@ != right@,
    ensures
        !is_called(encode_utf8(left@), right),
{
    encode_utf8_decode_utf8(left@);
    encode_utf8_decode_utf8(right@);
}

/// The tags of a listing differ from each other.
pub(crate) proof fn lemma_tags_differ()
    ensures
        !is_called(encode_utf8("author"@), "entry"),
        !is_called(encode_utf8("date"@), "entry"),
        !is_called(encode_utf8("date"@), "author"),
        !is_called(encode_utf8("name"@), "entry"),
        !is_called(encode_utf8("name"@), "author"),
        !is_called(encode_utf8("name"@), "date"),
        !is_called(encode_utf8("size"@), "entry"),
        !is_called(encode_utf8("size"@), "author"),
        !is_called(encode_utf8("size"@), "date"),
        !is_called(encode_utf8("size"@), "name"),
        !is_called(encode_utf8("commit"@), "entry"),
        !is_called(encode_utf8("commit"@), "author"),
        !is_called(encode_utf8("commit"@), "date"),
        !is_called(encode_utf8("commit"@), "name"),
        !is_called(encode_utf8("commit"@), "size"),
        !is_called(encode_utf8("entry"@), "author"),
        !is_called(encode_utf8("entry"@), "date"),
        !is_called(encode_utf8("entry"@), "name"),
        !is_called(encode_utf8("entry"@), "size"),
{
    reveal_strlit("entry");
    reveal_strlit("author");
    reveal_strlit("date");
    reveal_strlit("name");
    reveal_strlit("size");
    reveal_strlit("commit");
    assert("date"@[0] == 'd' && "name"@[0] == 'n' && "size"@[0] == 's');
    assert("author"@[0] == 'a' && "commit"@[0] == 'c');
    lemma_different_names("author", "entry");
    lemma_different_names("date", "entry");
    lemma_different_names("date", "author");
    lemma_different_names("name", "entry");
    lemma_different_names("name", "author");
    lemma_different_names("name", "date");
    lemma_different_names("size", "entry");
    lemma_different_names("size", "author");
    lemma_different_names("size", "date");
    lemma_different_names("size", "name");
    lemma_different_names("commit", "entry");
    lemma_different_names("commit", "author");
    lemma_different_names("commit", "date");
    lemma_different_names("commit", "name");
    lemma_different_names("commit", "size");
    lemma_different_names("entry", "author");
    lemma_different_names("entry", "date");
    lemma_different_names("entry", "name");
    lemma_different_names("entry", "size");
}

/// The reading stands in the entry of a file, between the tags of its parts.
spec fn between_parts(state: ListingStateView) -> bool {
    state.in_file_entry && !state.in_name && !state.in_author && !state.in_date && !state.in_size
}

/// The tag of a field is open.
spec fn opened(state: ListingStateView, field: Field) -> ListingStateView {
    match field {
        Field::Name => ListingStateView { in_name: true, ..state },
        Field::Size => ListingStateView { in_size: true, ..state },
        Field::Author => ListingStateView { in_author: true, ..state },
        Field::Date => ListingStateView { in_date: true, ..state },
    }
}

/// After facts are told, or cannot be read.
spec fn after_facts(state: ListingStateView, facts: Result<EntryFactsView, FaultIn>) -> Result<
    ListingStateView,
    FaultIn,
> {
    match facts {
        Ok(facts) => Ok(ListingStateView { facts: state.facts.and(facts), ..state }),
        Err(at) => Err(at),
    }
}

/// What stands in the tag of a field.
proof fn lemma_content(state: ListingStateView, field: Field, content: Seq<XmlEventView>)
    requires
        state.open_field() == Some(field),
        forall|i: int| 0 <= i < content.len() ==> fits_in_field(#[trigger] content[i]),
    ensures
        after_all(state, content) == after_facts(state, content_facts(field, content)),
    decreases content.len(),
{
    if content.len() > 0 {
        let before = content.drop_last();
        assert forall|i: int| 0 <= i < before.len() implies fits_in_field(
            #[trigger] before[i],
        ) by {
            assert(before[i] == content[i]);
        }
        lemma_content(state, field, before);
        assert(fits_in_field(content[content.len() - 1]));
    }
}

/// A part of an entry tells what its facts are.
proof fn lemma_part(state: ListingStateView, part: EntryPart)
    requires
        between_parts(state),
        part.well_formed(),
    ensures
        after_all(state, part.events()) == after_facts(state, part.facts()),
        all_inner(part.events()),
{
    lemma_tags_differ();
    match part {
        EntryPart::Field { field, attributes, content } => {
            let start = XmlEventView::Start { name: field_tag(field), attributes };
            let end = XmlEventView::End { name: field_tag(field) };
            let inside = opened(state, field);
            assert(state.after(start) == Ok::<_, FaultView>(inside));
            lemma_after_one(state, start);
            lemma_content(inside, field, content);
            lemma_after_concat(state, seq![start], content);
            lemma_after_concat(state, seq![start] + content, seq![end]);
            if let Ok(facts) = content_facts(field, content) {
                let done = ListingStateView { facts: state.facts.and(facts), ..state };
                assert(opened(done, field).after(end) == Ok::<_, FaultView>(done));
                lemma_after_one(opened(done, field), end);
            }
            let events = part.events();
            assert forall|i: int| 0 <= i < events.len() implies !is_final(#[trigger] events[i]) by {
                if 0 < i <= content.len() {
                    assert(events[i] == content[i - 1]);
                    assert(fits_in_field(content[i - 1]));
                }
            }
        },
        EntryPart::Commit { attributes } => {
            lemma_after_one(
                state,
                XmlEventView::Start { name: encode_utf8("commit"@), attributes },
            );
        },
        EntryPart::Beside { event } => {
            lemma_after_one(state, event);
        },
    }
}

/// Several parts of an entry tell what their facts are.
proof fn lemma_parts(state: ListingStateView, parts: Seq<EntryPart>)
    requires
        between_parts(state),
        well_formed_parts(parts),
    ensures
        after_all(state, part_events(parts)) == after_facts(state, part_facts(parts)),
        all_inner(part_events(parts)),
    decreases parts.len(),
{
    if parts.len() > 0 {
        let before = parts.drop_last();
        assert forall|i: int| 0 <= i < before.len() implies (
        #[trigger] before[i]).well_formed() by {
            assert(before[i] == parts[i]);
        }
        assert(parts[parts.len() - 1].well_formed());
        lemma_parts(state, before);
        lemma_after_concat(state, part_events(before), parts.last().events());
        lemma_inner_concat(part_events(before), parts.last().events());
        lemma_part(state, parts.last());
        if let Ok(facts) = part_facts(before) {
            lemma_part(
                ListingStateView { facts: state.facts.and(facts), ..state },
                parts.last(),
            );
        }
    }
}

proof fn lemma_inner_concat(left: Seq<XmlEventView>, right: Seq<XmlEventView>)
    ensures
        all_inner(left) && all_inner(right) ==> all_inner(left + right),
{
    if all_inner(left) && all_inner(right) {
        let both = left + right;
        assert forall|i: int| 0 <= i < both.len() implies !is_final(#[trigger] both[i]) by {
            if i < left.len() {
                assert(both[i] == left[i]);
            } else {
                assert(both[i] == right[i - left.len()]);
            }
        }
    }
}

/// The entry of a file, whatever the order of its parts and whatever stands beside them, yields
/// the file that it describes if it tells everything about it, and is noted as incomplete if
/// not; what it tells does not reach beyond its end. If it cannot be read, the reading ends with
/// the first fault in it.
pub proof fn law_entry_yields_its_file(state: ListingStateView, entry: FileEntry)
    requires
        outside_entries(state),
        entry.well_formed(),
    ensures
        after_all(state, entry.events()) == match entry.facts() {
            Ok(_) => Ok(with_found(state, entry.found())),
            Err(at) => Err(at),
        },
        all_inner(entry.events()),
{
    lemma_tags_differ();
    let start = entry_start(entry.attributes);
    let inside = ListingStateView { in_file_entry: true, ..state };
    let parts = part_events(entry.parts);
    assert(state.after(start) == Ok::<_, FaultView>(inside));
    lemma_after_one(state, start);
    lemma_parts(inside, entry.parts);
    lemma_after_concat(state, seq![start], parts);
    lemma_after_concat(state, seq![start] + parts, seq![entry_end()]);
    lemma_inner_concat(seq![start], parts);
    lemma_inner_concat(seq![start] + parts, seq![entry_end()]);
    if let Ok(facts) = part_facts(entry.parts) {
        let told = ListingStateView { facts: inside.facts.and(facts), ..inside };
        assert(told.facts == facts);
        let done = with_found(state, entry.found());
        assert(told.after_entry().files =~= done.files);
        assert(told.after_entry().incomplete =~= done.incomplete);
        assert(told.after(entry_end()) == Ok::<_, FaultView>(done));
        lemma_after_one(told, entry_end());
    }
}

/// An attribute of a tag.
pub open spec fn attribute(key: Seq<char>, value: Seq<char>) -> Option<XmlAttributeView> {
    Some(XmlAttributeView { key: encode_utf8(key), value: encode_utf8(value) })
}

/// An entry with an attribute `kind="file"` is that of a file.
pub proof fn law_kind_marks_files(attributes: Seq<Option<XmlAttributeView>>)
    requires
        attributes.contains(attribute("kind"@, "file"@)),
    ensures
        is_file_entry(attributes),
{
    let i = choose|i: int|
        0 <= i < attributes.len() && attributes[i] == attribute("kind"@, "file"@);
    assert(says_file(attributes[i]));
}

/// A commit tells the number in its first attribute `revision="..."`, whatever attributes with
/// other names stand before it and whatever stands behind it. If it is not a number, that is a
/// fault in the revision.
pub proof fn law_commit_tells_its_revision(
    before: Seq<Option<XmlAttributeView>>,
    number: Seq<char>,
    behind: Seq<Option<XmlAttributeView>>,
)
    requires
        forall|i: int|
            0 <= i < before.len() ==> ((#[trigger] before[i]) matches Some(other)
                ==> valid_utf8(other.key) && decode_utf8(other.key) != "revision"@),
    ensures
        commit_facts(before + seq![attribute("revision"@, number)] + behind) == revision_facts(
            encode_utf8(number),
        ),
        revision_facts(encode_utf8(number)) == match parsed_i32(number) {
            Some(_) => Ok(
                EntryFactsView { revision: parsed_i32(number), ..EntryFactsView::nothing() },
            ),
            None => Err(
                FaultView { kind: ListingErrorKind::Revision, detail: i32_error_text(number) },
            ),
        },
    decreases before.len(),
{
    encode_utf8_valid_utf8("revision"@);
    encode_utf8_decode_utf8("revision"@);
    encode_utf8_valid_utf8(number);
    encode_utf8_decode_utf8(number);
    let all = before + seq![attribute("revision"@, number)] + behind;
    if before.len() > 0 {
        let rest = before.drop_first();
        assert(all.first() == before[0]);
        assert(all.drop_first() =~= rest + seq![attribute("revision"@, number)] + behind);
        assert forall|i: int| 0 <= i < rest.len() implies ((#[trigger] rest[i]) matches Some(other)
            ==> valid_utf8(other.key) && decode_utf8(other.key) != "revision"@) by {
            assert(rest[i] == before[i + 1]);
        }
        law_commit_tells_its_revision(rest, number, behind);
    } else {
        assert(all.first() == attribute("revision"@, number));
    }
}

/// The field with some content in its tag cannot be read if it holds a text with a malformed
/// escape, a size that is not a number, or a date in another form than the one of listings. The
/// first such text is the fault, whatever follows in the tag.
pub proof fn law_unreadable_text_has_its_kind(
    field: Field,
    attributes: Seq<Option<XmlAttributeView>>,
    before: Seq<XmlEventView>,
    text: Result<Seq<char>, Seq<char>>,
    behind: Seq<XmlEventView>,
)
    requires
        content_facts(field, before) is Ok,
    ensures
        ({
            let part = EntryPart::Field {
                field,
                attributes,
                content: before + seq![XmlEventView::Text { content: text }] + behind,
            };
            let index = (1 + before.len()) as nat;
            match text {
                Err(detail) => part.facts() == Err::<EntryFactsView, _>(
                    FaultIn {
                        index,
                        fault: FaultView { kind: ListingErrorKind::Decoding, detail },
                    },
                ),
                Ok(text) => {
                    &&& field is Size && parsed_i32(text) is None ==> part.facts() == Err::<
                        EntryFactsView,
                        _,
                    >(
                        FaultIn {
                            index,
                            fault: FaultView {
                                kind: ListingErrorKind::Size,
                                detail: i32_error_text(text),
                            },
                        },
                    )
                    &&& field is Date && naive_datetime(text, DATE_FORMAT@) is Err ==> part.facts()
                        == Err::<EntryFactsView, _>(
                        FaultIn {
                            index,
                            fault: FaultView {
                                kind: ListingErrorKind::Datetime,
                                detail: naive_datetime(text, DATE_FORMAT@)->Err_0,
                            },
                        },
                    )
                },
            }
        }),
    decreases behind.len(),
{
    let event = XmlEventView::Text { content: text };
    let all = before + seq![event] + behind;
    if behind.len() > 0 {
        law_unreadable_text_has_its_kind(field, attributes, before, text, behind.drop_last());
        assert(all.drop_last() =~= before + seq![event] + behind.drop_last());
    } else {
        assert(all.drop_last() =~= before);
        assert(all.last() == event);
    }
}

// ---------------------------------------------------------------------------
// Whole listings
// ---------------------------------------------------------------------------

/// Pieces yield what is found in them.
proof fn lemma_pieces(state: ListingStateView, pieces: Seq<Piece>)
    requires
        outside_entries(state),
        well_formed_pieces(pieces),
    ensures
        after_all(state, piece_events(pieces)) == match found_in_pieces(pieces) {
            Ok(found) => Ok(with_found(state, found)),
            Err(at) => Err(at),
        },
        all_inner(piece_events(pieces)),
    decreases pieces.len(),
{
    if pieces.len() == 0 {
        assert(with_found(state, FoundView::nothing()).files =~= state.files);
        assert(with_found(state, FoundView::nothing()).incomplete =~= state.incomplete);
    } else {
        let before = pieces.drop_last();
        let piece = pieces.last();
        assert forall|i: int| 0 <= i < before.len() implies (
        #[trigger] before[i]).well_formed() by {
            assert(before[i] == pieces[i]);
        }
        assert(pieces[pieces.len() - 1].well_formed());
        lemma_pieces(state, before);
        lemma_piece(state, piece);
        lemma_after_concat(state, piece_events(before), piece.events());
        lemma_inner_concat(piece_events(before), piece.events());
        if let Ok(found) = found_in_pieces(before) {
            let middle = with_found(state, found);
            lemma_piece(middle, piece);
            if let Ok(more) = piece.found() {
                lemma_with_both(state, found, more);
            }
        }
    }
}

/// A piece yields what is found in it.
proof fn lemma_piece(state: ListingStateView, piece: Piece)
    requires
        outside_entries(state),
        piece.well_formed(),
    ensures
        after_all(state, piece.events()) == match piece.found() {
            Ok(found) => Ok(with_found(state, found)),
            Err(at) => Err(at),
        },
        all_inner(piece.events()),
{
    match piece {
        Piece::Entry { entry } => {
            law_entry_yields_its_file(state, entry);
        },
        Piece::Rest { event } => {
            law_rest_is_passed_over(state, seq![event]);
            assert(with_found(state, FoundView::nothing()).files =~= state.files);
            assert(with_found(state, FoundView::nothing()).incomplete =~= state.incomplete);
        },
    }
}

proof fn lemma_with_both(state: ListingStateView, one: FoundView, two: FoundView)
    ensures
        with_found(with_found(state, one), two) == with_found(state, one.and(two)),
{
    let both = with_found(state, one.and(two));
    assert(with_found(with_found(state, one), two).files =~= both.files);
    assert(with_found(with_found(state, one), two).incomplete =~= both.incomplete);
}

/// Pieces can be read if and only if their entries can, and what is found is what is found in
/// the entries.
proof fn lemma_found_in_entries(pieces: Seq<Piece>)
    ensures
        found_in_pieces(pieces) is Ok <==> readable(entries_of(pieces)),
        found_in_pieces(pieces) matches Ok(found) ==> found == found_in(entries_of(pieces)),
    decreases pieces.len(),
{
    if pieces.len() > 0 {
        let before = entries_of(pieces.drop_last());
        let all = entries_of(pieces);
        lemma_found_in_entries(pieces.drop_last());
        assert forall|i: int| 0 <= i < before.len() implies #[trigger] before[i] == all[i] by {}
        match pieces.last() {
            Piece::Entry { entry } => {
                assert(all.drop_last() =~= before);
                assert(all[all.len() - 1] == entry);
                if readable(all) {
                    assert forall|i: int| 0 <= i < before.len() implies (
                    #[trigger] before[i]).facts() is Ok by {
                        assert(all[i].facts() is Ok);
                    }
                }
            },
            Piece::Rest { .. } => {
                assert(all =~= before);
                let found = found_in(before);
                assert(found.and(FoundView::nothing()).files =~= found.files);
                assert(found.and(FoundView::nothing()).incomplete =~= found.incomplete);
            },
        }
    }
}

/// Reading a listing that begins with some pieces: it goes on behind them with what is found in
/// them, or ends with the first fault in them, at the position of the item that it is in.
pub proof fn law_reading_goes_piece_by_piece(
    state: ListingStateView,
    pieces: Seq<Piece>,
    items: Seq<XmlItemView>,
)
    requires
        outside_entries(state),
        well_formed_pieces(pieces),
        piece_events(pieces).is_prefix_of(events_of(items)),
    ensures
        listing_of(state, items) == match found_in_pieces(pieces) {
            Ok(found) => listing_of(
                with_found(state, found),
                items.skip(piece_events(pieces).len() as int),
            ),
            Err(at) => ListingView::Rejected(at.fault.at(items[at.index as int].position)),
        },
{
    lemma_pieces(state, pieces);
    law_reading_goes_event_by_event(state, piece_events(pieces), items);
}

/// What comes of reading a document made of pieces: if all its entries can be read, exactly what
/// is found in them, and otherwise the first fault, at the position of the item that it is in.
proof fn lemma_document(pieces: Seq<Piece>, items: Seq<XmlItemView>)
    requires
        well_formed_pieces(pieces),
        is_document(items, pieces),
    ensures
        readable(entries_of(pieces)) <==> listing_of(initial_state(), items) is Files,
        readable(entries_of(pieces)) ==> listing_of(initial_state(), items) == (
        ListingView::Files {
            files: found_in(entries_of(pieces)).files,
            incomplete: found_in(entries_of(pieces)).incomplete,
        }),
{
    let n = piece_events(pieces).len() as int;
    assert(events_of(items).len() == n + 1);
    law_reading_goes_piece_by_piece(initial_state(), pieces, items);
    lemma_found_in_entries(pieces);
    let end = items.skip(n);
    assert(end.first() == items[n]);
    assert(events_of(items)[n] == XmlEventView::Eof);
    let found = found_in(entries_of(pieces));
    assert(initial_state().files + found.files =~= found.files);
    assert(initial_state().incomplete + found.incomplete =~= found.incomplete);
}

/// A listing is read back: from a document that consists of readable entries of files and of
/// anything else around them, exactly the files are found that the entries describe completely,
/// in the order of the entries. Where in the document the events stand has no effect.
pub proof fn law_listing_is_read_back(pieces: Seq<Piece>, items: Seq<XmlItemView>)
    requires
        well_formed_pieces(pieces),
        readable(entries_of(pieces)),
        is_document(items, pieces),
    ensures
        listing_of(initial_state(), items) == (ListingView::Files {
            files: found_in(entries_of(pieces)).files,
            incomplete: found_in(entries_of(pieces)).incomplete,
        }),
{
    lemma_document(pieces, items);
}

/// The events of a listing up to a part of an entry: the pieces before the entry, its opening
/// tag, and the parts before.
pub open spec fn events_up_to(
    pieces: Seq<Piece>,
    attributes: Seq<Option<XmlAttributeView>>,
    parts: Seq<EntryPart>,
) -> Seq<XmlEventView> {
    piece_events(pieces) + seq![entry_start(attributes)] + part_events(parts)
}

/// A listing is rejected for the first part of an entry of a file that cannot be read, at the
/// position of the item that cannot be read, and whatever follows: the pieces before the entry
/// and the parts before it in the entry can be read, and it cannot.
pub proof fn law_unreadable_part_is_rejected(
    pieces: Seq<Piece>,
    attributes: Seq<Option<XmlAttributeView>>,
    parts: Seq<EntryPart>,
    part: EntryPart,
    items: Seq<XmlItemView>,
)
    requires
        well_formed_pieces(pieces),
        readable(entries_of(pieces)),
        is_file_entry(attributes),
        well_formed_parts(parts),
        part_facts(parts) is Ok,
        part.well_formed(),
        part.facts() is Err,
        (events_up_to(pieces, attributes, parts) + part.events()).is_prefix_of(events_of(items)),
    ensures
        listing_of(initial_state(), items) == ListingView::Rejected(
            part.facts()->Err_0.fault.at(
                items[(events_up_to(pieces, attributes, parts).len()
                    + part.facts()->Err_0.index) as int].position,
            ),
        ),
{
    let start = entry_start(attributes);
    let one = piece_events(pieces);
    let two = one + seq![start];
    let three = events_up_to(pieces, attributes, parts);
    let outside = with_found(initial_state(), found_in(entries_of(pieces)));
    let inside = ListingStateView { in_file_entry: true, ..outside };
    let told = ListingStateView {
        facts: inside.facts.and(part_facts(parts)->Ok_0),
        ..inside
    };
    lemma_found_in_entries(pieces);
    lemma_pieces(initial_state(), pieces);
    lemma_after_one(outside, start);
    lemma_after_concat(initial_state(), one, seq![start]);
    lemma_parts(inside, parts);
    lemma_after_concat(initial_state(), two, part_events(parts));
    lemma_part(told, part);
    lemma_after_concat(initial_state(), three, part.events());
    lemma_inner_concat(one, seq![start]);
    lemma_inner_concat(two, part_events(parts));
    lemma_inner_concat(three, part.events());
    law_reading_goes_event_by_event(initial_state(), three + part.events(), items);
}

/// A listing that stops being XML is malformed at the position where it stops, if it can be read
/// up to there.
pub proof fn law_broken_document_is_malformed(
    lead: Seq<XmlEventView>,
    items: Seq<XmlItemView>,
    detail: Seq<char>,
)
    requires
        all_inner(lead),
        after_all(initial_state(), lead) is Ok,
        lead.push(XmlEventView::Failed { detail }).is_prefix_of(events_of(items)),
    ensures
        listing_of(initial_state(), items) == (ListingView::Malformed {
            position: items[lead.len() as int].position,
            detail,
        }),
{
    let n = lead.len() as int;
    let broken = lead.push(XmlEventView::Failed { detail });
    assert forall|i: int| 0 <= i < n implies lead[i] == events_of(items)[i] by {
        assert(broken[i] == events_of(items)[i]);
    }
    assert(broken[n] == events_of(items)[n]);
    law_reading_goes_event_by_event(initial_state(), lead, items);
    assert(items.skip(n).first() == items[n]);
}

// ---------------------------------------------------------------------------
// Several runs of entries
// ---------------------------------------------------------------------------

/// The entries of two runs of pieces are those of the first and those of the second.
pub(crate) proof fn lemma_entries_concat(left: Seq<Piece>, right: Seq<Piece>)
    ensures
        entries_of(left + right) == entries_of(left) + entries_of(right),
    decreases right.len(),
{
    if right.len() == 0 {
        assert(left + right =~= left);
        assert(entries_of(left) + entries_of(right) =~= entries_of(left));
    } else {
        lemma_entries_concat(left, right.drop_last());
        assert((left + right).drop_last() =~= left + right.drop_last());
        assert(entries_of(left + right) =~= entries_of(left) + entries_of(right));
    }
}

/// What is found in two runs of entries one behind the other is what is found in the first,
/// followed by what is found in the second.
pub proof fn law_found_in_runs(left: Seq<FileEntry>, right: Seq<FileEntry>)
    ensures
        found_in(left + right) == found_in(left).and(found_in(right)),
        readable(left + right) <==> readable(left) && readable(right),
    decreases right.len(),
{
    let both = left + right;
    if right.len() == 0 {
        assert(both =~= left);
        assert(found_in(left).and(found_in(right)).files =~= found_in(left).files);
        assert(found_in(left).and(found_in(right)).incomplete =~= found_in(left).incomplete);
    } else {
        law_found_in_runs(left, right.drop_last());
        assert(both.drop_last() =~= left + right.drop_last());
        let more = found_in(left).and(found_in(right));
        assert(found_in(both).files =~= more.files);
        assert(found_in(both).incomplete =~= more.incomplete);
    }
    if readable(both) {
        assert forall|i: int| 0 <= i < left.len() implies (#[trigger] left[i]).facts() is Ok by {
            assert(both[i].facts() is Ok);
        }
        assert forall|i: int| 0 <= i < right.len() implies (
        #[trigger] right[i]).facts() is Ok by {
            assert(both[left.len() + i].facts() is Ok);
        }
    }
}

/// Pieces between a head and a tail.
pub open spec fn framed(head: Seq<Piece>, inner: Seq<Piece>, tail: Seq<Piece>) -> Seq<Piece> {
    head + inner + tail
}

proof fn lemma_framed(head: Seq<Piece>, inner: Seq<Piece>, tail: Seq<Piece>)
    requires
        entries_of(head).len() == 0,
        entries_of(tail).len() == 0,
    ensures
        entries_of(framed(head, inner, tail)) == entries_of(inner),
{
    lemma_entries_concat(head, inner);
    lemma_entries_concat(head + inner, tail);
    assert(entries_of(framed(head, inner, tail)) =~= entries_of(inner));
}

/// Two runs of entries one behind the other, in one document, yield what the first yields in a
/// document of its own, followed by what the second yields in a document of its own: no entry
/// has an influence on what is read from another. The head and the tail, which hold no entries
/// of files, stand around the runs in each of the documents.
pub proof fn law_listings_add_up(
    head: Seq<Piece>,
    left: Seq<Piece>,
    right: Seq<Piece>,
    tail: Seq<Piece>,
    left_items: Seq<XmlItemView>,
    right_items: Seq<XmlItemView>,
    items: Seq<XmlItemView>,
)
    requires
        well_formed_pieces(head),
        well_formed_pieces(left),
        well_formed_pieces(right),
        well_formed_pieces(tail),
        entries_of(head).len() == 0,
        entries_of(tail).len() == 0,
        is_document(left_items, framed(head, left, tail)),
        is_document(right_items, framed(head, right, tail)),
        is_document(items, framed(head, left + right, tail)),
    ensures
        match (
            listing_of(initial_state(), left_items),
            listing_of(initial_state(), right_items),
        ) {
            (
                ListingView::Files { files: one, incomplete: partial },
                ListingView::Files { files: two, incomplete: more },
            ) => listing_of(initial_state(), items) == (ListingView::Files {
                files: one + two,
                incomplete: partial + more,
            }),
            _ => !(listing_of(initial_state(), items) is Files),
        },
{
    lemma_well_formed_framed(head, left, tail);
    lemma_well_formed_framed(head, right, tail);
    lemma_well_formed_concat(left, right);
    lemma_well_formed_framed(head, left + right, tail);
    lemma_framed(head, left, tail);
    lemma_framed(head, right, tail);
    lemma_framed(head, left + right, tail);
    lemma_entries_concat(left, right);
    law_found_in_runs(entries_of(left), entries_of(right));
    lemma_document(framed(head, left, tail), left_items);
    lemma_document(framed(head, right, tail), right_items);
    lemma_document(framed(head, left + right, tail), items);
}

pub(crate) proof fn lemma_well_formed_concat(left: Seq<Piece>, right: Seq<Piece>)
    requires
        well_formed_pieces(left),
        well_formed_pieces(right),
    ensures
        well_formed_pieces(left + right),
{
    let both = left + right;
    assert forall|i: int| 0 <= i < both.len() implies (#[trigger] both[i]).well_formed() by {
        if i < left.len() {
            assert(both[i] == left[i]);
        } else {
            assert(both[i] == right[i - left.len()]);
        }
    }
}

proof fn lemma_well_formed_framed(head: Seq<Piece>, inner: Seq<Piece>, tail: Seq<Piece>)
    requires
        well_formed_pieces(head),
        well_formed_pieces(inner),
        well_formed_pieces(tail),
    ensures
        well_formed_pieces(framed(head, inner, tail)),
{
    lemma_well_formed_concat(head, inner);
    lemma_well_formed_concat(head + inner, tail);
}

// ---------------------------------------------------------------------------
// The order of the parts, and what stands beside them
// ---------------------------------------------------------------------------

/// Two entries tell the same: for each field, and for the commit, their parts about it tell the
/// same one after the other. How parts about different things are mixed, and what stands beside
/// them, is left open.
pub open spec fn tell_the_same(left: FileEntry, right: FileEntry) -> bool {
    &&& told_about(left.parts, Aspect::Field(Field::Name)) == told_about(
        right.parts,
        Aspect::Field(Field::Name),
    )
    &&& told_about(left.parts, Aspect::Field(Field::Size)) == told_about(
        right.parts,
        Aspect::Field(Field::Size),
    )
    &&& told_about(left.parts, Aspect::Field(Field::Author)) == told_about(
        right.parts,
        Aspect::Field(Field::Author),
    )
    &&& told_about(left.parts, Aspect::Field(Field::Date)) == told_about(
        right.parts,
        Aspect::Field(Field::Date),
    )
    &&& told_about(left.parts, Aspect::Commit) == told_about(right.parts, Aspect::Commit)
}

/// The facts that are told one after the other, if all can be read.
spec fn all_told(told: Seq<Option<EntryFactsView>>) -> Option<EntryFactsView>
    decreases told.len(),
{
    if told.len() == 0 {
        Some(EntryFactsView::nothing())
    } else {
        match (all_told(told.drop_last()), told.last()) {
            (Some(before), Some(facts)) => Some(before.and(facts)),
            _ => None,
        }
    }
}

/// A field tells nothing but itself.
proof fn lemma_content_is_its_own(field: Field, content: Seq<XmlEventView>)
    ensures
        content_facts(field, content) matches Ok(facts) ==> {
            &&& field is Name || facts.name is None
            &&& field is Size || facts.size is None
            &&& field is Author || facts.author is None
            &&& field is Date || facts.date is None
            &&& facts.revision is None
        },
    decreases content.len(),
{
    if content.len() > 0 {
        lemma_content_is_its_own(field, content.drop_last());
    }
}

/// A commit tells nothing but its revision.
proof fn lemma_commit_is_its_own(attributes: Seq<Option<XmlAttributeView>>)
    ensures
        commit_facts(attributes) matches Ok(facts) ==> facts == (EntryFactsView {
            revision: facts.revision,
            ..EntryFactsView::nothing()
        }),
    decreases attributes.len(),
{
    if attributes.len() > 0 {
        lemma_commit_is_its_own(attributes.drop_first());
    }
}

/// What the parts about one aspect tell, with one more part.
proof fn lemma_told_about_last(parts: Seq<EntryPart>, aspect: Aspect)
    requires
        parts.len() > 0,
    ensures
        told_about(parts, aspect) == if parts.last().aspect() == aspect {
            told_about(parts.drop_last(), aspect).push(parts.last().told())
        } else {
            told_about(parts.drop_last(), aspect)
        },
{
    reveal(Seq::filter);
    let about = |part: EntryPart| part.aspect() == aspect;
    let before = parts.drop_last().filter(about);
    if parts.last().aspect() == aspect {
        assert(parts.filter(about) == before.push(parts.last()));
        assert(told_about(parts, aspect) =~= told_about(parts.drop_last(), aspect).push(
            parts.last().told(),
        ));
    }
}

proof fn lemma_all_told_push(told: Seq<Option<EntryFactsView>>, more: Option<EntryFactsView>)
    ensures
        all_told(told.push(more)) == match (all_told(told), more) {
            (Some(before), Some(facts)) => Some(before.and(facts)),
            _ => None,
        },
{
    assert(told.push(more).drop_last() =~= told);
}

/// What parts tell about each aspect is told by the parts about that aspect.
proof fn lemma_aspects(parts: Seq<EntryPart>)
    ensures
        match (
            all_told(told_about(parts, Aspect::Field(Field::Name))),
            all_told(told_about(parts, Aspect::Field(Field::Size))),
            all_told(told_about(parts, Aspect::Field(Field::Author))),
            all_told(told_about(parts, Aspect::Field(Field::Date))),
            all_told(told_about(parts, Aspect::Commit)),
        ) {
            (Some(name), Some(size), Some(author), Some(date), Some(commit)) => part_facts(parts)
                == Ok::<_, FaultIn>(
                EntryFactsView {
                    name: name.name,
                    size: size.size,
                    revision: commit.revision,
                    author: author.author,
                    date: date.date,
                },
            ),
            _ => part_facts(parts) is Err,
        },
    decreases parts.len(),
{
    if parts.len() == 0 {
        reveal(Seq::filter);
    } else {
        let before = parts.drop_last();
        let part = parts.last();
        lemma_aspects(before);
        lemma_told_about_last(parts, Aspect::Field(Field::Name));
        lemma_told_about_last(parts, Aspect::Field(Field::Size));
        lemma_told_about_last(parts, Aspect::Field(Field::Author));
        lemma_told_about_last(parts, Aspect::Field(Field::Date));
        lemma_told_about_last(parts, Aspect::Commit);
        lemma_all_told_push(told_about(before, part.aspect()), part.told());
        match part {
            EntryPart::Field { field, content, .. } => {
                lemma_content_is_its_own(field, content);
            },
            EntryPart::Commit { attributes } => {
                lemma_commit_is_its_own(attributes);
            },
            EntryPart::Beside { .. } => {},
        }
    }
}

/// The order in which an entry tells its name, its size and its commit, and the commit its author
/// and its date, has no effect on what is read from it, and neither have unknown elements beside
/// them.
pub proof fn law_order_in_entries_has_no_effect(left: FileEntry, right: FileEntry)
    requires
        tell_the_same(left, right),
    ensures
        left.facts() is Ok <==> right.facts() is Ok,
        left.facts() is Ok ==> left.facts() == right.facts(),
        left.facts() is Ok ==> left.found() == right.found(),
{
    lemma_aspects(left.parts);
    lemma_aspects(right.parts);
}

/// Two listings tell the same: they have equally many entries of files, and their entries tell
/// the same one by one.
pub open spec fn all_tell_the_same(left: Seq<FileEntry>, right: Seq<FileEntry>) -> bool {
    &&& left.len() == right.len()
    &&& forall|i: int|
        0 <= i < left.len() ==> tell_the_same(#[trigger] left[i], #[trigger] right[i])
}

proof fn lemma_same_found(left: Seq<FileEntry>, right: Seq<FileEntry>)
    requires
        all_tell_the_same(left, right),
    ensures
        readable(left) <==> readable(right),
        readable(left) ==> found_in(left) == found_in(right),
    decreases left.len(),
{
    if left.len() > 0 {
        let n = left.len() - 1;
        let (l, r) = (left.drop_last(), right.drop_last());
        assert forall|i: int| 0 <= i < l.len() implies tell_the_same(
            #[trigger] l[i],
            #[trigger] r[i],
        ) by {
            assert(tell_the_same(left[i], right[i]));
        }
        lemma_same_found(l, r);
        assert(tell_the_same(left[n], right[n]));
        law_order_in_entries_has_no_effect(left[n], right[n]);
        law_found_in_runs(l, seq![left[n]]);
        law_found_in_runs(r, seq![right[n]]);
        assert(l + seq![left[n]] =~= left);
        assert(r + seq![right[n]] =~= right);
        assert(readable(seq![left[n]]) <==> left[n].facts() is Ok) by {
            assert(seq![left[n]][0] == left[n]);
        }
        assert(readable(seq![right[n]]) <==> right[n].facts() is Ok) by {
            assert(seq![right[n]][0] == right[n]);
        }
    }
}

/// Two documents that differ only in the order of the parts inside their entries, in unknown
/// elements and in what stands outside the entries of files yield the same files.
pub proof fn law_order_in_listings_has_no_effect(
    left: Seq<Piece>,
    right: Seq<Piece>,
    left_items: Seq<XmlItemView>,
    right_items: Seq<XmlItemView>,
)
    requires
        well_formed_pieces(left),
        well_formed_pieces(right),
        all_tell_the_same(entries_of(left), entries_of(right)),
        is_document(left_items, left),
        is_document(right_items, right),
    ensures
        listing_of(initial_state(), left_items) is Files <==> listing_of(
            initial_state(),
            right_items,
        ) is Files,
        listing_of(initial_state(), left_items) is Files ==> listing_of(
            initial_state(),
            left_items,
        ) == listing_of(initial_state(), right_items),
{
    lemma_same_found(entries_of(left), entries_of(right));
    lemma_document(left, left_items);
    lemma_document(right, right_items);
}

// ---------------------------------------------------------------------------
// Runs of the list command
// ---------------------------------------------------------------------------

/// The items of the document that a command wrote.
pub open spec fn written_items(output: CommandOutputView) -> Seq<XmlItemView> {
    document_items(output_text(output.stdout))
}

/// Of a list command that succeeded only the standard output counts.
pub proof fn law_only_the_document_counts(left: CommandOutputView, right: CommandOutputView)
    requires
        left.success,
        right.success,
        left.stdout == right.stdout,
    ensures
        listed_files(Ok(left)) == listed_files(Ok(right)),
{
}

/// What the list command writes about files is what is found: exactly the files that its entries
/// describe completely, in the order of the entries.
pub proof fn law_listed_files_are_those_written(output: CommandOutputView, pieces: Seq<Piece>)
    requires
        output.success,
        well_formed_pieces(pieces),
        readable(entries_of(pieces)),
        is_document(written_items(output), pieces),
    ensures
        listed_files(Ok(output)) == (FileListView::Found {
            files: found_in(entries_of(pieces)).files,
            incomplete: found_in(entries_of(pieces)).incomplete,
        }),
{
    law_listing_is_read_back(pieces, written_items(output));
}

/// A list command that writes an entry with a part that cannot be read fails with the message
/// about that part, at the position of the item that cannot be read.
pub proof fn law_unreadable_part_fails_the_list(
    pieces: Seq<Piece>,
    attributes: Seq<Option<XmlAttributeView>>,
    parts: Seq<EntryPart>,
    part: EntryPart,
    output: CommandOutputView,
)
    requires
        output.success,
        well_formed_pieces(pieces),
        readable(entries_of(pieces)),
        is_file_entry(attributes),
        well_formed_parts(parts),
        part_facts(parts) is Ok,
        part.well_formed(),
        part.facts() is Err,
        (events_up_to(pieces, attributes, parts) + part.events()).is_prefix_of(
            events_of(written_items(output)),
        ),
    ensures
        listed_files(Ok(output)) == FileListView::Failed(
            part.facts()->Err_0.fault.at(
                written_items(output)[(events_up_to(pieces, attributes, parts).len()
                    + part.facts()->Err_0.index) as int].position,
            ).message(),
        ),
{
    law_unreadable_part_is_rejected(pieces, attributes, parts, part, written_items(output));
}

/// A list command that writes two runs of entries one behind the other lists the files of the
/// first run, followed by those of the second.
pub proof fn law_listed_files_add_up(
    head: Seq<Piece>,
    left: Seq<Piece>,
    right: Seq<Piece>,
    tail: Seq<Piece>,
    left_output: CommandOutputView,
    right_output: CommandOutputView,
    output: CommandOutputView,
)
    requires
        left_output.success,
        right_output.success,
        output.success,
        well_formed_pieces(head),
        well_formed_pieces(left),
        well_formed_pieces(right),
        well_formed_pieces(tail),
        entries_of(head).len() == 0,
        entries_of(tail).len() == 0,
        is_document(written_items(left_output), framed(head, left, tail)),
        is_document(written_items(right_output), framed(head, right, tail)),
        is_document(written_items(output), framed(head, left + right, tail)),
    ensures
        match (listed_files(Ok(left_output)), listed_files(Ok(right_output))) {
            (
                FileListView::Found { files: one, incomplete: partial },
                FileListView::Found { files: two, incomplete: more },
            ) => listed_files(Ok(output)) == (FileListView::Found {
                files: one + two,
                incomplete: partial + more,
            }),
            _ => !(listed_files(Ok(output)) is Found),
        },
{
    law_listings_add_up(
        head,
        left,
        right,
        tail,
        written_items(left_output),
        written_items(right_output),
        written_items(output),
    );
}

/// Two list commands whose documents differ only in the order of the parts inside their entries,
/// in unknown elements and in what stands outside the entries of files list the same files,
/// whatever they write to the standard error.
pub proof fn law_order_has_no_effect_on_listed_files(
    left: Seq<Piece>,
    right: Seq<Piece>,
    left_output: CommandOutputView,
    right_output: CommandOutputView,
)
    requires
        left_output.success,
        right_output.success,
        well_formed_pieces(left),
        well_formed_pieces(right),
        all_tell_the_same(entries_of(left), entries_of(right)),
        is_document(written_items(left_output), left),
        is_document(written_items(right_output), right),
    ensures
        listed_files(Ok(left_output)) is Found <==> listed_files(Ok(right_output)) is Found,
        listed_files(Ok(left_output)) is Found ==> listed_files(Ok(left_output)) == listed_files(
            Ok(right_output),
        ),
{
    law_order_in_listings_has_no_effect(
        left,
        right,
        written_items(left_output),
        written_items(right_output),
    );
}

} // verus!
