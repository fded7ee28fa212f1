//! What holds of the steps of reading a listing: what each event does, and what an entry tells.
use vstd::prelude::*;
use vstd::utf8::{decode_utf8, encode_utf8, valid_utf8};

use crate::clock::naive_datetime;
use crate::listing::{
    commit_facts, date_facts, initial_state, is_file_entry, listing_of, says_file, text_facts,
    EntryFactsView, FaultView, Field, ListingErrorKind, ListingErrorView, ListingStateView,
    ListingView, DATE_FORMAT,
};
use crate::listing_laws::{attribute, lemma_tags_differ};
use crate::listing_model::FileEntry;
use crate::text::{i32_error_text, parsed_i32, utf8_error_text};
use crate::types::{FileWithoutShaView, Timestamp};
use crate::xml::{XmlAttributeView, XmlEventView, XmlItemView};

verus! {

// ---------------------------------------------------------------------------
// What is said about a file
// ---------------------------------------------------------------------------

/// A name, a size, a revision, an author and a date describe the file that has them, whatever
/// they are.
pub proof fn law_five_parts_describe_a_file(
    name: Seq<char>,
    size: i32,
    revision: i32,
    author: Seq<char>,
    date: Timestamp,
)
    ensures
        (EntryFactsView {
            name: Some(name),
            size: Some(size),
            revision: Some(revision),
            author: Some(author),
            date: Some(date),
        }).file() == Some(
            FileWithoutShaView {
                path: name,
                size,
                revision,
                last_author: author,
                last_changed: date,
            },
        ),
{
}

/// No file is described if and only if one of the five parts is missing.
pub proof fn law_fewer_parts_describe_no_file(facts: EntryFactsView)
    ensures
        facts.file() is None <==> (facts.name is None || facts.size is None || facts.revision is None
            || facts.author is None || facts.date is None),
{
}

/// An entry that can be read yields one file or counts as one incomplete entry: the file that has
/// the five parts that it tells, or, only if one of them is missing, what it tells.
pub proof fn law_entry_is_a_file_or_incomplete(entry: FileEntry, facts: EntryFactsView)
    requires
        entry.facts() is Ok,
        entry.facts()->Ok_0 == facts,
    ensures
        match (facts.name, facts.size, facts.revision, facts.author, facts.date) {
            (Some(name), Some(size), Some(revision), Some(author), Some(date)) => {
                &&& entry.found().incomplete.len() == 0
                &&& entry.found().files == seq![
                    FileWithoutShaView {
                        path: name,
                        size,
                        revision,
                        last_author: author,
                        last_changed: date,
                    },
                ]
            },
            _ => {
                &&& entry.found().files.len() == 0
                &&& entry.found().incomplete == seq![facts]
            },
        },
{
}

/// At first nothing is said. What is said later replaces what was said before, and keeps what it
/// does not speak of.
pub proof fn law_later_facts_count(earlier: EntryFactsView, later: EntryFactsView)
    ensures
        EntryFactsView::nothing() == (EntryFactsView {
            name: None,
            size: None,
            revision: None,
            author: None,
            date: None,
        }),
        earlier.and(later).name == if later.name is Some { later.name } else { earlier.name },
        earlier.and(later).size == if later.size is Some { later.size } else { earlier.size },
        earlier.and(later).revision == if later.revision is Some {
            later.revision
        } else {
            earlier.revision
        },
        earlier.and(later).author == if later.author is Some {
            later.author
        } else {
            earlier.author
        },
        earlier.and(later).date == if later.date is Some { later.date } else { earlier.date },
{
}

/// A name and an author are told as they are written.
pub proof fn law_texts_are_told_as_written(text: Seq<char>)
    ensures
        text_facts(Field::Name, Ok(text)) == Ok::<_, FaultView>(
            EntryFactsView {
                name: Some(text),
                size: None,
                revision: None,
                author: None,
                date: None,
            },
        ),
        text_facts(Field::Author, Ok(text)) == Ok::<_, FaultView>(
            EntryFactsView {
                name: None,
                size: None,
                revision: None,
                author: Some(text),
                date: None,
            },
        ),
{
}

/// A size is told if it is a number, and a fault if not.
pub proof fn law_sizes_are_numbers(text: Seq<char>)
    ensures
        match parsed_i32(text) {
            Some(number) => text_facts(Field::Size, Ok(text)) == Ok::<_, FaultView>(
                EntryFactsView {
                    name: None,
                    size: Some(number),
                    revision: None,
                    author: None,
                    date: None,
                },
            ),
            None => text_facts(Field::Size, Ok(text)) == Err::<EntryFactsView, _>(
                FaultView { kind: ListingErrorKind::Size, detail: i32_error_text(text) },
            ),
        },
{
}

/// A date is told if it is written like `2018-10-01T12:34:56.123456Z`, and a fault if not.
pub proof fn law_dates_have_one_form(text: Seq<char>)
    ensures
        match naive_datetime(text, "%Y-%m-%dT%H:%M:%S.%fZ"@) {
            Ok(date) => text_facts(Field::Date, Ok(text)) == Ok::<_, FaultView>(
                EntryFactsView {
                    name: None,
                    size: None,
                    revision: None,
                    author: None,
                    date: Some(date),
                },
            ),
            Err(detail) => text_facts(Field::Date, Ok(text)) == Err::<EntryFactsView, _>(
                FaultView { kind: ListingErrorKind::Datetime, detail },
            ),
        },
        DATE_FORMAT@ == "%Y-%m-%dT%H:%M:%S.%fZ"@,
{
}

/// A date that could be read is told as it is, and one that could not is a fault.
pub proof fn law_moments_are_told(moment: Timestamp, detail: Seq<char>)
    ensures
        date_facts(Ok(moment)) == Ok::<_, FaultView>(
            EntryFactsView {
                name: None,
                size: None,
                revision: None,
                author: None,
                date: Some(moment),
            },
        ),
        date_facts(Err(detail)) == Err::<EntryFactsView, _>(
            FaultView { kind: ListingErrorKind::Datetime, detail },
        ),
{
}

/// A text that cannot be decoded is a fault in whatever field it stands.
pub proof fn law_undecoded_texts_are_faults(field: Field, detail: Seq<char>)
    ensures
        text_facts(field, Err(detail)) == Err::<EntryFactsView, _>(
            FaultView { kind: ListingErrorKind::Decoding, detail },
        ),
{
}

/// The attributes of a commit that stand before one are passed over if they are malformed or
/// have another name than `revision`.
pub open spec fn are_passed_over(attributes: Seq<Option<XmlAttributeView>>) -> bool {
    forall|i: int|
        0 <= i < attributes.len() ==> ((#[trigger] attributes[i]) matches Some(other)
            ==> valid_utf8(other.key) && decode_utf8(other.key) != "revision"@)
}

/// A commit without a revision tells nothing.
pub proof fn law_commit_without_revision(attributes: Seq<Option<XmlAttributeView>>)
    requires
        are_passed_over(attributes),
    ensures
        commit_facts(attributes) == Ok::<_, FaultView>(
            EntryFactsView { name: None, size: None, revision: None, author: None, date: None },
        ),
    decreases attributes.len(),
{
    if attributes.len() > 0 {
        let rest = attributes.drop_first();
        assert(attributes[0] == attributes.first());
        assert forall|i: int| 0 <= i < rest.len() implies ((#[trigger] rest[i]) matches Some(other)
            ==> valid_utf8(other.key) && decode_utf8(other.key) != "revision"@) by {
            assert(rest[i] == attributes[i + 1]);
        }
        law_commit_without_revision(rest);
    }
}

/// Of the attributes of a commit the first one counts that is called `revision` or whose name is
/// no UTF-8, whatever stands before it and behind it: its number is told, and it is a fault if
/// its value is no number, or if its name or its value is no UTF-8.
pub proof fn law_first_revision_counts(
    before: Seq<Option<XmlAttributeView>>,
    attribute: XmlAttributeView,
    behind: Seq<Option<XmlAttributeView>>,
)
    requires
        are_passed_over(before),
        !valid_utf8(attribute.key) || decode_utf8(attribute.key) == "revision"@,
    ensures
        commit_facts(before + seq![Some(attribute)] + behind) == if !valid_utf8(attribute.key) {
            Err(
                FaultView {
                    kind: ListingErrorKind::Utf8,
                    detail: utf8_error_text(attribute.key),
                },
            )
        } else if !valid_utf8(attribute.value) {
            Err(
                FaultView {
                    kind: ListingErrorKind::Utf8,
                    detail: utf8_error_text(attribute.value),
                },
            )
        } else {
            match parsed_i32(decode_utf8(attribute.value)) {
                Some(number) => Ok(
                    EntryFactsView {
                        name: None,
                        size: None,
                        revision: Some(number),
                        author: None,
                        date: None,
                    },
                ),
                None => Err(
                    FaultView {
                        kind: ListingErrorKind::Revision,
                        detail: i32_error_text(decode_utf8(attribute.value)),
                    },
                ),
            }
        },
    decreases before.len(),
{
    let all = before + seq![Some(attribute)] + behind;
    if before.len() > 0 {
        let rest = before.drop_first();
        assert(all.first() == before[0]);
        assert(all.drop_first() =~= rest + seq![Some(attribute)] + behind);
        assert forall|i: int| 0 <= i < rest.len() implies ((#[trigger] rest[i]) matches Some(other)
            ==> valid_utf8(other.key) && decode_utf8(other.key) != "revision"@) by {
            assert(rest[i] == before[i + 1]);
        }
        law_first_revision_counts(rest, attribute, behind);
    } else {
        assert(all.first() == Some(attribute));
    }
}

/// An entry is that of a file if and only if one of its attributes is `kind="file"`.
pub proof fn law_only_kind_file_marks_files(attributes: Seq<Option<XmlAttributeView>>)
    ensures
        is_file_entry(attributes) <==> attributes.contains(attribute("kind"@, "file"@)),
{
    if attributes.contains(attribute("kind"@, "file"@)) {
        let i = choose|i: int|
            0 <= i < attributes.len() && attributes[i] == attribute("kind"@, "file"@);
        assert(says_file(attributes[i]));
    }
    if is_file_entry(attributes) {
        let i = choose|i: int| 0 <= i < attributes.len() && says_file(#[trigger] attributes[i]);
        assert(attributes[i] == attribute("kind"@, "file"@));
    }
}

// ---------------------------------------------------------------------------
// What each event does
// ---------------------------------------------------------------------------

/// The opening tag called `tag`.
pub open spec fn open_tag(
    tag: Seq<char>,
    attributes: Seq<Option<XmlAttributeView>>,
) -> XmlEventView {
    XmlEventView::Start { name: encode_utf8(tag), attributes }
}

/// The closing tag called `tag`.
pub open spec fn close_tag(tag: Seq<char>) -> XmlEventView {
    XmlEventView::End { name: encode_utf8(tag) }
}

/// A reading begins outside of everything, with nothing found.
pub proof fn law_reading_begins_with_nothing()
    ensures
        initial_state().files.len() == 0,
        initial_state().incomplete.len() == 0,
        !initial_state().in_file_entry,
        !initial_state().in_name,
        !initial_state().in_author,
        !initial_state().in_date,
        !initial_state().in_size,
        initial_state().facts == EntryFactsView::nothing(),
{
}

/// The opening tag of an entry says whether the entry is that of a file, and does nothing else.
pub proof fn law_entry_tag_opens_an_entry(
    state: ListingStateView,
    attributes: Seq<Option<XmlAttributeView>>,
)
    ensures
        state.after(open_tag("entry"@, attributes)) == Ok::<_, FaultView>(
            ListingStateView {
                in_file_entry: attributes.contains(attribute("kind"@, "file"@)),
                ..state
            },
        ),
{
    law_only_kind_file_marks_files(attributes);
}

/// In the entry of a file the opening tag of a field opens that field, whatever its attributes
/// are, and does nothing else.
pub proof fn law_field_tags_open_fields(
    state: ListingStateView,
    attributes: Seq<Option<XmlAttributeView>>,
)
    requires
        state.in_file_entry,
    ensures
        state.after(open_tag("name"@, attributes)) == Ok::<_, FaultView>(
            ListingStateView { in_name: true, ..state },
        ),
        state.after(open_tag("size"@, attributes)) == Ok::<_, FaultView>(
            ListingStateView { in_size: true, ..state },
        ),
        state.after(open_tag("author"@, attributes)) == Ok::<_, FaultView>(
            ListingStateView { in_author: true, ..state },
        ),
        state.after(open_tag("date"@, attributes)) == Ok::<_, FaultView>(
            ListingStateView { in_date: true, ..state },
        ),
{
    lemma_tags_differ();
}

/// In the entry of a file the opening tag of a commit tells the revision, if it has one, and is a
/// fault if it cannot be read; it does nothing else.
pub proof fn law_commit_tag_tells_the_revision(
    state: ListingStateView,
    attributes: Seq<Option<XmlAttributeView>>,
)
    requires
        state.in_file_entry,
    ensures
        state.after(open_tag("commit"@, attributes)) == match commit_facts(attributes) {
            Ok(facts) => Ok(ListingStateView { facts: state.facts.and(facts), ..state }),
            Err(fault) => Err(fault),
        },
{
    lemma_tags_differ();
}

/// Other opening tags do nothing, and outside the entries of files none does but that of an
/// entry.
pub proof fn law_other_tags_open_nothing(
    state: ListingStateView,
    tag: Seq<u8>,
    attributes: Seq<Option<XmlAttributeView>>,
)
    requires
        tag != encode_utf8("entry"@),
        state.in_file_entry ==> tag != encode_utf8("name"@) && tag != encode_utf8("size"@) && tag
            != encode_utf8("commit"@) && tag != encode_utf8("author"@) && tag != encode_utf8(
            "date"@,
        ),
    ensures
        state.after(XmlEventView::Start { name: tag, attributes }) == Ok::<_, FaultView>(state),
{
}

/// A text belongs to the field that is open, the first of name, date, author and size if several
/// are; it tells what it says about the field, and does nothing else. Outside the fields it does
/// nothing.
pub proof fn law_text_belongs_to_the_open_field(
    state: ListingStateView,
    content: Result<Seq<char>, Seq<char>>,
)
    ensures
        ({
            let told = |field: Field| match text_facts(field, content) {
                Ok(facts) => Ok(ListingStateView { facts: state.facts.and(facts), ..state }),
                Err(fault) => Err(fault),
            };
            let after = state.after(XmlEventView::Text { content });
            &&& state.in_name ==> after == told(Field::Name)
            &&& !state.in_name && state.in_date ==> after == told(Field::Date)
            &&& !state.in_name && !state.in_date && state.in_author ==> after == told(
                Field::Author,
            )
            &&& !state.in_name && !state.in_date && !state.in_author && state.in_size ==> after
                == told(Field::Size)
            &&& !state.in_name && !state.in_date && !state.in_author && !state.in_size ==> after
                == Ok::<_, FaultView>(state)
        }),
{
}

/// The closing tag of a field closes that field, and does nothing else.
pub proof fn law_field_tags_close_fields(state: ListingStateView)
    ensures
        state.after(close_tag("name"@)) == Ok::<_, FaultView>(
            ListingStateView { in_name: false, ..state },
        ),
        state.after(close_tag("size"@)) == Ok::<_, FaultView>(
            ListingStateView { in_size: false, ..state },
        ),
        state.after(close_tag("author"@)) == Ok::<_, FaultView>(
            ListingStateView { in_author: false, ..state },
        ),
        state.after(close_tag("date"@)) == Ok::<_, FaultView>(
            ListingStateView { in_date: false, ..state },
        ),
{
    lemma_tags_differ();
}

/// The closing tag of the entry of a file adds the file with the five parts that were told behind
/// the files that were found before, or, if one of them is missing, what was told behind the
/// incomplete entries that were found before. That of another entry adds nothing. What was told
/// is forgotten.
pub proof fn law_entry_tag_closes_an_entry(state: ListingStateView)
    ensures
        ({
            let closed = ListingStateView {
                in_file_entry: false,
                facts: EntryFactsView {
                    name: None,
                    size: None,
                    revision: None,
                    author: None,
                    date: None,
                },
                ..state
            };
            let facts = state.facts;
            let after = state.after(close_tag("entry"@));
            &&& !state.in_file_entry ==> after == Ok::<_, FaultView>(closed)
            &&& state.in_file_entry ==> match (
                facts.name,
                facts.size,
                facts.revision,
                facts.author,
                facts.date,
            ) {
                (Some(name), Some(size), Some(revision), Some(author), Some(date)) => after
                    == Ok::<_, FaultView>(
                    ListingStateView {
                        files: state.files.push(
                            FileWithoutShaView {
                                path: name,
                                size,
                                revision,
                                last_author: author,
                                last_changed: date,
                            },
                        ),
                        ..closed
                    },
                ),
                _ => after == Ok::<_, FaultView>(
                    ListingStateView { incomplete: state.incomplete.push(facts), ..closed },
                ),
            }
        }),
{
    lemma_tags_differ();
}

/// Other closing tags do nothing, and neither do comments, empty elements and the like.
pub proof fn law_other_events_do_nothing(state: ListingStateView, tag: Seq<u8>)
    requires
        tag != encode_utf8("entry"@),
        tag != encode_utf8("name"@),
        tag != encode_utf8("size"@),
        tag != encode_utf8("author"@),
        tag != encode_utf8("date"@),
    ensures
        state.after(XmlEventView::End { name: tag }) == Ok::<_, FaultView>(state),
        state.after(XmlEventView::Other) == Ok::<_, FaultView>(state),
{
}

/// A fault is reported as what it is, where it stands.
pub proof fn law_fault_is_reported(fault: FaultView, position: usize)
    ensures
        fault.at(position).kind == fault.kind,
        fault.at(position).position == position,
        fault.at(position).detail == fault.detail,
{
}

/// A reading takes the items one by one. It ends with what was found at the end of the document,
/// or where there are no more items; it is malformed at the item where the document breaks, and
/// rejected at the item that is in fault. Otherwise it goes on with the next item.
pub proof fn law_reading_takes_item_by_item(
    state: ListingStateView,
    item: XmlItemView,
    rest: Seq<XmlItemView>,
)
    ensures
        listing_of(state, Seq::empty()) == (ListingView::Files {
            files: state.files,
            incomplete: state.incomplete,
        }),
        match item.event {
            XmlEventView::Eof => listing_of(state, seq![item] + rest) == (ListingView::Files {
                files: state.files,
                incomplete: state.incomplete,
            }),
            XmlEventView::Failed { detail } => listing_of(state, seq![item] + rest) == (
            ListingView::Malformed { position: item.position, detail }),
            _ => match state.after(item.event) {
                Ok(next) => listing_of(state, seq![item] + rest) == listing_of(next, rest),
                Err(fault) => listing_of(state, seq![item] + rest) == ListingView::Rejected(
                    ListingErrorView {
                        kind: fault.kind,
                        position: item.position,
                        detail: fault.detail,
                    },
                ),
            },
        },
{
    assert((seq![item] + rest).first() == item);
    assert((seq![item] + rest).drop_first() =~= rest);
}

} // verus!
