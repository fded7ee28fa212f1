//! The listing of a package: an XML document with one entry for each file and directory.
use vstd::prelude::*;
use vstd::utf8::{decode_utf8, encode_utf8, valid_utf8};

use crate::clock::{naive_datetime, parse_datetime};
use crate::text::{
    append_decimal, bytes_are, decimal, i32_error_text, optional_text, parse_i32, parsed_i32,
    text_from_utf8, texts_equal, utf8_error_text,
};
use crate::types::{file_views, FileWithoutSha, FileWithoutShaView, Timestamp};
use crate::xml::{
    attribute_view, attribute_views, content_view, document_items, is_final, item_views, next_item,
    open_document, pending_items, XmlAttribute, XmlAttributeView, XmlEvent, XmlEventView, XmlItem,
    XmlItemView,
};

verus! {

// ---------------------------------------------------------------------------
// Errors
// ---------------------------------------------------------------------------

/// What is wrong with a listing that is well-formed XML.
#[derive(Clone, Copy, Debug, PartialEq, Eq, Structural)]
pub enum ListingErrorKind {
    /// An attribute of a commit is not UTF-8.
    Utf8,
    /// A text cannot be unescaped.
    Decoding,
    /// A revision is not a number.
    Revision,
    /// A date cannot be read.
    Datetime,
    /// A size is not a number.
    Size,
}

/// Why a listing is rejected, and where.
#[derive(Debug)]
pub struct ListingError {
    pub kind: ListingErrorKind,
    pub position: usize,
    pub detail: String,
}

/// What a `ListingError` holds.
pub struct ListingErrorView {
    pub kind: ListingErrorKind,
    pub position: usize,
    pub detail: Seq<char>,
}

impl View for ListingError {
    type V = ListingErrorView;

    open spec fn view(&self) -> ListingErrorView {
        ListingErrorView { kind: self.kind, position: self.position, detail: self.detail@ }
    }
}

/// How the message of an error begins.
pub open spec fn heading(kind: ListingErrorKind) -> Seq<char> {
    match kind {
        ListingErrorKind::Utf8 => "UTF8 decoding error"@,
        ListingErrorKind::Decoding => "Decoding error"@,
        ListingErrorKind::Revision => "Revision number parsing error"@,
        ListingErrorKind::Datetime => "Datetime parsing error"@,
        ListingErrorKind::Size => "File size number parsing error"@,
    }
}

/// A message that names a place in a document.
pub open spec fn message_at(heading: Seq<char>, position: usize, detail: Seq<char>) -> Seq<char> {
    heading + " at position "@ + decimal(position as nat) + ": "@ + detail
}

/// Writes a message that names a place in a document.
pub fn message_text(heading: &str, position: usize, detail: &str) -> (text: String)
    ensures
        text@ == message_at(heading@, position, detail@),
        text@ == heading@ + " at position "@ + decimal(position as nat) + ": "@ + detail@,
{
    let mut text = heading.to_owned();
    text.append(" at position ");
    append_decimal(&mut text, position as u64);
    text.append(": ");
    text.append(detail);
    text
}

/// What is wrong, wherever it stands.
pub struct FaultView {
    pub kind: ListingErrorKind,
    pub detail: Seq<char>,
}

impl FaultView {
    /// The error that a fault at `position` is.
    pub open spec fn at(self, position: usize) -> ListingErrorView {
        ListingErrorView { kind: self.kind, position, detail: self.detail }
    }
}

impl ListingErrorView {
    /// The message that describes the error.
    pub open spec fn message(self) -> Seq<char> {
        message_at(heading(self.kind), self.position, self.detail)
    }
}

impl ListingError {
    /// The message that describes the error.
    pub fn message(&self) -> (text: String)
        ensures
            text@ == self@.message(),
    {
        let heading = match self.kind {
            ListingErrorKind::Utf8 => "UTF8 decoding error",
            ListingErrorKind::Decoding => "Decoding error",
            ListingErrorKind::Revision => "Revision number parsing error",
            ListingErrorKind::Datetime => "Datetime parsing error",
            ListingErrorKind::Size => "File size number parsing error",
        };
        message_text(heading, self.position, self.detail.as_str())
    }
}

// ---------------------------------------------------------------------------
// What the items of a listing mean
// ---------------------------------------------------------------------------

/// The form in which a listing writes dates.
pub const DATE_FORMAT: &'static str = "%Y-%m-%dT%H:%M:%S.%fZ";

/// What an entry says about a file; each part may be missing.
pub struct EntryFactsView {
    pub name: Option<Seq<char>>,
    pub size: Option<i32>,
    pub revision: Option<i32>,
    pub author: Option<Seq<char>>,
    pub date: Option<Timestamp>,
}

/// Of two statements about the same thing, the later one counts.
pub open spec fn later_of<T>(earlier: Option<T>, later: Option<T>) -> Option<T> {
    match later {
        Some(_) => later,
        None => earlier,
    }
}

impl EntryFactsView {
    /// Nothing has been said.
    pub open spec fn nothing() -> EntryFactsView {
        EntryFactsView { name: None, size: None, revision: None, author: None, date: None }
    }

    /// What has been said once `later` is said as well.
    pub open spec fn and(self, later: EntryFactsView) -> EntryFactsView {
        EntryFactsView {
            name: later_of(self.name, later.name),
            size: later_of(self.size, later.size),
            revision: later_of(self.revision, later.revision),
            author: later_of(self.author, later.author),
            date: later_of(self.date, later.date),
        }
    }

    /// The file that is described, if everything is said about it.
    pub open spec fn file(self) -> Option<FileWithoutShaView> {
        match (self.name, self.size, self.revision, self.author, self.date) {
            (Some(path), Some(size), Some(revision), Some(last_author), Some(last_changed)) => Some(
                FileWithoutShaView { path, size, revision, last_author, last_changed },
            ),
            _ => None,
        }
    }
}

/// A part of an entry that is written as the text of a tag.
pub enum Field {
    Name,
    Size,
    Author,
    Date,
}

/// What could be made of a date.
pub open spec fn date_facts(date: Result<Timestamp, Seq<char>>) -> Result<
    EntryFactsView,
    FaultView,
> {
    match date {
        Ok(date) => Ok(EntryFactsView { date: Some(date), ..EntryFactsView::nothing() }),
        Err(detail) => Err(FaultView { kind: ListingErrorKind::Datetime, detail }),
    }
}

/// What a text says that stands in the tag of a field.
pub open spec fn text_facts(field: Field, content: Result<Seq<char>, Seq<char>>) -> Result<
    EntryFactsView,
    FaultView,
> {
    match content {
        Err(detail) => Err(FaultView { kind: ListingErrorKind::Decoding, detail }),
        Ok(text) => match field {
            Field::Name => Ok(
                EntryFactsView { name: Some(text), ..EntryFactsView::nothing() },
            ),
            Field::Author => Ok(
                EntryFactsView { author: Some(text), ..EntryFactsView::nothing() },
            ),
            Field::Date => date_facts(naive_datetime(text, DATE_FORMAT@)),
            Field::Size => match parsed_i32(text) {
                Some(size) => Ok(
                    EntryFactsView { size: Some(size), ..EntryFactsView::nothing() },
                ),
                None => Err(
                    FaultView { kind: ListingErrorKind::Size, detail: i32_error_text(text) },
                ),
            },
        },
    }
}

/// What the value of a revision attribute says.
pub open spec fn revision_facts(value: Seq<u8>) -> Result<EntryFactsView, FaultView> {
    if !valid_utf8(value) {
        Err(FaultView { kind: ListingErrorKind::Utf8, detail: utf8_error_text(value) })
    } else {
        match parsed_i32(decode_utf8(value)) {
            Some(number) => Ok(
                EntryFactsView { revision: Some(number), ..EntryFactsView::nothing() },
            ),
            None => Err(
                FaultView {
                    kind: ListingErrorKind::Revision,
                    detail: i32_error_text(decode_utf8(value)),
                },
            ),
        }
    }
}

/// What the attributes of a commit say. They count in their order, up to the first one called
/// `revision`; malformed ones are passed over.
pub open spec fn commit_facts(attributes: Seq<Option<XmlAttributeView>>) -> Result<
    EntryFactsView,
    FaultView,
>
    decreases attributes.len(),
{
    if attributes.len() == 0 {
        Ok(EntryFactsView::nothing())
    } else {
        match attributes.first() {
            None => commit_facts(attributes.drop_first()),
            Some(attribute) => if !valid_utf8(attribute.key) {
                Err(
                    FaultView {
                        kind: ListingErrorKind::Utf8,
                        detail: utf8_error_text(attribute.key),
                    },
                )
            } else if decode_utf8(attribute.key) != "revision"@ {
                commit_facts(attributes.drop_first())
            } else {
                revision_facts(attribute.value)
            },
        }
    }
}

/// Whether a tag is called `name`.
pub open spec fn is_called(tag: Seq<u8>, name: &str) -> bool {
    tag == encode_utf8(name@)
}

/// Whether an attribute says that an entry is a file.
pub open spec fn says_file(attribute: Option<XmlAttributeView>) -> bool {
    match attribute {
        Some(attribute) => is_called(attribute.key, "kind") && is_called(attribute.value, "file"),
        None => false,
    }
}

/// Whether the attributes of an entry say that it is a file.
pub open spec fn is_file_entry(attributes: Seq<Option<XmlAttributeView>>) -> bool {
    exists|i: int| 0 <= i < attributes.len() && says_file(#[trigger] attributes[i])
}

/// What has been read of a listing: the files of the entries that are closed, what the other
/// file entries among them said, where in an entry the reading stands, and what the open entry
/// says so far.
pub struct ListingStateView {
    pub files: Seq<FileWithoutShaView>,
    pub incomplete: Seq<EntryFactsView>,
    pub in_file_entry: bool,
    pub in_name: bool,
    pub in_author: bool,
    pub in_date: bool,
    pub in_size: bool,
    pub facts: EntryFactsView,
}

/// Nothing has been read yet.
pub open spec fn initial_state() -> ListingStateView {
    ListingStateView {
        files: Seq::empty(),
        incomplete: Seq::empty(),
        in_file_entry: false,
        in_name: false,
        in_author: false,
        in_date: false,
        in_size: false,
        facts: EntryFactsView::nothing(),
    }
}

impl ListingStateView {
    /// After something is said about the file of the open entry.
    pub open spec fn told(self, facts: Result<EntryFactsView, FaultView>) -> Result<
        ListingStateView,
        FaultView,
    > {
        match facts {
            Ok(facts) => Ok(ListingStateView { facts: self.facts.and(facts), ..self }),
            Err(fault) => Err(fault),
        }
    }

    /// After an opening tag.
    pub open spec fn after_start(
        self,
        tag: Seq<u8>,
        attributes: Seq<Option<XmlAttributeView>>,
    ) -> Result<ListingStateView, FaultView> {
        if is_called(tag, "entry") {
            Ok(ListingStateView { in_file_entry: is_file_entry(attributes), ..self })
        } else if !self.in_file_entry {
            Ok(self)
        } else if is_called(tag, "author") {
            Ok(ListingStateView { in_author: true, ..self })
        } else if is_called(tag, "date") {
            Ok(ListingStateView { in_date: true, ..self })
        } else if is_called(tag, "name") {
            Ok(ListingStateView { in_name: true, ..self })
        } else if is_called(tag, "size") {
            Ok(ListingStateView { in_size: true, ..self })
        } else if is_called(tag, "commit") {
            self.told(commit_facts(attributes))
        } else {
            Ok(self)
        }
    }

    /// The field that a text would belong to. Where several tags are open, the first of name,
    /// date, author and size counts.
    pub open spec fn open_field(self) -> Option<Field> {
        if self.in_name {
            Some(Field::Name)
        } else if self.in_date {
            Some(Field::Date)
        } else if self.in_author {
            Some(Field::Author)
        } else if self.in_size {
            Some(Field::Size)
        } else {
            None
        }
    }

    /// After a text.
    pub open spec fn after_text(self, content: Result<Seq<char>, Seq<char>>) -> Result<
        ListingStateView,
        FaultView,
    > {
        match self.open_field() {
            Some(field) => self.told(text_facts(field, content)),
            None => Ok(self),
        }
    }

    /// After the end of an entry. A file entry yields a file if it said everything about it, and
    /// is noted as incomplete if not. Nothing that an entry says outlives its end.
    pub open spec fn after_entry(self) -> ListingStateView {
        ListingStateView {
            files: if self.in_file_entry && self.facts.file() is Some {
                self.files.push(self.facts.file()->0)
            } else {
                self.files
            },
            incomplete: if self.in_file_entry && self.facts.file() is None {
                self.incomplete.push(self.facts)
            } else {
                self.incomplete
            },
            in_file_entry: false,
            facts: EntryFactsView::nothing(),
            ..self
        }
    }

    /// After a closing tag.
    pub open spec fn after_end(self, tag: Seq<u8>) -> ListingStateView {
        if is_called(tag, "author") {
            ListingStateView { in_author: false, ..self }
        } else if is_called(tag, "date") {
            ListingStateView { in_date: false, ..self }
        } else if is_called(tag, "name") {
            ListingStateView { in_name: false, ..self }
        } else if is_called(tag, "size") {
            ListingStateView { in_size: false, ..self }
        } else if is_called(tag, "entry") {
            self.after_entry()
        } else {
            self
        }
    }

    /// After one event that is not the final one.
    pub open spec fn after(self, event: XmlEventView) -> Result<ListingStateView, FaultView> {
        match event {
            XmlEventView::Start { name, attributes } => self.after_start(name, attributes),
            XmlEventView::Text { content } => self.after_text(content),
            XmlEventView::End { name } => Ok(self.after_end(name)),
            _ => Ok(self),
        }
    }
}

/// What comes of reading a listing.
#[derive(Debug)]
pub enum Listing {
    /// The files that it describes, in its order, and what is said by the file entries that do
    /// not say everything.
    Files { files: Vec<FileWithoutSha>, incomplete: Vec<EntryFacts> },
    /// It is XML, but not a listing.
    Rejected(ListingError),
    /// It is not XML.
    Malformed { position: usize, detail: String },
}

/// What a `Listing` holds.
pub enum ListingView {
    Files { files: Seq<FileWithoutShaView>, incomplete: Seq<EntryFactsView> },
    Rejected(ListingErrorView),
    Malformed { position: usize, detail: Seq<char> },
}

impl View for Listing {
    type V = ListingView;

    open spec fn view(&self) -> ListingView {
        match *self {
            Listing::Files { files, incomplete } => ListingView::Files {
                files: file_views(files@),
                incomplete: facts_views(incomplete@),
            },
            Listing::Rejected(error) => ListingView::Rejected(error@),
            Listing::Malformed { position, detail } => ListingView::Malformed {
                position,
                detail: detail@,
            },
        }
    }
}

/// What comes of reading `items` when `state` has been read before. The reading ends with the
/// first item that is final or that is in error, and with the last item at the latest.
pub open spec fn listing_of(state: ListingStateView, items: Seq<XmlItemView>) -> ListingView
    decreases items.len(),
{
    if items.len() == 0 {
        ListingView::Files { files: state.files, incomplete: state.incomplete }
    } else {
        let item = items.first();
        match item.event {
            XmlEventView::Eof => ListingView::Files {
                files: state.files,
                incomplete: state.incomplete,
            },
            XmlEventView::Failed { detail } => ListingView::Malformed {
                position: item.position,
                detail,
            },
            _ => match state.after(item.event) {
                Ok(next) => listing_of(next, items.drop_first()),
                Err(fault) => ListingView::Rejected(fault.at(item.position)),
            },
        }
    }
}

// ---------------------------------------------------------------------------
// Reading a listing
// ---------------------------------------------------------------------------

/// What an entry says about a file; each part may be missing.
#[derive(Debug)]
pub struct EntryFacts {
    pub name: Option<String>,
    pub size: Option<i32>,
    pub revision: Option<i32>,
    pub author: Option<String>,
    pub date: Option<Timestamp>,
}

impl View for EntryFacts {
    type V = EntryFactsView;

    open spec fn view(&self) -> EntryFactsView {
        EntryFactsView {
            name: optional_text(self.name),
            size: self.size,
            revision: self.revision,
            author: optional_text(self.author),
            date: self.date,
        }
    }
}

/// What a list of facts holds.
pub open spec fn facts_views(facts: Seq<EntryFacts>) -> Seq<EntryFactsView> {
    facts.map_values(|said: EntryFacts| said@)
}

impl EntryFacts {
    /// Nothing has been said.
    pub fn nothing() -> (facts: EntryFacts)
        ensures
            facts@ == EntryFactsView::nothing(),
    {
        EntryFacts { name: None, size: None, revision: None, author: None, date: None }
    }
}

/// What has been read of a listing.
pub struct ListingState {
    files: Vec<FileWithoutSha>,
    incomplete: Vec<EntryFacts>,
    in_file_entry: bool,
    in_name: bool,
    in_author: bool,
    in_date: bool,
    in_size: bool,
    facts: EntryFacts,
}

impl View for ListingState {
    type V = ListingStateView;

    closed spec fn view(&self) -> ListingStateView {
        ListingStateView {
            files: file_views(self.files@),
            incomplete: facts_views(self.incomplete@),
            in_file_entry: self.in_file_entry,
            in_name: self.in_name,
            in_author: self.in_author,
            in_date: self.in_date,
            in_size: self.in_size,
            facts: self.facts@,
        }
    }
}

/// Whether the attributes of an entry say that it is a file.
fn file_entry(attributes: &Vec<Option<XmlAttribute>>) -> (file: bool)
    ensures
        file == is_file_entry(attribute_views(attributes@)),
{
    let ghost views = attribute_views(attributes@);
    for i in 0..attributes.len()
        invariant
            views == attribute_views(attributes@),
            forall|j: int| 0 <= j < i ==> !says_file(#[trigger] views[j]),
    {
        assert(views[i as int] == attribute_view(attributes@[i as int]));
        if let Some(attribute) = &attributes[i] {
            if bytes_are(attribute.key.as_slice(), "kind") && bytes_are(
                attribute.value.as_slice(),
                "file",
            ) {
                assert(says_file(views[i as int]));
                return true;
            }
        }
    }
    false
}

/// An error of `kind` at `position`.
fn error_at(kind: ListingErrorKind, position: usize, detail: String) -> (error: ListingError)
    ensures
        error@ == (FaultView { kind, detail: detail@ }).at(position),
{
    ListingError { kind, position, detail }
}

/// The number that a revision attribute gives.
fn read_revision(value: &Vec<u8>, position: usize) -> (number: Result<i32, ListingError>)
    ensures
        match (number, revision_facts(value@)) {
            (Ok(number), Ok(facts)) => facts == (EntryFactsView {
                revision: Some(number),
                ..EntryFactsView::nothing()
            }),
            (Err(error), Err(fault)) => error@ == fault.at(position),
            _ => false,
        },
{
    match text_from_utf8(value.as_slice()) {
        Err(detail) => Err(error_at(ListingErrorKind::Utf8, position, detail)),
        Ok(text) => match parse_i32(text) {
            Ok(number) => Ok(number),
            Err(detail) => Err(error_at(ListingErrorKind::Revision, position, detail)),
        },
    }
}

/// The revision that the attributes of a commit give, if they give one.
fn read_commit(attributes: &Vec<Option<XmlAttribute>>, position: usize) -> (revision: Result<
    Option<i32>,
    ListingError,
>)
    ensures
        match (revision, commit_facts(attribute_views(attributes@))) {
            (Ok(revision), Ok(facts)) => facts == (EntryFactsView {
                revision,
                ..EntryFactsView::nothing()
            }),
            (Err(error), Err(fault)) => error@ == fault.at(position),
            _ => false,
        },
{
    let ghost views = attribute_views(attributes@);
    assert(views.skip(0) =~= views);
    for i in 0..attributes.len()
        invariant
            views == attribute_views(attributes@),
            commit_facts(views) == commit_facts(views.skip(i as int)),
    {
        assert(views.skip(i as int).first() == attribute_view(attributes@[i as int]));
        assert(views.skip(i as int).drop_first() =~= views.skip(i + 1));
        if let Some(attribute) = &attributes[i] {
            match text_from_utf8(attribute.key.as_slice()) {
                Err(detail) => {
                    return Err(error_at(ListingErrorKind::Utf8, position, detail));
                },
                Ok(key) => {
                    if texts_equal(key, "revision") {
                        return match read_revision(&attribute.value, position) {
                            Ok(number) => Ok(Some(number)),
                            Err(error) => Err(error),
                        };
                    }
                },
            }
        }
    }
    assert(views.skip(attributes@.len() as int).len() == 0);
    Ok(None)
}

/// How the outcome of a step shows in the state: it is `after`, or the fault at `position`.
pub open spec fn is_step(
    done: Result<(), ListingError>,
    reached: ListingStateView,
    after: Result<ListingStateView, FaultView>,
    position: usize,
) -> bool {
    match (done, after) {
        (Ok(()), Ok(after)) => reached == after,
        (Err(error), Err(fault)) => error@ == fault.at(position),
        _ => false,
    }
}

/// What could be made of a date, as far as it is text.
pub open spec fn date_view(date: Result<Timestamp, String>) -> Result<Timestamp, Seq<char>> {
    match date {
        Ok(date) => Ok(date),
        Err(detail) => Err(detail@),
    }
}

impl ListingState {
    /// Nothing has been read yet.
    pub fn new() -> (state: ListingState)
        ensures
            state@ == initial_state(),
    {
        let state = ListingState {
            files: Vec::new(),
            incomplete: Vec::new(),
            in_file_entry: false,
            in_name: false,
            in_author: false,
            in_date: false,
            in_size: false,
            facts: EntryFacts::nothing(),
        };
        assert(state@.files =~= Seq::<FileWithoutShaView>::empty());
        assert(state@.incomplete =~= Seq::<EntryFactsView>::empty());
        state
    }

    /// Goes past an opening tag.
    fn start(
        &mut self,
        tag: &Vec<u8>,
        attributes: &Vec<Option<XmlAttribute>>,
        position: usize,
    ) -> (done: Result<(), ListingError>)
        ensures
            is_step(
                done,
                final(self)@,
                old(self)@.after_start(tag@, attribute_views(attributes@)),
                position,
            ),
    {
        if bytes_are(tag.as_slice(), "entry") {
            self.in_file_entry = file_entry(attributes);
        } else if self.in_file_entry {
            if bytes_are(tag.as_slice(), "author") {
                self.in_author = true;
            } else if bytes_are(tag.as_slice(), "date") {
                self.in_date = true;
            } else if bytes_are(tag.as_slice(), "name") {
                self.in_name = true;
            } else if bytes_are(tag.as_slice(), "size") {
                self.in_size = true;
            } else if bytes_are(tag.as_slice(), "commit") {
                match read_commit(attributes, position) {
                    Ok(Some(revision)) => {
                        self.facts.revision = Some(revision);
                    },
                    Ok(None) => {},
                    Err(error) => {
                        return Err(error);
                    },
                }
            }
        }
        Ok(())
    }

    /// Goes past a date, of which `date` is what could be made of it.
    pub fn date(&mut self, date: Result<Timestamp, String>, position: usize) -> (done: Result<
        (),
        ListingError,
    >)
        ensures
            is_step(done, final(self)@, old(self)@.told(date_facts(date_view(date))), position),
            match (date, done) {
                (Ok(date), Ok(())) => final(self)@ == (ListingStateView {
                    facts: EntryFactsView { date: Some(date), ..old(self)@.facts },
                    ..old(self)@
                }),
                (Err(detail), Err(error)) => error.kind == ListingErrorKind::Datetime
                    && error.position == position && error.detail@ == detail@,
                _ => false,
            },
    {
        match date {
            Ok(date) => {
                self.facts.date = Some(date);
                Ok(())
            },
            Err(detail) => Err(error_at(ListingErrorKind::Datetime, position, detail)),
        }
    }

    /// Goes past a text.
    fn text(&mut self, content: Result<String, String>, position: usize) -> (done: Result<
        (),
        ListingError,
    >)
        ensures
            is_step(
                done,
                final(self)@,
                old(self)@.after_text(content_view(content)),
                position,
            ),
    {
        if !self.in_name && !self.in_date && !self.in_author && !self.in_size {
            return Ok(());
        }
        let text = match content {
            Ok(text) => text,
            Err(detail) => {
                return Err(error_at(ListingErrorKind::Decoding, position, detail));
            },
        };
        if self.in_name {
            self.facts.name = Some(text);
        } else if self.in_date {
            return self.date(parse_datetime(text.as_str(), DATE_FORMAT), position);
        } else if self.in_author {
            self.facts.author = Some(text);
        } else {
            match parse_i32(text.as_str()) {
                Ok(size) => {
                    self.facts.size = Some(size);
                },
                Err(detail) => {
                    return Err(error_at(ListingErrorKind::Size, position, detail));
                },
            }
        }
        Ok(())
    }

    /// Closes the open entry.
    fn close_entry(&mut self)
        ensures
            final(self)@ == old(self)@.after_entry(),
    {
        let ghost files = self.files@;
        let ghost incomplete = self.incomplete@;
        let name = self.facts.name.take();
        let author = self.facts.author.take();
        let facts = EntryFacts {
            name,
            size: self.facts.size,
            revision: self.facts.revision,
            author,
            date: self.facts.date,
        };
        if self.in_file_entry {
            let ghost said = facts@;
            match facts {
                EntryFacts {
                    name: Some(path),
                    size: Some(size),
                    revision: Some(revision),
                    author: Some(last_author),
                    date: Some(last_changed),
                } => {
                    self.files.push(
                        FileWithoutSha { path, size, revision, last_author, last_changed },
                    );
                    assert(file_views(self.files@) =~= file_views(files).push(said.file()->0));
                },
                partial => {
                    self.incomplete.push(partial);
                    assert(facts_views(self.incomplete@) =~= facts_views(incomplete).push(said));
                },
            }
        }
        self.in_file_entry = false;
        self.facts.size = None;
        self.facts.revision = None;
        self.facts.date = None;
    }

    /// Goes past a closing tag.
    fn end(&mut self, tag: &Vec<u8>)
        ensures
            final(self)@ == old(self)@.after_end(tag@),
    {
        if bytes_are(tag.as_slice(), "author") {
            self.in_author = false;
        } else if bytes_are(tag.as_slice(), "date") {
            self.in_date = false;
        } else if bytes_are(tag.as_slice(), "name") {
            self.in_name = false;
        } else if bytes_are(tag.as_slice(), "size") {
            self.in_size = false;
        } else if bytes_are(tag.as_slice(), "entry") {
            self.close_entry();
        }
    }

    /// Goes past one item that is not the final one.
    pub fn advance(&mut self, item: XmlItem) -> (done: Result<(), ListingError>)
        ensures
            is_step(done, final(self)@, old(self)@.after(item.event@), item.position),
            match (old(self)@.after(item.event@), done) {
                (Ok(next), Ok(())) => final(self)@ == next,
                (Err(fault), Err(error)) => error.kind == fault.kind && error.position
                    == item.position && error.detail@ == fault.detail,
                _ => false,
            },
    {
        match item.event {
            XmlEvent::Start { name, attributes } => self.start(&name, &attributes, item.position),
            XmlEvent::Text { content } => self.text(content, item.position),
            XmlEvent::End { name } => {
                self.end(&name);
                Ok(())
            },
            _ => Ok(()),
        }
    }

    /// What has been found when the reading ends here.
    pub fn finish(self) -> (listing: Listing)
        ensures
            listing@ == (ListingView::Files {
                files: self@.files,
                incomplete: self@.incomplete,
            }),
    {
        Listing::Files { files: self.files, incomplete: self.incomplete }
    }
}

/// Reads a listing that is given item by item.
pub fn read_items(items: Vec<XmlItem>) -> (listing: Listing)
    ensures
        listing@ == listing_of(initial_state(), item_views(items@)),
{
    let ghost views = item_views(items@);
    let mut state = ListingState::new();
    assert(views.skip(0) =~= views);
    for item in it: items
        invariant
            views == item_views(it.seq()),
            listing_of(initial_state(), views) == listing_of(state@, views.skip(it.index() as int)),
    {
        assert(views.skip(it.index() as int).first() == item@);
        assert(views.skip(it.index() as int).drop_first() =~= views.skip(it.index() + 1));
        let position = item.position;
        match item.event {
            XmlEvent::Eof => {
                return state.finish();
            },
            XmlEvent::Failed { detail } => {
                return Listing::Malformed { position, detail };
            },
            event => {
                if let Err(error) = state.advance(XmlItem { event, position }) {
                    return Listing::Rejected(error);
                }
            },
        }
    }
    assert(views.skip(views.len() as int).len() == 0);
    state.finish()
}

/// Reads a listing from its text.
pub fn read_listing(xml: &str) -> (listing: Listing)
    ensures
        listing@ == listing_of(initial_state(), document_items(xml@)),
{
    let mut document = open_document(xml);
    let mut state = ListingState::new();
    loop
        invariant
            pending_items(document).len() > 0,
            is_final(pending_items(document).last().event),
            listing_of(initial_state(), document_items(xml@)) == listing_of(
                state@,
                pending_items(document),
            ),
        decreases pending_items(document).len(),
    {
        let ghost pending = pending_items(document);
        let item = next_item(&mut document);
        let position = item.position;
        match item.event {
            XmlEvent::Eof => {
                return state.finish();
            },
            XmlEvent::Failed { detail } => {
                return Listing::Malformed { position, detail };
            },
            event => {
                assert(!is_final(pending.first().event));
                assert(pending.drop_first().last() == pending.last());
                if let Err(error) = state.advance(XmlItem { event, position }) {
                    return Listing::Rejected(error);
                }
            },
        }
    }
}

} // verus!
