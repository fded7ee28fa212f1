//! The items of an XML document, read one after the other.
use quick_xml::events::BytesText;
use quick_xml::events::Event::{
    CData, Comment, Decl, DocType, Empty, End, Eof, Start, Text, PI,
};
use quick_xml::Reader;
use vstd::prelude::*;

verus! {

/// An attribute of a tag, as it is written: its value is not unescaped.
#[derive(Debug)]
pub struct XmlAttribute {
    pub key: Vec<u8>,
    pub value: Vec<u8>,
}

/// What an `XmlAttribute` holds.
pub struct XmlAttributeView {
    pub key: Seq<u8>,
    pub value: Seq<u8>,
}

/// One thing that is met when a document is read from start to end.
#[derive(Debug)]
pub enum XmlEvent {
    /// An opening tag. An attribute that is not well-formed is `None`.
    Start { name: Vec<u8>, attributes: Vec<Option<XmlAttribute>> },
    /// A closing tag.
    End { name: Vec<u8> },
    /// Text between tags, unescaped and decoded, or why that could not be done.
    Text { content: Result<String, String> },
    /// An empty element, a comment, character data, a declaration, an instruction or a document
    /// type.
    Other,
    /// The end of the document.
    Eof,
    /// The document is not well-formed.
    Failed { detail: String },
}

/// What an `XmlEvent` holds.
pub enum XmlEventView {
    Start { name: Seq<u8>, attributes: Seq<Option<XmlAttributeView>> },
    End { name: Seq<u8> },
    Text { content: Result<Seq<char>, Seq<char>> },
    Other,
    Eof,
    Failed { detail: Seq<char> },
}

/// An event and the byte position that the reader had reached behind it.
#[derive(Debug)]
pub struct XmlItem {
    pub event: XmlEvent,
    pub position: usize,
}

/// What an `XmlItem` holds.
pub struct XmlItemView {
    pub event: XmlEventView,
    pub position: usize,
}

/// What an attribute holds, where there is one.
pub open spec fn attribute_view(attribute: Option<XmlAttribute>) -> Option<XmlAttributeView> {
    match attribute {
        Some(attribute) => Some(
            XmlAttributeView { key: attribute.key@, value: attribute.value@ },
        ),
        None => None,
    }
}

/// What the attributes of a tag hold.
pub open spec fn attribute_views(attributes: Seq<Option<XmlAttribute>>) -> Seq<
    Option<XmlAttributeView>,
> {
    attributes.map_values(|attribute: Option<XmlAttribute>| attribute_view(attribute))
}

/// What a text, or the reason why there is none, holds.
pub open spec fn content_view(content: Result<String, String>) -> Result<Seq<char>, Seq<char>> {
    match content {
        Ok(text) => Ok(text@),
        Err(detail) => Err(detail@),
    }
}

impl View for XmlEvent {
    type V = XmlEventView;

    open spec fn view(&self) -> XmlEventView {
        match *self {
            XmlEvent::Start { name, attributes } => XmlEventView::Start {
                name: name@,
                attributes: attribute_views(attributes@),
            },
            XmlEvent::End { name } => XmlEventView::End { name: name@ },
            XmlEvent::Text { content } => XmlEventView::Text { content: content_view(content) },
            XmlEvent::Other => XmlEventView::Other,
            XmlEvent::Eof => XmlEventView::Eof,
            XmlEvent::Failed { detail } => XmlEventView::Failed { detail: detail@ },
        }
    }
}

impl View for XmlItem {
    type V = XmlItemView;

    open spec fn view(&self) -> XmlItemView {
        XmlItemView { event: self.event@, position: self.position }
    }
}

/// What the items of a list hold.
pub open spec fn item_views(items: Seq<XmlItem>) -> Seq<XmlItemView> {
    items.map_values(|item: XmlItem| item@)
}

/// Whether nothing follows an event in its document.
pub open spec fn is_final(event: XmlEventView) -> bool {
    event is Eof || event is Failed
}

// ---------------------------------------------------------------------------
// Reading a document
// ---------------------------------------------------------------------------

/// An event as the reader hands it out: its text is still escaped and encoded.
pub(crate) enum RawEvent {
    Start(Vec<u8>, Vec<Option<XmlAttribute>>),
    End(Vec<u8>),
    Text(Vec<u8>),
    Other,
    Eof,
    Failed(String),
}

/// A document that is being read, from the items that are pending in it. What is inside is a
/// `quick_xml::Reader`, of which only the names below and the functions that speak of them are
/// known.
#[verifier::external_body]
pub struct Document<'a> {
    reader: Reader<&'a [u8]>,
}

/// The items that `quick_xml::Reader` finds in a text, up to and with the end of the document
/// or the first error.
pub uninterp spec fn document_items(text: Seq<char>) -> Seq<XmlItemView>;

/// The items of a document that have not been read yet.
pub uninterp spec fn pending_items(document: Document) -> Seq<XmlItemView>;

/// The byte position that the reading of a document has reached.
pub uninterp spec fn position_in(document: Document) -> usize;

/// What `BytesText::unescape_and_decode` makes of an escaped text of a document: the text, or
/// the debug representation of the error.
pub uninterp spec fn text_in(document: Document, escaped: Seq<u8>) -> Result<Seq<char>, Seq<char>>;

/// Calls `quick_xml::Reader::from_str`. Trusted: the items that a new reader hands out depend
/// on the text alone; there are finitely many, since each but the final one takes up at least
/// one byte of the text, and the final one is the end of the document or an error.
#[verifier::external_body]
pub(crate) fn open_document(text: &str) -> (document: Document<'_>)
    ensures
        pending_items(document) == document_items(text@),
        pending_items(document).len() > 0,
        is_final(pending_items(document).last().event),
{
    Document { reader: Reader::from_str(text) }
}

/// What the event of an item is before its text is decoded in `document`.
pub(crate) open spec fn is_raw_event_of(
    raw: RawEvent,
    event: XmlEventView,
    document: Document,
) -> bool {
    match raw {
        RawEvent::Start(name, attributes) => event == XmlEventView::Start {
            name: name@,
            attributes: attribute_views(attributes@),
        },
        RawEvent::End(name) => event == XmlEventView::End { name: name@ },
        RawEvent::Text(escaped) => event == XmlEventView::Text {
            content: text_in(document, escaped@),
        },
        RawEvent::Other => event == XmlEventView::Other,
        RawEvent::Eof => event == XmlEventView::Eof,
        RawEvent::Failed(detail) => event == XmlEventView::Failed { detail: detail@ },
    }
}

/// Calls `quick_xml::Reader::read_event` with an empty buffer. Trusted: it goes past the first
/// of the pending items and leaves the others pending. The event of that item is copied out:
/// the name of a tag, its attributes as `BytesStart::attributes` finds them, the text as it is
/// written, and an error as it shows itself under `{:?}`. Nothing is copied out of an empty
/// element, a comment, character data, a declaration, an instruction or a document type. The
/// position of the item is the one that the reading has then reached, and its text is what the
/// reader would then decode.
#[verifier::external_body]
fn next_event(document: &mut Document) -> (event: RawEvent)
    requires
        pending_items(*old(document)).len() > 0,
    ensures
        is_raw_event_of(event, pending_items(*old(document)).first().event, *final(document)),
        position_in(*final(document)) == pending_items(*old(document)).first().position,
        pending_items(*final(document)) == pending_items(*old(document)).drop_first(),
{
    match document.reader.read_event(&mut Vec::new()) {
        Ok(Start(e)) => RawEvent::Start(
            e.name().to_vec(),
            e.attributes().map(|a| a.ok().map(|a| XmlAttribute { key: a.key.to_vec(), value: a.value.to_vec() })).collect()
        ),
        Ok(End(e)) => RawEvent::End(e.name().to_vec()),
        Ok(Text(e)) => RawEvent::Text(e.escaped().to_vec()),
        Ok(Empty(_) | Comment(_) | CData(_) | Decl(_) | PI(_) | DocType(_)) => RawEvent::Other,
        Ok(Eof) => RawEvent::Eof,
        Err(err) => RawEvent::Failed(format!("{:?}", err))
    }
}

/// Calls `quick_xml::Reader::buffer_position`. Trusted: it tells the position that the reading
/// has reached.
#[verifier::external_body]
fn position(document: &Document) -> (reached: usize)
    ensures
        reached == position_in(*document),
{
    document.reader.buffer_position()
}

/// Calls `BytesText::unescape_and_decode` with the reader of the document, whose declared
/// encoding counts. Trusted: what comes out depends on the document, as far as it has been
/// read, and the escaped text alone. An error is handed out as it shows itself under `{:?}`.
#[verifier::external_body]
fn decode_text(document: &Document, escaped: &Vec<u8>) -> (content: Result<String, String>)
    ensures
        content_view(content) == text_in(*document, escaped@),
{
    BytesText::from_escaped(escaped.as_slice())
        .unescape_and_decode(&document.reader)
        .map_err(|err| format!("{:?}", err))
}

/// Reads the next item of a document.
pub(crate) fn next_item(document: &mut Document) -> (item: XmlItem)
    requires
        pending_items(*old(document)).len() > 0,
    ensures
        item@ == pending_items(*old(document)).first(),
        pending_items(*final(document)) == pending_items(*old(document)).drop_first(),
{
    let raw = next_event(document);
    let position = position(document);
    let event = match raw {
        RawEvent::Start(name, attributes) => XmlEvent::Start { name, attributes },
        RawEvent::End(name) => XmlEvent::End { name },
        RawEvent::Text(escaped) => XmlEvent::Text { content: decode_text(document, &escaped) },
        RawEvent::Other => XmlEvent::Other,
        RawEvent::Eof => XmlEvent::Eof,
        RawEvent::Failed(detail) => XmlEvent::Failed { detail },
    };
    XmlItem { event, position }
}

} // verus!
