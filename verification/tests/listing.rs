use package_worker::listing::{
    read_items, read_listing, EntryFacts, Listing, ListingErrorKind, ListingState,
};
use package_worker::types::{FileWithoutSha, Timestamp};
use package_worker::xml::{XmlAttribute, XmlEvent, XmlItem};

const LISTING: &str = r#"<?xml version="1.0" encoding="UTF-8"?>
<lists>
<list path="https://example.org/lang/trunk">
<entry
   kind="dir">
<name>src</name>
<commit
   revision="7">
<author>eve</author>
<date>2018-10-01T12:34:56.123456Z</date>
</commit>
</entry>
<entry
   kind="file">
<name>src/a&amp;b.lexc</name>
<size>1024</size>
<commit
   revision="12">
<author>alice</author>
<date>2018-10-01T12:34:56.123456Z</date>
</commit>
</entry>
<entry
   kind="file">
<name>README</name>
<size>5</size>
<commit
   revision="3">
<author>bob</author>
<date>1970-01-01T00:00:01.000000Z</date>
</commit>
</entry>
</list>
</lists>
"#;

fn files(listing: Listing) -> Vec<FileWithoutSha> {
    match listing {
        Listing::Files { files, .. } => files,
        other => panic!("not a list of files: {:?}", other),
    }
}

fn rejection(listing: Listing) -> (ListingErrorKind, usize, String, String) {
    match listing {
        Listing::Rejected(error) => {
            let message = error.message();
            (error.kind, error.position, error.detail, message)
        },
        other => panic!("not rejected: {:?}", other),
    }
}

fn start(name: &str, attributes: Vec<Option<XmlAttribute>>) -> XmlItem {
    XmlItem { event: XmlEvent::Start { name: name.as_bytes().to_vec(), attributes }, position: 11 }
}

fn end(name: &str) -> XmlItem {
    XmlItem { event: XmlEvent::End { name: name.as_bytes().to_vec() }, position: 12 }
}

fn text(content: &str) -> XmlItem {
    XmlItem { event: XmlEvent::Text { content: Ok(content.to_string()) }, position: 13 }
}

fn attribute(key: &[u8], value: &[u8]) -> Option<XmlAttribute> {
    Some(XmlAttribute { key: key.to_vec(), value: value.to_vec() })
}

fn file_entry() -> XmlItem {
    start("entry", vec![None, attribute(b"kind", b"file")])
}

/// The items of an entry that says everything.
fn complete_entry() -> Vec<XmlItem> {
    vec![
        file_entry(),
        text("\n"),
        start("name", vec![]),
        text("a.lexc"),
        end("name"),
        start("size", vec![]),
        text("10"),
        end("size"),
        start("commit", vec![attribute(b"other", b"1"), attribute(b"revision", b"4"), attribute(b"revision", b"x")]),
        start("author", vec![]),
        text("alice"),
        end("author"),
        start("date", vec![]),
        text("2018-10-01T12:34:56.5Z"),
        end("date"),
        end("commit"),
        end("entry"),
    ]
}

#[test]
fn listing_is_read() {
    let files = files(read_listing(LISTING));
    assert_eq!(files.len(), 2);
    assert_eq!(files[0].path, "src/a&b.lexc");
    assert_eq!(files[0].size, 1024);
    assert_eq!(files[0].revision, 12);
    assert_eq!(files[0].last_author, "alice");
    assert_eq!(files[0].last_changed.seconds, 1538397296);
    assert_eq!(files[0].last_changed.nanoseconds, 123456);
    assert_eq!(files[1].path, "README");
    assert_eq!(files[1].size, 5);
    assert_eq!(files[1].revision, 3);
    assert_eq!(files[1].last_author, "bob");
    assert_eq!(files[1].last_changed.seconds, 1);
    assert_eq!(files[1].last_changed.nanoseconds, 0);
}

#[test]
fn declared_encoding_is_used() {
    let xml = "<?xml version=\"1.0\" encoding=\"UTF-8\"?><entry kind='file'><name>s\u{e1}mi &#x10d;</name>\
               <size>1</size><commit revision=\"1\"><author>&lt;x&gt;</author>\
               <date>2018-10-01T12:34:56.0Z</date></commit></entry>";
    let files = files(read_listing(xml));
    assert_eq!(files.len(), 1);
    assert_eq!(files[0].path, "s\u{e1}mi \u{10d}");
    assert_eq!(files[0].last_author, "<x>");
}

#[test]
fn empty_document_has_no_files() {
    assert_eq!(files(read_listing("")).len(), 0);
    assert_eq!(files(read_items(vec![])).len(), 0);
}

#[test]
fn incomplete_entry_is_skipped() {
    let complete = "<name>b</name><size>2</size><commit revision=\"9\"><author>c</author>\
                    <date>2018-10-01T12:34:56.0Z</date></commit>";
    for missing in [
        "<name>b</name>",
        "<size>2</size>",
        " revision=\"9\"",
        "<author>c</author>",
        "<date>2018-10-01T12:34:56.0Z</date>",
    ] {
        let partial = complete.replace(missing, "");
        let xml = format!("<l><entry kind=\"file\">{}</entry><entry kind=\"file\">{}</entry></l>", partial, complete);
        let found = files(read_listing(&xml));
        assert_eq!(found.len(), 1, "without {}", missing);
        assert_eq!(found[0].path, "b");
        assert_eq!(found[0].revision, 9);
    }
}

#[test]
fn nothing_is_carried_to_the_next_entry() {
    let xml = "<l><entry kind=\"file\"><name>a</name><size>1</size></entry>\
               <entry kind=\"file\"><commit revision=\"1\"><author>c</author>\
               <date>2018-10-01T12:34:56.0Z</date></commit></entry></l>";
    assert_eq!(files(read_listing(xml)).len(), 0);
}

#[test]
fn given_items_are_read() {
    let mut items = vec![text("before"), start("list", vec![]), end("size")];
    items.extend(complete_entry());
    items.extend(complete_entry());
    items.push(XmlItem { event: XmlEvent::Eof, position: 99 });
    items.extend(complete_entry());
    let found = files(read_items(items));
    assert_eq!(found.len(), 2);
    assert_eq!(found[1].path, "a.lexc");
    assert_eq!(found[1].size, 10);
    assert_eq!(found[1].revision, 4);
    assert_eq!(found[1].last_author, "alice");
    assert_eq!(found[1].last_changed.seconds, 1538397296);
    assert_eq!(found[1].last_changed.nanoseconds, 5);
}

#[test]
fn directory_entries_are_passed_over() {
    let mut items = complete_entry();
    items[0] = start("entry", vec![attribute(b"kind", b"dir")]);
    // Nothing in a directory entry is looked at.
    items[6] = text("no number");
    assert_eq!(files(read_items(items)).len(), 0);
}

#[test]
fn empty_commit_tag_is_no_commit() {
    let xml = "<entry kind=\"file\"><name>a</name><size>1</size><commit revision=\"1\"/>\
               <author>c</author><date>2018-10-01T12:34:56.0Z</date></entry>";
    assert_eq!(files(read_listing(xml)).len(), 0);
}

#[test]
fn size_error() {
    let (kind, position, detail, message) =
        rejection(read_listing("<list><entry kind=\"file\"><size>x</size></entry></list>"));
    assert_eq!(kind, ListingErrorKind::Size);
    assert_eq!(position, 32);
    assert_eq!(detail, "ParseIntError { kind: InvalidDigit }");
    assert_eq!(
        message,
        "File size number parsing error at position 32: ParseIntError { kind: InvalidDigit }",
    );
}

#[test]
fn numbers_are_read_as_i32() {
    for (written, expected) in [
        ("0", Some(0)),
        ("+7", Some(7)),
        ("-7", Some(-7)),
        ("007", Some(7)),
        ("2147483647", Some(2147483647)),
        ("2147483648", None),
        ("-2147483648", Some(-2147483648)),
        ("-2147483649", None),
        ("", None),
        ("+", None),
        ("-", None),
        (" 1", None),
        ("1 ", None),
        ("1_0", None),
        ("\u{661}", None),
    ] {
        let mut items = complete_entry();
        items[6] = text(written);
        match (read_items(items), expected) {
            (Listing::Files { files: found, .. }, Some(size)) => assert_eq!(found[0].size, size),
            (Listing::Rejected(error), None) => assert_eq!(error.kind, ListingErrorKind::Size),
            (other, _) => panic!("{:?} gave {:?}", written, other),
        }
    }
}

#[test]
fn revision_error() {
    let (kind, position, _, message) =
        rejection(read_listing("<list><entry kind=\"file\"><commit revision=\"abc\">"));
    assert_eq!(kind, ListingErrorKind::Revision);
    assert_eq!(position, 48);
    assert_eq!(
        message,
        "Revision number parsing error at position 48: ParseIntError { kind: InvalidDigit }",
    );
}

#[test]
fn datetime_error() {
    let mut items = complete_entry();
    items[13] = text("yesterday");
    let (kind, position, _, message) = rejection(read_items(items));
    assert_eq!(kind, ListingErrorKind::Datetime);
    assert_eq!(position, 13);
    assert_eq!(message, "Datetime parsing error at position 13: ParseError(Invalid)");
}

#[test]
fn decoding_error() {
    let (kind, _, detail, message) =
        rejection(read_listing("<entry kind=\"file\"><author>a & b</author></entry>"));
    assert_eq!(kind, ListingErrorKind::Decoding);
    assert_eq!(detail, "EscapeError(UnterminatedEntity(3..5))");
    assert_eq!(message, "Decoding error at position 32: EscapeError(UnterminatedEntity(3..5))");
    // Outside the tags that matter, it does not.
    assert_eq!(files(read_listing("<entry kind=\"file\">a & b</entry>")).len(), 0);
}

#[test]
fn utf8_error_in_key() {
    let items = vec![file_entry(), start("commit", vec![None, attribute(&[0xff], b"1")])];
    let (kind, position, detail, message) = rejection(read_items(items));
    assert_eq!(kind, ListingErrorKind::Utf8);
    assert_eq!(position, 11);
    assert_eq!(detail, "Utf8Error { valid_up_to: 0, error_len: Some(1) }");
    assert_eq!(
        message,
        "UTF8 decoding error at position 11: Utf8Error { valid_up_to: 0, error_len: Some(1) }",
    );
}

#[test]
fn utf8_error_in_value() {
    let items = vec![file_entry(), start("commit", vec![attribute(b"revision", &[b'1', 0xc3])])];
    let (kind, _, detail, _) = rejection(read_items(items));
    assert_eq!(kind, ListingErrorKind::Utf8);
    assert_eq!(detail, "Utf8Error { valid_up_to: 1, error_len: None }");
}

#[test]
fn attributes_behind_the_revision_do_not_matter() {
    let mut items = complete_entry();
    items[8] = start("commit", vec![attribute(b"revision", b"4"), attribute(&[0xff], b"1")]);
    let found = files(read_items(items));
    assert_eq!(found.len(), 1);
    assert_eq!(found[0].revision, 4);
}

#[test]
fn malformed_document() {
    match read_listing("<list></lists>") {
        Listing::Malformed { position, detail } => {
            assert_eq!(position, 8);
            assert_eq!(detail, "EndEventMismatch { expected: \"list\", found: \"lists\" }");
        },
        other => panic!("not malformed: {:?}", other),
    }
}

#[test]
fn first_error_counts() {
    // The size is met before the closing tag that does not fit.
    let (kind, _, _, _) = rejection(read_listing("<entry kind=\"file\"><size>x</size></lists>"));
    assert_eq!(kind, ListingErrorKind::Size);
    let items = vec![
        XmlItem { event: XmlEvent::Failed { detail: "broken".to_string() }, position: 3 },
        file_entry(),
    ];
    match read_items(items) {
        Listing::Malformed { position, detail } => assert_eq!((position, detail.as_str()), (3, "broken")),
        other => panic!("not malformed: {:?}", other),
    }
}

#[test]
fn date_that_was_read_elsewhere() {
    let moment = Timestamp { seconds: 8, nanoseconds: 9 };
    let mut state = ListingState::new();
    for item in complete_entry() {
        let closes_date = matches!(&item.event, XmlEvent::End { name } if name.as_slice() == b"date");
        assert!(state.advance(item).is_ok());
        if closes_date {
            assert!(state.date(Ok(moment), 1).is_ok());
        }
    }
    let found = files(state.finish());
    assert_eq!(found.len(), 1);
    assert_eq!(found[0].last_changed, moment);

    let error = ListingState::new().date(Err("too late".to_string()), 7).unwrap_err();
    assert_eq!(error.message(), "Datetime parsing error at position 7: too late");
}

fn incomplete(listing: Listing) -> Vec<EntryFacts> {
    match listing {
        Listing::Files { incomplete, .. } => incomplete,
        other => panic!("not a list of files: {:?}", other),
    }
}

/// What is said about a file, part by part.
fn parts(file: &FileWithoutSha) -> (String, i32, i32, String, i64, u32) {
    (
        file.path.clone(),
        file.size,
        file.revision,
        file.last_author.clone(),
        file.last_changed.seconds,
        file.last_changed.nanoseconds,
    )
}

fn all_parts(xml: &str) -> Vec<(String, i32, i32, String, i64, u32)> {
    files(read_listing(xml)).iter().map(parts).collect()
}

#[test]
fn incomplete_entries_are_handed_out() {
    let xml = "<l><entry kind=\"file\"><name>a</name><commit revision=\"9\">\
               <date>1970-01-01T00:00:01.0Z</date></commit></entry>\
               <entry kind=\"file\"><size>2</size><author>c</author></entry>\
               <entry kind=\"dir\"><name>d</name></entry></l>";
    let found = incomplete(read_listing(xml));
    assert_eq!(found.len(), 2);
    assert_eq!(found[0].name, Some("a".to_string()));
    assert_eq!(found[0].size, None);
    assert_eq!(found[0].revision, Some(9));
    assert_eq!(found[0].author, None);
    assert_eq!(found[0].date, Some(Timestamp { seconds: 1, nanoseconds: 0 }));
    assert_eq!(found[1].name, None);
    assert_eq!(found[1].size, Some(2));
    assert_eq!(found[1].revision, None);
    assert_eq!(found[1].author, Some("c".to_string()));
    assert_eq!(found[1].date, None);
    assert_eq!(incomplete(read_listing(LISTING)).len(), 0);
}

const FIRST: &str = "<entry kind=\"file\"><name>a</name><size>1</size><commit revision=\"4\">\
                     <author>x</author><date>1970-01-01T00:00:01.0Z</date></commit></entry>";
const SECOND: &str = "<entry kind=\"file\"><name>b</name><size>2</size><commit revision=\"3\">\
                      <author>y</author><date>1970-01-01T00:00:02.0Z</date></commit></entry>";

#[test]
fn runs_of_entries_add_up() {
    let first = all_parts(&format!("<list>{}</list>", FIRST));
    let second = all_parts(&format!("<list>{}{}</list>", SECOND, FIRST));
    let both = all_parts(&format!("<list>{}{}{}</list>", FIRST, SECOND, FIRST));
    assert_eq!(first, vec![("a".to_string(), 1, 4, "x".to_string(), 1, 0)]);
    assert_eq!(both, [first, second].concat());
    assert_eq!(both.len(), 3);
}

#[test]
fn order_of_children_has_no_effect() {
    let other = "<entry id=\"1\" kind=\"file\"><lock>z</lock><commit revision=\"4\"><br/>\
                 <date>1970-01-01T00:00:01.0Z</date><author><!-- who -->x</author><size>1</size>\
                 </commit><name lang=\"en\">a</name></entry>";
    assert_eq!(all_parts(&format!("<list><x>{}</x></list>", other)), all_parts(FIRST));
    assert_eq!(all_parts(FIRST).len(), 1);
}

#[test]
fn last_of_several_texts_counts() {
    let xml = FIRST.replace("<name>a</name>", "<name>a<i/>c</name><name>d</name>");
    assert_eq!(all_parts(&xml)[0].0, "d");
    let xml = FIRST.replace("<name>a</name>", "<name>a<i/>c</name>");
    assert_eq!(all_parts(&xml)[0].0, "c");
}

#[test]
fn positions_have_no_effect_on_files() {
    let spaced = FIRST.replace("><", ">\n   <");
    assert_eq!(all_parts(&spaced), all_parts(FIRST));
}

#[test]
fn later_entry_is_rejected_where_it_stands() {
    let xml = format!("<list>{}{}</list>", FIRST, SECOND.replace("<size>2</size>", "<size>two</size>"));
    let (kind, position, _, _) = rejection(read_listing(&xml));
    assert_eq!(kind, ListingErrorKind::Size);
    assert_eq!(position, xml.find("</size><commit revision=\"3\"").unwrap());
    let xml = format!("<list>{}{}</list>", FIRST, SECOND.replace("1970", "MCMLXX"));
    let (kind, position, _, _) = rejection(read_listing(&xml));
    assert_eq!(kind, ListingErrorKind::Datetime);
    assert_eq!(position, xml.rfind("</date>").unwrap());
}
