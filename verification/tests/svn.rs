use package_worker::svn::{
    git_sha, list_arguments, list_files, sha_arguments, svn_path, CommandOutput, FileList,
};

fn output(success: bool, stdout: &[u8], stderr: &[u8]) -> Result<CommandOutput, String> {
    Ok(CommandOutput { success, stdout: stdout.to_vec(), stderr: stderr.to_vec() })
}

#[test]
fn trunk_of_a_package() {
    assert_eq!(svn_path("https://example.org/langs", "lang-sme"), "https://example.org/langs/lang-sme/trunk");
}

#[test]
fn arguments_of_list() {
    assert_eq!(list_arguments("p", true), vec!["list", "--xml", "--recursive", "p"]);
    assert_eq!(list_arguments("p", false), vec!["list", "--xml", "p"]);
}

#[test]
fn arguments_of_propget() {
    for (revision, written) in [
        (0, "0"),
        (9, "9"),
        (10, "10"),
        (1234567890, "1234567890"),
        (2147483647, "2147483647"),
        (-5, "-5"),
        (-2147483648, "-2147483648"),
    ] {
        assert_eq!(
            sha_arguments(revision, "p"),
            vec!["propget", "git-commit", "--revprop", "-r", written, "p"],
        );
    }
}

#[test]
fn sha_is_trimmed() {
    assert_eq!(git_sha(&output(true, b" \t0a1b2c\r\n", b"")), Some("0a1b2c".to_string()));
    assert_eq!(git_sha(&output(true, "\u{3000}0a \u{85}b\u{a0}\n".as_bytes(), b"")), Some("0a \u{85}b".to_string()));
    assert_eq!(git_sha(&output(true, b"\n", b"")), Some("".to_string()));
    assert_eq!(git_sha(&output(true, &[b'a', 0xff, b'\n'], b"")), Some("a\u{fffd}".to_string()));
}

#[test]
fn white_space_is_what_unicode_says() {
    let spaces = [
        '\u{9}', '\u{a}', '\u{b}', '\u{c}', '\u{d}', '\u{20}', '\u{85}', '\u{a0}', '\u{1680}',
        '\u{2000}', '\u{2005}', '\u{200a}', '\u{2028}', '\u{2029}', '\u{202f}', '\u{205f}', '\u{3000}',
    ];
    for space in spaces {
        let told = format!("{}x{}", space, space);
        assert_eq!(git_sha(&output(true, told.as_bytes(), b"")), Some("x".to_string()));
    }
    for other in ['\u{8}', '\u{e}', '\u{1f}', '\u{200b}', '\u{180e}', '\u{feff}', '\u{2060}'] {
        let told = format!("{}x", other);
        assert_eq!(git_sha(&output(true, told.as_bytes(), b"")), Some(told));
    }
}

#[test]
fn failed_command_tells_no_sha() {
    assert_eq!(git_sha(&output(false, b"0a1b2c", b"E")), None);
    assert_eq!(git_sha(&Err("no such program".to_string())), None);
}

#[test]
fn found_files() {
    let xml = "<entry kind=\"file\"><name>a</name><size>1</size><commit revision=\"2\">\
               <author>c</author><date>2018-10-01T12:34:56.0Z</date></commit></entry>";
    match list_files(&output(true, xml.as_bytes(), b"")) {
        FileList::Found { files, .. } => {
            assert_eq!(files.len(), 1);
            assert_eq!(files[0].path, "a");
        },
        other => panic!("no files: {:?}", other),
    }
}

#[test]
fn unknown_package() {
    match list_files(&output(false, b"<x>", &[b'E', 0xff, b'\n'])) {
        FileList::Failed(message) => assert_eq!(message, "Package not found: E\u{fffd}\n"),
        other => panic!("not failed: {:?}", other),
    }
}

#[test]
fn search_that_could_not_run() {
    match list_files(&Err("no such program".to_string())) {
        FileList::Failed(message) => assert_eq!(message, "Package search failed: no such program"),
        other => panic!("not failed: {:?}", other),
    }
}

#[test]
fn listing_that_is_rejected() {
    match list_files(&output(true, b"<list><entry kind=\"file\"><size>x</size></entry></list>", b"")) {
        FileList::Failed(message) => assert_eq!(
            message,
            "File size number parsing error at position 32: ParseIntError { kind: InvalidDigit }",
        ),
        other => panic!("not failed: {:?}", other),
    }
}

#[test]
fn listing_that_is_not_xml() {
    match list_files(&output(true, b"<list></lists>", b"")) {
        FileList::Malformed(message) => assert_eq!(
            message,
            "Error at position 8: EndEventMismatch { expected: \"list\", found: \"lists\" }",
        ),
        other => panic!("not malformed: {:?}", other),
    }
}

#[test]
fn only_the_document_counts() {
    let xml = "<entry kind=\"file\"><name>a</name><size>1</size><commit revision=\"2\">\
               <author>c</author><date>2018-10-01T12:34:56.0Z</date></commit></entry>\
               <entry kind=\"file\"><name>b</name></entry>";
    for stderr in [b"".as_slice(), b"warning: W1".as_slice()] {
        match list_files(&output(true, xml.as_bytes(), stderr)) {
            FileList::Found { files, incomplete } => {
                assert_eq!(files.len(), 1);
                assert_eq!(files[0].path, "a");
                assert_eq!(incomplete.len(), 1);
                assert_eq!(incomplete[0].name, Some("b".to_string()));
                assert_eq!(incomplete[0].size, None);
            },
            other => panic!("no files: {:?}", other),
        }
    }
}
