//! What holds of the commands that describe a package and of what they answer.
use vstd::prelude::*;
use vstd::utf8::encode_utf8;

use crate::listing::{initial_state, listing_of, ListingErrorKind, ListingErrorView, ListingView};
use crate::svn::{
    files_of_listing, list_command, listed_files, output_text, sha_command, told_sha, trunk_path,
    CommandOutputView, FileListView,
};
use crate::text::{decimal, parsed_i32};
use crate::text_laws::{
    has_bare_ends, is_blank, law_number_is_read_back, law_output_is_read_back,
    law_trimming_finds_the_text,
};
use crate::xml::document_items;

verus! {

// ---------------------------------------------------------------------------
// Commands
// ---------------------------------------------------------------------------

/// The trunk of a package stands below the root under the name of the package.
pub proof fn law_trunk_stands_below_the_root(root: Seq<char>, package: Seq<char>)
    ensures
        trunk_path(root, package).len() == root.len() + package.len() + 7,
        trunk_path(root, package).take(root.len() as int) == root,
        trunk_path(root, package)[root.len() as int] == '/',
        trunk_path(root, package).subrange(
            root.len() as int + 1,
            root.len() as int + 1 + package.len() as int,
        ) == package,
        trunk_path(root, package).skip(root.len() as int + 1 + package.len() as int) == seq![
            '/',
            't',
            'r',
            'u',
            'n',
            'k',
        ],
{
    reveal_strlit("/");
    reveal_strlit("/trunk");
    let path = trunk_path(root, package);
    assert(path.take(root.len() as int) =~= root);
    assert(path.subrange(root.len() as int + 1, root.len() as int + 1 + package.len() as int)
        =~= package);
    assert(path.skip(root.len() as int + 1 + package.len() as int) =~= "/trunk"@);
    assert("/trunk"@ =~= seq!['/', 't', 'r', 'u', 'n', 'k']);
}

/// Two packages have different trunks.
pub proof fn law_packages_have_their_own_trunks(
    root: Seq<char>,
    left: Seq<char>,
    right: Seq<char>,
)
    requires
        left != right,
    ensures
        trunk_path(root, left) != trunk_path(root, right),
{
    law_trunk_stands_below_the_root(root, left);
    law_trunk_stands_below_the_root(root, right);
}

/// Files are listed as XML, below the path, in subdirectories as well exactly if that is asked.
pub proof fn law_list_command_names_the_path(path: Seq<char>, recursive: bool)
    ensures
        list_command(path, recursive).len() == if recursive { 4nat } else { 3nat },
        list_command(path, recursive)[0] == "list"@,
        list_command(path, recursive)[1] == "--xml"@,
        recursive ==> list_command(path, recursive)[2] == "--recursive"@,
        list_command(path, recursive).last() == path,
        list_command(path, true).remove(2) == list_command(path, false),
{
    assert(list_command(path, true).remove(2) =~= list_command(path, false));
}

/// The commit of a revision is asked for by the number of the revision, written so that it is
/// read back as that number.
pub proof fn law_sha_command_names_the_revision(revision: i32, path: Seq<char>)
    ensures
        sha_command(revision, path).len() == 6,
        sha_command(revision, path)[0] == "propget"@,
        sha_command(revision, path)[1] == "git-commit"@,
        sha_command(revision, path)[2] == "--revprop"@,
        sha_command(revision, path)[3] == "-r"@,
        parsed_i32(sha_command(revision, path)[4]) == Some(revision),
        sha_command(revision, path)[5] == path,
{
    law_number_is_read_back(revision);
}

// ---------------------------------------------------------------------------
// Commits
// ---------------------------------------------------------------------------

/// A run that succeeded and wrote a commit, with white space around it, tells exactly that
/// commit, whatever it wrote to the standard error.
pub proof fn law_written_sha_is_told(
    before: Seq<char>,
    sha: Seq<char>,
    after: Seq<char>,
    stderr: Seq<u8>,
)
    requires
        is_blank(before),
        is_blank(after),
        has_bare_ends(sha),
    ensures
        told_sha(
            Ok(
                CommandOutputView {
                    success: true,
                    stdout: encode_utf8(before + sha + after),
                    stderr,
                },
            ),
        ) == Some(sha),
{
    law_output_is_read_back(before + sha + after, stderr);
    law_trimming_finds_the_text(before, sha, after);
}

/// Also where the output is no UTF-8, what is told is its text without the white space around it.
pub proof fn law_told_sha_is_the_whole_text(
    before: Seq<char>,
    sha: Seq<char>,
    after: Seq<char>,
    output: CommandOutputView,
)
    requires
        output.success,
        output_text(output.stdout) == before + sha + after,
        is_blank(before),
        is_blank(after),
        has_bare_ends(sha),
    ensures
        told_sha(Ok(output)) == Some(sha),
{
    law_trimming_finds_the_text(before, sha, after);
}

/// A run that failed, or that did not happen, tells no commit.
pub proof fn law_failed_run_tells_no_sha(output: CommandOutputView, reason: Seq<char>)
    ensures
        told_sha(Ok(output)) is None <==> !output.success,
        told_sha(Err(reason)) is None,
{
}

// ---------------------------------------------------------------------------
// Lists of files
// ---------------------------------------------------------------------------

/// A list command that failed is answered by what it wrote to the standard error, and one that
/// did not run by the reason.
pub proof fn law_failed_list_is_answered(
    message: Seq<char>,
    stdout: Seq<u8>,
    stderr: Seq<u8>,
    reason: Seq<char>,
)
    ensures
        listed_files(Ok(CommandOutputView { success: false, stdout, stderr: encode_utf8(message) }))
            == FileListView::Failed("Package not found: "@ + message),
        listed_files(Ok(CommandOutputView { success: false, stdout, stderr }))
            == FileListView::Failed("Package not found: "@ + output_text(stderr)),
        listed_files(Err(reason)) == FileListView::Failed("Package search failed: "@ + reason),
{
    law_output_is_read_back(message, stderr);
}

/// What is found in a listing is answered as it is; a fault in it is answered by its message, and
/// a document that is not XML by its own.
pub proof fn law_listing_is_answered(listing: ListingView)
    ensures
        match listing {
            ListingView::Files { files, incomplete } => files_of_listing(listing) == (
            FileListView::Found { files, incomplete }),
            ListingView::Rejected(error) => files_of_listing(listing) == FileListView::Failed(
                error.message(),
            ),
            ListingView::Malformed { position, detail } => files_of_listing(listing)
                == FileListView::Malformed(
                "Error at position "@ + decimal(position as nat) + ": "@ + detail,
            ),
        },
{
    if let ListingView::Malformed { position, detail } = listing {
        reveal_strlit("Error");
        reveal_strlit(" at position ");
        reveal_strlit("Error at position ");
        assert("Error"@ + " at position "@ =~= "Error at position "@);
    }
}

/// A list command that succeeded is answered by what comes of reading its document, whatever the
/// document is.
pub proof fn law_document_is_answered(output: CommandOutputView)
    requires
        output.success,
    ensures
        match listing_of(initial_state(), document_items(output_text(output.stdout))) {
            ListingView::Files { files, incomplete } => listed_files(Ok(output)) == (
            FileListView::Found { files, incomplete }),
            ListingView::Rejected(error) => listed_files(Ok(output)) == FileListView::Failed(
                error.message(),
            ),
            ListingView::Malformed { position, detail } => listed_files(Ok(output))
                == FileListView::Malformed(
                "Error at position "@ + decimal(position as nat) + ": "@ + detail,
            ),
        },
{
    law_listing_is_answered(
        listing_of(initial_state(), document_items(output_text(output.stdout))),
    );
}

/// The message of an error says what is wrong, where, and the details.
pub proof fn law_message_says_what_and_where(error: ListingErrorView)
    ensures
        error.message() == (match error.kind {
            ListingErrorKind::Utf8 => "UTF8 decoding error at position "@,
            ListingErrorKind::Decoding => "Decoding error at position "@,
            ListingErrorKind::Revision => "Revision number parsing error at position "@,
            ListingErrorKind::Datetime => "Datetime parsing error at position "@,
            ListingErrorKind::Size => "File size number parsing error at position "@,
        }) + decimal(error.position as nat) + ": "@ + error.detail,
{
    reveal_strlit(" at position ");
    match error.kind {
        ListingErrorKind::Utf8 => {
            reveal_strlit("UTF8 decoding error");
            reveal_strlit("UTF8 decoding error at position ");
            assert("UTF8 decoding error"@ + " at position "@ =~= "UTF8 decoding error at position "@);
        },
        ListingErrorKind::Decoding => {
            reveal_strlit("Decoding error");
            reveal_strlit("Decoding error at position ");
            assert("Decoding error"@ + " at position "@ =~= "Decoding error at position "@);
        },
        ListingErrorKind::Revision => {
            reveal_strlit("Revision number parsing error");
            reveal_strlit("Revision number parsing error at position ");
            assert("Revision number parsing error"@ + " at position "@
                =~= "Revision number parsing error at position "@);
        },
        ListingErrorKind::Datetime => {
            reveal_strlit("Datetime parsing error");
            reveal_strlit("Datetime parsing error at position ");
            assert("Datetime parsing error"@ + " at position "@
                =~= "Datetime parsing error at position "@);
        },
        ListingErrorKind::Size => {
            reveal_strlit("File size number parsing error");
            reveal_strlit("File size number parsing error at position ");
            assert("File size number parsing error"@ + " at position "@
                =~= "File size number parsing error at position "@);
        },
    }
}

} // verus!
