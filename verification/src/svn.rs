//! The Subversion commands that describe a package, and what their output says.
use vstd::prelude::*;
use vstd::utf8::{decode_utf8, valid_utf8};

use crate::listing::{
    facts_views, initial_state, listing_of, message_at, message_text, read_listing, EntryFacts,
    EntryFactsView, Listing, ListingView,
};
use crate::text::{
    lossy_text, signed_decimal, signed_decimal_text, text_from_utf8_lossy, trimmed,
};
use crate::types::{file_views, FileWithoutSha, FileWithoutShaView};
use crate::xml::document_items;

verus! {

/// What the texts of a list hold.
pub open spec fn text_views(texts: Seq<String>) -> Seq<Seq<char>> {
    texts.map_values(|text: String| text@)
}

// ---------------------------------------------------------------------------
// Commands
// ---------------------------------------------------------------------------

/// Where the trunk of a package stands.
pub open spec fn trunk_path(organization_root: Seq<char>, package_name: Seq<char>) -> Seq<char> {
    organization_root + "/"@ + package_name + "/trunk"@
}

/// Where the trunk of a package stands.
pub fn svn_path(organization_root: &str, package_name: &str) -> (path: String)
    ensures
        path@ == trunk_path(organization_root@, package_name@),
        path@ == organization_root@ + "/"@ + package_name@ + "/trunk"@,
{
    let mut path = organization_root.to_owned();
    path.append("/");
    path.append(package_name);
    path.append("/trunk");
    path
}

/// The arguments with which `svn` lists the files at `path`.
pub open spec fn list_command(path: Seq<char>, recursive: bool) -> Seq<Seq<char>> {
    if recursive {
        seq!["list"@, "--xml"@, "--recursive"@, path]
    } else {
        seq!["list"@, "--xml"@, path]
    }
}

/// The arguments with which `svn` lists the files at `path`.
pub fn list_arguments(path: &str, recursive: bool) -> (arguments: Vec<String>)
    ensures
        text_views(arguments@) == list_command(path@, recursive),
{
    let mut arguments: Vec<String> = Vec::new();
    arguments.push("list".to_owned());
    arguments.push("--xml".to_owned());
    if recursive {
        arguments.push("--recursive".to_owned());
    }
    arguments.push(path.to_owned());
    assert(text_views(arguments@) =~= list_command(path@, recursive));
    arguments
}

/// The arguments with which `svn` tells the commit of a revision at `path`.
pub open spec fn sha_command(revision: i32, path: Seq<char>) -> Seq<Seq<char>> {
    seq![
        "propget"@,
        "git-commit"@,
        "--revprop"@,
        "-r"@,
        signed_decimal(revision as int),
        path,
    ]
}

/// The arguments with which `svn` tells the commit of a revision at `path`.
pub fn sha_arguments(revision: i32, path: &str) -> (arguments: Vec<String>)
    ensures
        text_views(arguments@) == sha_command(revision, path@),
{
    let mut arguments: Vec<String> = Vec::new();
    arguments.push("propget".to_owned());
    arguments.push("git-commit".to_owned());
    arguments.push("--revprop".to_owned());
    arguments.push("-r".to_owned());
    arguments.push(signed_decimal_text(revision));
    arguments.push(path.to_owned());
    assert(text_views(arguments@) =~= sha_command(revision, path@));
    arguments
}

// ---------------------------------------------------------------------------
// Output
// ---------------------------------------------------------------------------

/// What a command that ran to its end left behind.
#[derive(Debug)]
pub struct CommandOutput {
    pub success: bool,
    pub stdout: Vec<u8>,
    pub stderr: Vec<u8>,
}

/// What a `CommandOutput` holds.
pub struct CommandOutputView {
    pub success: bool,
    pub stdout: Seq<u8>,
    pub stderr: Seq<u8>,
}

impl View for CommandOutput {
    type V = CommandOutputView;

    open spec fn view(&self) -> CommandOutputView {
        CommandOutputView {
            success: self.success,
            stdout: self.stdout@,
            stderr: self.stderr@,
        }
    }
}

/// What the run of a command holds: its output, or why it could not be run.
pub open spec fn run_view(run: Result<CommandOutput, String>) -> Result<
    CommandOutputView,
    Seq<char>,
> {
    match run {
        Ok(output) => Ok(output@),
        Err(reason) => Err(reason@),
    }
}

/// The text that a command wrote. Where it is not UTF-8, the malformed parts are replaced.
pub open spec fn output_text(bytes: Seq<u8>) -> Seq<char> {
    if valid_utf8(bytes) {
        decode_utf8(bytes)
    } else {
        lossy_text(bytes)
    }
}

/// The commit that the run of a sha command tells.
pub open spec fn told_sha(run: Result<CommandOutputView, Seq<char>>) -> Option<Seq<char>> {
    match run {
        Ok(output) => if output.success {
            Some(trimmed(output_text(output.stdout)))
        } else {
            None
        },
        Err(_) => None,
    }
}

/// The commit that the run of a sha command tells. A command that failed, or that could not be
/// run, tells none.
pub fn git_sha(run: &Result<CommandOutput, String>) -> (sha: Option<String>)
    ensures
        match sha {
            Some(sha) => told_sha(run_view(*run)) == Some(sha@),
            None => told_sha(run_view(*run)) is None,
        },
{
    match run {
        Ok(output) => {
            if output.success {
                let text = text_from_utf8_lossy(output.stdout.as_slice());
                Some(text.as_str().trim().to_owned())
            } else {
                None
            }
        },
        Err(_) => None,
    }
}

/// What comes of listing the files of a package.
#[derive(Debug)]
pub enum FileList {
    /// The files of the package, and what is said about files of which not everything is known.
    Found { files: Vec<FileWithoutSha>, incomplete: Vec<EntryFacts> },
    /// The package cannot be listed, for the reason that is given.
    Failed(String),
    /// The listing is not XML. This is not an answer about the package: the caller is to give
    /// up with the message.
    Malformed(String),
}

/// What a `FileList` holds.
pub enum FileListView {
    Found { files: Seq<FileWithoutShaView>, incomplete: Seq<EntryFactsView> },
    Failed(Seq<char>),
    Malformed(Seq<char>),
}

impl View for FileList {
    type V = FileListView;

    open spec fn view(&self) -> FileListView {
        match *self {
            FileList::Found { files, incomplete } => FileListView::Found {
                files: file_views(files@),
                incomplete: facts_views(incomplete@),
            },
            FileList::Failed(message) => FileListView::Failed(message@),
            FileList::Malformed(message) => FileListView::Malformed(message@),
        }
    }
}

/// What a listing says about the files of a package.
pub open spec fn files_of_listing(listing: ListingView) -> FileListView {
    match listing {
        ListingView::Files { files, incomplete } => FileListView::Found { files, incomplete },
        ListingView::Rejected(error) => FileListView::Failed(error.message()),
        ListingView::Malformed { position, detail } => FileListView::Malformed(
            message_at("Error"@, position, detail),
        ),
    }
}

/// What the run of a list command says about the files of a package.
pub open spec fn listed_files(run: Result<CommandOutputView, Seq<char>>) -> FileListView {
    match run {
        Ok(output) => if output.success {
            files_of_listing(listing_of(initial_state(), document_items(output_text(output.stdout))))
        } else {
            FileListView::Failed("Package not found: "@ + output_text(output.stderr))
        },
        Err(reason) => FileListView::Failed("Package search failed: "@ + reason),
    }
}

/// What a listing says about the files of a package.
pub fn files_from_listing(listing: Listing) -> (files: FileList)
    ensures
        files@ == files_of_listing(listing@),
        match (listing, files) {
            (
                Listing::Files { files, incomplete },
                FileList::Found { files: found, incomplete: partial },
            ) => found == files && partial == incomplete,
            (Listing::Rejected(error), FileList::Failed(message)) => message@ == error@.message(),
            (Listing::Malformed { position, detail }, FileList::Malformed(message)) => message@
                == message_at("Error"@, position, detail@),
            _ => false,
        },
{
    match listing {
        Listing::Files { files, incomplete } => FileList::Found { files, incomplete },
        Listing::Rejected(error) => FileList::Failed(error.message()),
        Listing::Malformed { position, detail } => FileList::Malformed(
            message_text("Error", position, detail.as_str()),
        ),
    }
}

/// What the run of a list command says about the files of a package.
pub fn list_files(run: &Result<CommandOutput, String>) -> (files: FileList)
    ensures
        files@ == listed_files(run_view(*run)),
{
    match run {
        Ok(output) => {
            if output.success {
                let xml = text_from_utf8_lossy(output.stdout.as_slice());
                files_from_listing(read_listing(xml.as_str()))
            } else {
                let mut message = "Package not found: ".to_owned();
                message.append(text_from_utf8_lossy(output.stderr.as_slice()).as_str());
                FileList::Failed(message)
            }
        },
        Err(reason) => {
            let mut message = "Package search failed: ".to_owned();
            message.append(reason.as_str());
            FileList::Failed(message)
        },
    }
}

} // verus!
