//! Gathers statistics about the files of packages that are kept in Subversion.
//!
//! A request names a package. The package is listed ([`svn`], [`listing`], [`xml`]), the files
//! that need a task are picked and the commits of their revisions asked for ([`launch`]), and
//! the tasks that begin are kept as long as they are in progress ([`worker`]). What a task
//! finds becomes entries ([`entries`]). Running commands, talking to the network and storing
//! entries is left to the caller.
//!
//! What holds of all this is stated beside it: [`laws`] speaks of tasks, [`entry_laws`] of entries,
//! [`svn_laws`] of commands and their answers, [`text_laws`] of numbers and texts, and
//! [`view_laws`] of what values hold. Of listings, as [`listing_model`] describes them,
//! [`reading_laws`] states what each event does, [`listing_laws`] what whole documents yield, and
//! [`written_laws`] that the files that are written are the files that are found.
pub mod clock;
pub mod entries;
pub mod entry_laws;
pub mod launch;
pub mod laws;
pub mod listing;
pub mod listing_laws;
pub mod listing_model;
pub mod reading_laws;
pub mod svn;
pub mod svn_laws;
pub mod text;
pub mod text_laws;
pub mod types;
pub mod view_laws;
pub mod worker;
pub mod written_laws;
pub mod xml;
