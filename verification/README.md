# package_worker

Gathers statistics about the files of packages that are kept in Subversion, and keeps track of
the tasks that do so.

`src/` is the verified library. It decides what to do and makes sense of what comes back:

- `svn.rs`: the commands that describe a package, and what their output says;
- `xml.rs`, `listing.rs`: reading the listing of a package;
- `launch.rs`: which files need a task, which commits have to be asked for, which tasks begin;
- `worker.rs`: the tasks in progress, package by package;
- `entries.rs`: the entries that a task leaves when it is over;
- `text.rs`, `clock.rs`, `types.rs`: texts and numbers, moments in time, files and tasks;
- `listing_model.rs`: what a listing is made of, and what it tells;
- `laws.rs`, `listing_laws.rs`: what holds of these together.

`app/` runs the commands and the tasks. It leaves two things to traits: where the statistics of
a file come from, and where entries are stored.

What the library takes on trust about other crates and the standard library stands beside the
functions that call them, each with a doc comment that says what is claimed.
