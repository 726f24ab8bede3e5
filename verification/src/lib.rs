//! The decision-making core of a small file-management command line tool.
//!
//! Nothing in this crate reads or writes a file, or prints. Each operation
//! is computed from plain values and described by a contract; a thin shell
//! around the crate performs what the operations ask for.
//!
//! The archive is built by the `zip` crate, in memory. That crate reads the
//! system clock for the time stamp of every entry, and writes a line to
//! standard error where a writer that is dropped unfinished cannot be
//! finished; see the module [`container`].

pub mod archive;
pub mod archive_laws;
pub mod clock;
pub mod container;
pub mod dispatch;
pub mod failure;
pub mod ops;
pub mod path;
pub mod path_laws;
pub mod search;
pub mod text;

pub use archive::{plan_archive, write_archive, zip_directory, Node, PlannedEntry, TreeEntry};
pub use clock::{date, Timestamp};
pub use container::{ArchiveWriter, Compression, CompressionOptions};
pub use dispatch::{
    begin, one_or_two_values, proceed, run, two_values, Command, Invocation, Progress,
};
pub use failure::{classify, Cause, ErrorClass, Failure, FailureKind};
pub use ops::{
    clear_terminal, copy_file, directory_path, echo, list_directory, make_directory, make_file,
    remove, remove_directory, rename, view_file, Effect,
};
pub use path::{relative_path, resolve};
pub use search::{match_pattern, SearchOutcome};
