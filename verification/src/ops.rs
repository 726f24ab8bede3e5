//! The operations that come down to one request to the platform.
//!
//! Each operation names the request to make, with its arguments worked out,
//! as an [`Effect`]. Whoever performs the effect reports a refusal of the
//! platform by its [`Cause`], and [`Effect::failure`] says what failure that
//! is.

use vstd::prelude::*;
use vstd::utf8::{decode_utf8, valid_utf8};
use crate::failure::{Cause, ErrorClass, Failure, FailureKind, FailureModel};
use crate::path::{joined, resolve};
use crate::search::read_failure;
use crate::text::decode;

verus! {

/// One request to the platform.
#[derive(Debug, Clone, PartialEq, Eq)]
pub enum Effect {
    /// Create the directory and every parent that is missing. A directory
    /// that is there already is left as it is.
    CreateDirectories { path: String },
    /// Create an empty file, emptying one that is there already.
    CreateFile { path: String },
    /// Create the file, emptying one that is there already, and write
    /// `contents` into it.
    WriteFile { path: String, contents: String },
    /// Print `text` as one line.
    PrintLine { text: String },
    /// Print the names of what the directory holds, itself and deeper levels
    /// left out.
    ListDirectory { path: String },
    /// Remove the file.
    RemoveFile { path: String },
    /// Remove the directory with all that is in it.
    RemoveDirectoryTree { path: String },
    /// Write `sequence` to the terminal and flush it.
    ClearScreen { sequence: String },
    /// Create `to`, or overwrite it, with the bytes of `from`.
    CopyFile { from: String, to: String },
    /// Print the path of the working directory.
    ShowPath { path: String },
    /// Give `from` the name `to`; this may move it to another directory.
    RenamePath { from: String, to: String },
}

/// The mathematical content of an [`Effect`].
pub enum EffectView {
    CreateDirectories { path: Seq<char> },
    CreateFile { path: Seq<char> },
    WriteFile { path: Seq<char>, contents: Seq<char> },
    PrintLine { text: Seq<char> },
    ListDirectory { path: Seq<char> },
    RemoveFile { path: Seq<char> },
    RemoveDirectoryTree { path: Seq<char> },
    ClearScreen { sequence: Seq<char> },
    CopyFile { from: Seq<char>, to: Seq<char> },
    ShowPath { path: Seq<char> },
    RenamePath { from: Seq<char>, to: Seq<char> },
}

impl View for Effect {
    type V = EffectView;

    open spec fn view(&self) -> EffectView {
        match self {
            Effect::CreateDirectories { path } => EffectView::CreateDirectories { path: path@ },
            Effect::CreateFile { path } => EffectView::CreateFile { path: path@ },
            Effect::WriteFile { path, contents } => EffectView::WriteFile {
                path: path@,
                contents: contents@,
            },
            Effect::PrintLine { text } => EffectView::PrintLine { text: text@ },
            Effect::ListDirectory { path } => EffectView::ListDirectory { path: path@ },
            Effect::RemoveFile { path } => EffectView::RemoveFile { path: path@ },
            Effect::RemoveDirectoryTree { path } => EffectView::RemoveDirectoryTree { path: path@ },
            Effect::ClearScreen { sequence } => EffectView::ClearScreen { sequence: sequence@ },
            Effect::CopyFile { from, to } => EffectView::CopyFile { from: from@, to: to@ },
            Effect::ShowPath { path } => EffectView::ShowPath { path: path@ },
            Effect::RenamePath { from, to } => EffectView::RenamePath { from: from@, to: to@ },
        }
    }
}

impl EffectView {
    /// The step that has failed when the platform refuses the effect.
    /// Printing is not expected to be refused.
    pub open spec fn failure_kind(self) -> Option<FailureKind> {
        match self {
            EffectView::CreateDirectories { .. } => Some(FailureKind::Create),
            EffectView::CreateFile { .. } => Some(FailureKind::Create),
            EffectView::WriteFile { .. } => Some(FailureKind::Create),
            EffectView::PrintLine { .. } => None,
            EffectView::ListDirectory { .. } => Some(FailureKind::ReadDir),
            EffectView::RemoveFile { .. } => Some(FailureKind::Remove),
            EffectView::RemoveDirectoryTree { .. } => Some(FailureKind::Remove),
            EffectView::ClearScreen { .. } => Some(FailureKind::Flush),
            EffectView::CopyFile { .. } => Some(FailureKind::Copy),
            EffectView::ShowPath { .. } => None,
            EffectView::RenamePath { .. } => Some(FailureKind::Rename),
        }
    }

    /// The path a failure of the effect is reported for: the one it works
    /// on, and of two the one it reads. Effects on the terminal have none.
    pub open spec fn subject(self) -> Seq<char> {
        match self {
            EffectView::CreateDirectories { path } => path,
            EffectView::CreateFile { path } => path,
            EffectView::WriteFile { path, .. } => path,
            EffectView::PrintLine { .. } => Seq::<char>::empty(),
            EffectView::ListDirectory { path } => path,
            EffectView::RemoveFile { path } => path,
            EffectView::RemoveDirectoryTree { path } => path,
            EffectView::ClearScreen { .. } => Seq::<char>::empty(),
            EffectView::CopyFile { from, .. } => from,
            EffectView::ShowPath { path } => path,
            EffectView::RenamePath { from, .. } => from,
        }
    }

    /// The failure to report when the platform refuses the effect and
    /// explains it by `cause`.
    pub open spec fn failure(self, cause: Cause) -> Option<FailureModel> {
        match self.failure_kind() {
            Some(kind) => Some(FailureModel::platform(kind, cause, self.subject())),
            None => None,
        }
    }
}

/// The control sequence that clears the screen and puts the cursor in the
/// top left corner.
pub open spec fn clear_sequence() -> Seq<char> {
    seq!['\u{1b}', '[', '2', 'J', '\u{1b}', '[', 'H']
}

impl Effect {
    /// The failure to report when the platform refuses the effect and
    /// explains it by `cause`.
    pub fn failure(&self, cause: Cause) -> (failure: Option<Failure>)
        ensures
            match self@.failure(cause) {
                Some(expected) => failure matches Some(f) && f@ == expected,
                None => failure is None,
            },
    {
        let (kind, path): (FailureKind, &str) = match self {
            Effect::CreateDirectories { path } => (FailureKind::Create, path.as_str()),
            Effect::CreateFile { path } => (FailureKind::Create, path.as_str()),
            Effect::WriteFile { path, .. } => (FailureKind::Create, path.as_str()),
            Effect::PrintLine { .. } => {
                return None;
            },
            Effect::ListDirectory { path } => (FailureKind::ReadDir, path.as_str()),
            Effect::RemoveFile { path } => (FailureKind::Remove, path.as_str()),
            Effect::RemoveDirectoryTree { path } => (FailureKind::Remove, path.as_str()),
            Effect::ClearScreen { .. } => (FailureKind::Flush, ""),
            Effect::CopyFile { from, .. } => (FailureKind::Copy, from.as_str()),
            Effect::ShowPath { .. } => {
                return None;
            },
            Effect::RenamePath { from, .. } => (FailureKind::Rename, from.as_str()),
        };
        proof {
            reveal_strlit("");
            assert(""@ =~= Seq::<char>::empty());
        }
        Some(Failure::platform(kind, cause, path))
    }
}

/// Creates the directory `directory_name` in the working directory
/// `current_dir`, with every parent that is missing.
pub fn make_directory(current_dir: &str, directory_name: &str) -> (effect: Effect)
    ensures
        effect@ == (EffectView::CreateDirectories { path: joined(current_dir@, directory_name@) }),
{
    Effect::CreateDirectories { path: resolve(current_dir, directory_name) }
}

/// Creates the empty file `filename` in the working directory `current_dir`.
pub fn make_file(current_dir: &str, filename: &str) -> (effect: Effect)
    ensures
        effect@ == (EffectView::CreateFile { path: joined(current_dir@, filename@) }),
{
    Effect::CreateFile { path: resolve(current_dir, filename) }
}

/// Writes `text` and a line feed into the file `filename`, or prints `text`
/// where no file is named.
pub fn echo(text: &str, filename: Option<&str>) -> (effect: Effect)
    ensures
        effect@ == match filename {
            Some(name) => EffectView::WriteFile { path: name@, contents: text@.push('\n') },
            None => EffectView::PrintLine { text: text@ },
        },
{
    match filename {
        Some(name) => {
            let mut contents = text.to_owned();
            proof {
                reveal_strlit("\n");
            }
            contents.append("\n");
            assert(contents@ =~= text@.push('\n'));
            Effect::WriteFile { path: name.to_owned(), contents }
        },
        None => Effect::PrintLine { text: text.to_owned() },
    }
}

/// Lists what the working directory `current_dir` holds.
pub fn list_directory(current_dir: &str) -> (effect: Effect)
    ensures
        effect@ == (EffectView::ListDirectory { path: current_dir@ }),
{
    Effect::ListDirectory { path: current_dir.to_owned() }
}

/// Removes the file `filename`.
pub fn remove(filename: &str) -> (effect: Effect)
    ensures
        effect@ == (EffectView::RemoveFile { path: filename@ }),
{
    Effect::RemoveFile { path: filename.to_owned() }
}

/// Gives the text of the file `filename`, whose bytes are `contents`.
///
/// There is a text exactly if the bytes are valid UTF-8.
pub fn view_file<'a>(filename: &str, contents: &'a [u8]) -> (r: Result<&'a str, Failure>)
    ensures
        match r {
            Ok(text) => valid_utf8(contents@) && text@ == decode_utf8(contents@),
            Err(e) => !valid_utf8(contents@) && e@ == read_failure(filename@),
        },
{
    match decode(contents) {
        Some(text) => Ok(text),
        None => Err(
            Failure { kind: FailureKind::Read, class: ErrorClass::Io, path: filename.to_owned() },
        ),
    }
}

/// Removes the directory `directoryname` with all that is in it.
pub fn remove_directory(directoryname: &str) -> (effect: Effect)
    ensures
        effect@ == (EffectView::RemoveDirectoryTree { path: directoryname@ }),
{
    Effect::RemoveDirectoryTree { path: directoryname.to_owned() }
}

/// Clears the terminal.
pub fn clear_terminal() -> (effect: Effect)
    ensures
        effect@ == (EffectView::ClearScreen { sequence: clear_sequence() }),
{
    proof {
        reveal_strlit("\x1B[2J\x1B[H");
    }
    let sequence = "\x1B[2J\x1B[H".to_owned();
    assert(sequence@ =~= clear_sequence());
    Effect::ClearScreen { sequence }
}

/// Copies the file `filename` to `destination`.
pub fn copy_file(filename: &str, destination: &str) -> (effect: Effect)
    ensures
        effect@ == (EffectView::CopyFile { from: filename@, to: destination@ }),
{
    Effect::CopyFile { from: filename.to_owned(), to: destination.to_owned() }
}

/// Shows the path of the working directory `current_dir`.
pub fn directory_path(current_dir: &str) -> (effect: Effect)
    ensures
        effect@ == (EffectView::ShowPath { path: current_dir@ }),
{
    Effect::ShowPath { path: current_dir.to_owned() }
}

/// Gives the file `filename` the name `new_filename`.
pub fn rename(filename: &str, new_filename: &str) -> (effect: Effect)
    ensures
        effect@ == (EffectView::RenamePath { from: filename@, to: new_filename@ }),
{
    Effect::RenamePath { from: filename.to_owned(), to: new_filename.to_owned() }
}

/// A request that finds nothing at the path it works on fails as not found,
/// whatever the request.
pub proof fn law_missing_is_not_found(effect: EffectView)
    ensures
        effect.failure(Cause::NotFound) matches Some(failure) ==> failure.class
            == ErrorClass::NotFound && failure.path == effect.subject(),
{
}

} // verus!
