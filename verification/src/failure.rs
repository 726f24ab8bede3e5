//! What went wrong, and during which step.

use vstd::prelude::*;

verus! {

/// Why the platform refused a request, as far as the tool tells causes apart.
#[derive(Debug, Clone, Copy, PartialEq, Eq, Structural)]
pub enum Cause {
    NotFound,
    PermissionDenied,
    AlreadyExists,
    Other,
}

/// The step that failed.
#[derive(Debug, Clone, Copy, PartialEq, Eq, Structural)]
pub enum FailureKind {
    /// Creating a directory or a file.
    Create,
    /// Reading what a directory holds.
    ReadDir,
    /// Removing a file or a directory.
    Remove,
    /// Reading a file as text.
    Read,
    /// Copying a file.
    Copy,
    /// Renaming a file.
    Rename,
    /// Flushing the terminal.
    Flush,
    /// Opening the file to search.
    FileOpen,
    /// Creating the file the archive is stored in.
    OutputCreate,
    /// Expressing a path of the tree relative to the source directory.
    PathNormalization,
    /// Reading a file of the tree.
    EntryRead,
    /// Adding an entry to the archive.
    EntryWrite,
    /// Finishing the archive and closing the file it is stored in.
    Finalize,
}

/// The class a failure is reported under.
#[derive(Debug, Clone, Copy, PartialEq, Eq, Structural)]
pub enum ErrorClass {
    NotFound,
    Permission,
    AlreadyExists,
    Io,
    PathNormalization,
    Finalize,
}

/// The class of a failure of step `kind` that the platform explained by `cause`.
///
/// Two steps have a class of their own whatever the cause; every other step
/// is classed by its cause alone.
pub open spec fn class_of(kind: FailureKind, cause: Cause) -> ErrorClass {
    match kind {
        FailureKind::PathNormalization => ErrorClass::PathNormalization,
        FailureKind::Finalize => ErrorClass::Finalize,
        _ => match cause {
            Cause::NotFound => ErrorClass::NotFound,
            Cause::PermissionDenied => ErrorClass::Permission,
            Cause::AlreadyExists => ErrorClass::AlreadyExists,
            Cause::Other => ErrorClass::Io,
        },
    }
}

/// A failed operation: the step, the class, and the path it concerns.
#[derive(Debug, Clone, PartialEq, Eq)]
pub struct Failure {
    pub kind: FailureKind,
    pub class: ErrorClass,
    pub path: String,
}

/// The mathematical content of a [`Failure`].
pub struct FailureModel {
    pub kind: FailureKind,
    pub class: ErrorClass,
    pub path: Seq<char>,
}

impl View for Failure {
    type V = FailureModel;

    open spec fn view(&self) -> FailureModel {
        FailureModel { kind: self.kind, class: self.class, path: self.path@ }
    }
}

impl FailureModel {
    /// The failure of step `kind` on `path` that the platform explained by `cause`.
    pub open spec fn platform(kind: FailureKind, cause: Cause, path: Seq<char>) -> FailureModel {
        FailureModel { kind, class: class_of(kind, cause), path }
    }
}

/// The class of a failure of step `kind` that the platform explained by `cause`.
pub fn classify(kind: FailureKind, cause: Cause) -> (class: ErrorClass)
    ensures
        class == class_of(kind, cause),
{
    match kind {
        FailureKind::PathNormalization => ErrorClass::PathNormalization,
        FailureKind::Finalize => ErrorClass::Finalize,
        _ => match cause {
            Cause::NotFound => ErrorClass::NotFound,
            Cause::PermissionDenied => ErrorClass::Permission,
            Cause::AlreadyExists => ErrorClass::AlreadyExists,
            Cause::Other => ErrorClass::Io,
        },
    }
}

/// The name a failed step is reported under.
pub open spec fn kind_name(kind: FailureKind) -> Seq<char> {
    match kind {
        FailureKind::Create => "CreateError"@,
        FailureKind::ReadDir => "ReadDirError"@,
        FailureKind::Remove => "RemoveError"@,
        FailureKind::Read => "ReadError"@,
        FailureKind::Copy => "CopyError"@,
        FailureKind::Rename => "RenameError"@,
        FailureKind::Flush => "FlushError"@,
        FailureKind::FileOpen => "FileOpenError"@,
        FailureKind::OutputCreate => "OutputCreateError"@,
        FailureKind::PathNormalization => "PathNormalizationError"@,
        FailureKind::EntryRead => "EntryReadError"@,
        FailureKind::EntryWrite => "EntryWriteError"@,
        FailureKind::Finalize => "FinalizeError"@,
    }
}

/// The name a class of failures is reported under.
pub open spec fn class_name(class: ErrorClass) -> Seq<char> {
    match class {
        ErrorClass::NotFound => "NotFoundError"@,
        ErrorClass::Permission => "PermissionError"@,
        ErrorClass::AlreadyExists => "AlreadyExistsError"@,
        ErrorClass::Io => "IOError"@,
        ErrorClass::PathNormalization => "PathNormalizationError"@,
        ErrorClass::Finalize => "FinalizeError"@,
    }
}

impl FailureModel {
    /// The text that reports the failure: the step, the class in brackets,
    /// and the path.
    pub open spec fn text(self) -> Seq<char> {
        kind_name(self.kind) + " ["@ + class_name(self.class) + "]: "@ + self.path
    }
}

impl FailureKind {
    /// The name the step is reported under.
    pub fn name(&self) -> (name: &'static str)
        ensures
            name@ == kind_name(*self),
    {
        match self {
            FailureKind::Create => "CreateError",
            FailureKind::ReadDir => "ReadDirError",
            FailureKind::Remove => "RemoveError",
            FailureKind::Read => "ReadError",
            FailureKind::Copy => "CopyError",
            FailureKind::Rename => "RenameError",
            FailureKind::Flush => "FlushError",
            FailureKind::FileOpen => "FileOpenError",
            FailureKind::OutputCreate => "OutputCreateError",
            FailureKind::PathNormalization => "PathNormalizationError",
            FailureKind::EntryRead => "EntryReadError",
            FailureKind::EntryWrite => "EntryWriteError",
            FailureKind::Finalize => "FinalizeError",
        }
    }
}

impl ErrorClass {
    /// The name the class is reported under.
    pub fn name(&self) -> (name: &'static str)
        ensures
            name@ == class_name(*self),
    {
        match self {
            ErrorClass::NotFound => "NotFoundError",
            ErrorClass::Permission => "PermissionError",
            ErrorClass::AlreadyExists => "AlreadyExistsError",
            ErrorClass::Io => "IOError",
            ErrorClass::PathNormalization => "PathNormalizationError",
            ErrorClass::Finalize => "FinalizeError",
        }
    }
}

impl Failure {
    /// The failure of step `kind` on `path` that the platform explained by `cause`.
    pub fn platform(kind: FailureKind, cause: Cause, path: &str) -> (failure: Failure)
        ensures
            failure@ == FailureModel::platform(kind, cause, path@),
    {
        Failure { kind, class: classify(kind, cause), path: path.to_owned() }
    }

    /// The text that reports the failure.
    pub fn describe(&self) -> (text: String)
        ensures
            text@ == self@.text(),
    {
        let mut text = self.kind.name().to_owned();
        text.append(" [");
        text.append(self.class.name());
        text.append("]: ");
        text.append(self.path.as_str());
        text
    }
}

} // verus!
