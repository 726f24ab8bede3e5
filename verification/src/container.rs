//! The archive container, written in memory by the `zip` crate.
//!
//! The writer of that crate is opaque to the verifier. What is known of it is
//! stated over four names: [`recorded`], the entries a writer has taken so
//! far; [`sealed`], the bytes it turns into when it is finished; [`ready`],
//! whether it takes the next entry and can be finished; and [`packs`],
//! whether the packer takes the data of one entry. The functions at the end
//! of this file that call into the crate are believed, not proved;
//! everything else is proved from what they state.
//!
//! The container is built in memory, so whether a call succeeds is decided
//! by the writer and the arguments alone. Two things reach beyond the
//! program all the same. The crate stamps every entry with the time of the
//! system clock at which it is added, so the bytes of two containers of the
//! same entries may differ. And a writer that is dropped unfinished is
//! finished by the crate, which writes a line to standard error should that
//! fail.
//!
//! Every file is written with room for sizes beyond four gigabytes. Without
//! that room the crate refuses an entry whose packed data has grown past the
//! limit only when the entry is closed, and a writer so refused panics when
//! it is closed again, be it by being dropped.

use vstd::prelude::*;
use crate::failure::{ErrorClass, Failure, FailureKind, FailureModel};

verus! {

/// How the data of an entry is stored.
#[derive(Debug, Clone, Copy, PartialEq, Eq, Structural)]
pub enum Compression {
    Stored,
    Deflated,
}

/// The settings an entry is written with.
#[derive(Debug, Clone, Copy, PartialEq, Eq, Structural)]
pub struct CompressionOptions {
    pub method: Compression,
    pub unix_permissions: u32,
}

impl CompressionOptions {
    /// Deflate, and permission bits `rwxr-xr-x`.
    pub open spec fn fixed_spec() -> CompressionOptions {
        CompressionOptions { method: Compression::Deflated, unix_permissions: 0o755 }
    }

    /// The one configuration the archiver uses, for every entry alike.
    #[verifier::when_used_as_spec(fixed_spec)]
    pub fn fixed() -> (options: CompressionOptions)
        ensures
            options == CompressionOptions::fixed_spec(),
    {
        CompressionOptions { method: Compression::Deflated, unix_permissions: 0o755 }
    }
}

/// One entry as a writer has recorded it.
pub struct Recorded {
    /// The name the entry is stored under.
    pub name: Seq<char>,
    /// The Unix mode, file type bits included.
    pub unix_mode: u32,
    pub method: Compression,
    /// The data taken for the entry, before compression.
    pub content: Seq<u8>,
}

/// The mode recorded for a file written with the given permission bits.
pub open spec fn file_mode(permissions: u32) -> u32 {
    (permissions & 0o777) | 0o100000
}

/// The mode recorded for a directory written with the given permission bits.
pub open spec fn directory_mode(permissions: u32) -> u32 {
    (permissions & 0o777) | 0o40000
}

/// The name a directory is stored under: its own, closed by a `/` unless it
/// already ends in `/` or `\`.
pub open spec fn directory_name(name: Seq<char>) -> Seq<char> {
    if name.len() > 0 && (name.last() == '/' || name.last() == '\\') {
        name
    } else {
        name + seq!['/']
    }
}

/// The record of a file `name` holding `content`.
pub open spec fn file_record(
    name: Seq<char>,
    content: Seq<u8>,
    options: CompressionOptions,
) -> Recorded {
    Recorded {
        name,
        unix_mode: file_mode(options.unix_permissions),
        method: options.method,
        content,
    }
}

/// The record of the directory marker `name`: stored, and without content.
pub open spec fn directory_record(name: Seq<char>, options: CompressionOptions) -> Recorded {
    Recorded {
        name: directory_name(name),
        unix_mode: directory_mode(options.unix_permissions),
        method: Compression::Stored,
        content: Seq::<u8>::empty(),
    }
}

/// `entries` with `data` appended to the content of the last one.
pub open spec fn with_data(entries: Seq<Recorded>, data: Seq<u8>) -> Seq<Recorded> {
    if entries.len() == 0 {
        entries
    } else {
        entries.update(
            entries.len() - 1,
            Recorded { content: entries.last().content + data, ..entries.last() },
        )
    }
}

/// A writer that owns one container and builds it in memory.
///
/// It holds a `zip::ZipWriter` over a `std::io::Cursor<Vec<u8>>`. The
/// verifier cannot look into it: the bounds of that type name traits of the
/// standard library that have no specification.
#[verifier::external_body]
pub struct ArchiveWriter {
    inner: zip::ZipWriter<std::io::Cursor<Vec<u8>>>,
}

/// The error type of the `zip` crate, carried through unread.
#[verifier::external_type_specification]
#[verifier::external_body]
pub struct ExZipError(zip::result::ZipError);

/// The error type of `std::io`, carried through unread.
#[verifier::external_type_specification]
#[verifier::external_body]
pub struct ExIoError(std::io::Error);

/// The entries a writer has recorded, oldest first.
pub uninterp spec fn recorded(writer: ArchiveWriter) -> Seq<Recorded>;

/// The bytes of the finished container that a writer in this state yields.
pub uninterp spec fn sealed(writer: ArchiveWriter) -> Seq<u8>;

/// Whether the writer is in order: it takes a further entry, and it can be
/// finished.
pub uninterp spec fn ready(writer: ArchiveWriter) -> bool;

/// Whether the packer of `method` takes `content`, written as the whole data
/// of an entry just started, in full and lets the entry be closed.
pub uninterp spec fn packs(content: Seq<u8>, method: Compression) -> bool;

/// Whether `content` can be the data of an entry written with `method`.
/// Content that is stored as it is always can, and so can no content at all;
/// any other content can exactly if the packer takes it.
pub open spec fn fits(content: Seq<u8>, method: Compression) -> bool {
    content.len() == 0 || method is Stored || packs(content, method)
}

/// Whether files are written with room for sizes beyond four gigabytes.
/// They always are.
pub const ROOM_FOR_LARGE_SIZES: bool = true;

/// Whether the entry recorded last is a file that has no data yet.
pub open spec fn awaits_data(entries: Seq<Recorded>) -> bool {
    &&& entries.len() > 0
    &&& entries.last().unix_mode & 0o170000 == 0o100000
    &&& entries.last().content.len() == 0
}

/// Whether `bytes` is a finished container of exactly `entries`: what a
/// writer that has recorded these entries, in this order, is sealed into.
pub open spec fn is_container_of(bytes: Seq<u8>, entries: Seq<Recorded>) -> bool {
    exists|writer: ArchiveWriter| #[trigger] recorded(writer) == entries && sealed(writer) == bytes
}

/// The failure reported when the container does not take the entry `name`.
pub open spec fn entry_write_failure(name: Seq<char>) -> FailureModel {
    FailureModel { kind: FailureKind::EntryWrite, class: ErrorClass::Io, path: name }
}

/// The failure reported when the container cannot be finished.
pub open spec fn finalize_failure() -> FailureModel {
    FailureModel {
        kind: FailureKind::Finalize,
        class: ErrorClass::Finalize,
        path: Seq::<char>::empty(),
    }
}

impl ArchiveWriter {
    /// A writer over a new, empty container.
    pub fn new() -> (writer: ArchiveWriter)
        ensures
            recorded(writer) == Seq::<Recorded>::empty(),
            ready(writer),
    {
        open_writer()
    }

    /// Adds the file `name` with the whole of `content`.
    ///
    /// A writer that is not ready takes no file. A writer that is ready
    /// takes the file and stays ready exactly if the content fits; content
    /// that does not fit is refused, or is taken and leaves the writer
    /// unfit for anything further. On failure nothing is known of what the
    /// writer has recorded; the container is to be thrown away.
    pub fn add_file(&mut self, name: &str, content: &[u8], options: &CompressionOptions) -> (r:
        Result<(), Failure>)
        ensures
            match r {
                Ok(()) => recorded(*final(self)) == recorded(*old(self)).push(
                    file_record(name@, content@, *options),
                ),
                Err(e) => e@ == entry_write_failure(name@),
            },
            r is Ok ==> ready(*old(self)),
            (r is Ok && ready(*final(self))) <==> (ready(*old(self)) && fits(
                content@,
                options.method,
            )),
    {
        match start_file(
            self,
            name,
            options.method,
            options.unix_permissions,
            ROOM_FOR_LARGE_SIZES,
        ) {
            Ok(()) => {},
            Err(_) => {
                return Err(entry_write(name));
            },
        }
        let ghost started = recorded(*self);
        proof {
            let permissions = options.unix_permissions;
            assert((permissions & 0o777 | 0o100000) & 0o170000 == 0o100000) by (bit_vector);
            assert(awaits_data(started));
        }
        match write_all(self, content) {
            Ok(()) => {
                assert(recorded(*self) =~= recorded(*old(self)).push(
                    file_record(name@, content@, *options),
                )) by {
                    assert(started.last().content + content@ =~= content@);
                }
                Ok(())
            },
            Err(_) => Err(entry_write(name)),
        }
    }

    /// Adds a marker for the directory `name`. A marker has no content.
    ///
    /// The marker is taken exactly if the writer is ready, and the writer is
    /// ready afterwards. On failure nothing is known of what the writer has
    /// recorded; the container is to be thrown away.
    pub fn add_directory(&mut self, name: &str, options: &CompressionOptions) -> (r: Result<
        (),
        Failure,
    >)
        ensures
            match r {
                Ok(()) => recorded(*final(self)) == recorded(*old(self)).push(
                    directory_record(name@, *options),
                ),
                Err(e) => e@ == entry_write_failure(name@),
            },
            r is Ok <==> ready(*old(self)),
            r is Ok ==> ready(*final(self)),
    {
        match add_directory(self, name, options.unix_permissions) {
            Ok(()) => Ok(()),
            Err(_) => Err(entry_write(name)),
        }
    }

    /// Finishes the container and hands out its bytes. The writer is used
    /// up: nothing can be added afterwards. A writer can be finished exactly
    /// if it is ready.
    pub fn finish(self) -> (r: Result<Vec<u8>, Failure>)
        ensures
            match r {
                Ok(bytes) => bytes@ == sealed(self),
                Err(e) => e@ == finalize_failure(),
            },
            r is Ok <==> ready(self),
    {
        match seal(self) {
            Ok(bytes) => Ok(bytes),
            Err(_) => Err(
                Failure {
                    kind: FailureKind::Finalize,
                    class: ErrorClass::Finalize,
                    path: String::new(),
                },
            ),
        }
    }
}

/// The failure to report when the container does not take the entry `name`.
fn entry_write(name: &str) -> (failure: Failure)
    ensures
        failure@ == entry_write_failure(name@),
{
    Failure { kind: FailureKind::EntryWrite, class: ErrorClass::Io, path: name.to_owned() }
}

/// Calls `zip::ZipWriter::new` on an empty in-memory cursor. A new writer has
/// recorded no entry and is ready.
#[verifier::external_body]
fn open_writer() -> (writer: ArchiveWriter)
    ensures
        recorded(writer) == Seq::<Recorded>::empty(),
        ready(writer),
{
    ArchiveWriter { inner: zip::ZipWriter::new(std::io::Cursor::new(Vec::new())) }
}

/// Calls `zip::ZipWriter::start_file` with options made by
/// `FileOptions::default`, `compression_method`, `unix_permissions` and
/// `large_file`.
///
/// The call first closes the entry before it, and succeeds exactly if the
/// writer is ready: the cursor takes every write, and with the default level
/// both methods are accepted. Where it succeeds, the writer has recorded one
/// more entry: it has the name as given, the permission bits masked to nine
/// bits and marked as a regular file, the method as given, and no content
/// yet; and the writer is ready, an entry without data being closed without
/// fail. Nothing is claimed of what a writer has recorded after a call that
/// fails.
///
/// Room for large sizes is required. Without it the crate can refuse to
/// close the entry and then panics when the writer is closed again.
#[verifier::external_body]
fn start_file(
    writer: &mut ArchiveWriter,
    name: &str,
    method: Compression,
    permissions: u32,
    large_file: bool,
) -> (r: Result<(), zip::result::ZipError>)
    requires
        large_file,
    ensures
        r is Ok ==> recorded(*final(writer)) == recorded(*old(writer)).push(
            Recorded {
                name: name@,
                unix_mode: file_mode(permissions),
                method,
                content: Seq::<u8>::empty(),
            },
        ),
        r is Ok <==> ready(*old(writer)),
        r is Ok ==> ready(*final(writer)),
{
    let method = match method {
        Compression::Stored => zip::CompressionMethod::Stored,
        Compression::Deflated => zip::CompressionMethod::Deflated,
    };
    let options = zip::write::FileOptions::default()
        .compression_method(method)
        .unix_permissions(permissions)
        .large_file(large_file);
    writer.inner.start_file(name, options)
}

/// Calls `std::io::Write::write_all` on the `zip::ZipWriter`.
///
/// Where the call succeeds, the whole of `data` has been taken for the entry
/// recorded last. Where a ready writer has just started a file, so that
/// `data` is all the data of that entry, the call succeeds and leaves the
/// writer ready exactly if `data` fits: no data is taken without a call
/// into the crate; data that is stored goes to the cursor as it is, and the
/// entry, having room for large sizes, is closed whatever its size; any
/// other data is up to the packer. Nothing is claimed of what a writer has
/// recorded after a call that fails.
#[verifier::external_body]
fn write_all(writer: &mut ArchiveWriter, data: &[u8]) -> (r: Result<(), std::io::Error>)
    ensures
        r is Ok ==> recorded(*final(writer)) == with_data(recorded(*old(writer)), data@),
        ready(*old(writer)) && awaits_data(recorded(*old(writer))) ==> ((r is Ok && ready(
            *final(writer),
        )) <==> (data@.len() == 0 || recorded(*old(writer)).last().method is Stored || packs(
            data@,
            recorded(*old(writer)).last().method,
        ))),
{
    std::io::Write::write_all(&mut writer.inner, data)
}

/// Calls `zip::ZipWriter::add_directory` with options made by
/// `FileOptions::default` and `unix_permissions`.
///
/// The call first closes the entry before it, and succeeds exactly if the
/// writer is ready. Where it succeeds, the writer has recorded one more
/// entry: its name is closed by a `/` unless it ends in `/` or `\` already,
/// it has the permission bits masked to nine bits and marked as a directory,
/// it is stored, and it has no content; and the writer is ready. Nothing is
/// claimed of what a writer has recorded after a call that fails.
#[verifier::external_body]
fn add_directory(writer: &mut ArchiveWriter, name: &str, permissions: u32) -> (r: Result<
    (),
    zip::result::ZipError,
>)
    ensures
        r is Ok ==> recorded(*final(writer)) == recorded(*old(writer)).push(
            Recorded {
                name: directory_name(name@),
                unix_mode: directory_mode(permissions),
                method: Compression::Stored,
                content: Seq::<u8>::empty(),
            },
        ),
        r is Ok <==> ready(*old(writer)),
        r is Ok ==> ready(*final(writer)),
{
    let options = zip::write::FileOptions::default().unix_permissions(permissions);
    writer.inner.add_directory(name, options)
}

/// Calls `zip::ZipWriter::finish` and takes the bytes out of the cursor it
/// returns. The call closes the last entry and writes the directory of the
/// container; it succeeds exactly if the writer is ready. Where it succeeds,
/// the bytes are those the writer, in the state it was in, is sealed into.
#[verifier::external_body]
fn seal(writer: ArchiveWriter) -> (r: Result<Vec<u8>, zip::result::ZipError>)
    ensures
        r matches Ok(bytes) ==> bytes@ == sealed(writer),
        r is Ok <==> ready(writer),
{
    let mut writer = writer;
    match writer.inner.finish() {
        Ok(cursor) => Ok(cursor.into_inner()),
        Err(e) => Err(e),
    }
}

} // verus!
