//! Archiving a directory tree: which entries go into the container, under
//! which names, and what is reported when that cannot be done.
//!
//! The tree is handed in as the list of entries that walking the source
//! directory has produced, the source directory itself first. Reading the
//! tree and storing the finished container are left to the caller.

use vstd::prelude::*;
use crate::container::{
    directory_record,
    entry_write_failure,
    file_record,
    finalize_failure,
    fits,
    is_container_of,
    ready,
    recorded,
    sealed,
    ArchiveWriter,
    Compression,
    CompressionOptions,
    Recorded,
};
use crate::failure::{classify, Cause, ErrorClass, Failure, FailureKind, FailureModel};
use crate::path::{relative, relative_path};

verus! {

/// What was found at a path of the tree.
#[derive(Debug, Clone, PartialEq, Eq)]
pub enum Node {
    /// A directory.
    Directory,
    /// A plain file, with all of its bytes.
    File { content: Vec<u8> },
    /// A file that could not be opened or read, or a directory that could
    /// not be walked.
    Unreadable { cause: Cause },
    /// Neither a plain file nor a directory.
    Other,
}

/// The mathematical content of a [`Node`].
pub enum NodeView {
    Directory,
    File { content: Seq<u8> },
    Unreadable { cause: Cause },
    Other,
}

impl View for Node {
    type V = NodeView;

    open spec fn view(&self) -> NodeView {
        match self {
            Node::Directory => NodeView::Directory,
            Node::File { content } => NodeView::File { content: content@ },
            Node::Unreadable { cause } => NodeView::Unreadable { cause: *cause },
            Node::Other => NodeView::Other,
        }
    }
}

/// One entry of the tree as it was walked: a path, spelled as the walk
/// spelled it, and what was found there.
#[derive(Debug, Clone, PartialEq, Eq)]
pub struct TreeEntry {
    pub path: String,
    pub node: Node,
}

/// The mathematical content of a [`TreeEntry`].
pub struct TreeEntryView {
    pub path: Seq<char>,
    pub node: NodeView,
}

impl View for TreeEntry {
    type V = TreeEntryView;

    open spec fn view(&self) -> TreeEntryView {
        TreeEntryView { path: self.path@, node: self.node@ }
    }
}

/// The contents of a list of tree entries.
pub open spec fn tree_view(entries: Seq<TreeEntry>) -> Seq<TreeEntryView> {
    entries.map_values(|e: TreeEntry| e@)
}

/// One entry of the archive to be written: a directory marker, or a file
/// with its content.
pub struct ArchiveEntry {
    /// The path of the entry relative to the source directory.
    pub name: Seq<char>,
    /// The content of a file; a directory marker has none.
    pub content: Option<Seq<u8>>,
}

/// An [`ArchiveEntry`] that borrows the content from the tree it was planned
/// from.
#[derive(Debug)]
pub struct PlannedEntry<'a> {
    pub name: String,
    pub content: Option<&'a Vec<u8>>,
}

impl<'a> View for PlannedEntry<'a> {
    type V = ArchiveEntry;

    open spec fn view(&self) -> ArchiveEntry {
        ArchiveEntry {
            name: self.name@,
            content: match self.content {
                Some(bytes) => Some(bytes@),
                None => None,
            },
        }
    }
}

/// The contents of a list of planned entries.
pub open spec fn plan_view(plan: Seq<PlannedEntry<'_>>) -> Seq<ArchiveEntry> {
    plan.map_values(|p: PlannedEntry<'_>| p@)
}

/// What one tree entry contributes to the archive.
pub enum Step {
    /// Nothing: the entry is passed over.
    Skip,
    /// One archive entry.
    Put(ArchiveEntry),
    /// The archive cannot be made.
    Fail(FailureModel),
}

/// The failure reported for an entry that does not lie under the source
/// directory.
pub open spec fn normalization_failure(path: Seq<char>) -> FailureModel {
    FailureModel {
        kind: FailureKind::PathNormalization,
        class: ErrorClass::PathNormalization,
        path,
    }
}

/// The failure reported for an entry that cannot be read.
pub open spec fn entry_read_failure(path: Seq<char>, cause: Cause) -> FailureModel {
    FailureModel::platform(FailureKind::EntryRead, cause, path)
}

/// The failure reported when the source directory is missing.
pub open spec fn source_missing(root: Seq<char>) -> FailureModel {
    FailureModel { kind: FailureKind::ReadDir, class: ErrorClass::NotFound, path: root }
}

/// What the tree entry `entry` contributes to the archive of `root`.
///
/// An entry outside `root` fails the archive. The source directory itself
/// gets no entry. Below it, a directory gives a marker and a readable file
/// gives a file, each named by its path relative to `root`; what cannot be
/// read fails the archive; anything else is passed over.
pub open spec fn step_of(root: Seq<char>, entry: TreeEntryView) -> Step {
    match relative(root, entry.path) {
        None => Step::Fail(normalization_failure(entry.path)),
        Some(name) => if name.len() == 0 {
            Step::Skip
        } else {
            match entry.node {
                NodeView::Directory => Step::Put(ArchiveEntry { name, content: None }),
                NodeView::File { content } => Step::Put(
                    ArchiveEntry { name, content: Some(content) },
                ),
                NodeView::Unreadable { cause } => Step::Fail(entry_read_failure(entry.path, cause)),
                NodeView::Other => Step::Skip,
            }
        },
    }
}

/// The archive entries for `entries`, in the order of the walk, or the
/// failure of the first entry that fails. The walk alone decides the order,
/// that of the entries of one directory too; nothing is sorted.
pub open spec fn planned(root: Seq<char>, entries: Seq<TreeEntryView>) -> Result<
    Seq<ArchiveEntry>,
    FailureModel,
>
    decreases entries.len(),
{
    if entries.len() == 0 {
        Ok(Seq::<ArchiveEntry>::empty())
    } else {
        match planned(root, entries.drop_last()) {
            Err(failure) => Err(failure),
            Ok(list) => match step_of(root, entries.last()) {
                Step::Skip => Ok(list),
                Step::Put(entry) => Ok(list.push(entry)),
                Step::Fail(failure) => Err(failure),
            },
        }
    }
}

/// Whether the walk found the source directory: its first entry is `root`
/// itself, and a directory.
pub open spec fn source_found(root: Seq<char>, entries: Seq<TreeEntryView>) -> bool {
    &&& entries.len() > 0
    &&& relative(root, entries[0].path) matches Some(name)
    &&& name.len() == 0
    &&& entries[0].node is Directory
}

/// The archive of `root` as walked in `entries`: its entries, or the failure
/// to report.
pub open spec fn archive_plan(root: Seq<char>, entries: Seq<TreeEntryView>) -> Result<
    Seq<ArchiveEntry>,
    FailureModel,
> {
    if source_found(root, entries) {
        planned(root, entries)
    } else {
        Err(source_missing(root))
    }
}

/// How the container records an archive entry.
pub open spec fn record_of(entry: ArchiveEntry, options: CompressionOptions) -> Recorded {
    match entry.content {
        Some(content) => file_record(entry.name, content, options),
        None => directory_record(entry.name, options),
    }
}

/// How the container records a list of archive entries.
pub open spec fn records_of(entries: Seq<ArchiveEntry>, options: CompressionOptions) -> Seq<
    Recorded,
> {
    entries.map_values(|e: ArchiveEntry| record_of(e, options))
}

/// Whether an archive entry can be written with `method`: a marker always
/// can, a file where its content fits.
pub open spec fn entry_fits(entry: ArchiveEntry, method: Compression) -> bool {
    entry.content matches Some(content) ==> fits(content, method)
}

/// Whether every one of `entries` can be written with `method`.
pub open spec fn all_fit(entries: Seq<ArchiveEntry>, method: Compression) -> bool {
    forall|i: int| 0 <= i < entries.len() ==> entry_fits(#[trigger] entries[i], method)
}

/// Whether the tree `root`, walked as `entries`, can be archived with
/// `options`: the archive can be planned, and every entry of it can be
/// written.
pub open spec fn can_be_archived(
    root: Seq<char>,
    entries: Seq<TreeEntryView>,
    options: CompressionOptions,
) -> bool {
    archive_plan(root, entries) matches Ok(list) && all_fit(list, options.method)
}

/// Whether the entry at place `at` is the first of `entries` that cannot be
/// written with `method`.
pub open spec fn is_first_misfit(entries: Seq<ArchiveEntry>, method: Compression, at: int) -> bool {
    &&& 0 <= at < entries.len()
    &&& !entry_fits(entries[at], method)
    &&& all_fit(entries.take(at), method)
}

/// Whether `failure` is what the container reports of the plan `entries`,
/// written with `method`. The container stumbles over the first entry that
/// cannot be written. It refuses that entry itself; or it takes it and
/// refuses what comes next, which is the entry after it or, where there is
/// none, the finishing.
pub open spec fn is_container_failure(
    failure: FailureModel,
    entries: Seq<ArchiveEntry>,
    method: Compression,
) -> bool {
    exists|at: int|
        #![trigger is_first_misfit(entries, method, at)]
        is_first_misfit(entries, method, at) && {
            ||| failure == entry_write_failure(entries[at].name)
            ||| at + 1 < entries.len() && failure == entry_write_failure(entries[at + 1].name)
            ||| at + 1 == entries.len() && failure == finalize_failure()
        }
}

/// The first `upto + 1` entries can all be written exactly if the first
/// `upto` can and the one after them can.
pub proof fn lemma_all_fit_step(entries: Seq<ArchiveEntry>, upto: int, method: Compression)
    requires
        0 <= upto < entries.len(),
    ensures
        all_fit(entries.take(upto + 1), method) <==> (all_fit(entries.take(upto), method)
            && entry_fits(entries[upto], method)),
{
    let longer = entries.take(upto + 1);
    let shorter = entries.take(upto);
    if all_fit(longer, method) {
        assert forall|i: int| 0 <= i < shorter.len() implies entry_fits(
            #[trigger] shorter[i],
            method,
        ) by {
            assert(shorter[i] == longer[i]);
        }
        assert(longer[upto] == entries[upto]);
    }
    if all_fit(shorter, method) && entry_fits(entries[upto], method) {
        assert forall|i: int| 0 <= i < longer.len() implies entry_fits(
            #[trigger] longer[i],
            method,
        ) by {
            if i < upto {
                assert(longer[i] == shorter[i]);
            }
        }
    }
}

/// Where all entries can be written, those of every leading part can.
pub proof fn lemma_all_fit_prefix(entries: Seq<ArchiveEntry>, upto: int, method: Compression)
    requires
        0 <= upto <= entries.len(),
        all_fit(entries, method),
    ensures
        all_fit(entries.take(upto), method),
{
    let shorter = entries.take(upto);
    assert forall|i: int| 0 <= i < shorter.len() implies entry_fits(#[trigger] shorter[i], method) by {
        assert(shorter[i] == entries[i]);
    }
}

/// Where an entry cannot be written, not all entries can.
pub proof fn lemma_misfit_spoils(entries: Seq<ArchiveEntry>, method: Compression, at: int)
    requires
        0 <= at < entries.len(),
        !entry_fits(entries[at], method),
    ensures
        !all_fit(entries, method),
{
}

/// Decides what the archive of `directory_name` holds, given the walk of
/// that directory.
pub fn plan_archive<'a>(directory_name: &str, entries: &'a Vec<TreeEntry>) -> (r: Result<
    Vec<PlannedEntry<'a>>,
    Failure,
>)
    ensures
        match archive_plan(directory_name@, tree_view(entries@)) {
            Ok(list) => r matches Ok(plan) && plan_view(plan@) == list,
            Err(failure) => r matches Err(e) && e@ == failure,
        },
{
    let ghost root = directory_name@;
    let ghost tree = tree_view(entries@);
    if !found_source(directory_name, entries) {
        return Err(
            Failure {
                kind: FailureKind::ReadDir,
                class: ErrorClass::NotFound,
                path: directory_name.to_owned(),
            },
        );
    }
    let mut plan: Vec<PlannedEntry<'a>> = Vec::new();
    let mut i: usize = 0;
    proof {
        assert(tree.take(0) =~= Seq::<TreeEntryView>::empty());
        assert(plan_view(plan@) =~= Seq::<ArchiveEntry>::empty());
    }
    while i < entries.len()
        invariant
            i <= entries.len(),
            root == directory_name@,
            tree == tree_view(entries@),
            source_found(root, tree),
            planned(root, tree.take(i as int)) == Ok::<Seq<ArchiveEntry>, FailureModel>(
                plan_view(plan@),
            ),
        decreases entries.len() - i,
    {
        let entry = &entries[i];
        let ghost before = plan_view(plan@);
        proof {
            assert(tree.take(i as int + 1).drop_last() =~= tree.take(i as int));
            assert(tree.take(i as int + 1).last() == entry@);
        }
        match relative_path(directory_name, entry.path.as_str()) {
            None => {
                proof {
                    lemma_failure_stays(root, tree, i as int + 1);
                }
                return Err(
                    Failure {
                        kind: FailureKind::PathNormalization,
                        class: ErrorClass::PathNormalization,
                        path: entry.path.clone(),
                    },
                );
            },
            Some(name) => {
                if name.as_str().unicode_len() > 0 {
                    match &entry.node {
                        Node::Directory => {
                            plan.push(PlannedEntry { name, content: None });
                            assert(plan_view(plan@) =~= before.push(
                                ArchiveEntry { name: name@, content: None },
                            ));
                        },
                        Node::File { content } => {
                            plan.push(PlannedEntry { name, content: Some(content) });
                            assert(plan_view(plan@) =~= before.push(
                                ArchiveEntry { name: name@, content: Some(content@) },
                            ));
                        },
                        Node::Unreadable { cause } => {
                            proof {
                                lemma_failure_stays(root, tree, i as int + 1);
                            }
                            return Err(
                                Failure {
                                    kind: FailureKind::EntryRead,
                                    class: classify(FailureKind::EntryRead, *cause),
                                    path: entry.path.clone(),
                                },
                            );
                        },
                        Node::Other => {},
                    }
                }
            },
        }
        i += 1;
    }
    proof {
        assert(tree.take(entries.len() as int) =~= tree);
    }
    Ok(plan)
}

/// Whether the walk starts with the source directory itself.
fn found_source(directory_name: &str, entries: &Vec<TreeEntry>) -> (found: bool)
    ensures
        found == source_found(directory_name@, tree_view(entries@)),
{
    if entries.len() == 0 {
        return false;
    }
    let first = &entries[0];
    assert(tree_view(entries@)[0] == first@);
    match relative_path(directory_name, first.path.as_str()) {
        None => false,
        Some(name) => {
            name.as_str().unicode_len() == 0 && match &first.node {
                Node::Directory => true,
                _ => false,
            }
        },
    }
}

/// Once an entry has failed, the failure is what the whole walk comes to.
pub proof fn lemma_failure_stays(root: Seq<char>, entries: Seq<TreeEntryView>, upto: int)
    requires
        0 <= upto <= entries.len(),
        planned(root, entries.take(upto)) is Err,
    ensures
        planned(root, entries) == planned(root, entries.take(upto)),
    decreases entries.len() - upto,
{
    if upto < entries.len() {
        assert(entries.take(upto + 1).drop_last() =~= entries.take(upto));
        lemma_failure_stays(root, entries, upto + 1);
    } else {
        assert(entries.take(upto) =~= entries);
    }
}

/// Writes the planned entries into a new container, in order, and finishes
/// it.
///
/// The container is made exactly if every entry can be written with the
/// method of `options`. Then the bytes are a container of the records of
/// the plan, and nothing else. Otherwise the failure is one of those the
/// container reports of the plan.
pub fn write_archive(plan: &Vec<PlannedEntry<'_>>, options: &CompressionOptions) -> (r: Result<
    Vec<u8>,
    Failure,
>)
    ensures
        r is Ok <==> all_fit(plan_view(plan@), options.method),
        match r {
            Ok(bytes) => is_container_of(bytes@, records_of(plan_view(plan@), *options)),
            Err(e) => is_container_failure(e@, plan_view(plan@), options.method),
        },
{
    let ghost list = plan_view(plan@);
    let ghost records = records_of(list, *options);
    let ghost method = options.method;
    let mut writer = ArchiveWriter::new();
    let mut i: usize = 0;
    proof {
        assert(records.take(0) =~= Seq::<Recorded>::empty());
        assert(all_fit(list.take(0), method));
    }
    while i < plan.len()
        invariant
            i <= plan.len(),
            list == plan_view(plan@),
            records == records_of(list, *options),
            method == options.method,
            recorded(writer) == records.take(i as int),
            ready(writer) ==> all_fit(list.take(i as int), method),
            !ready(writer) ==> i > 0 && is_first_misfit(list, method, i - 1),
        decreases plan.len() - i,
    {
        let entry = &plan[i];
        let ghost was_ready = ready(writer);
        proof {
            assert(list[i as int] == entry@);
            assert(records.take(i as int + 1) =~= records.take(i as int).push(
                record_of(entry@, *options),
            ));
            lemma_all_fit_step(list, i as int, method);
        }
        let added = match entry.content {
            Some(content) => writer.add_file(entry.name.as_str(), content.as_slice(), options),
            None => writer.add_directory(entry.name.as_str(), options),
        };
        match added {
            Ok(()) => {
                proof {
                    assert(was_ready);
                    if !ready(writer) {
                        assert(is_first_misfit(list, method, i as int));
                    }
                }
            },
            Err(e) => {
                proof {
                    assert(e@ == entry_write_failure(list[i as int].name));
                    if was_ready {
                        assert(is_first_misfit(list, method, i as int));
                        lemma_misfit_spoils(list, method, i as int);
                    } else {
                        assert(is_first_misfit(list, method, i - 1));
                        lemma_misfit_spoils(list, method, i - 1);
                    }
                }
                return Err(e);
            },
        }
        i += 1;
    }
    proof {
        assert(records.take(plan.len() as int) =~= records);
        assert(list.take(plan.len() as int) =~= list);
        if !ready(writer) {
            assert(is_first_misfit(list, method, plan.len() - 1));
            lemma_misfit_spoils(list, method, plan.len() - 1);
        }
    }
    let ghost full = writer;
    match writer.finish() {
        Ok(bytes) => {
            assert(recorded(full) == records && sealed(full) == bytes@);
            Ok(bytes)
        },
        Err(e) => Err(e),
    }
}

/// Archives the directory `directory_name`, walked as `entries`, into the
/// bytes of one compressed container.
///
/// The archive is made exactly if the tree can be archived with the fixed
/// options: it can be planned, and every file in it can be written. Then
/// the bytes are a container of exactly the planned entries, every one
/// written with the fixed options. Where the archive cannot be planned, the
/// failure is the one [`archive_plan`] names; where a file cannot be
/// written, it is the failure the container reports.
pub fn zip_directory(directory_name: &str, entries: &Vec<TreeEntry>) -> (r: Result<
    Vec<u8>,
    Failure,
>)
    ensures
        r is Ok <==> can_be_archived(
            directory_name@,
            tree_view(entries@),
            CompressionOptions::fixed(),
        ),
        match archive_plan(directory_name@, tree_view(entries@)) {
            Err(failure) => r matches Err(e) && e@ == failure,
            Ok(list) => match r {
                Ok(bytes) => is_container_of(
                    bytes@,
                    records_of(list, CompressionOptions::fixed()),
                ),
                Err(e) => is_container_failure(e@, list, CompressionOptions::fixed().method),
            },
        },
{
    match plan_archive(directory_name, entries) {
        Err(e) => Err(e),
        Ok(plan) => {
            let options = CompressionOptions::fixed();
            write_archive(&plan, &options)
        },
    }
}

} // verus!
