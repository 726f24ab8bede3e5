//! What holds of every archive plan.

use vstd::prelude::*;
use vstd::multiset::Multiset;
use vstd::seq_lib::{to_multiset_build, to_multiset_contains, to_multiset_len, to_multiset_remove};
use crate::archive::{
    archive_plan,
    all_fit,
    can_be_archived,
    entry_fits,
    lemma_failure_stays,
    planned,
    record_of,
    records_of,
    source_found,
    source_missing,
    step_of,
    ArchiveEntry,
    NodeView,
    Step,
    TreeEntryView,
};
use crate::container::{directory_name, file_record, Compression, CompressionOptions};
use crate::failure::FailureModel;
use crate::path::{join, relative, segments};
use crate::path_laws::{
    all_clean,
    is_clean,
    lemma_join_ends,
    lemma_segments_are_clean,
    lemma_segments_of_join,
};

verus! {

/// Whether `path` lies below `root`, and is not `root` itself.
pub open spec fn lies_below(root: Seq<char>, path: Seq<char>) -> bool {
    relative(root, path) matches Some(name) && name.len() > 0
}

/// Whether `entry` is a readable file below `root`.
pub open spec fn is_file_below(root: Seq<char>, entry: TreeEntryView) -> bool {
    lies_below(root, entry.path) && entry.node is File
}

/// Whether `entry` is a directory below `root`.
pub open spec fn is_directory_below(root: Seq<char>, entry: TreeEntryView) -> bool {
    lies_below(root, entry.path) && entry.node is Directory
}

/// The readable files below `root`, in the order of the walk.
pub open spec fn files_below(root: Seq<char>, entries: Seq<TreeEntryView>) -> Seq<TreeEntryView> {
    entries.filter(|e: TreeEntryView| is_file_below(root, e))
}

/// The directories below `root`, in the order of the walk.
pub open spec fn directories_below(root: Seq<char>, entries: Seq<TreeEntryView>) -> Seq<
    TreeEntryView,
> {
    entries.filter(|e: TreeEntryView| is_directory_below(root, e))
}

/// The readable files and the directories below `root`, in the order of the
/// walk.
pub open spec fn nodes_below(root: Seq<char>, entries: Seq<TreeEntryView>) -> Seq<TreeEntryView> {
    entries.filter(|e: TreeEntryView| is_file_below(root, e) || is_directory_below(root, e))
}

/// The archive entry of a file or directory below `root`: it is named by
/// the path relative to `root`, and a file keeps its content.
pub open spec fn entry_of(root: Seq<char>, entry: TreeEntryView) -> ArchiveEntry {
    ArchiveEntry {
        name: relative(root, entry.path)->0,
        content: match entry.node {
            NodeView::File { content } => Some(content),
            _ => None,
        },
    }
}

/// The archive entries that one step adds, as a multiset.
pub open spec fn contribution(step: Step) -> Multiset<ArchiveEntry> {
    match step {
        Step::Put(entry) => Multiset::singleton(entry),
        _ => Multiset::empty(),
    }
}

/// An archive that can be made of a tree with `N` files and `M` directories
/// below the source directory has exactly `N + M` entries: one for each of
/// them, in the order of the walk, named by its path relative to the source
/// directory and, for a file, holding the file's content.
pub proof fn law_one_entry_per_node(root: Seq<char>, entries: Seq<TreeEntryView>)
    requires
        planned(root, entries) is Ok,
    ensures
        planned(root, entries) matches Ok(list) && {
            &&& list.len() == files_below(root, entries).len() + directories_below(
                root,
                entries,
            ).len()
            &&& list == nodes_below(root, entries).map_values(|e: TreeEntryView| entry_of(root, e))
            &&& forall|options: CompressionOptions| #[trigger]
                records_of(list, options).len() == list.len()
        },
    decreases entries.len(),
{
    let files = |e: TreeEntryView| is_file_below(root, e);
    let directories = |e: TreeEntryView| is_directory_below(root, e);
    let nodes = |e: TreeEntryView| is_file_below(root, e) || is_directory_below(root, e);
    let entry = |e: TreeEntryView| entry_of(root, e);
    if entries.len() == 0 {
        assert(nodes_below(root, entries).map_values(entry) =~= Seq::<ArchiveEntry>::empty());
    } else {
        let front = entries.drop_last();
        let last = entries.last();
        law_one_entry_per_node(root, front);
        reveal(Seq::filter);
        assert(entries.filter(files) == if files(last) {
            front.filter(files).push(last)
        } else {
            front.filter(files)
        });
        assert(entries.filter(directories) == if directories(last) {
            front.filter(directories).push(last)
        } else {
            front.filter(directories)
        });
        assert(entries.filter(nodes) == if nodes(last) {
            front.filter(nodes).push(last)
        } else {
            front.filter(nodes)
        });
        if nodes(last) {
            assert(step_of(root, last) == Step::Put(entry_of(root, last)));
            assert(front.filter(nodes).push(last).map_values(entry) =~= front.filter(
                nodes,
            ).map_values(entry).push(entry_of(root, last)));
        } else {
            assert(step_of(root, last) is Skip);
        }
    }
}

/// In an archive that can be made, every readable file below the source
/// directory is recorded under its path relative to that directory, with
/// exactly the bytes of the file.
pub proof fn law_files_keep_their_bytes(
    root: Seq<char>,
    entries: Seq<TreeEntryView>,
    options: CompressionOptions,
    at: int,
)
    requires
        planned(root, entries) is Ok,
        0 <= at < entries.len(),
        is_file_below(root, entries[at]),
    ensures
        records_of(planned(root, entries)->Ok_0, options).contains(
            file_record(
                relative(root, entries[at].path)->0,
                entries[at].node->File_content,
                options,
            ),
        ),
{
    let nodes = |e: TreeEntryView| is_file_below(root, e) || is_directory_below(root, e);
    let list = planned(root, entries)->Ok_0;
    law_one_entry_per_node(root, entries);
    entries.lemma_filter_contains(nodes, at);
    let kept = entries.filter(nodes);
    let i = choose|i: int| 0 <= i < kept.len() && kept[i] == entries[at];
    assert(list[i] == entry_of(root, entries[at]));
    assert(records_of(list, options)[i] == record_of(list[i], options));
}

/// The archive of a tree can be planned exactly if the walk found the source
/// directory and no entry of the walk fails.
pub proof fn law_plan_succeeds(root: Seq<char>, entries: Seq<TreeEntryView>)
    ensures
        archive_plan(root, entries) is Ok <==> (source_found(root, entries) && forall|i: int|
            0 <= i < entries.len() ==> !(#[trigger] step_of(root, entries[i]) is Fail)),
{
    lemma_planned_succeeds(root, entries);
}

/// The entries of a walk can be planned exactly if none of them fails.
pub proof fn lemma_planned_succeeds(root: Seq<char>, entries: Seq<TreeEntryView>)
    ensures
        planned(root, entries) is Ok <==> (forall|i: int|
            0 <= i < entries.len() ==> !(#[trigger] step_of(root, entries[i]) is Fail)),
    decreases entries.len(),
{
    if entries.len() > 0 {
        let front = entries.drop_last();
        lemma_planned_succeeds(root, front);
        if planned(root, entries) is Ok {
            assert forall|i: int| 0 <= i < entries.len() implies !(#[trigger] step_of(
                root,
                entries[i],
            ) is Fail) by {
                if i < front.len() {
                    assert(front[i] == entries[i]);
                }
            }
        } else if planned(root, front) is Ok {
            assert(step_of(root, entries[entries.len() - 1]) is Fail);
        } else {
            let i = choose|i: int| 0 <= i < front.len() && #[trigger] step_of(root, front[i]) is Fail;
            assert(step_of(root, entries[i]) is Fail);
        }
    }
}

/// Where entries fail, the failure of the first of them in the order of the
/// walk is the one reported.
pub proof fn law_first_failure_is_reported(root: Seq<char>, entries: Seq<TreeEntryView>, at: int)
    requires
        0 <= at < entries.len(),
        step_of(root, entries[at]) is Fail,
        forall|i: int| 0 <= i < at ==> !(#[trigger] step_of(root, entries[i]) is Fail),
    ensures
        planned(root, entries) == Err::<Seq<ArchiveEntry>, FailureModel>(
            step_of(root, entries[at])->Fail_0,
        ),
{
    let before = entries.take(at);
    lemma_planned_succeeds(root, before);
    assert forall|i: int| 0 <= i < before.len() implies !(#[trigger] step_of(root, before[i])
        is Fail) by {
        assert(before[i] == entries[i]);
    }
    assert(entries.take(at + 1).drop_last() =~= before);
    assert(entries.take(at + 1).last() == entries[at]);
    lemma_failure_stays(root, entries, at + 1);
}

/// An archive of a source directory with nothing in it has no entries.
pub proof fn law_empty_directory(root: Seq<char>)
    ensures
        archive_plan(root, seq![TreeEntryView { path: root, node: NodeView::Directory }]) == Ok::<
            Seq<ArchiveEntry>,
            FailureModel,
        >(Seq::<ArchiveEntry>::empty()),
{
    let walk = seq![TreeEntryView { path: root, node: NodeView::Directory }];
    lemma_root_is_empty_path(root);
    assert(walk.drop_last() =~= Seq::<TreeEntryView>::empty());
    assert(planned(root, walk.drop_last()) == Ok::<Seq<ArchiveEntry>, FailureModel>(
        Seq::<ArchiveEntry>::empty(),
    ));
    assert(step_of(root, walk.last()) is Skip);
}

/// A walk that found nothing, as that of a directory that does not exist,
/// gives no archive: the source directory is reported as not found.
pub proof fn law_missing_source(root: Seq<char>)
    ensures
        archive_plan(root, Seq::<TreeEntryView>::empty()) == Err::<
            Seq<ArchiveEntry>,
            FailureModel,
        >(source_missing(root)),
{
}

/// Relative to itself, a path is the empty path.
pub proof fn lemma_root_is_empty_path(root: Seq<char>)
    ensures
        relative(root, root) matches Some(name) && name.len() == 0,
{
    let segs = segments(root);
    assert(segs.is_prefix_of(segs));
    assert(segs.skip(segs.len() as int) =~= Seq::<Seq<char>>::empty());
}

/// Taking one entry out of a walk whose archive can be made leaves a walk
/// whose archive can be made, and takes out of the archive exactly what that
/// entry had added.
pub proof fn lemma_plan_without(root: Seq<char>, entries: Seq<TreeEntryView>, at: int)
    requires
        planned(root, entries) is Ok,
        0 <= at < entries.len(),
    ensures
        planned(root, entries.remove(at)) is Ok,
        !(step_of(root, entries[at]) is Fail),
        planned(root, entries)->Ok_0.to_multiset() == planned(
            root,
            entries.remove(at),
        )->Ok_0.to_multiset().add(contribution(step_of(root, entries[at]))),
    decreases entries.len(),
{
    let front = entries.drop_last();
    let last = entries.last();
    let before = planned(root, front)->Ok_0;
    if at == entries.len() - 1 {
        assert(entries.remove(at) =~= front);
        lemma_step_adds(before, step_of(root, last));
    } else {
        lemma_plan_without(root, front, at);
        let shorter = entries.remove(at);
        assert(shorter.drop_last() =~= front.remove(at));
        assert(shorter.last() == last);
        let before_shorter = planned(root, front.remove(at))->Ok_0;
        lemma_step_adds(before, step_of(root, last));
        lemma_step_adds(before_shorter, step_of(root, last));
        let moved = contribution(step_of(root, entries[at]));
        let added = contribution(step_of(root, last));
        assert(before_shorter.to_multiset().add(moved).add(added) =~= before_shorter.to_multiset().add(
            added,
        ).add(moved));
    }
}

/// What a step that does not fail adds to a list of archive entries.
proof fn lemma_step_adds(list: Seq<ArchiveEntry>, step: Step)
    requires
        !(step is Fail),
    ensures
        (match step {
            Step::Put(entry) => list.push(entry),
            _ => list,
        }).to_multiset() == list.to_multiset().add(contribution(step)),
{
    match step {
        Step::Put(entry) => {
            to_multiset_build(list, entry);
            assert(list.to_multiset().insert(entry) =~= list.to_multiset().add(
                Multiset::singleton(entry),
            ));
        },
        _ => {
            assert(list.to_multiset().add(Multiset::empty()) =~= list.to_multiset());
        },
    }
}

/// Archiving a tree twice gives the same entries with the same content, each
/// as often, whatever the order in which the tree was walked each time.
pub proof fn law_same_tree_same_entries(
    root: Seq<char>,
    first: Seq<TreeEntryView>,
    second: Seq<TreeEntryView>,
)
    requires
        first.to_multiset() == second.to_multiset(),
        planned(root, first) is Ok,
        planned(root, second) is Ok,
    ensures
        planned(root, first)->Ok_0.to_multiset() == planned(root, second)->Ok_0.to_multiset(),
    decreases first.len(),
{
    to_multiset_len(first);
    to_multiset_len(second);
    if first.len() == 0 {
        assert(second.len() == 0);
    } else {
        let front = first.drop_last();
        let last = first.last();
        to_multiset_contains(first, last);
        to_multiset_contains(second, last);
        assert(first.contains(last));
        assert(second.contains(last));
        let at = choose|i: int| 0 <= i < second.len() && second[i] == last;
        let others = second.remove(at);
        to_multiset_remove(first, first.len() - 1);
        to_multiset_remove(second, at);
        assert(first.remove(first.len() - 1) =~= front);
        lemma_plan_without(root, second, at);
        law_same_tree_same_entries(root, front, others);
        lemma_step_adds(planned(root, front)->Ok_0, step_of(root, last));
    }
}

/// Lists that hold the same archive entries, each as often, are recorded
/// as the same records, each as often.
pub proof fn lemma_same_entries_same_records(
    first: Seq<ArchiveEntry>,
    second: Seq<ArchiveEntry>,
    options: CompressionOptions,
)
    requires
        first.to_multiset() == second.to_multiset(),
    ensures
        records_of(first, options).to_multiset() == records_of(second, options).to_multiset(),
    decreases first.len(),
{
    to_multiset_len(first);
    to_multiset_len(second);
    if first.len() == 0 {
        assert(records_of(first, options) =~= records_of(second, options));
    } else {
        let last = first.last();
        to_multiset_contains(first, last);
        to_multiset_contains(second, last);
        assert(first.contains(last));
        let at = choose|i: int| 0 <= i < second.len() && second[i] == last;
        to_multiset_remove(first, first.len() - 1);
        to_multiset_remove(second, at);
        assert(first.remove(first.len() - 1) =~= first.drop_last());
        lemma_same_entries_same_records(first.drop_last(), second.remove(at), options);
        assert(records_of(first, options).remove(first.len() - 1) =~= records_of(
            first.drop_last(),
            options,
        ));
        assert(records_of(second, options).remove(at) =~= records_of(second.remove(at), options));
        to_multiset_remove(records_of(first, options), first.len() - 1);
        to_multiset_remove(records_of(second, options), at);
        let record = record_of(last, options);
        let left = records_of(first, options).to_multiset();
        let right = records_of(second, options).to_multiset();
        to_multiset_contains(records_of(first, options), record);
        to_multiset_contains(records_of(second, options), record);
        assert(records_of(first, options)[first.len() - 1] == record);
        assert(records_of(second, options)[at] == record);
        assert(left =~= left.remove(record).insert(record));
        assert(right =~= right.remove(record).insert(record));
    }
}

/// Two containers made of the same tree are made of the same records, each
/// as often: the same names, modes and methods, and the same bytes for every
/// file. The order in which the tree was walked each time changes nothing
/// but the order of the records.
pub proof fn law_same_tree_same_records(
    root: Seq<char>,
    first: Seq<TreeEntryView>,
    second: Seq<TreeEntryView>,
    options: CompressionOptions,
)
    requires
        first.to_multiset() == second.to_multiset(),
        planned(root, first) is Ok,
        planned(root, second) is Ok,
    ensures
        records_of(planned(root, first)->Ok_0, options).to_multiset() == records_of(
            planned(root, second)->Ok_0,
            options,
        ).to_multiset(),
{
    law_same_tree_same_entries(root, first, second);
    lemma_same_entries_same_records(
        planned(root, first)->Ok_0,
        planned(root, second)->Ok_0,
        options,
    );
}

/// A tree without a file in it can always be archived, once the archive can
/// be planned: markers have no content that would have to fit.
pub proof fn law_tree_of_directories_is_archived(
    root: Seq<char>,
    entries: Seq<TreeEntryView>,
    options: CompressionOptions,
)
    requires
        archive_plan(root, entries) is Ok,
        forall|i: int| 0 <= i < entries.len() ==> !((#[trigger] entries[i]).node is File),
    ensures
        can_be_archived(root, entries, options),
{
    let nodes = |e: TreeEntryView| is_file_below(root, e) || is_directory_below(root, e);
    let list = planned(root, entries)->Ok_0;
    law_one_entry_per_node(root, entries);
    let kept = entries.filter(nodes);
    assert forall|k: int| 0 <= k < list.len() implies entry_fits(
        #[trigger] list[k],
        options.method,
    ) by {
        assert(list[k] == entry_of(root, kept[k]));
        assert(kept.contains(kept[k]));
        entries.lemma_filter_contains_rev(nodes, kept[k]);
        let i = choose|i: int| 0 <= i < entries.len() && entries[i] == kept[k];
        assert(!(entries[i].node is File));
    }
}

/// A source directory with nothing in it can always be archived, and its
/// archive has no entries.
pub proof fn law_empty_directory_is_archived(root: Seq<char>, options: CompressionOptions)
    ensures
        can_be_archived(
            root,
            seq![TreeEntryView { path: root, node: NodeView::Directory }],
            options,
        ),
        archive_plan(root, seq![TreeEntryView { path: root, node: NodeView::Directory }])->Ok_0.len()
            == 0,
{
    law_empty_directory(root);
}

/// A tree that could be archived can be archived again while nothing in it
/// changes, in whatever order it is walked the second time, provided that
/// walk, too, starts at the source directory.
pub proof fn law_same_tree_archives_again(
    root: Seq<char>,
    first: Seq<TreeEntryView>,
    second: Seq<TreeEntryView>,
    options: CompressionOptions,
)
    requires
        first.to_multiset() == second.to_multiset(),
        can_be_archived(root, first, options),
        source_found(root, second),
    ensures
        can_be_archived(root, second, options),
{
    lemma_planned_succeeds(root, first);
    lemma_planned_succeeds(root, second);
    assert forall|j: int| 0 <= j < second.len() implies !(#[trigger] step_of(root, second[j])
        is Fail) by {
        to_multiset_contains(second, second[j]);
        to_multiset_contains(first, second[j]);
        assert(second.contains(second[j]));
        let i = choose|i: int| 0 <= i < first.len() && first[i] == second[j];
        assert(!(step_of(root, first[i]) is Fail));
    }
    law_same_tree_same_entries(root, first, second);
    let before = planned(root, first)->Ok_0;
    let again = planned(root, second)->Ok_0;
    assert forall|k: int| 0 <= k < again.len() implies entry_fits(
        #[trigger] again[k],
        options.method,
    ) by {
        to_multiset_contains(again, again[k]);
        to_multiset_contains(before, again[k]);
        assert(again.contains(again[k]));
        let i = choose|i: int| 0 <= i < before.len() && before[i] == again[k];
        assert(entry_fits(before[i], options.method));
    }
}

/// A plan can always be written where its files are stored as they are.
pub proof fn law_stored_always_fits(entries: Seq<ArchiveEntry>)
    ensures
        all_fit(entries, Compression::Stored),
{
}

/// A tree whose files are all empty can always be archived, once the
/// archive can be planned, whatever the method.
pub proof fn law_tree_of_empty_files_is_archived(
    root: Seq<char>,
    entries: Seq<TreeEntryView>,
    options: CompressionOptions,
)
    requires
        archive_plan(root, entries) is Ok,
        forall|i: int|
            0 <= i < entries.len() ==> ((#[trigger] entries[i]).node matches NodeView::File {
                content,
            } ==> content.len() == 0),
    ensures
        can_be_archived(root, entries, options),
{
    let nodes = |e: TreeEntryView| is_file_below(root, e) || is_directory_below(root, e);
    let list = planned(root, entries)->Ok_0;
    law_one_entry_per_node(root, entries);
    let kept = entries.filter(nodes);
    assert forall|k: int| 0 <= k < list.len() implies entry_fits(
        #[trigger] list[k],
        options.method,
    ) by {
        assert(list[k] == entry_of(root, kept[k]));
        assert(kept.contains(kept[k]));
        entries.lemma_filter_contains_rev(nodes, kept[k]);
        let i = choose|i: int| 0 <= i < entries.len() && entries[i] == kept[k];
        assert(entries[i].node matches NodeView::File { content } ==> content.len() == 0);
    }
}

/// The segments of a path that follow those of the source directory are
/// clean.
proof fn lemma_rest_is_clean(root: Seq<char>, path: Seq<char>)
    requires
        segments(root).len() <= segments(path).len(),
    ensures
        all_clean(segments(path).skip(segments(root).len() as int)),
{
    lemma_segments_are_clean(path);
    let rest = segments(path).skip(segments(root).len() as int);
    assert forall|k: int| 0 <= k < rest.len() implies is_clean(#[trigger] rest[k]) by {
        assert(rest[k] == segments(path)[k + segments(root).len()]);
    }
}

/// The name of an archive entry is a relative path: it is not empty, it
/// neither begins nor ends with a separator, it is written with single
/// separators and without `.` segments, and it is made of the segments that
/// the entry's path has beyond those of the source directory.
pub proof fn law_names_are_relative(root: Seq<char>, entry: TreeEntryView)
    requires
        step_of(root, entry) is Put,
    ensures
        ({
            let name = step_of(root, entry)->Put_0.name;
            &&& name.len() > 0
            &&& name[0] != '/'
            &&& name.last() != '/'
            &&& join(segments(name)) == name
            &&& segments(entry.path) == segments(root) + segments(name)
        }),
{
    let all = segments(entry.path);
    let lead = segments(root);
    let rest = all.skip(lead.len() as int);
    lemma_rest_is_clean(root, entry.path);
    assert(rest.len() > 0);
    lemma_join_ends(rest);
    lemma_segments_of_join(rest);
    assert(all =~= lead + rest);
}

/// An archive entry is a marker exactly if it was made of a directory, and
/// a file keeps its content.
pub proof fn law_marker_iff_directory(root: Seq<char>, entry: TreeEntryView)
    requires
        step_of(root, entry) is Put,
    ensures
        step_of(root, entry)->Put_0.content is None <==> entry.node is Directory,
        entry.node matches NodeView::File { content } ==> step_of(root, entry)->Put_0.content
            == Some(content),
{
}

/// Two entries of the tree that lie at different places get different
/// names.
pub proof fn law_distinct_places_distinct_names(
    root: Seq<char>,
    first: TreeEntryView,
    second: TreeEntryView,
)
    requires
        step_of(root, first) is Put,
        step_of(root, second) is Put,
        segments(first.path) != segments(second.path),
    ensures
        step_of(root, first)->Put_0.name != step_of(root, second)->Put_0.name,
{
    law_names_are_relative(root, first);
    law_names_are_relative(root, second);
}

/// Whether the archive entry `entry` was made of one of `entries`.
pub open spec fn comes_from(root: Seq<char>, entries: Seq<TreeEntryView>, entry: ArchiveEntry) -> bool {
    exists|i: int| 0 <= i < entries.len() && #[trigger] step_of(root, entries[i]) == Step::Put(entry)
}

/// In the archive of a walk that comes to every place once, no two entries
/// have the same name; and every entry was made of an entry of the walk.
pub proof fn law_names_are_distinct(root: Seq<char>, entries: Seq<TreeEntryView>)
    requires
        planned(root, entries) is Ok,
        forall|i: int, j: int|
            0 <= i < j < entries.len() ==> segments((#[trigger] entries[i]).path) != segments(
                (#[trigger] entries[j]).path,
            ),
    ensures
        forall|k: int|
            0 <= k < planned(root, entries)->Ok_0.len() ==> comes_from(
                root,
                entries,
                #[trigger] planned(root, entries)->Ok_0[k],
            ),
        forall|k: int, l: int|
            0 <= k < l < planned(root, entries)->Ok_0.len() ==> (#[trigger] planned(
                root,
                entries,
            )->Ok_0[k]).name != (#[trigger] planned(root, entries)->Ok_0[l]).name,
    decreases entries.len(),
{
    if entries.len() > 0 {
        let front = entries.drop_last();
        let last = entries.last();
        assert forall|i: int, j: int| 0 <= i < j < front.len() implies segments(
            (#[trigger] front[i]).path,
        ) != segments((#[trigger] front[j]).path) by {
            assert(front[i] == entries[i] && front[j] == entries[j]);
        }
        law_names_are_distinct(root, front);
        let before = planned(root, front)->Ok_0;
        let list = planned(root, entries)->Ok_0;
        assert forall|k: int| 0 <= k < before.len() implies comes_from(root, entries, before[k]) by {
            assert(comes_from(root, front, before[k]));
            let i = choose|i: int|
                0 <= i < front.len() && #[trigger] step_of(root, front[i]) == Step::Put(before[k]);
            assert(step_of(root, entries[i]) == Step::Put(before[k]));
        }
        match step_of(root, last) {
            Step::Put(added) => {
                assert(step_of(root, entries[entries.len() - 1]) == Step::Put(added));
                assert forall|k: int| 0 <= k < list.len() implies comes_from(
                    root,
                    entries,
                    #[trigger] list[k],
                ) by {
                    if k < before.len() {
                        assert(list[k] == before[k]);
                    }
                }
                assert forall|k: int, l: int| 0 <= k < l < list.len() implies (#[trigger] list[k]).name
                    != (#[trigger] list[l]).name by {
                    assert(list[k] == before[k]);
                    if l < before.len() {
                        assert(list[l] == before[l]);
                    } else {
                        assert(comes_from(root, front, before[k]));
                        let i = choose|i: int|
                            0 <= i < front.len() && #[trigger] step_of(root, front[i]) == Step::Put(
                                before[k],
                            );
                        assert(front[i] == entries[i]);
                        law_distinct_places_distinct_names(root, entries[i], last);
                    }
                }
            },
            _ => {},
        }
    }
}

/// The name a marker is stored under ends with a separator: `/`, unless
/// the name of the directory itself ends with `\`.
pub proof fn law_markers_are_closed(name: Seq<char>)
    ensures
        directory_name(name).len() > 0,
        directory_name(name).last() == '/' || directory_name(name).last() == '\\',
        name.len() > 0 && name.last() != '\\' && name.last() != '/' ==> directory_name(name)
            == name.push('/'),
{
    assert(name + seq!['/'] =~= name.push('/'));
}

/// Two different relative names are stored under different names, whether
/// they are names of files or of directories.
proof fn lemma_stored_names_differ(
    first: ArchiveEntry,
    second: ArchiveEntry,
    options: CompressionOptions,
)
    requires
        first.name != second.name,
        first.name.len() > 0,
        second.name.len() > 0,
        first.name.last() != '/',
        second.name.last() != '/',
    ensures
        record_of(first, options).name != record_of(second, options).name,
{
    let a = first.name;
    let b = second.name;
    let closed_a = a + seq!['/'];
    let closed_b = b + seq!['/'];
    assert(closed_a.drop_last() =~= a);
    assert(closed_b.drop_last() =~= b);
    assert(closed_a.last() == '/');
    assert(closed_b.last() == '/');
}

/// In the container of a walk that comes to every place once, no two
/// records are stored under the same name.
pub proof fn law_record_names_are_distinct(
    root: Seq<char>,
    entries: Seq<TreeEntryView>,
    options: CompressionOptions,
)
    requires
        planned(root, entries) is Ok,
        forall|i: int, j: int|
            0 <= i < j < entries.len() ==> segments((#[trigger] entries[i]).path) != segments(
                (#[trigger] entries[j]).path,
            ),
    ensures
        forall|k: int, l: int|
            0 <= k < l < planned(root, entries)->Ok_0.len() ==> (#[trigger] records_of(
                planned(root, entries)->Ok_0,
                options,
            )[k]).name != (#[trigger] records_of(planned(root, entries)->Ok_0, options)[l]).name,
{
    let list = planned(root, entries)->Ok_0;
    let records = records_of(list, options);
    law_names_are_distinct(root, entries);
    assert forall|k: int, l: int| 0 <= k < l < list.len() implies (#[trigger] records[k]).name != (
    #[trigger] records[l]).name by {
        assert(comes_from(root, entries, list[k]));
        assert(comes_from(root, entries, list[l]));
        let i = choose|i: int|
            0 <= i < entries.len() && #[trigger] step_of(root, entries[i]) == Step::Put(list[k]);
        let j = choose|j: int|
            0 <= j < entries.len() && #[trigger] step_of(root, entries[j]) == Step::Put(list[l]);
        law_names_are_relative(root, entries[i]);
        law_names_are_relative(root, entries[j]);
        assert(list[k].name != list[l].name);
        lemma_stored_names_differ(list[k], list[l], options);
    }
}

} // verus!
