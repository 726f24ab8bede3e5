//! What holds of resolving a name and of taking a path relative to another.

use vstd::prelude::*;
use crate::path::{
    is_named,
    is_rooted,
    is_under,
    join,
    joined,
    lemma_pieces_nonempty,
    named_only,
    pieces,
    relative,
    segments,
};

verus! {

/// Whether a path ends where a new piece begins: it is empty or ends with a
/// separator.
pub open spec fn is_open_ended(s: Seq<char>) -> bool {
    s.len() == 0 || s.last() == '/'
}

/// The named pieces of two lists, one after the other, are the named pieces
/// of the one list after those of the other.
pub proof fn lemma_named_only_concat(front: Seq<Seq<char>>, back: Seq<Seq<char>>)
    ensures
        named_only(front + back) == named_only(front) + named_only(back),
    decreases back.len(),
{
    if back.len() == 0 {
        assert(front + back =~= front);
        assert(named_only(front) + named_only(back) =~= named_only(front));
    } else {
        lemma_named_only_concat(front, back.drop_last());
        assert((front + back).drop_last() =~= front + back.drop_last());
        assert((front + back).last() == back.last());
        if is_named(back.last()) {
            assert(named_only(front) + named_only(back.drop_last()).push(back.last()) =~= (
            named_only(front) + named_only(back.drop_last())).push(back.last()));
        }
    }
}

/// After a path that ends where a new piece begins, the pieces of what
/// follows stand on their own.
pub proof fn lemma_pieces_concat(front: Seq<char>, back: Seq<char>)
    requires
        is_open_ended(front),
    ensures
        pieces(front + back) == pieces(front).drop_last() + pieces(back),
    decreases back.len(),
{
    lemma_pieces_nonempty(front);
    lemma_pieces_nonempty(back);
    if back.len() == 0 {
        assert(front + back =~= front);
        if front.len() > 0 {
            lemma_pieces_nonempty(front.drop_last());
        }
        assert(pieces(front).last() =~= Seq::<char>::empty());
        assert(pieces(front) =~= pieces(front).drop_last() + pieces(back));
    } else {
        let shorter = back.drop_last();
        lemma_pieces_concat(front, shorter);
        lemma_pieces_nonempty(shorter);
        assert((front + back).drop_last() =~= front + shorter);
        assert((front + back).last() == back.last());
        let kept = pieces(front).drop_last();
        let before = pieces(shorter);
        assert((kept + before).last() == before.last());
        if back.last() == '/' {
            assert((kept + before).push(Seq::<char>::empty()) =~= kept + before.push(
                Seq::<char>::empty(),
            ));
        } else {
            let grown = before.last().push(back.last());
            assert((kept + before).update((kept + before).len() - 1, grown) =~= kept
                + before.update(before.len() - 1, grown));
        }
    }
}

/// A separator at the end of a path adds no segment.
pub proof fn lemma_separator_adds_nothing(s: Seq<char>)
    ensures
        segments(s.push('/')) == segments(s),
{
    lemma_pieces_nonempty(s);
    assert(s.push('/').drop_last() =~= s);
    let before = pieces(s);
    assert(before.push(Seq::<char>::empty()).drop_last() =~= before);
}

/// After a path that ends where a new piece begins, the segments of what
/// follows stand on their own.
pub proof fn lemma_segments_concat(front: Seq<char>, back: Seq<char>)
    requires
        is_open_ended(front),
    ensures
        segments(front + back) == segments(front) + segments(back),
{
    lemma_pieces_concat(front, back);
    lemma_named_only_concat(pieces(front).drop_last(), pieces(back));
    lemma_pieces_nonempty(front);
    if front.len() > 0 {
        lemma_pieces_nonempty(front.drop_last());
    }
    assert(pieces(front).last() =~= Seq::<char>::empty());
    assert(!is_named(pieces(front).last()));
}

/// A name that is resolved against a directory lies under that directory,
/// and relative to the directory it is the name again, written with single
/// separators. This holds of every name that does not start at the root, and
/// of every directory but the one with the empty path.
pub proof fn law_relative_of_joined(root: Seq<char>, name: Seq<char>)
    requires
        root.len() > 0,
        !is_rooted(name),
    ensures
        is_under(root, joined(root, name)),
        relative(root, joined(root, name)) == Some(join(segments(name))),
{
    let whole = joined(root, name);
    let base = if root.last() == '/' {
        root
    } else {
        root.push('/')
    };
    assert(whole =~= base + name);
    if root.last() != '/' {
        lemma_separator_adds_nothing(root);
    }
    lemma_segments_concat(base, name);
    assert(whole[0] == root[0]);
    let all = segments(root) + segments(name);
    assert(all.subrange(0, segments(root).len() as int) =~= segments(root));
    assert(segments(root).is_prefix_of(all));
    assert(all.skip(segments(root).len() as int) =~= segments(name));
}

/// A name without a separator that is neither empty nor `.` is one segment,
/// and written out it is itself.
pub proof fn law_plain_name_is_one_segment(name: Seq<char>)
    requires
        is_named(name),
        forall|i: int| 0 <= i < name.len() ==> name[i] != '/',
    ensures
        segments(name) == seq![name],
        join(segments(name)) == name,
{
    lemma_pieces_plain(name);
    let single = seq![name];
    assert(single.drop_last() =~= Seq::<Seq<char>>::empty());
    assert(named_only(single.drop_last()) =~= Seq::<Seq<char>>::empty());
    assert(single.last() == name);
    assert(named_only(single) =~= single);
}

/// A text without a separator is one piece.
pub proof fn lemma_pieces_plain(text: Seq<char>)
    requires
        forall|i: int| 0 <= i < text.len() ==> text[i] != '/',
    ensures
        pieces(text) == seq![text],
    decreases text.len(),
{
    if text.len() == 0 {
        assert(text =~= Seq::<char>::empty());
        assert(pieces(text) =~= seq![text]);
    } else {
        lemma_pieces_plain(text.drop_last());
        let before = seq![text.drop_last()];
        assert(text.drop_last().push(text.last()) =~= text);
        assert(before.last() == text.drop_last());
        assert(before.update(before.len() - 1, before.last().push(text.last())) =~= seq![text]);
    }
}

/// The file directly in a directory: a plain name resolved against a
/// directory is, relative to that directory, the name itself.
pub proof fn law_child_keeps_its_name(root: Seq<char>, name: Seq<char>)
    requires
        root.len() > 0,
        is_named(name),
        forall|i: int| 0 <= i < name.len() ==> name[i] != '/',
    ensures
        relative(root, joined(root, name)) == Some(name),
{
    law_plain_name_is_one_segment(name);
    law_relative_of_joined(root, name);
}

/// Whether a segment is clean: it names something and holds no separator.
pub open spec fn is_clean(segment: Seq<char>) -> bool {
    is_named(segment) && forall|i: int| 0 <= i < segment.len() ==> segment[i] != '/'
}

/// Whether every segment of a list is clean.
pub open spec fn all_clean(segs: Seq<Seq<char>>) -> bool {
    forall|k: int| 0 <= k < segs.len() ==> is_clean(#[trigger] segs[k])
}

/// No piece of a path holds a separator.
pub proof fn lemma_pieces_have_no_separator(s: Seq<char>)
    ensures
        forall|k: int, i: int|
            0 <= k < pieces(s).len() && 0 <= i < pieces(s)[k].len() ==> #[trigger] pieces(
                s,
            )[k][i] != '/',
    decreases s.len(),
{
    if s.len() > 0 {
        lemma_pieces_have_no_separator(s.drop_last());
        lemma_pieces_nonempty(s.drop_last());
        let before = pieces(s.drop_last());
        let all = pieces(s);
        assert forall|k: int, i: int| 0 <= k < all.len() && 0 <= i < all[k].len() implies #[trigger] all[k][i]
            != '/' by {
            if k < before.len() - 1 {
                assert(all[k] == before[k]);
                assert(before[k][i] != '/');
            } else if s.last() != '/' {
                if i < before.last().len() {
                    assert(before[before.len() - 1][i] != '/');
                }
            } else if k == before.len() - 1 {
                assert(all[k] == before[k]);
                assert(before[k][i] != '/');
            }
        }
    }
}

/// The pieces that name something are named pieces of the list.
pub proof fn lemma_named_only_members(ps: Seq<Seq<char>>)
    ensures
        forall|k: int|
            0 <= k < named_only(ps).len() ==> is_named(#[trigger] named_only(ps)[k]) && ps.contains(
                named_only(ps)[k],
            ),
    decreases ps.len(),
{
    if ps.len() > 0 {
        lemma_named_only_members(ps.drop_last());
        let before = named_only(ps.drop_last());
        let all = named_only(ps);
        assert forall|k: int| 0 <= k < all.len() implies is_named(#[trigger] all[k]) && ps.contains(
            all[k],
        ) by {
            if k < before.len() {
                assert(all[k] == before[k]);
                assert(ps.drop_last().contains(before[k]));
                let j = choose|j: int| 0 <= j < ps.drop_last().len() && ps.drop_last()[j] == before[k];
                assert(ps[j] == before[k]);
            } else {
                assert(all[k] == ps[ps.len() - 1]);
            }
        }
    }
}

/// Every segment of a path is clean.
pub proof fn lemma_segments_are_clean(s: Seq<char>)
    ensures
        all_clean(segments(s)),
{
    lemma_pieces_have_no_separator(s);
    lemma_named_only_members(pieces(s));
    let segs = segments(s);
    assert forall|k: int| 0 <= k < segs.len() implies is_clean(#[trigger] segs[k]) by {
        assert(pieces(s).contains(segs[k]));
        let j = choose|j: int| 0 <= j < pieces(s).len() && pieces(s)[j] == segs[k];
        assert forall|i: int| 0 <= i < segs[k].len() implies segs[k][i] != '/' by {
            assert(pieces(s)[j][i] != '/');
        }
    }
}

/// Clean segments written out and cut again are the same segments: writing
/// out loses nothing.
pub proof fn lemma_segments_of_join(segs: Seq<Seq<char>>)
    requires
        all_clean(segs),
    ensures
        segments(join(segs)) == segs,
    decreases segs.len(),
{
    if segs.len() == 0 {
        let ps = pieces(join(segs));
        assert(ps =~= seq![Seq::<char>::empty()]);
        assert(!is_named(ps.last()));
        assert(ps.drop_last() =~= Seq::<Seq<char>>::empty());
        assert(named_only(ps.drop_last()) =~= Seq::<Seq<char>>::empty());
        assert(segments(join(segs)) =~= segs);
    } else if segs.len() == 1 {
        assert(is_clean(segs[0]));
        law_plain_name_is_one_segment(segs[0]);
        assert(seq![segs[0]] =~= segs);
    } else {
        let front = segs.drop_last();
        let last = segs.last();
        assert forall|k: int| 0 <= k < front.len() implies is_clean(#[trigger] front[k]) by {
            assert(front[k] == segs[k]);
        }
        assert(is_clean(segs[segs.len() - 1]));
        lemma_segments_of_join(front);
        let base = join(front).push('/');
        assert(join(segs) =~= base + last);
        lemma_separator_adds_nothing(join(front));
        lemma_segments_concat(base, last);
        law_plain_name_is_one_segment(last);
        assert(front + seq![last] =~= segs);
    }
}

/// Clean segments written out begin as the first of them begins and end as
/// the last of them ends: with no separator at either end.
pub proof fn lemma_join_ends(segs: Seq<Seq<char>>)
    requires
        all_clean(segs),
        segs.len() > 0,
    ensures
        join(segs).len() > 0,
        join(segs)[0] != '/',
        join(segs).last() != '/',
    decreases segs.len(),
{
    assert(is_clean(segs[segs.len() - 1]));
    assert(is_clean(segs[0]));
    if segs.len() > 1 {
        let front = segs.drop_last();
        assert forall|k: int| 0 <= k < front.len() implies is_clean(#[trigger] front[k]) by {
            assert(front[k] == segs[k]);
        }
        lemma_join_ends(front);
        let whole = join(front) + seq!['/'] + segs.last();
        assert(whole[0] == join(front)[0]);
        assert(whole.last() == segs.last().last());
    }
}

} // verus!
