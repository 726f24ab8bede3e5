//! Paths as text: resolving a name against a directory, and expressing one
//! path relative to another.
//!
//! Paths are compared lexically. `/` separates segments; empty segments and
//! `.` carry no meaning and are ignored; `..` is an ordinary segment and is
//! never resolved.

use vstd::prelude::*;
use crate::text::{same_run, to_chars};

verus! {

/// `name` resolved against the directory `base`.
///
/// A name that starts at the root stands for itself. Any other name is
/// appended to `base`, with one separator in between unless `base` is empty
/// or already ends with one.
pub open spec fn joined(base: Seq<char>, name: Seq<char>) -> Seq<char> {
    if name.len() > 0 && name[0] == '/' {
        name
    } else if base.len() > 0 && base.last() != '/' {
        base + seq!['/'] + name
    } else {
        base + name
    }
}

/// `s` cut at every separator. `n` separators give `n + 1` pieces, some of
/// which may be empty.
pub open spec fn pieces(s: Seq<char>) -> Seq<Seq<char>>
    decreases s.len(),
{
    if s.len() == 0 {
        seq![Seq::<char>::empty()]
    } else {
        let before = pieces(s.drop_last());
        if s.last() == '/' {
            before.push(Seq::<char>::empty())
        } else {
            before.update(before.len() - 1, before.last().push(s.last()))
        }
    }
}

/// Whether a piece names something: it is neither empty nor `.`.
pub open spec fn is_named(piece: Seq<char>) -> bool {
    piece.len() > 0 && piece != seq!['.']
}

/// The pieces among `ps` that name something, in order.
pub open spec fn named_only(ps: Seq<Seq<char>>) -> Seq<Seq<char>>
    decreases ps.len(),
{
    if ps.len() == 0 {
        Seq::<Seq<char>>::empty()
    } else if is_named(ps.last()) {
        named_only(ps.drop_last()).push(ps.last())
    } else {
        named_only(ps.drop_last())
    }
}

/// The segments of a path: its pieces that name something.
pub open spec fn segments(s: Seq<char>) -> Seq<Seq<char>> {
    named_only(pieces(s))
}

/// Whether a path starts at the root.
pub open spec fn is_rooted(s: Seq<char>) -> bool {
    s.len() > 0 && s[0] == '/'
}

/// The segments written out with one separator between neighbours.
pub open spec fn join(segs: Seq<Seq<char>>) -> Seq<char>
    decreases segs.len(),
{
    if segs.len() == 0 {
        Seq::<char>::empty()
    } else if segs.len() == 1 {
        segs[0]
    } else {
        join(segs.drop_last()) + seq!['/'] + segs.last()
    }
}

/// Whether `path` lies at or below `root`: both start at the root or neither
/// does, and the segments of `root` are the leading segments of `path`.
pub open spec fn is_under(root: Seq<char>, path: Seq<char>) -> bool {
    is_rooted(root) == is_rooted(path) && segments(root).is_prefix_of(segments(path))
}

/// `path` relative to `root`: the segments of `path` that follow those of
/// `root`, or nothing where `path` does not lie at or below `root`. The root
/// itself is the empty path.
pub open spec fn relative(root: Seq<char>, path: Seq<char>) -> Option<Seq<char>> {
    if is_under(root, path) {
        Some(join(segments(path).skip(segments(root).len() as int)))
    } else {
        None
    }
}

/// Pieces are never an empty list.
pub proof fn lemma_pieces_nonempty(s: Seq<char>)
    ensures
        pieces(s).len() >= 1,
    decreases s.len(),
{
    if s.len() > 0 {
        lemma_pieces_nonempty(s.drop_last());
    }
}

/// Joining one more segment onto a list.
pub proof fn lemma_join_push(segs: Seq<Seq<char>>, last: Seq<char>)
    ensures
        join(segs.push(last)) == if segs.len() == 0 {
            last
        } else {
            join(segs) + seq!['/'] + last
        },
{
    assert(segs.push(last).drop_last() =~= segs);
}

/// A run of characters names something exactly if it is not empty and is
/// not a single `.`.
proof fn lemma_named_run(s: Seq<char>, from: int, to: int)
    requires
        0 <= from <= to <= s.len(),
    ensures
        is_named(s.subrange(from, to)) == (to > from && !(to - from == 1 && s[from] == '.')),
{
    let run = s.subrange(from, to);
    let dot = seq!['.'];
    assert(dot.len() == 1);
    assert(run.len() == to - from);
    if to - from == 1 {
        assert(run[0] == s[from]);
        assert(dot[0] == '.');
        if s[from] == '.' {
            assert(run =~= dot);
        }
    }
}

/// Resolves `name` against the directory `current_dir`.
pub fn resolve(current_dir: &str, name: &str) -> (path: String)
    ensures
        path@ == joined(current_dir@, name@),
{
    let name_len = name.unicode_len();
    if name_len > 0 && name.get_char(0) == '/' {
        return name.to_owned();
    }
    let base_len = current_dir.unicode_len();
    let mut path = current_dir.to_owned();
    if base_len > 0 && current_dir.get_char(base_len - 1) != '/' {
        proof {
            reveal_strlit("/");
        }
        assert("/"@ =~= seq!['/']);
        path.append("/");
    }
    path.append(name);
    path
}

/// Where the segments of `chars` lie: one half-open index range for each, in order.
pub fn segment_ranges(chars: &Vec<char>) -> (ranges: Vec<(usize, usize)>)
    ensures
        ranges.len() == segments(chars@).len(),
        forall|i: int|
            0 <= i < ranges.len() ==> {
                &&& (#[trigger] ranges[i]).0 <= ranges[i].1 <= chars.len()
                &&& chars@.subrange(ranges[i].0 as int, ranges[i].1 as int) == segments(chars@)[i]
            },
{
    let mut ranges: Vec<(usize, usize)> = Vec::new();
    let mut start: usize = 0;
    let mut i: usize = 0;
    let n = chars.len();
    proof {
        assert(chars@.take(0) =~= Seq::<char>::empty());
        assert(pieces(chars@.take(0)).drop_last() =~= Seq::<Seq<char>>::empty());
        assert(chars@.subrange(0, 0) =~= Seq::<char>::empty());
    }
    while i < n
        invariant
            n == chars.len(),
            start <= i <= n,
            pieces(chars@.take(i as int)).len() >= 1,
            pieces(chars@.take(i as int)).last() == chars@.subrange(start as int, i as int),
            ranges.len() == named_only(pieces(chars@.take(i as int)).drop_last()).len(),
            forall|k: int|
                0 <= k < ranges.len() ==> {
                    &&& (#[trigger] ranges[k]).0 <= ranges[k].1 <= i
                    &&& chars@.subrange(ranges[k].0 as int, ranges[k].1 as int) == named_only(
                        pieces(chars@.take(i as int)).drop_last(),
                    )[k]
                },
        decreases n - i,
    {
        let ghost seen = chars@.take(i as int);
        let ghost next = chars@.take(i as int + 1);
        let ghost before = pieces(seen);
        let ghost run = chars@.subrange(start as int, i as int);
        proof {
            assert(next.drop_last() =~= seen);
            assert(next.last() == chars@[i as int]);
        }
        if chars[i] == '/' {
            proof {
                assert(pieces(next) == before.push(Seq::<char>::empty()));
                assert(pieces(next).drop_last() =~= before);
                assert(before.last() == run);
                assert(chars@.subrange(i as int + 1, i as int + 1) =~= Seq::<char>::empty());
            }
            let named = i > start && !(i - start == 1 && chars[start] == '.');
            proof {
                lemma_named_run(chars@, start as int, i as int);
            }
            if named {
                ranges.push((start, i));
            }
            start = i + 1;
        } else {
            proof {
                assert(pieces(next) == before.update(
                    before.len() - 1,
                    before.last().push(chars@[i as int]),
                ));
                assert(pieces(next).drop_last() =~= before.drop_last());
                assert(chars@.subrange(start as int, i as int + 1) =~= run.push(chars@[i as int]));
            }
        }
        i += 1;
    }
    proof {
        assert(chars@.take(n as int) =~= chars@);
    }
    let named = n > start && !(n - start == 1 && chars[start] == '.');
    proof {
        lemma_named_run(chars@, start as int, n as int);
    }
    if named {
        ranges.push((start, n));
    }
    ranges
}

/// `path` relative to `root`, or nothing where `path` does not lie at or
/// below `root`.
pub fn relative_path(root: &str, path: &str) -> (rel: Option<String>)
    ensures
        rel is Some <==> is_under(root@, path@),
        match rel {
            Some(text) => Some(text@) == relative(root@, path@),
            None => relative(root@, path@) is None,
        },
{
    let root_chars = to_chars(root);
    let path_chars = to_chars(path);
    let root_rooted = root_chars.len() > 0 && root_chars[0] == '/';
    let path_rooted = path_chars.len() > 0 && path_chars[0] == '/';
    if root_rooted != path_rooted {
        return None;
    }
    let root_ranges = segment_ranges(&root_chars);
    let path_ranges = segment_ranges(&path_chars);
    let ghost root_segs = segments(root@);
    let ghost path_segs = segments(path@);
    if root_ranges.len() > path_ranges.len() {
        return None;
    }
    let shared = root_ranges.len();
    let mut k: usize = 0;
    while k < shared
        invariant
            k <= shared,
            shared == root_ranges.len(),
            shared <= path_ranges.len(),
            root_chars@ == root@,
            path_chars@ == path@,
            root_segs == segments(root@),
            path_segs == segments(path@),
            root_ranges.len() == root_segs.len(),
            path_ranges.len() == path_segs.len(),
            forall|i: int|
                0 <= i < root_ranges.len() ==> {
                    &&& (#[trigger] root_ranges[i]).0 <= root_ranges[i].1 <= root_chars.len()
                    &&& root_chars@.subrange(root_ranges[i].0 as int, root_ranges[i].1 as int)
                        == root_segs[i]
                },
            forall|i: int|
                0 <= i < path_ranges.len() ==> {
                    &&& (#[trigger] path_ranges[i]).0 <= path_ranges[i].1 <= path_chars.len()
                    &&& path_chars@.subrange(path_ranges[i].0 as int, path_ranges[i].1 as int)
                        == path_segs[i]
                },
            forall|i: int| 0 <= i < k ==> root_segs[i] == path_segs[i],
        decreases shared - k,
    {
        let r = root_ranges[k];
        let p = path_ranges[k];
        if !same_run(&root_chars, r.0, r.1, &path_chars, p.0, p.1) {
            assert(root_segs[k as int] != path_segs[k as int]);
            assert(!root_segs.is_prefix_of(path_segs));
            return None;
        }
        k += 1;
    }
    assert(root_segs =~= path_segs.subrange(0, root_segs.len() as int));
    assert(root_segs.is_prefix_of(path_segs));
    let ghost rest = path_segs.skip(shared as int);
    let mut text = String::new();
    let mut j: usize = shared;
    proof {
        assert(rest.take(0) =~= Seq::<Seq<char>>::empty());
    }
    while j < path_ranges.len()
        invariant
            shared <= j <= path_ranges.len(),
            path_chars@ == path@,
            path_segs == segments(path@),
            path_ranges.len() == path_segs.len(),
            rest == path_segs.skip(shared as int),
            forall|i: int|
                0 <= i < path_ranges.len() ==> {
                    &&& (#[trigger] path_ranges[i]).0 <= path_ranges[i].1 <= path_chars.len()
                    &&& path_chars@.subrange(path_ranges[i].0 as int, path_ranges[i].1 as int)
                        == path_segs[i]
                },
            text@ == join(rest.take(j - shared)),
        decreases path_ranges.len() - j,
    {
        let p = path_ranges[j];
        let ghost so_far = rest.take(j - shared);
        proof {
            assert(rest.take(j - shared + 1) =~= so_far.push(path_segs[j as int]));
            lemma_join_push(so_far, path_segs[j as int]);
        }
        if j > shared {
            proof {
                reveal_strlit("/");
            }
            assert("/"@ =~= seq!['/']);
            text.append("/");
        }
        text.append(path.substring_char(p.0, p.1));
        j += 1;
    }
    proof {
        assert(rest.take(path_ranges.len() - shared) =~= rest);
    }
    Some(text)
}

} // verus!
