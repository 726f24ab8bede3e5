//! Searching the lines of a file for a pattern.
//!
//! A file is read line by line. A line ends with a line feed, which does not
//! belong to it, nor does a carriage return just before the line feed; the
//! last line may go without. A line that is not valid UTF-8 cannot be read:
//! the search ends there, and what was found before it stands.

use vstd::prelude::*;
use vstd::slice::slice_subrange;
use vstd::utf8::{decode_utf8, valid_utf8};
use crate::failure::{ErrorClass, Failure, FailureKind, FailureModel};
use crate::text::{contains, decode, occurs_in, to_chars};

verus! {

/// The byte that ends a line.
pub const LINE_FEED: u8 = 10;

/// `bytes` cut after every line feed. The last part is what follows the last
/// line feed, and is empty where the bytes end with one.
pub open spec fn parts(bytes: Seq<u8>) -> Seq<Seq<u8>>
    decreases bytes.len(),
{
    if bytes.len() == 0 {
        seq![Seq::<u8>::empty()]
    } else {
        let before = parts(bytes.drop_last());
        let grown = before.update(before.len() - 1, before.last().push(bytes.last()));
        if bytes.last() == LINE_FEED {
            grown.push(Seq::<u8>::empty())
        } else {
            grown
        }
    }
}

/// The lines of `bytes` as they stand in the file, each with its line feed:
/// the parts, without an empty one at the end.
pub open spec fn raw_lines(bytes: Seq<u8>) -> Seq<Seq<u8>> {
    if parts(bytes).last().len() == 0 {
        parts(bytes).drop_last()
    } else {
        parts(bytes)
    }
}

/// `text` without the line feed that ends it, and without a carriage return
/// just before that line feed.
pub open spec fn without_line_end(text: Seq<char>) -> Seq<char> {
    if text.len() > 0 && text.last() == '\n' {
        let body = text.drop_last();
        if body.len() > 0 && body.last() == '\r' {
            body.drop_last()
        } else {
            body
        }
    } else {
        text
    }
}

/// The line that a raw line of valid UTF-8 holds.
pub open spec fn line_of(raw: Seq<u8>) -> Seq<char> {
    without_line_end(decode_utf8(raw))
}

/// How many raw lines can be read before the first that is not valid UTF-8.
pub open spec fn readable(raw: Seq<Seq<u8>>) -> nat
    decreases raw.len(),
{
    if raw.len() == 0 {
        0
    } else {
        let before = readable(raw.drop_last());
        if before == raw.len() - 1 && valid_utf8(raw.last()) {
            before + 1
        } else {
            before
        }
    }
}

/// Whether every line of `bytes` can be read.
pub open spec fn is_text(bytes: Seq<u8>) -> bool {
    readable(raw_lines(bytes)) == raw_lines(bytes).len()
}

/// The lines of `bytes` that can be read: all of them, or those before the
/// first that is not valid UTF-8.
pub open spec fn lines_read(bytes: Seq<u8>) -> Seq<Seq<char>> {
    let raw = raw_lines(bytes);
    raw.take(readable(raw) as int).map_values(|r: Seq<u8>| line_of(r))
}

/// The lines among `lines` in which `pattern` occurs, in order.
pub open spec fn matching(lines: Seq<Seq<char>>, pattern: Seq<char>) -> Seq<Seq<char>> {
    lines.filter(|line: Seq<char>| occurs_in(pattern, line))
}

/// The failure reported for a file with a line that cannot be read.
pub open spec fn read_failure(filename: Seq<char>) -> FailureModel {
    FailureModel { kind: FailureKind::Read, class: ErrorClass::Io, path: filename }
}

/// The contents of a list of texts.
pub open spec fn texts(lines: Seq<String>) -> Seq<Seq<char>> {
    lines.map_values(|s: String| s@)
}

/// What a search found, and whether it had to stop early.
#[derive(Debug, Clone, PartialEq, Eq)]
pub struct SearchOutcome {
    /// The matching lines, in the order of the file.
    pub matches: Vec<String>,
    /// The failure that ended the search, if one did.
    pub failure: Option<Failure>,
}

/// Where the raw lines of `contents` lie: one half-open index range for
/// each, in order.
pub fn raw_line_ranges(contents: &[u8]) -> (ranges: Vec<(usize, usize)>)
    ensures
        ranges.len() == raw_lines(contents@).len(),
        forall|i: int|
            0 <= i < ranges.len() ==> {
                &&& (#[trigger] ranges[i]).0 <= ranges[i].1 <= contents@.len()
                &&& contents@.subrange(ranges[i].0 as int, ranges[i].1 as int) == raw_lines(
                    contents@,
                )[i]
            },
{
    let mut ranges: Vec<(usize, usize)> = Vec::new();
    let mut start: usize = 0;
    let mut i: usize = 0;
    let n = contents.len();
    proof {
        assert(contents@.take(0) =~= Seq::<u8>::empty());
        assert(parts(contents@.take(0)).drop_last() =~= Seq::<Seq<u8>>::empty());
        assert(contents@.subrange(0, 0) =~= Seq::<u8>::empty());
    }
    while i < n
        invariant
            n == contents@.len(),
            start <= i <= n,
            parts(contents@.take(i as int)).len() == ranges.len() + 1,
            parts(contents@.take(i as int)).last() == contents@.subrange(start as int, i as int),
            forall|k: int|
                0 <= k < ranges.len() ==> {
                    &&& (#[trigger] ranges[k]).0 <= ranges[k].1 <= i
                    &&& contents@.subrange(ranges[k].0 as int, ranges[k].1 as int) == parts(
                        contents@.take(i as int),
                    )[k]
                },
        decreases n - i,
    {
        let ghost seen = contents@.take(i as int);
        let ghost next = contents@.take(i as int + 1);
        proof {
            assert(next.drop_last() =~= seen);
            assert(next.last() == contents@[i as int]);
            assert(contents@.subrange(start as int, i as int + 1) =~= contents@.subrange(
                start as int,
                i as int,
            ).push(contents@[i as int]));
            assert(contents@.subrange(i as int + 1, i as int + 1) =~= Seq::<u8>::empty());
        }
        if contents[i] == LINE_FEED {
            ranges.push((start, i + 1));
            start = i + 1;
        }
        i += 1;
    }
    proof {
        assert(contents@.take(n as int) =~= contents@);
    }
    if start < n {
        ranges.push((start, n));
    }
    ranges
}

/// Once a raw line cannot be read, no later one is.
pub proof fn lemma_reading_stops(raw: Seq<Seq<u8>>, at: int, upto: int)
    requires
        0 <= at < upto <= raw.len(),
        readable(raw.take(at)) == at,
        !valid_utf8(raw[at]),
    ensures
        readable(raw.take(upto)) == at,
    decreases upto - at,
{
    assert(raw.take(upto).drop_last() =~= raw.take(upto - 1));
    if upto - 1 > at {
        lemma_reading_stops(raw, at, upto - 1);
    }
}

/// Finds the lines of a file in which `pattern` occurs.
///
/// `contents` is all that the file `filename` holds. The matches are the
/// lines that can be read and in which `pattern` occurs as it is written,
/// letter case included, in the order of the file. The search fails exactly
/// if a line cannot be read.
pub fn match_pattern(pattern: &str, filename: &str, contents: &[u8]) -> (outcome: SearchOutcome)
    ensures
        texts(outcome.matches@) == matching(lines_read(contents@), pattern@),
        outcome.failure is None <==> is_text(contents@),
        outcome.failure matches Some(f) ==> f@ == read_failure(filename@),
{
    let wanted = to_chars(pattern);
    let ranges = raw_line_ranges(contents);
    let ghost raw = raw_lines(contents@);
    let ghost line = |r: Seq<u8>| line_of(r);
    let ghost hit = |l: Seq<char>| occurs_in(pattern@, l);
    let mut matches: Vec<String> = Vec::new();
    let mut k: usize = 0;
    proof {
        assert(raw.take(0) =~= Seq::<Seq<u8>>::empty());
        assert(raw.take(0).map_values(line) =~= Seq::<Seq<char>>::empty());
        reveal(Seq::filter);
        assert(texts(matches@) =~= Seq::<Seq<char>>::empty());
    }
    while k < ranges.len()
        invariant
            k <= ranges.len(),
            wanted@ == pattern@,
            raw == raw_lines(contents@),
            ranges.len() == raw.len(),
            forall|i: int|
                0 <= i < ranges.len() ==> {
                    &&& (#[trigger] ranges[i]).0 <= ranges[i].1 <= contents@.len()
                    &&& contents@.subrange(ranges[i].0 as int, ranges[i].1 as int) == raw[i]
                },
            line == |r: Seq<u8>| line_of(r),
            hit == |l: Seq<char>| occurs_in(pattern@, l),
            readable(raw.take(k as int)) == k,
            texts(matches@) == raw.take(k as int).map_values(line).filter(hit),
        decreases ranges.len() - k,
    {
        let range = ranges[k];
        let bytes = slice_subrange(contents, range.0, range.1);
        let ghost found_before = texts(matches@);
        proof {
            assert(raw.take(k as int + 1).drop_last() =~= raw.take(k as int));
            assert(raw.take(k as int + 1).last() == raw[k as int]);
        }
        match decode(bytes) {
            None => {
                proof {
                    if k + 1 < raw.len() {
                        lemma_reading_stops(raw, k as int, raw.len() as int);
                    }
                    assert(raw.take(raw.len() as int) =~= raw);
                }
                return SearchOutcome {
                    matches,
                    failure: Some(
                        Failure {
                            kind: FailureKind::Read,
                            class: ErrorClass::Io,
                            path: filename.to_owned(),
                        },
                    ),
                };
            },
            Some(text) => {
                let chars = to_chars(text);
                let len = line_length(&chars);
                let found = contains(&chars, len, &wanted);
                proof {
                    assert(chars@.take(len as int) == line_of(raw[k as int]));
                    assert(raw.take(k as int + 1).map_values(line) =~= raw.take(
                        k as int,
                    ).map_values(line).push(line_of(raw[k as int])));
                    raw.take(k as int).map_values(line).lemma_filter_push(
                        line_of(raw[k as int]),
                        hit,
                    );
                }
                if found {
                    let kept = text.substring_char(0, len).to_owned();
                    proof {
                        assert(kept@ =~= line_of(raw[k as int]));
                    }
                    matches.push(kept);
                    assert(texts(matches@) =~= found_before.push(kept@));
                }
            },
        }
        k += 1;
    }
    proof {
        assert(raw.take(raw.len() as int) =~= raw);
    }
    SearchOutcome { matches, failure: None }
}

/// The length of `chars` without its line end.
fn line_length(chars: &Vec<char>) -> (len: usize)
    ensures
        len <= chars.len(),
        chars@.take(len as int) == without_line_end(chars@),
{
    let n = chars.len();
    if n > 0 && chars[n - 1] == '\n' {
        if n > 1 && chars[n - 2] == '\r' {
            assert(chars@.take(n - 2) =~= chars@.drop_last().drop_last());
            n - 2
        } else {
            assert(chars@.take(n - 1) =~= chars@.drop_last());
            n - 1
        }
    } else {
        assert(chars@.take(n as int) =~= chars@);
        n
    }
}

/// The search gives out exactly the readable lines in which the pattern
/// occurs: every line it gives out is such a line, and every such line is
/// given out.
pub proof fn law_exactly_the_matching_lines(bytes: Seq<u8>, pattern: Seq<char>, line: Seq<char>)
    ensures
        matching(lines_read(bytes), pattern).contains(line) <==> (lines_read(bytes).contains(line)
            && occurs_in(pattern, line)),
{
    let lines = lines_read(bytes);
    let hit = |l: Seq<char>| occurs_in(pattern, l);
    if lines.filter(hit).contains(line) {
        let i = choose|i: int| 0 <= i < lines.filter(hit).len() && lines.filter(hit)[i] == line;
        lines.lemma_filter_pred(hit, i);
        lines.lemma_filter_contains_rev(hit, line);
    }
    if lines.contains(line) && occurs_in(pattern, line) {
        let i = choose|i: int| 0 <= i < lines.len() && lines[i] == line;
        lines.lemma_filter_contains(hit, i);
    }
}

/// The lines given out stand in the order of the file: cut the file in two
/// wherever you like, and what is found in the first part comes before what
/// is found in the second.
pub proof fn law_matches_keep_file_order(lines: Seq<Seq<char>>, pattern: Seq<char>, cut: int)
    requires
        0 <= cut <= lines.len(),
    ensures
        matching(lines, pattern) == matching(lines.take(cut), pattern) + matching(
            lines.skip(cut),
            pattern,
        ),
{
    let hit = |l: Seq<char>| occurs_in(pattern, l);
    assert(lines =~= lines.take(cut) + lines.skip(cut));
    Seq::filter_distributes_over_add(lines.take(cut), lines.skip(cut), hit);
}

/// Where the pattern occurs in no line, nothing is given out.
pub proof fn law_nothing_without_a_match(bytes: Seq<u8>, pattern: Seq<char>)
    requires
        forall|i: int|
            0 <= i < lines_read(bytes).len() ==> !occurs_in(pattern, #[trigger] lines_read(bytes)[i]),
    ensures
        matching(lines_read(bytes), pattern).len() == 0,
{
    let lines = lines_read(bytes);
    let hit = |l: Seq<char>| occurs_in(pattern, l);
    if lines.filter(hit).len() > 0 {
        let found = lines.filter(hit)[0];
        lines.lemma_filter_pred(hit, 0);
        assert(lines.filter(hit).contains(found));
        lines.lemma_filter_contains_rev(hit, found);
        let i = choose|i: int| 0 <= i < lines.len() && lines[i] == found;
        assert(!occurs_in(pattern, lines[i]));
    }
}

} // verus!
