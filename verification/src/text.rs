//! Small helpers for working with text as a sequence of characters.

use vstd::prelude::*;
use vstd::string::StringSliceAdditionalSpecFns;
use vstd::utf8::{decode_utf8, encode_utf8_decode_utf8, valid_utf8};

verus! {

/// Whether `pattern` occurs in `line` as a run of neighbouring characters.
/// The empty pattern occurs in every line.
pub open spec fn occurs_in(pattern: Seq<char>, line: Seq<char>) -> bool {
    exists|at: int| occurs_at(pattern, line, at)
}

/// Whether `pattern` occurs in `line` from position `at` on.
pub open spec fn occurs_at(pattern: Seq<char>, line: Seq<char>, at: int) -> bool {
    0 <= at && at + pattern.len() <= line.len() && line.subrange(at, at + pattern.len()) == pattern
}

/// The characters of `s`, in order.
pub fn to_chars(s: &str) -> (chars: Vec<char>)
    ensures
        chars@ == s@,
{
    let mut chars: Vec<char> = Vec::new();
    for c in it: s.chars()
        invariant
            it.seq() == s@,
            chars@ == it.seq().take(it.index() as int),
    {
        chars.push(c);
    }
    chars
}

/// Whether `a[a_from..a_to]` and `b[b_from..b_to]` hold the same characters.
pub(crate) fn same_run(
    a: &Vec<char>,
    a_from: usize,
    a_to: usize,
    b: &Vec<char>,
    b_from: usize,
    b_to: usize,
) -> (same: bool)
    requires
        a_from <= a_to <= a.len(),
        b_from <= b_to <= b.len(),
    ensures
        same == (a@.subrange(a_from as int, a_to as int) == b@.subrange(b_from as int, b_to as int)),
{
    let ghost left = a@.subrange(a_from as int, a_to as int);
    let ghost right = b@.subrange(b_from as int, b_to as int);
    if a_to - a_from != b_to - b_from {
        assert(left.len() != right.len());
        return false;
    }
    let n: usize = a_to - a_from;
    let mut k: usize = 0;
    while k < n
        invariant
            k <= n,
            n == a_to - a_from,
            n == b_to - b_from,
            a_to <= a.len(),
            b_to <= b.len(),
            left == a@.subrange(a_from as int, a_to as int),
            right == b@.subrange(b_from as int, b_to as int),
            forall|j: int| 0 <= j < k ==> left[j] == right[j],
        decreases n - k,
    {
        if a[a_from + k] != b[b_from + k] {
            assert(left[k as int] != right[k as int]);
            return false;
        }
        k += 1;
    }
    assert(left =~= right);
    true
}

/// Whether `pattern` occurs among the first `len` characters of `line`.
pub(crate) fn contains(line: &Vec<char>, len: usize, pattern: &Vec<char>) -> (found: bool)
    requires
        len <= line.len(),
    ensures
        found == occurs_in(pattern@, line@.take(len as int)),
{
    let ghost text = line@.take(len as int);
    if pattern.len() > len {
        assert(forall|at: int| !occurs_at(pattern@, text, at));
        return false;
    }
    let last: usize = len - pattern.len();
    let mut at: usize = 0;
    loop
        invariant
            at <= last,
            last == len - pattern.len(),
            len <= line.len(),
            text == line@.take(len as int),
            forall|j: int| 0 <= j < at ==> !occurs_at(pattern@, text, j),
        decreases last - at,
    {
        assert(text.subrange(at as int, at + pattern.len()) =~= line@.subrange(
            at as int,
            at + pattern.len(),
        ));
        assert(pattern@.subrange(0, pattern.len() as int) =~= pattern@);
        if same_run(line, at, at + pattern.len(), pattern, 0, pattern.len()) {
            assert(occurs_at(pattern@, text, at as int));
            return true;
        }
        if at == last {
            assert(forall|j: int| !occurs_at(pattern@, text, j));
            return false;
        }
        at += 1;
    }
}

/// Reads `bytes` as text. There is a text exactly if the bytes are valid
/// UTF-8, and it is the text they encode.
pub fn decode(bytes: &[u8]) -> (text: Option<&str>)
    ensures
        text is Some <==> valid_utf8(bytes@),
        text matches Some(s) ==> s@ == decode_utf8(bytes@),
{
    let text = from_utf8(bytes);
    proof {
        if let Some(s) = text {
            encode_utf8_decode_utf8(s@);
        }
    }
    text
}

/// Calls `std::str::from_utf8`. It succeeds exactly on valid UTF-8, and the
/// text it gives then consists of the very bytes it was given.
#[verifier::external_body]
fn from_utf8(bytes: &[u8]) -> (text: Option<&str>)
    ensures
        text is Some <==> valid_utf8(bytes@),
        text matches Some(s) ==> s.spec_bytes() == bytes@,
{
    std::str::from_utf8(bytes).ok()
}

} // verus!
