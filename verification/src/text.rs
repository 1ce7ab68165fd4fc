//! Text primitives of the line classifier: physical lines, substring search
//! and brace counts, each with its meaning over sequences of characters.

use vstd::prelude::*;

verus! {

/// Index of the first line feed of `text`, or its length where it holds none.
pub open spec fn first_line_feed(text: Seq<char>) -> nat
    decreases text.len(),
{
    if text.len() == 0 || text[0] == '\n' {
        0
    } else {
        1 + first_line_feed(text.drop_first())
    }
}

/// A line without the carriage return that preceded its line feed.
pub open spec fn without_carriage_return(line: Seq<char>) -> Seq<char> {
    if line.len() > 0 && line.last() == '\r' {
        line.drop_last()
    } else {
        line
    }
}

/// The physical lines of `text`.
///
/// A line ends at a line feed, or at a carriage return directly followed by
/// one; the terminator is not part of the line. The last line needs no
/// terminator, and keeps a carriage return that no line feed follows. Text
/// that ends with a terminator has no empty line after it.
pub open spec fn lines_of(text: Seq<char>) -> Seq<Seq<char>>
    decreases text.len(),
{
    if text.len() == 0 {
        Seq::empty()
    } else {
        let cut = first_line_feed(text);
        if cut >= text.len() {
            seq![text]
        } else {
            seq![without_carriage_return(text.take(cut as int))] + lines_of(
                text.skip(cut as int + 1),
            )
        }
    }
}

/// `needle` stands in `hay` at index `at`.
pub open spec fn occurs_at(hay: Seq<char>, needle: Seq<char>, at: int) -> bool {
    0 <= at && at + needle.len() <= hay.len() && hay.subrange(at, at + needle.len()) == needle
}

/// `needle` stands somewhere in `hay`.
pub open spec fn contains_text(hay: Seq<char>, needle: Seq<char>) -> bool {
    exists|at: int| occurs_at(hay, needle, at)
}

/// How often `c` occurs in `line`.
pub open spec fn count_of(line: Seq<char>, c: char) -> nat
    decreases line.len(),
{
    if line.len() == 0 {
        0
    } else {
        count_of(line.drop_last(), c) + if line.last() == c {
            1nat
        } else {
            0nat
        }
    }
}

/// `str::lines`, collected. Trusted: the lines come in order and are those
/// that `lines_of` describes, which restates the documentation of
/// `str::lines` on `\n`, `\r\n` and the optional last terminator.
#[verifier::external_body]
pub(crate) fn split_lines<'a>(text: &'a str) -> (lines: Vec<&'a str>)
    ensures
        lines@.len() == lines_of(text@).len(),
        forall|i: int| 0 <= i < lines@.len() ==> (#[trigger] lines@[i])@ == lines_of(text@)[i],
{
    text.lines().collect()
}

/// `str::contains` with a string pattern. Trusted: true exactly when the
/// pattern equals some sub-slice of the haystack.
#[verifier::external_body]
pub(crate) fn has_text(hay: &str, needle: &str) -> (found: bool)
    ensures
        found == contains_text(hay@, needle@),
{
    hay.contains(needle)
}

/// Whether `a` and `b` hold the same characters.
pub fn same_text(a: &str, b: &str) -> (same: bool)
    ensures
        same == (a@ == b@),
{
    let len = a.unicode_len();
    if len != b.unicode_len() {
        return false;
    }
    let mut i: usize = 0;
    while i < len
        invariant
            i <= len,
            len == a@.len(),
            len == b@.len(),
            forall|k: int| 0 <= k < i ==> a@[k] == b@[k],
        decreases len - i,
    {
        if a.get_char(i) != b.get_char(i) {
            return false;
        }
        i = i + 1;
    }
    assert(a@ =~= b@);
    true
}

/// Counts the occurrences of `c` in `line`.
pub fn count_char(line: &str, c: char) -> (n: usize)
    ensures
        n == count_of(line@, c),
{
    let len = line.unicode_len();
    let mut n: usize = 0;
    for ch in it: line.chars()
        invariant
            it.seq() == line@,
            len == line@.len(),
            n == count_of(line@.take(it.index() as int), c),
            n <= it.index() <= len,
    {
        assert(line@.take(it.index() + 1).drop_last() =~= line@.take(it.index() as int));
        if ch == c {
            n = n + 1;
        }
    }
    assert(line@.take(line@.len() as int) =~= line@);
    n
}

} // verus!
