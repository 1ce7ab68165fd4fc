//! The per-file state machine that classifies one line at a time.
//!
//! Comment and blank checks come first and end the work on a line; only what
//! is left counts as code. On code lines the machine follows the braces of an
//! open unsafe region and notes functions, unsafe code and panics.

use crate::patterns::{matches_of, LineMatches, PatternSet};
use crate::text::{contains_text, count_char, count_of, has_text};
use vstd::prelude::*;

verus! {

/// What the classifier reads off a line.
#[derive(Clone, Copy, Debug, PartialEq, Eq)]
pub struct LineFacts {
    /// The rules the line satisfies.
    pub matches: LineMatches,
    /// The line holds no character.
    pub empty: bool,
    /// Number of `{` on the line.
    pub opening_braces: usize,
    /// Number of `}` on the line.
    pub closing_braces: usize,
    /// The line holds the word `unsafe`.
    pub mentions_unsafe: bool,
}

/// `LineFacts` with unbounded counts.
pub struct LineShape {
    pub matches: LineMatches,
    pub empty: bool,
    pub opening_braces: nat,
    pub closing_braces: nat,
    pub mentions_unsafe: bool,
}

impl View for LineFacts {
    type V = LineShape;

    open spec fn view(&self) -> LineShape {
        LineShape {
            matches: self.matches,
            empty: self.empty,
            opening_braces: self.opening_braces as nat,
            closing_braces: self.closing_braces as nat,
            mentions_unsafe: self.mentions_unsafe,
        }
    }
}

/// What the classifier reads off the text of `line`.
pub open spec fn shape_of(line: Seq<char>) -> LineShape {
    LineShape {
        matches: matches_of(line),
        empty: line.len() == 0,
        opening_braces: count_of(line, '{'),
        closing_braces: count_of(line, '}'),
        mentions_unsafe: contains_text(line, "unsafe"@),
    }
}

impl LineFacts {
    /// Reads the facts off `line`.
    pub fn of(patterns: &PatternSet, line: &str) -> (facts: LineFacts)
        ensures
            facts@ == shape_of(line@),
    {
        LineFacts {
            matches: patterns.matches(line),
            empty: line.is_empty(),
            opening_braces: count_char(line, '{'),
            closing_braces: count_char(line, '}'),
            mentions_unsafe: has_text(line, "unsafe"),
        }
    }
}

/// The three classes of lines. Every line falls into exactly one.
#[derive(Clone, Copy, Debug, PartialEq, Eq, Structural)]
pub enum LineKind {
    Blank,
    Comment,
    Code,
}

/// What one line adds to a statistics record.
#[derive(Clone, Copy, Debug, PartialEq, Eq, Structural)]
pub struct LineTally {
    /// The class of the line.
    pub kind: LineKind,
    /// How often the line counts as unsafe: at most three times.
    pub unsafe_lines: u8,
    /// The line declares a function.
    pub function: bool,
    /// The line declares an unsafe function.
    pub unsafe_function: bool,
    /// The line holds a panic-style statement.
    pub panic: bool,
}

/// The state carried from line to line within one file.
pub struct ScanModel {
    /// Brace nesting of the open unsafe region.
    pub depth: int,
    /// An unsafe region is open.
    pub in_unsafe: bool,
    /// An odd number of block-comment delimiters has been seen.
    pub in_block_comment: bool,
}

/// The class of a line. Comment beats blank, and both beat code: a line is
/// code only where nothing else claims it.
pub open spec fn kind_of(line: LineShape) -> LineKind {
    if line.matches.block_comment || line.matches.comment {
        LineKind::Comment
    } else if line.empty {
        LineKind::Blank
    } else {
        LineKind::Code
    }
}

/// The brace nesting once the braces of a code line are taken in: they count
/// only while a region is open.
pub open spec fn settled_depth(state: ScanModel, line: LineShape) -> int {
    if state.in_unsafe {
        state.depth + line.opening_braces - line.closing_braces
    } else {
        state.depth
    }
}

/// An open region stays open over a code line unless the nesting comes back
/// to zero on it.
pub open spec fn stays_open(state: ScanModel, line: LineShape) -> bool {
    state.in_unsafe && settled_depth(state, line) != 0
}

/// A code line opens a region where it declares an unsafe function, or where,
/// declaring no function and closing no unsafe block on itself, it opens one.
pub open spec fn opens_region(line: LineShape) -> bool {
    if line.matches.function {
        line.mentions_unsafe
    } else {
        !line.matches.unsafe_block && line.matches.unsafe_opener
    }
}

/// How often a code line counts as unsafe: once for lying in a region that
/// stays open, once for an unsafe impl, once for an unsafe block on one line
/// that is no function signature. The three do not exclude each other.
pub open spec fn unsafe_count(state: ScanModel, line: LineShape) -> nat {
    let inside: nat = if stays_open(state, line) { 1 } else { 0 };
    let by_impl: nat = if line.matches.unsafe_impl { 1 } else { 0 };
    let by_block: nat = if !line.matches.function && line.matches.unsafe_block { 1 } else { 0 };
    inside + by_impl + by_block
}

impl ScanModel {
    /// The state at the first line of a file.
    pub open spec fn start() -> ScanModel {
        ScanModel { depth: 0, in_unsafe: false, in_block_comment: false }
    }

    /// The state after `line`.
    pub open spec fn after(self, line: LineShape) -> ScanModel {
        if kind_of(line) == LineKind::Code {
            ScanModel {
                depth: settled_depth(self, line) + if opens_region(line) { 1int } else { 0int },
                in_unsafe: stays_open(self, line) || opens_region(line),
                in_block_comment: self.in_block_comment,
            }
        } else {
            ScanModel {
                depth: self.depth,
                in_unsafe: self.in_unsafe,
                in_block_comment: self.in_block_comment != line.matches.block_comment,
            }
        }
    }

    /// What `line` adds to the record when read in this state.
    pub open spec fn tally(self, line: LineShape) -> LineTally {
        if kind_of(line) == LineKind::Code {
            LineTally {
                kind: LineKind::Code,
                unsafe_lines: unsafe_count(self, line) as u8,
                function: line.matches.function,
                unsafe_function: line.matches.function && line.mentions_unsafe,
                panic: line.matches.panic,
            }
        } else {
            LineTally {
                kind: kind_of(line),
                unsafe_lines: 0,
                function: false,
                unsafe_function: false,
                panic: false,
            }
        }
    }

    /// The nesting is far enough from the limits of the machine integer to
    /// take in one more line.
    pub open spec fn has_headroom(self) -> bool {
        -depth_limit() <= self.depth <= depth_limit()
    }
}

/// What the classifier reads off each of `lines`.
pub open spec fn shapes_of(lines: Seq<Seq<char>>) -> Seq<LineShape> {
    Seq::new(lines.len(), |i: int| shape_of(lines[i]))
}

/// The state in which the line after `lines` is read, the first of them
/// having been read at the start of a file.
pub open spec fn state_after(lines: Seq<LineShape>) -> ScanModel
    decreases lines.len(),
{
    if lines.len() == 0 {
        ScanModel::start()
    } else {
        state_after(lines.drop_last()).after(lines.last())
    }
}

/// Largest nesting, in either direction, at which one more line can be read.
pub open spec fn depth_limit() -> int {
    i128::MAX - usize::MAX - 1
}

/// The line classifier of one file.
#[derive(Clone, Copy, Debug, PartialEq, Eq)]
pub struct LineClassifier {
    bracket_depth: i128,
    inside_unsafe: bool,
    inside_block_comment: bool,
}

impl View for LineClassifier {
    type V = ScanModel;

    closed spec fn view(&self) -> ScanModel {
        ScanModel {
            depth: self.bracket_depth as int,
            in_unsafe: self.inside_unsafe,
            in_block_comment: self.inside_block_comment,
        }
    }
}

impl LineClassifier {
    /// A classifier at the start of a file.
    pub fn new() -> (fresh: LineClassifier)
        ensures
            fresh@ == ScanModel::start(),
    {
        LineClassifier { bracket_depth: 0, inside_unsafe: false, inside_block_comment: false }
    }

    /// Brace nesting of the open unsafe region.
    pub fn bracket_depth(&self) -> (depth: i128)
        ensures
            depth == self@.depth,
    {
        self.bracket_depth
    }

    /// Whether an unsafe region is open.
    pub fn inside_unsafe_region(&self) -> (open: bool)
        ensures
            open == self@.in_unsafe,
    {
        self.inside_unsafe
    }

    /// Whether an odd number of block-comment delimiters has been seen.
    pub fn inside_block_comment(&self) -> (inside: bool)
        ensures
            inside == self@.in_block_comment,
    {
        self.inside_block_comment
    }

    /// Takes in one line and says what it adds to the record.
    pub fn classify(&mut self, facts: &LineFacts) -> (tally: LineTally)
        requires
            old(self)@.has_headroom(),
        ensures
            final(self)@ == old(self)@.after(facts@),
            tally == old(self)@.tally(facts@),
    {
        let mut tally = LineTally {
            kind: LineKind::Code,
            unsafe_lines: 0,
            function: false,
            unsafe_function: false,
            panic: false,
        };
        if facts.matches.block_comment {
            self.inside_block_comment = !self.inside_block_comment;
            tally.kind = LineKind::Comment;
            return tally;
        }
        if facts.matches.comment {
            tally.kind = LineKind::Comment;
            return tally;
        }
        if facts.empty {
            tally.kind = LineKind::Blank;
            return tally;
        }
        if self.inside_unsafe {
            self.bracket_depth = self.bracket_depth + facts.opening_braces as i128
                - facts.closing_braces as i128;
            if self.bracket_depth == 0 {
                self.inside_unsafe = false;
            } else {
                tally.unsafe_lines = tally.unsafe_lines + 1;
            }
        }
        if facts.matches.unsafe_impl {
            tally.unsafe_lines = tally.unsafe_lines + 1;
        }
        if facts.matches.function {
            tally.function = true;
            if facts.mentions_unsafe {
                tally.unsafe_function = true;
                self.inside_unsafe = true;
                self.bracket_depth = self.bracket_depth + 1;
            }
        } else if facts.matches.unsafe_block {
            tally.unsafe_lines = tally.unsafe_lines + 1;
        } else if facts.matches.unsafe_opener {
            self.inside_unsafe = true;
            self.bracket_depth = self.bracket_depth + 1;
        }
        if facts.matches.panic {
            tally.panic = true;
        }
        tally
    }
}

} // verus!
