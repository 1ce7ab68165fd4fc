//! Statistics records: the counts kept per file or per crate, what a pass of
//! the line classifier adds to them, and the shares derived from them.

use crate::classifier::{
    shapes_of, state_after, LineClassifier, LineFacts, LineKind, LineShape, LineTally,
};
use crate::error::ClocError;
use crate::names::{is_source_path, leads_to_source};
use crate::patterns::PatternSet;
use crate::text::{lines_of, split_lines};
use vstd::prelude::*;

verus! {

/// A share, as an exact fraction with a positive denominator.
pub struct Fraction {
    pub numer: nat,
    pub denom: nat,
}

impl Fraction {
    /// `part` out of `whole`; zero where there is no whole to take a part of.
    pub open spec fn of(part: nat, whole: nat) -> Fraction {
        if whole == 0 {
            Fraction { numer: 0, denom: 1 }
        } else {
            Fraction { numer: part, denom: whole }
        }
    }

    /// This share is smaller than `other`.
    pub open spec fn less_than(self, other: Fraction) -> bool {
        self.numer * other.denom < other.numer * self.denom
    }
}

/// Where `a` is no smaller than `b`, and `b` no smaller than `c`, `a` is no
/// smaller than `c`.
pub proof fn lemma_no_smaller_is_transitive(a: Fraction, b: Fraction, c: Fraction)
    requires
        a.denom > 0,
        b.denom > 0,
        c.denom > 0,
        !a.less_than(b),
        !b.less_than(c),
    ensures
        !a.less_than(c),
{
    let (an, ad) = (a.numer as int, a.denom as int);
    let (bn, bd) = (b.numer as int, b.denom as int);
    let (cn, cd) = (c.numer as int, c.denom as int);
    assert((cn * ad) * bd <= (an * cd) * bd) by (nonlinear_arith)
        requires
            bn * ad <= an * bd,
            cn * bd <= bn * cd,
            ad > 0,
            bd > 0,
            cd > 0,
            an >= 0,
            bn >= 0,
            cn >= 0,
    ;
    assert(cn * ad <= an * cd) by (nonlinear_arith)
        requires
            (cn * ad) * bd <= (an * cd) * bd,
            bd > 0,
    ;
}

/// A share of a record, kept exact: numerator over positive denominator.
#[derive(Clone, Copy, Debug, PartialEq, Eq, Structural)]
pub struct Ratio {
    numer: usize,
    denom: usize,
}

impl View for Ratio {
    type V = Fraction;

    closed spec fn view(&self) -> Fraction {
        Fraction { numer: self.numer as nat, denom: self.denom as nat }
    }
}

impl Ratio {
    #[verifier::type_invariant]
    spec fn positive_denominator(self) -> bool {
        self.denom > 0
    }

    /// `part` out of `whole`; zero where `whole` is zero.
    pub fn of(part: usize, whole: usize) -> (ratio: Ratio)
        ensures
            ratio@ == Fraction::of(part as nat, whole as nat),
    {
        if whole == 0 {
            Ratio { numer: 0, denom: 1 }
        } else {
            Ratio { numer: part, denom: whole }
        }
    }

    /// The numerator.
    pub fn numer(&self) -> (n: usize)
        ensures
            n == self@.numer,
    {
        self.numer
    }

    /// The denominator, which is never zero.
    pub fn denom(&self) -> (d: usize)
        ensures
            d == self@.denom,
            d > 0,
    {
        proof {
            use_type_invariant(self);
        }
        self.denom
    }

    /// Whether this share is smaller than `other`.
    pub fn less_than(&self, other: &Ratio) -> (smaller: bool)
        ensures
            smaller == self@.less_than(other@),
    {
        let ghost limit: int = 0xffff_ffff_ffff_ffff;
        assert(self.numer * other.denom <= limit * limit && other.numer * self.denom <= limit
            * limit) by (nonlinear_arith)
            requires
                self.numer <= limit,
                self.denom <= limit,
                other.numer <= limit,
                other.denom <= limit,
        ;
        (self.numer as u128) * (other.denom as u128) < (other.numer as u128) * (self.denom as u128)
    }
}

/// One value of the summary of a record.
#[derive(Clone, Copy, Debug, PartialEq, Eq, Structural)]
pub enum SummaryType {
    /// A share of the record.
    Ratio(Ratio),
    /// A count.
    Int(usize),
}

/// The mathematical content of a statistics record.
pub struct StatsModel {
    /// Path-like label of the file or directory the record stands for.
    pub name: Seq<char>,
    /// Source files folded into the record.
    pub files: nat,
    pub blank: nat,
    pub comment: nat,
    pub code: nat,
    /// Times a code line counted as unsafe.
    pub num_unsafe: nat,
    pub total_fns: nat,
    pub unsafe_fns: nat,
    pub panics: nat,
}

impl StatsModel {
    /// The record that nothing has been counted into.
    pub open spec fn empty(name: Seq<char>) -> StatsModel {
        StatsModel {
            name,
            files: 0,
            blank: 0,
            comment: 0,
            code: 0,
            num_unsafe: 0,
            total_fns: 0,
            unsafe_fns: 0,
            panics: 0,
        }
    }

    /// A record counts as empty until a function has been seen.
    pub open spec fn is_empty(self) -> bool {
        self.total_fns == 0
    }

    /// No more unsafe functions than functions.
    pub open spec fn wf(self) -> bool {
        self.unsafe_fns <= self.total_fns
    }

    /// Lines taken in, of whatever class.
    pub open spec fn lines(self) -> nat {
        self.blank + self.comment + self.code
    }

    /// Unsafe lines out of code lines.
    pub open spec fn unsafe_ratio(self) -> Fraction {
        Fraction::of(self.num_unsafe, self.code)
    }

    /// Unsafe functions out of functions.
    pub open spec fn unsafe_fn_ratio(self) -> Fraction {
        Fraction::of(self.unsafe_fns, self.total_fns)
    }

    /// The counts in the order files, blank, comment, code, unsafe lines,
    /// functions, unsafe functions, panics.
    pub open spec fn to_seq(self) -> Seq<nat> {
        seq![
            self.files,
            self.blank,
            self.comment,
            self.code,
            self.num_unsafe,
            self.total_fns,
            self.unsafe_fns,
            self.panics,
        ]
    }

    /// The record with one line added.
    pub open spec fn plus(self, tally: LineTally) -> StatsModel {
        StatsModel {
            blank: self.blank + if tally.kind == LineKind::Blank { 1nat } else { 0nat },
            comment: self.comment + if tally.kind == LineKind::Comment { 1nat } else { 0nat },
            code: self.code + if tally.kind == LineKind::Code { 1nat } else { 0nat },
            num_unsafe: self.num_unsafe + tally.unsafe_lines as nat,
            total_fns: self.total_fns + if tally.function { 1nat } else { 0nat },
            unsafe_fns: self.unsafe_fns + if tally.unsafe_function { 1nat } else { 0nat },
            panics: self.panics + if tally.panic { 1nat } else { 0nat },
            ..self
        }
    }

    /// The record with one more file to its name.
    pub open spec fn with_file(self) -> StatsModel {
        StatsModel { files: self.files + 1, ..self }
    }

    /// The record after the lines of one file, read in order from the start
    /// state of the classifier.
    pub open spec fn after_lines(self, lines: Seq<LineShape>) -> StatsModel
        decreases lines.len(),
    {
        if lines.len() == 0 {
            self
        } else {
            self.after_lines(lines.drop_last()).plus(
                state_after(lines.drop_last()).tally(lines.last()),
            )
        }
    }

    /// The record after a file with these contents.
    pub open spec fn after_file(self, contents: Seq<char>) -> StatsModel {
        self.with_file().after_lines(shapes_of(lines_of(contents)))
    }

    /// The record after files with these contents, one after the other.
    pub open spec fn after_files(self, files: Seq<Seq<char>>) -> StatsModel
        decreases files.len(),
    {
        if files.len() == 0 {
            self
        } else {
            self.after_files(files.drop_last()).after_file(files.last())
        }
    }

    /// Every counter fits the machine integer.
    pub open spec fn fits(self) -> bool {
        &&& self.files <= usize::MAX
        &&& self.blank <= usize::MAX
        &&& self.comment <= usize::MAX
        &&& self.code <= usize::MAX
        &&& self.num_unsafe <= usize::MAX
        &&& self.total_fns <= usize::MAX
        &&& self.unsafe_fns <= usize::MAX
        &&& self.panics <= usize::MAX
    }

    /// Every counter can take that many more lines without leaving the
    /// machine integer; a line may count as unsafe three times.
    pub open spec fn can_take_lines(self, lines: nat) -> bool {
        &&& self.blank + lines <= usize::MAX
        &&& self.comment + lines <= usize::MAX
        &&& self.code + lines <= usize::MAX
        &&& self.num_unsafe + 3 * lines <= usize::MAX
        &&& self.total_fns + lines <= usize::MAX
        &&& self.unsafe_fns + lines <= usize::MAX
        &&& self.panics + lines <= usize::MAX
    }

    /// The record can take one more file of that many lines.
    pub open spec fn can_take_file(self, lines: nat) -> bool {
        self.files < usize::MAX && self.can_take_lines(lines)
    }
}

/// The contents of each of `records`.
pub open spec fn views_of(records: Seq<ClocStats>) -> Seq<StatsModel> {
    Seq::new(records.len(), |i: int| records[i]@)
}

/// Each line of a file lands in exactly one of the classes blank, comment and
/// code: a pass over a file raises their sum by the number of its lines.
pub proof fn lemma_every_line_has_one_class(stats: StatsModel, contents: Seq<char>)
    ensures
        stats.after_file(contents).lines() == stats.lines() + lines_of(contents).len(),
{
    lemma_lines_add_up(stats.with_file(), shapes_of(lines_of(contents)));
}

proof fn lemma_lines_add_up(stats: StatsModel, lines: Seq<LineShape>)
    ensures
        stats.after_lines(lines).lines() == stats.lines() + lines.len(),
        stats.after_lines(lines).files == stats.files,
        stats.after_lines(lines).name == stats.name,
    decreases lines.len(),
{
    if lines.len() > 0 {
        lemma_lines_add_up(stats, lines.drop_last());
    }
}

/// A pass over a file counts exactly one file more, under the same label.
pub proof fn lemma_one_file_more(stats: StatsModel, contents: Seq<char>)
    ensures
        stats.after_file(contents).files == stats.files + 1,
        stats.after_file(contents).name == stats.name,
{
    lemma_lines_add_up(stats.with_file(), shapes_of(lines_of(contents)));
}

/// A pass over a file finds no more unsafe functions than functions, so a
/// record that held no more of the one than of the other still does.
pub proof fn lemma_unsafe_functions_are_functions(stats: StatsModel, contents: Seq<char>)
    ensures
        stats.after_file(contents).unsafe_fns - stats.unsafe_fns <= stats.after_file(
            contents,
        ).total_fns - stats.total_fns,
        stats.wf() ==> stats.after_file(contents).wf(),
{
    lemma_functions_add_up(stats.with_file(), shapes_of(lines_of(contents)));
}

proof fn lemma_functions_add_up(stats: StatsModel, lines: Seq<LineShape>)
    ensures
        stats.after_lines(lines).unsafe_fns - stats.unsafe_fns <= stats.after_lines(
            lines,
        ).total_fns - stats.total_fns,
    decreases lines.len(),
{
    if lines.len() > 0 {
        lemma_functions_add_up(stats, lines.drop_last());
    }
}

/// Classifying is a function of the record and the contents: two passes
/// over the same contents, from equal records, end in equal records.
pub proof fn lemma_same_contents_same_record(
    before: StatsModel,
    contents: Seq<char>,
    first: StatsModel,
    second: StatsModel,
)
    requires
        first == before.after_file(contents),
        second == before.after_file(contents),
    ensures
        first == second,
{
}

/// The statistics of one file, or of all the files of one unit.
#[derive(Debug, PartialEq, Eq)]
pub struct ClocStats {
    name: String,
    pub num_unsafe: usize,
    unsafe_fns: usize,
    total_fns: usize,
    blank: usize,
    comment: usize,
    files: usize,
    code: usize,
    panics: usize,
}

impl View for ClocStats {
    type V = StatsModel;

    closed spec fn view(&self) -> StatsModel {
        StatsModel {
            name: self.name@,
            files: self.files as nat,
            blank: self.blank as nat,
            comment: self.comment as nat,
            code: self.code as nat,
            num_unsafe: self.num_unsafe as nat,
            total_fns: self.total_fns as nat,
            unsafe_fns: self.unsafe_fns as nat,
            panics: self.panics as nat,
        }
    }
}

impl Clone for ClocStats {
    fn clone(&self) -> (copy: ClocStats)
        ensures
            copy@ == self@,
    {
        ClocStats {
            name: self.name.clone(),
            num_unsafe: self.num_unsafe,
            unsafe_fns: self.unsafe_fns,
            total_fns: self.total_fns,
            blank: self.blank,
            comment: self.comment,
            files: self.files,
            code: self.code,
            panics: self.panics,
        }
    }
}

impl ClocStats {
    /// A record under the label `dir_name`, with nothing counted.
    pub fn new(dir_name: String) -> (stats: ClocStats)
        ensures
            stats@ == StatsModel::empty(dir_name@),
    {
        ClocStats {
            name: dir_name,
            num_unsafe: 0,
            unsafe_fns: 0,
            total_fns: 0,
            blank: 0,
            comment: 0,
            files: 0,
            code: 0,
            panics: 0,
        }
    }

    /// The label of the record.
    pub fn name(&self) -> (name: &String)
        ensures
            name@ == self@.name,
    {
        &self.name
    }

    /// Number of functions.
    pub fn count_fns(&self) -> (n: usize)
        ensures
            n == self@.total_fns,
    {
        self.total_fns
    }

    /// Number of unsafe functions.
    pub fn count_unsafe_fns(&self) -> (n: usize)
        ensures
            n == self@.unsafe_fns,
    {
        self.unsafe_fns
    }

    /// Times a code line counted as unsafe.
    pub fn count_unsafe(&self) -> (n: usize)
        ensures
            n == self@.num_unsafe,
    {
        self.num_unsafe
    }

    /// The counts, in the order of `StatsModel::to_seq`.
    pub fn to_vec(&self) -> (counts: Vec<usize>)
        ensures
            counts@.len() == 8,
            forall|i: int| 0 <= i < 8 ==> counts@[i] == self@.to_seq()[i],
    {
        vec![
            self.files,
            self.blank,
            self.comment,
            self.code,
            self.num_unsafe,
            self.total_fns,
            self.unsafe_fns,
            self.panics,
        ]
    }

    /// Whether the record is empty: no function has been seen.
    pub fn is_empty(&self) -> (empty: bool)
        ensures
            empty == self@.is_empty(),
    {
        !(self.total_fns > 0)
    }

    /// Unsafe lines out of code lines; zero where there is no code.
    pub fn unsafe_ratio(&self) -> (ratio: Ratio)
        ensures
            ratio@ == self@.unsafe_ratio(),
            ratio@.denom > 0,
            self@.code == 0 ==> ratio@.numer == 0,
    {
        Ratio::of(self.num_unsafe, self.code)
    }

    /// Unsafe functions out of functions; zero where there is no function.
    pub fn unsafe_fn_ratio(&self) -> (ratio: Ratio)
        ensures
            ratio@ == self@.unsafe_fn_ratio(),
            ratio@.denom > 0,
            self@.total_fns == 0 ==> ratio@.numer == 0,
    {
        Ratio::of(self.unsafe_fns, self.total_fns)
    }

    /// The row of the record in a report: files, blank, comment, code, unsafe
    /// lines, share of unsafe lines, functions, unsafe functions, share of
    /// unsafe functions, panics.
    pub fn summarize(&self) -> (row: Vec<SummaryType>)
        ensures
            row@.len() == 10,
            row@[0] == SummaryType::Int(self@.files as usize),
            row@[1] == SummaryType::Int(self@.blank as usize),
            row@[2] == SummaryType::Int(self@.comment as usize),
            row@[3] == SummaryType::Int(self@.code as usize),
            row@[4] == SummaryType::Int(self@.num_unsafe as usize),
            row@[5] matches SummaryType::Ratio(share) && share@ == self@.unsafe_ratio(),
            row@[6] == SummaryType::Int(self@.total_fns as usize),
            row@[7] == SummaryType::Int(self@.unsafe_fns as usize),
            row@[8] matches SummaryType::Ratio(share) && share@ == self@.unsafe_fn_ratio(),
            row@[9] == SummaryType::Int(self@.panics as usize),
    {
        vec![
            SummaryType::Int(self.files),
            SummaryType::Int(self.blank),
            SummaryType::Int(self.comment),
            SummaryType::Int(self.code),
            SummaryType::Int(self.num_unsafe),
            SummaryType::Ratio(self.unsafe_ratio()),
            SummaryType::Int(self.total_fns),
            SummaryType::Int(self.unsafe_fns),
            SummaryType::Ratio(self.unsafe_fn_ratio()),
            SummaryType::Int(self.panics),
        ]
    }

    /// Adds what one line contributes.
    pub fn record(&mut self, tally: &LineTally)
        requires
            old(self)@.plus(*tally).fits(),
        ensures
            final(self)@ == old(self)@.plus(*tally),
    {
        match tally.kind {
            LineKind::Blank => {
                self.blank = self.blank + 1;
            },
            LineKind::Comment => {
                self.comment = self.comment + 1;
            },
            LineKind::Code => {
                self.code = self.code + 1;
            },
        }
        self.num_unsafe = self.num_unsafe + tally.unsafe_lines as usize;
        if tally.function {
            self.total_fns = self.total_fns + 1;
        }
        if tally.unsafe_function {
            self.unsafe_fns = self.unsafe_fns + 1;
        }
        if tally.panic {
            self.panics = self.panics + 1;
        }
    }

    /// Whether the record can take a file with these contents without a
    /// counter leaving the machine integer.
    pub fn has_room_for(&self, contents: &str) -> (fits: bool)
        ensures
            fits == self@.can_take_file(lines_of(contents@).len()),
    {
        let lines = split_lines(contents).len();
        if lines > usize::MAX / 3 {
            return false;
        }
        let room = usize::MAX - lines;
        self.files < usize::MAX && self.blank <= room && self.comment <= room && self.code <= room
            && self.num_unsafe <= usize::MAX - 3 * lines && self.total_fns <= room
            && self.unsafe_fns <= room && self.panics <= room
    }

    /// Counts one more file into the record: classifies every line of
    /// `contents` in order, from the start state of the classifier.
    pub fn cloc_file(&mut self, patterns: &PatternSet, contents: &str)
        requires
            old(self)@.can_take_file(lines_of(contents@).len()),
        ensures
            final(self)@ == old(self)@.after_file(contents@),
            final(self)@.name == old(self)@.name,
            final(self)@.files == old(self)@.files + 1,
            final(self)@.lines() == old(self)@.lines() + lines_of(contents@).len(),
            old(self)@.wf() ==> final(self)@.wf(),
    {
        let lines = split_lines(contents);
        self.files = self.files + 1;
        let ghost start = self@;
        let ghost shapes = shapes_of(lines_of(contents@));
        let mut state = LineClassifier::new();
        let mut i: usize = 0;
        while i < lines.len()
            invariant
                i <= lines@.len() == shapes.len(),
                shapes == shapes_of(lines_of(contents@)),
                forall|k: int|
                    0 <= k < lines@.len() ==> (#[trigger] lines@[k])@ == lines_of(contents@)[k],
                start.can_take_lines(shapes.len()),
                self@ == start.after_lines(shapes.take(i as int)),
                state@ == state_after(shapes.take(i as int)),
                self@.blank <= start.blank + i,
                self@.comment <= start.comment + i,
                self@.code <= start.code + i,
                self@.num_unsafe <= start.num_unsafe + 3 * i,
                self@.total_fns <= start.total_fns + i,
                self@.unsafe_fns <= start.unsafe_fns + i,
                self@.panics <= start.panics + i,
                -(i * 0x1_0000_0000_0000_0000) <= state@.depth <= i * 0x1_0000_0000_0000_0000,
            decreases lines@.len() - i,
        {
            let facts = LineFacts::of(patterns, lines[i]);
            let tally = state.classify(&facts);
            self.record(&tally);
            proof {
                assert(shapes.take(i + 1).drop_last() =~= shapes.take(i as int));
            }
            i = i + 1;
        }
        proof {
            assert(shapes.take(shapes.len() as int) =~= shapes);
            lemma_every_line_has_one_class(old(self)@, contents@);
            lemma_one_file_more(old(self)@, contents@);
            lemma_unsafe_functions_are_functions(old(self)@, contents@);
        }
    }

    /// The statistics of the single file at the path `filename`. `contents`
    /// is what the file holds, or `None` where the path names no file. Only
    /// Rust source files are taken, and the name is looked at first.
    pub fn from_file(patterns: &PatternSet, filename: &str, contents: Option<&str>) -> (made:
        Result<ClocStats, ClocError>)
        requires
            leads_to_source(filename@) ==> (contents matches Some(text) ==> StatsModel::empty(
                filename@,
            ).can_take_file(lines_of(text@).len())),
        ensures
            match made {
                Ok(stats) => leads_to_source(filename@) && (contents matches Some(text) && stats@
                    == StatsModel::empty(filename@).after_file(text@) && stats@.files == 1
                    && stats@.lines() == lines_of(text@).len() && stats@.wf()),
                Err(error) => error == if !leads_to_source(filename@) {
                    ClocError::UnsupportedFileType
                } else {
                    ClocError::NotAFile
                } && (leads_to_source(filename@) ==> contents is None),
            },
    {
        if !is_source_path(filename) {
            return Err(ClocError::UnsupportedFileType);
        }
        match contents {
            Some(text) => {
                let mut stats = ClocStats::new(filename.to_owned());
                stats.cloc_file(patterns, text);
                Ok(stats)
            },
            None => Err(ClocError::NotAFile),
        }
    }
}

} // verus!
