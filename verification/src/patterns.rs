//! The seven line patterns, compiled once into one regex set.

use regex::RegexSet;
use vstd::prelude::*;

verus! {

/// `regex::RegexSet`, carried as an opaque value: what is known of one is
/// what `set_patterns` and the wrappers below say.
#[verifier::external_type_specification]
#[verifier::external_body]
pub struct ExRegexSet(regex::RegexSet);

/// `regex::Error`, carried as an opaque value; nothing is read off it.
#[verifier::external_type_specification]
#[verifier::external_body]
pub struct ExRegexError(regex::Error);

/// The expressions that a regex set was built from, in the order given.
pub uninterp spec fn set_patterns(set: regex::RegexSet) -> Seq<Seq<char>>;

/// Whether a regex set was built with the options of the engine left as they
/// are, the way `RegexSet::new` builds one. A set built with other options
/// (without regard to case, say) holds the same expressions and answers
/// differently.
pub uninterp spec fn plainly_built(set: regex::RegexSet) -> bool;

/// Whether the regex engine builds a set from these expressions, its options
/// left as they are.
pub uninterp spec fn rules_compile(patterns: Seq<Seq<char>>) -> bool;

/// Whether the regular expression `pattern`, compiled with the options of
/// the engine left as they are, matches somewhere in `haystack`.
pub uninterp spec fn regex_matches(pattern: Seq<char>, haystack: Seq<char>) -> bool;

/// What each of `patterns` holds.
pub open spec fn expressions(patterns: Seq<&str>) -> Seq<Seq<char>> {
    Seq::new(patterns.len(), |i: int| patterns[i]@)
}

/// `RegexSet::new`. Trusted: there is a set exactly where the engine accepts
/// the expressions; a set that was built holds them in the given order, as
/// `RegexSet::patterns` would hand them out, and is plainly built. Only the
/// rule expressions are handed in: they are far from the size limit of the
/// engine, whose measure follows the word size of the machine, so that the
/// answer for them is the same everywhere.
#[verifier::external_body]
fn compile_set(patterns: &Vec<&str>) -> (built: Result<RegexSet, regex::Error>)
    requires
        expressions(patterns@) == rule_patterns(),
    ensures
        built is Ok <==> rules_compile(expressions(patterns@)),
        built matches Ok(set) ==> set_patterns(set) == expressions(patterns@) && plainly_built(
            set,
        ),
{
    RegexSet::new(patterns)
}

/// `RegexSet::matches`, read out with `SetMatches::matched` for every index
/// below `RegexSet::len`. Trusted: one answer per expression of the set, in
/// the set's order; for a plainly built set, each says whether that
/// expression matches somewhere in the haystack.
#[verifier::external_body]
fn which_match(set: &RegexSet, haystack: &str) -> (hits: Vec<bool>)
    requires
        plainly_built(*set),
    ensures
        hits@.len() == set_patterns(*set).len(),
        forall|i: int|
            0 <= i < hits@.len() ==> hits@[i] == regex_matches(
                #[trigger] set_patterns(*set)[i],
                haystack@,
            ),
{
    let found = set.matches(haystack);
    (0..set.len()).map(|i| found.matched(i)).collect()
}

/// The line rules as regular expressions: block-comment delimiter, comment
/// marker, function signature, unsafe impl, unsafe block on one line, unsafe
/// block opener, panic.
pub open spec fn rule_patterns() -> Seq<Seq<char>> {
    seq![
        "```"@,
        r"^//|^\s/\*|^\s\*|^\s\*/"@,
        r"\s*fn\s+[a-zA-Z_]*"@,
        r"\s*unsafe impl.*for.*"@,
        r"\s*unsafe\s*\{.*\}"@,
        r".*unsafe\s*\{"@,
        "panic"@,
    ]
}

/// Which of the line rules a line satisfies. The rules are independent: a
/// line may satisfy several.
#[derive(Clone, Copy, Debug, PartialEq, Eq, Structural)]
pub struct LineMatches {
    /// The delimiter that toggles a block comment.
    pub block_comment: bool,
    /// A `//` comment, or a line of comment text inside `/* .. */`.
    pub comment: bool,
    /// A function signature.
    pub function: bool,
    /// An `unsafe impl .. for ..` declaration.
    pub unsafe_impl: bool,
    /// An unsafe block opened and closed on this line.
    pub unsafe_block: bool,
    /// An unsafe block opened on this line.
    pub unsafe_opener: bool,
    /// A panic-style statement.
    pub panic: bool,
}

/// What the rules say of `line`.
pub open spec fn matches_of(line: Seq<char>) -> LineMatches {
    LineMatches {
        block_comment: regex_matches(rule_patterns()[0], line),
        comment: regex_matches(rule_patterns()[1], line),
        function: regex_matches(rule_patterns()[2], line),
        unsafe_impl: regex_matches(rule_patterns()[3], line),
        unsafe_block: regex_matches(rule_patterns()[4], line),
        unsafe_opener: regex_matches(rule_patterns()[5], line),
        panic: regex_matches(rule_patterns()[6], line),
    }
}

/// The rule expressions, in the order of `rule_patterns`.
pub fn rule_sources() -> (sources: Vec<&'static str>)
    ensures
        sources@.len() == rule_patterns().len(),
        forall|i: int| 0 <= i < sources@.len() ==> (#[trigger] sources@[i])@ == rule_patterns()[i],
{
    let mut sources: Vec<&'static str> = Vec::new();
    sources.push("```");
    sources.push(r"^//|^\s/\*|^\s\*|^\s\*/");
    sources.push(r"\s*fn\s+[a-zA-Z_]*");
    sources.push(r"\s*unsafe impl.*for.*");
    sources.push(r"\s*unsafe\s*\{.*\}");
    sources.push(r".*unsafe\s*\{");
    sources.push("panic");
    sources
}

/// The compiled line rules. Read-only once built, so one value can serve
/// every classification pass of a run.
pub struct PatternSet {
    set: RegexSet,
}

impl PatternSet {
    #[verifier::type_invariant]
    spec fn holds_the_rules(self) -> bool {
        set_patterns(self.set) == rule_patterns() && plainly_built(self.set)
    }

    /// The expressions this set was compiled from.
    pub closed spec fn patterns(&self) -> Seq<Seq<char>> {
        set_patterns(self.set)
    }

    /// Compiles the line rules. There is a set exactly where the regex
    /// engine accepts the rule expressions, and it holds exactly those.
    pub fn new() -> (made: Option<PatternSet>)
        ensures
            made is Some <==> rules_compile(rule_patterns()),
            made matches Some(p) ==> p.patterns() == rule_patterns(),
    {
        let sources = rule_sources();
        proof {
            assert(expressions(sources@) =~= rule_patterns());
        }
        match compile_set(&sources) {
            Ok(set) => Some(PatternSet { set }),
            Err(_) => None,
        }
    }

    /// Tests `line` against every rule.
    pub fn matches(&self, line: &str) -> (m: LineMatches)
        ensures
            m == matches_of(line@),
    {
        proof {
            use_type_invariant(self);
        }
        let hits = which_match(&self.set, line);
        LineMatches {
            block_comment: hits[0],
            comment: hits[1],
            function: hits[2],
            unsafe_impl: hits[3],
            unsafe_block: hits[4],
            unsafe_opener: hits[5],
            panic: hits[6],
        }
    }
}

} // verus!
