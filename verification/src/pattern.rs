//! Compiled regular-expression patterns and filter rules.
//!
//! Matching is delegated to the regex crate. A [`Pattern`] pairs the compiled
//! regex with the text it was compiled from; in contracts a pattern is
//! identified with that text, and the two uninterpreted functions
//! [`regex_accepts`] and [`regex_match_ranges`] name what the regex engine
//! computes from the text and a haystack.

use vstd::prelude::*;

verus! {

#[verifier::external_type_specification]
#[verifier::external_body]
pub struct ExRegex(regex::bytes::Regex);

#[verifier::external_type_specification]
#[verifier::external_body]
pub struct ExRegexError(regex::Error);

/// Whether the regex written as `pattern` matches anywhere in `line`: the
/// result of `regex::bytes::Regex::is_match`, which depends on the pattern
/// text and the haystack alone.
pub uninterp spec fn regex_accepts(pattern: Seq<char>, line: Seq<u8>) -> bool;

/// The byte ranges of the successive non-overlapping matches that
/// `regex::bytes::Regex::find_iter` yields for the regex written as `pattern`
/// on the haystack `line`, leftmost first: a function of the two alone.
pub uninterp spec fn regex_match_ranges(pattern: Seq<char>, line: Seq<u8>) -> Seq<(usize, usize)>;

/// Whether `regex::bytes::Regex::new` accepts the pattern written as
/// `pattern`: a function of the text alone (valid syntax, within the
/// default size limit).
pub uninterp spec fn regex_compiles(pattern: Seq<char>) -> bool;

/// Ranges that lie in order within a haystack of `n` bytes: each starts no
/// later than it ends, ends within the haystack, and none overlaps the next.
pub open spec fn ranges_ordered(ranges: Seq<(usize, usize)>, n: nat) -> bool {
    &&& forall|k: int| 0 <= k < ranges.len() ==> #[trigger] ranges[k].0 <= ranges[k].1 <= n
    &&& forall|k: int| 0 <= k < ranges.len() - 1 ==> #[trigger] ranges[k].1 <= ranges[k + 1].0
}

/// A compiled regular expression, paired with the text it was compiled from.
/// In contracts the pattern is identified with that text; the fields are
/// private and only [`compile`] builds a value, so the stored regex is
/// always the one compiled from the stored text.
#[derive(Debug)]
pub struct Pattern {
    re: regex::bytes::Regex,
    text: String,
}

impl View for Pattern {
    type V = Seq<char>;

    closed spec fn view(&self) -> Seq<char> {
        self.text@
    }
}

impl DeepView for Pattern {
    type V = Seq<char>;

    open spec fn deep_view(&self) -> Seq<char> {
        self@
    }
}

/// The error for a pattern text that does not compile.
#[derive(Debug)]
pub struct PatternError {
    pub message: String,
}

/// Relies on `regex::bytes::Regex::new`: it compiles the pattern text,
/// succeeding exactly when the text is acceptable — `regex_compiles` names
/// that outcome, which depends on the text alone — and failing when the
/// text is not valid regex syntax or the compiled regex would exceed the
/// default size limit. The returned [`Pattern`] keeps the text it was
/// compiled from.
#[verifier::external_body]
fn compile(text: &str) -> (r: Result<Pattern, regex::Error>)
    ensures
        r is Ok <==> regex_compiles(text@),
        r is Ok ==> r->Ok_0@ == text@,
{
    match regex::bytes::Regex::new(text) {
        Ok(re) => Ok(Pattern { re, text: text.to_string() }),
        Err(e) => Err(e),
    }
}

/// Relies on the `Display` impl of `regex::Error` for a readable message.
#[verifier::external_body]
fn error_message(e: &regex::Error) -> String {
    format!("{}", e)
}

impl Pattern {
    /// Compile `text`: a pattern exactly when the regex engine accepts the
    /// text, and a [`PatternError`] otherwise, constructing nothing.
    pub fn new(text: &str) -> (r: Result<Pattern, PatternError>)
        ensures
            r is Ok <==> regex_compiles(text@),
            r is Ok ==> r->Ok_0@ == text@,
    {
        match compile(text) {
            Ok(p) => Ok(p),
            Err(e) => Err(PatternError { message: error_message(&e) }),
        }
    }

    /// The text this pattern was compiled from.
    pub fn as_str(&self) -> (r: &str)
        ensures
            r@ == self@,
    {
        self.text.as_str()
    }

    /// Relies on `regex::bytes::Regex::is_match`: true iff there is a match
    /// anywhere in `line`, a function of the pattern text and `line` alone.
    #[verifier::external_body]
    pub(crate) fn is_match(&self, line: &[u8]) -> (b: bool)
        ensures
            b == regex_accepts(self@, line@),
    {
        self.re.is_match(line)
    }

    /// Relies on `regex::bytes::Regex::find_iter`: it yields the successive
    /// non-overlapping matches in `line`, leftmost first, each with
    /// `start() <= end()` byte offsets into `line`.
    #[verifier::external_body]
    pub(crate) fn find_ranges(&self, line: &[u8]) -> (r: Vec<(usize, usize)>)
        ensures
            r@ == regex_match_ranges(self@, line@),
            ranges_ordered(r@, line@.len()),
    {
        self.re.find_iter(line).map(|m| (m.start(), m.end())).collect()
    }
}

/// The model of one filter rule: its pattern text and its two flags.
pub ghost struct RuleModel {
    pub pattern: Seq<char>,
    pub negate: bool,
    pub active: bool,
}

/// One filter rule: a pattern, a negation flag, and an activity flag.
pub struct RegexFilter {
    pub pattern: Pattern,
    pub negate: bool,
    pub active: bool,
}

impl View for RegexFilter {
    type V = RuleModel;

    open spec fn view(&self) -> RuleModel {
        RuleModel { pattern: self.pattern@, negate: self.negate, active: self.active }
    }
}

impl DeepView for RegexFilter {
    type V = RuleModel;

    open spec fn deep_view(&self) -> RuleModel {
        self@
    }
}

/// What one rule says about a line, its activity aside: whether the pattern
/// matches, inverted when the rule is negated.
pub open spec fn rule_matches(pattern: Seq<char>, negate: bool, line: Seq<u8>) -> bool {
    regex_accepts(pattern, line) != negate
}

/// Whether `line` passes every active rule; inactive rules are ignored.
pub open spec fn line_passes(rules: Seq<RuleModel>, line: Seq<u8>) -> bool {
    forall|k: int|
        0 <= k < rules.len() && rules[k].active ==> rule_matches(
            #[trigger] rules[k].pattern,
            rules[k].negate,
            line,
        )
}

impl RegexFilter {
    /// A rule for `pattern` that is active and not negated.
    pub fn new(pattern: Pattern) -> (f: RegexFilter)
        ensures
            f@ == (RuleModel { pattern: pattern@, negate: false, active: true }),
    {
        RegexFilter { pattern, negate: false, active: true }
    }

    /// Whether the rule's pattern matches `line`, inverted when negated.
    pub fn is_match(&self, line: &[u8]) -> (b: bool)
        ensures
            b == rule_matches(self.pattern@, self.negate, line@),
    {
        let hit = self.pattern.is_match(line);
        hit != self.negate
    }
}

} // verus!
