//! Compiled glob patterns, regular expressions and the skim fuzzy scorer.
//!
//! Each matcher keeps the source text it was built from, so that what it answers
//! can be stated as a function of that text and of the string it is asked about.

use vstd::prelude::*;
use fuzzy_matcher::FuzzyMatcher;

verus! {

/// The glob crate's compiled pattern, carried opaquely.
#[verifier::external_type_specification]
#[verifier::external_body]
pub struct ExGlobPattern(glob::Pattern);

/// The regex crate's compiled expression, carried opaquely.
#[verifier::external_type_specification]
#[verifier::external_body]
pub struct ExRegex(regex::Regex);

/// The fuzzy-matcher crate's skim matcher, carried opaquely.
#[verifier::external_type_specification]
#[verifier::external_body]
pub struct ExSkimMatcherV2(fuzzy_matcher::skim::SkimMatcherV2);

/// Whether `glob::Pattern::new` accepts the pattern text.
pub uninterp spec fn glob_compiles(pattern: Seq<char>) -> bool;

/// What `glob::Pattern::matches` answers, with default options, for a pattern text and a string.
pub uninterp spec fn glob_matches(pattern: Seq<char>, s: Seq<char>) -> bool;

/// Whether `regex::Regex::new` accepts the pattern text.
pub uninterp spec fn regex_compiles(pattern: Seq<char>) -> bool;

/// What `regex::Regex::is_match` answers for a pattern text and a haystack.
pub uninterp spec fn regex_is_match(pattern: Seq<char>, haystack: Seq<char>) -> bool;

/// The text of the leftmost-first match that `regex::Regex::find` reports, if any.
pub uninterp spec fn regex_find(pattern: Seq<char>, haystack: Seq<char>) -> Option<Seq<char>>;

/// The score `SkimMatcherV2::fuzzy_match` gives when the pattern matches.
pub uninterp spec fn skim_score(respect_case: bool, choice: Seq<char>, pattern: Seq<char>) -> i64;

/// ASCII case folding of one character.
pub open spec fn ascii_fold(c: char) -> char {
    if 'A' <= c && c <= 'Z' {
        ((c as u32) + 32) as char
    } else {
        c
    }
}

/// The character comparison of the skim matcher: exact, or ignoring ASCII case.
pub open spec fn skim_char_eq(a: char, b: char, respect_case: bool) -> bool {
    if respect_case {
        a == b
    } else {
        ascii_fold(a) == ascii_fold(b)
    }
}

/// `pattern` occurs in `choice` as a (not necessarily contiguous) subsequence,
/// characters compared as the skim matcher compares them.
pub open spec fn is_subsequence(pattern: Seq<char>, choice: Seq<char>, respect_case: bool) -> bool
    decreases choice.len(),
{
    if pattern.len() == 0 {
        true
    } else if choice.len() == 0 {
        false
    } else if skim_char_eq(choice[0], pattern[0], respect_case) {
        is_subsequence(pattern.drop_first(), choice.drop_first(), respect_case)
    } else {
        is_subsequence(pattern, choice.drop_first(), respect_case)
    }
}

/// What a skim fuzzy match of `pattern` against `choice` returns.
pub open spec fn skim_match(respect_case: bool, choice: Seq<char>, pattern: Seq<char>) -> Option<i64> {
    if is_subsequence(pattern, choice, respect_case) {
        Some(skim_score(respect_case, choice, pattern))
    } else {
        None
    }
}

/// A glob pattern compiled from `source`.
pub struct GlobPattern {
    source: String,
    compiled: glob::Pattern,
}

impl View for GlobPattern {
    type V = Seq<char>;

    closed spec fn view(&self) -> Seq<char> {
        self.source@
    }
}

/// `glob::Pattern::new`: succeeds exactly when the glob crate accepts the pattern text.
#[verifier::external_body]
fn glob_new(pattern: &str) -> (r: Option<glob::Pattern>)
    ensures
        r.is_some() == glob_compiles(pattern@),
{
    glob::Pattern::new(pattern).ok()
}

impl GlobPattern {
    /// Compiles `pattern`; `None` when the glob syntax is invalid.
    pub fn new(pattern: &str) -> (r: Option<GlobPattern>)
        ensures
            r.is_some() == glob_compiles(pattern@),
            r matches Some(g) ==> g@ == pattern@,
    {
        match glob_new(pattern) {
            Some(compiled) => Some(GlobPattern { source: pattern.to_string(), compiled }),
            None => None,
        }
    }

    /// `glob::Pattern::matches` with default options: `*`, `?`, `[...]` and `**`
    /// as the glob crate defines them, case-sensitive.
    #[verifier::external_body]
    pub(crate) fn matches(&self, s: &str) -> (r: bool)
        ensures
            r == glob_matches(self@, s@),
    {
        self.compiled.matches(s)
    }
}

/// A regular expression compiled from `source`.
pub struct CompiledRegex {
    source: String,
    compiled: regex::Regex,
}

impl View for CompiledRegex {
    type V = Seq<char>;

    closed spec fn view(&self) -> Seq<char> {
        self.source@
    }
}

/// `regex::Regex::new`: succeeds exactly when the regex crate accepts the pattern text.
#[verifier::external_body]
fn regex_new(pattern: &str) -> (r: Option<regex::Regex>)
    ensures
        r.is_some() == regex_compiles(pattern@),
{
    regex::Regex::new(pattern).ok()
}

impl CompiledRegex {
    /// Compiles `pattern`; `None` when `regex::Regex::new` rejects it.
    pub fn new(pattern: &str) -> (r: Option<CompiledRegex>)
        ensures
            r.is_some() == regex_compiles(pattern@),
            r matches Some(re) ==> re@ == pattern@,
    {
        match regex_new(pattern) {
            Some(compiled) => Some(CompiledRegex { source: pattern.to_string(), compiled }),
            None => None,
        }
    }

    /// `regex::Regex::is_match`: whether the regex matches anywhere in `haystack`.
    #[verifier::external_body]
    pub(crate) fn is_match(&self, haystack: &str) -> (r: bool)
        ensures
            r == regex_is_match(self@, haystack@),
    {
        self.compiled.is_match(haystack)
    }

    /// `regex::Regex::find`, giving the matched text. It is `Some` exactly when
    /// `is_match` holds, as the crate documents for both.
    #[verifier::external_body]
    pub(crate) fn find(&self, haystack: &str) -> (r: Option<String>)
        ensures
            r.is_some() == regex_is_match(self@, haystack@),
            r.is_some() ==> regex_find(self@, haystack@) == Some(r->0@),
            r.is_none() ==> regex_find(self@, haystack@) == None::<Seq<char>>,
    {
        self.compiled.find(haystack).map(|m| m.as_str().to_string())
    }
}

/// A skim (V2) fuzzy matcher that either respects or ignores ASCII case.
pub struct FuzzyScorer {
    respect_case: bool,
    matcher: fuzzy_matcher::skim::SkimMatcherV2,
}

impl View for FuzzyScorer {
    type V = bool;

    closed spec fn view(&self) -> bool {
        self.respect_case
    }
}

/// `SkimMatcherV2::default()`: a matcher with the crate's default scoring and smart case.
#[verifier::external_body]
fn skim_default() -> fuzzy_matcher::skim::SkimMatcherV2 {
    fuzzy_matcher::skim::SkimMatcherV2::default()
}

/// `SkimMatcherV2::respect_case`: the same matcher, comparing characters exactly.
#[verifier::external_body]
fn skim_respect_case(m: fuzzy_matcher::skim::SkimMatcherV2) -> fuzzy_matcher::skim::SkimMatcherV2 {
    m.respect_case()
}

/// `SkimMatcherV2::ignore_case`: the same matcher, comparing characters without case.
#[verifier::external_body]
fn skim_ignore_case(m: fuzzy_matcher::skim::SkimMatcherV2) -> fuzzy_matcher::skim::SkimMatcherV2 {
    m.ignore_case()
}

impl FuzzyScorer {
    /// A default `SkimMatcherV2` switched to respecting or to ignoring case.
    pub fn new(respect_case: bool) -> (r: FuzzyScorer)
        ensures
            r@ == respect_case,
    {
        let matcher = if respect_case {
            skim_respect_case(skim_default())
        } else {
            skim_ignore_case(skim_default())
        };
        FuzzyScorer { respect_case, matcher }
    }

    /// `FuzzyMatcher::fuzzy_match` of the matcher `new` made (case respected exactly when
    /// `self@`): `None` unless every pattern character occurs in `choice`, in order, with
    /// characters compared exactly or ignoring ASCII case (the crate's `cheap_matches`
    /// pre-check); otherwise the skim score, which is named, not restated.
    #[verifier::external_body]
    pub(crate) fn fuzzy_match(&self, choice: &str, pattern: &str) -> (r: Option<i64>)
        ensures
            r.is_some() == is_subsequence(pattern@, choice@, self@),
            r.is_some() ==> r->0 == skim_score(self@, choice@, pattern@),
    {
        self.matcher.fuzzy_match(choice, pattern)
    }
}

} // verus!
