//! The pattern compiler: a textual pattern and a case flag become a reusable
//! per-line predicate.
//!
//! The regular-expression engine itself is `regex_lite`; this module wraps
//! the two calls the library makes into it.  Compilation either succeeds
//! deterministically in the pattern and the flag, or fails with a diagnostic
//! carried in [`CompileError`].  What the compiled matcher accepts is named
//! by the uninterpreted function [`regex_match`]: the same pattern, flag and
//! line always decide the same way, and every contract downstream speaks in
//! terms of that name.

use vstd::prelude::*;

verus! {

/// Whether `regex_lite` accepts `pattern` (with ASCII case-insensitivity
/// switched by `ignore_case`) as a well-formed pattern within its size
/// limits.  Compilation is a pure function of these two arguments.
pub uninterp spec fn pattern_compiles(pattern: Seq<char>, ignore_case: bool) -> bool;

/// Whether the matcher compiled from `pattern` and `ignore_case` reports a
/// match somewhere in `line`.  Matching is a pure function of the compiled
/// pattern and the haystack.
pub uninterp spec fn regex_match(pattern: Seq<char>, ignore_case: bool, line: Seq<char>) -> bool;

#[verifier::external_type_specification]
#[verifier::external_body]
pub struct ExRegex(regex_lite::Regex);

/// A compiled, reusable predicate over a single line of text.
///
/// Construction either fully succeeds or fails with a [`CompileError`];
/// there is no partially-compiled state.
pub struct Matcher {
    regex: regex_lite::Regex,
    pattern: String,
    ignore_case: bool,
}

/// A pattern the engine refused, together with its diagnostic.
#[derive(Debug)]
pub struct CompileError {
    /// The offending pattern, as the caller supplied it.
    pub pattern: String,
    /// The engine's diagnostic.
    pub message: String,
}

impl Matcher {
    /// The pattern this matcher was compiled from.
    pub closed spec fn pattern(&self) -> Seq<char> {
        self.pattern@
    }

    /// Whether this matcher was compiled case-insensitively.
    pub closed spec fn ignore_case(&self) -> bool {
        self.ignore_case
    }

    /// Relies on `regex_lite::RegexBuilder::{new, case_insensitive, build}`:
    /// `build` succeeds or fails deterministically in the pattern and the
    /// flag, and returns the compiled form of exactly that pattern.
    #[verifier::external_body]
    fn build(pattern: &str, ignore_case: bool) -> (r: Result<Matcher, String>)
        ensures
            r is Ok <==> pattern_compiles(pattern@, ignore_case),
            r is Ok ==> (r->Ok_0.pattern() == pattern@ && r->Ok_0.ignore_case() == ignore_case),
    {
        match regex_lite::RegexBuilder::new(pattern).case_insensitive(ignore_case).build() {
            Ok(regex) => Ok(Matcher { regex, pattern: pattern.to_owned(), ignore_case }),
            Err(e) => Err(format!("{e}")),
        }
    }

    /// Compiles `pattern` into a matcher, or reports why it was refused.
    pub fn compile(pattern: &str, ignore_case: bool) -> (r: Result<Matcher, CompileError>)
        ensures
            r is Ok <==> pattern_compiles(pattern@, ignore_case),
            r is Ok ==> (r->Ok_0.pattern() == pattern@ && r->Ok_0.ignore_case() == ignore_case),
            r is Err ==> r->Err_0.pattern@ == pattern@,
    {
        match Self::build(pattern, ignore_case) {
            Ok(m) => Ok(m),
            Err(message) => Err(CompileError { pattern: pattern.to_owned(), message }),
        }
    }

    /// Relies on `regex_lite::Regex::is_match`: true if and only if the
    /// pattern matches somewhere in `line`, a pure function of the compiled
    /// pattern and the line.
    #[verifier::external_body]
    pub(crate) fn is_match(&self, line: &str) -> (r: bool)
        ensures
            r == regex_match(self.pattern(), self.ignore_case(), line@),
    {
        self.regex.is_match(line)
    }
}

} // verus!
