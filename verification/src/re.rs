//! The bridge to the `regex` crate.  Every pattern is compiled in
//! multi-line mode (`^` and `$` match at embedded terminators), matching
//! the engine's `ed`/`sed`-style semantics.
//!
//! What the regex engine computes is deterministic in its inputs, so its
//! results are given names here (`regex_compiles`, `regex_matches`,
//! `replaced_first`, `replaced_all`) and the buffer operations' contracts
//! are stated over those names.

use vstd::prelude::*;

verus! {

pub uninterp spec fn regex_compiles(pat: Seq<char>) -> bool;

pub uninterp spec fn regex_matches(pat: Seq<char>, text: Seq<char>) -> bool;

pub uninterp spec fn replaced_first(pat: Seq<char>, repl: Seq<char>, text: Seq<char>) -> Seq<char>;

pub uninterp spec fn replaced_all(pat: Seq<char>, repl: Seq<char>, text: Seq<char>) -> Seq<char>;

/// Relies on `regex::RegexBuilder::build`: whether a pattern compiles
/// depends on the pattern text alone.
#[verifier::external_body]
pub(crate) fn re_compiles(pat: &str) -> (r: bool)
    ensures
        r == regex_compiles(pat@),
{
    regex::RegexBuilder::new(pat).multi_line(true).build().is_ok()
}

/// Relies on `regex::RegexBuilder::build` and `regex::Regex::is_match`:
/// whether the leftmost match exists is a function of pattern and haystack.
#[verifier::external_body]
pub(crate) fn re_is_match(pat: &str, text: &str) -> (r: bool)
    requires
        regex_compiles(pat@),
    ensures
        r == regex_matches(pat@, text@),
{
    let re = regex::RegexBuilder::new(pat).multi_line(true).build().unwrap();
    re.is_match(text)
}

/// Relies on `regex::RegexBuilder::build` and `regex::Regex::replace`: the
/// text with the leftmost match (if any) replaced, `$group` references
/// expanded; a function of pattern, replacement and haystack.
#[verifier::external_body]
pub(crate) fn re_replace_first(pat: &str, repl: &str, text: &str) -> (r: String)
    requires
        regex_compiles(pat@),
    ensures
        r@ == replaced_first(pat@, repl@, text@),
{
    let re = regex::RegexBuilder::new(pat).multi_line(true).build().unwrap();
    re.replace(text, repl).into_owned()
}

/// Relies on `regex::RegexBuilder::build` and `regex::Regex::replace_all`:
/// the text with every non-overlapping match replaced, `$group` references
/// expanded; a function of pattern, replacement and haystack.
#[verifier::external_body]
pub(crate) fn re_replace_all(pat: &str, repl: &str, text: &str) -> (r: String)
    requires
        regex_compiles(pat@),
    ensures
        r@ == replaced_all(pat@, repl@, text@),
{
    let re = regex::RegexBuilder::new(pat).multi_line(true).build().unwrap();
    re.replace_all(text, repl).into_owned()
}

} // verus!
