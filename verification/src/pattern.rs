//! Regular expressions: a compiled pattern that remembers its source, and
//! the matching calls the download filters and the history scraper make.

use vstd::prelude::*;

verus! {

#[verifier::external_type_specification]
#[verifier::external_body]
pub struct ExRegex(regex::Regex);

/// Whether `regex::Regex::new` accepts a pattern.
pub uninterp spec fn regex_compiles(pattern: Seq<char>) -> bool;

/// Whether the regex compiled from `pattern` matches somewhere in `text`
/// (`regex::Regex::is_match`).
pub uninterp spec fn regex_is_match(pattern: Seq<char>, text: Seq<char>) -> bool;

/// The first capture group of every match of the regex compiled from
/// `pattern` in `text`, in order, as `regex::Regex::captures_iter` finds
/// them (`None` for a match whose group did not take part).
pub uninterp spec fn regex_groups(pattern: Seq<char>, text: Seq<char>) -> Seq<Option<Seq<char>>>;

/// The first capture group of the first match of the regex compiled from
/// `pattern` in `text`, as `regex::Regex::captures` finds it.
pub uninterp spec fn regex_group(pattern: Seq<char>, text: Seq<char>) -> Option<Seq<char>>;

pub open spec fn opt_text(o: Option<String>) -> Option<Seq<char>> {
    match o {
        Some(s) => Some(s@),
        None => None,
    }
}

pub open spec fn opt_texts(v: Seq<Option<String>>) -> Seq<Option<Seq<char>>> {
    v.map_values(|o: Option<String>| opt_text(o))
}

/// A compiled regular expression; it keeps the pattern it was compiled
/// from.
pub struct CompiledPattern {
    source: String,
    re: regex::Regex,
}

impl CompiledPattern {
    /// The pattern the regex was compiled from.
    pub closed spec fn source(&self) -> Seq<char> {
        self.source@
    }
}

/// Calls `regex::Regex::new`; whether it succeeds is named by
/// [`regex_compiles`].
#[verifier::external_body]
pub(crate) fn compile_regex(pattern: String) -> (r: Option<CompiledPattern>)
    ensures
        match r {
            Some(p) => regex_compiles(pattern@) && p.source() == pattern@,
            None => !regex_compiles(pattern@),
        },
{
    match regex::Regex::new(&pattern) {
        Ok(re) => Some(CompiledPattern { source: pattern, re }),
        Err(_) => None,
    }
}

/// Calls `regex::Regex::is_match`; the result is named by
/// [`regex_is_match`] over the pattern's source.
#[verifier::external_body]
pub(crate) fn pattern_is_match(p: &CompiledPattern, text: &str) -> (r: bool)
    ensures
        r == regex_is_match(p.source(), text@),
{
    p.re.is_match(text)
}

/// Calls `regex::Regex::captures_iter`, keeping group 1 of each match; the
/// result is named by [`regex_groups`] over the pattern's source.
#[verifier::external_body]
pub(crate) fn pattern_captures(p: &CompiledPattern, text: &str) -> (r: Vec<Option<String>>)
    ensures
        opt_texts(r@) == regex_groups(p.source(), text@),
{
    p.re.captures_iter(text).map(|c| c.get(1).map(|m| m.as_str().to_string())).collect()
}

/// Calls `regex::Regex::captures`, keeping group 1 of the first match; the
/// result is named by [`regex_group`] over the pattern's source.
#[verifier::external_body]
pub(crate) fn pattern_capture(p: &CompiledPattern, text: &str) -> (r: Option<String>)
    ensures
        opt_text(r) == regex_group(p.source(), text@),
{
    p.re.captures(text).and_then(|c| c.get(1)).map(|m| m.as_str().to_string())
}

} // verus!
