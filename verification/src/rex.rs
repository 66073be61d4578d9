//! Trusted boundary to the `regex` crate. Pattern compilation and
//! matching are named, not restated: both are deterministic functions
//! of the texts involved, so each gets an uninterpreted spec name that
//! the wrappers' contracts speak of.

use regex::Regex;
use vstd::prelude::*;

verus! {

/// Whether `pattern` is accepted by the regex crate's compiler under
/// its default settings; a function of the pattern text alone.
pub uninterp spec fn regex_valid(pattern: Seq<char>) -> bool;

/// Whether the regular expression `pattern` matches anywhere inside
/// `text`; a function of the two texts alone.
pub uninterp spec fn regex_match(pattern: Seq<char>, text: Seq<char>) -> bool;

/// Relies on regex::Regex::new: whether a pattern compiles (under the
/// default builder settings) depends on the pattern text alone.
#[verifier::external_body]
pub(crate) fn regex_compiles(pattern: &str) -> (r: bool)
    ensures
        r == regex_valid(pattern@),
{
    Regex::new(pattern).is_ok()
}

/// Relies on regex::Regex::is_match: for a pattern that compiles, the
/// result is true exactly when the pattern matches anywhere in `text`,
/// and depends on the two texts alone.
#[verifier::external_body]
pub(crate) fn regex_is_match(pattern: &str, text: &str) -> (r: bool)
    requires
        regex_valid(pattern@),
    ensures
        r == regex_match(pattern@, text@),
{
    match Regex::new(pattern) {
        Ok(re) => re.is_match(text),
        Err(_) => false,
    }
}

} // verus!
