//! Regular expressions, as the `regex` crate matches them.

use vstd::prelude::*;

verus! {

/// Whether `regex::Regex::new` accepts `pattern`.
pub uninterp spec fn regex_accepts(pattern: Seq<char>) -> bool;

/// What `regex::Regex::replace_all` makes of `text` with the expression
/// compiled from `pattern`: `text` with every match replaced by the expansion
/// of `replacement`.
pub uninterp spec fn regex_replaced(
    pattern: Seq<char>,
    text: Seq<char>,
    replacement: Seq<char>,
) -> Seq<char>;

/// Asks `regex::Regex::new` whether it accepts `pattern`.
#[verifier::external_body]
pub(crate) fn regex_compiles(pattern: &str) -> (accepted: bool)
    ensures
        accepted == regex_accepts(pattern@),
{
    regex::Regex::new(pattern).is_ok()
}

/// Compiles `pattern` with `regex::Regex::new` and, where that is accepted,
/// hands `text` and `replacement` to `replace_all` of the compiled
/// expression.
#[verifier::external_body]
pub(crate) fn regex_replace_all(pattern: &str, text: &str, replacement: &str) -> (replaced: Option<
    String,
>)
    ensures
        replaced is Some <==> regex_accepts(pattern@),
        replaced matches Some(s) ==> s@ == regex_replaced(pattern@, text@, replacement@),
{
    regex::Regex::new(pattern).ok().map(|re| re.replace_all(text, replacement).into_owned())
}

} // verus!
