//! What the library takes from elsewhere: the building of strings and lower
//! case from the standard library, and the rewriting of matches from the
//! `regex` crate. Nothing in this file is proved; each contract says what is
//! believed of the function it stands for.

use vstd::prelude::*;

verus! {

/// `regex::Error`: why a pattern was refused. Nothing of it is looked into.
#[verifier::external_type_specification]
#[verifier::external_body]
pub struct ExRegexError(regex::Error);

/// `String::push` appends one character to the end of the string.
pub assume_specification[ String::push ](s: &mut String, ch: char)
    ensures
        final(s)@ == old(s)@.push(ch),
;

/// What `str::to_lowercase` makes of a text: its lower-case equivalent by
/// the rules of Unicode.
pub uninterp spec fn lowercased(s: Seq<char>) -> Seq<char>;

/// Whether `regex::Regex::new` accepts a pattern.
pub uninterp spec fn regex_compiles(pattern: Seq<char>) -> bool;

/// What `regex::Regex::replace_all` makes of a text, for the expression
/// compiled from `pattern`: the text with every match, taken from the left
/// and without overlap, replaced by the expansion of `rep`.
pub uninterp spec fn regex_replaced(pattern: Seq<char>, haystack: Seq<char>, rep: Seq<char>) -> Seq<
    char,
>;

/// `str::to_lowercase` returns the lower-case equivalent of the text as a
/// new string. Nothing more is claimed of it than that the result depends on
/// the text alone.
pub assume_specification[ str::to_lowercase ](s: &str) -> (r: String)
    ensures
        r@ == lowercased(s@),
;

/// Compiles `pattern` with `regex::Regex::new` and rewrites `haystack` with
/// `regex::Regex::replace_all`. The compiler's refusal is handed on. Of an
/// accepted pattern nothing more is claimed than that the rewritten text
/// depends on the three arguments alone.
#[verifier::external_body]
pub(crate) fn regex_replace_all(pattern: &str, haystack: &str, rep: &str) -> (r: Result<
    String,
    regex::Error,
>)
    ensures
        r is Ok <==> regex_compiles(pattern@),
        r matches Ok(out) ==> out@ == regex_replaced(pattern@, haystack@, rep@),
{
    match regex::Regex::new(pattern) {
        Ok(re) => Ok(re.replace_all(haystack, rep).into_owned()),
        Err(e) => Err(e),
    }
}

} // verus!
