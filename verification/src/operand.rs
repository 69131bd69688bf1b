//! Operands in their canonical form: lower case, hexadecimal literals with
//! a leading `0x` in place of a trailing `h`, and the placeholders for
//! immediate values and addresses collapsed to `n` and `nn`.

use vstd::prelude::*;
use crate::fatal::Fatal;
use crate::outside::{lowercased, regex_compiles, regex_replace_all, regex_replaced};
use crate::replace::{
    lemma_nothing_to_replace, lemma_replaced_is_free, occurs, replace_all, replace_in,
};
use crate::text::{chars_of, string_of};

verus! {

/// The expression that finds a hexadecimal literal written with a trailing
/// `h`: letters and digits, then `h`.
pub open spec fn hex_pattern() -> Seq<char> {
    "(?P<v>[0-9a-zA-Z]+)h"@
}

/// What such a literal becomes: `0x`, then its letters and digits.
pub open spec fn hex_replacement() -> Seq<char> {
    "0x$v"@
}

/// `s` with the placeholders for immediate values, addresses and relative
/// offsets collapsed: `d8`, `a8` and `r8` to `n`, `d16` and `a16` to `nn`.
/// One placeholder after the other is replaced throughout, in this order.
pub open spec fn replace_placeholders(s: Seq<char>) -> Seq<char> {
    let s1 = replace_all(s, "d8"@, "n"@);
    let s2 = replace_all(s1, "d16"@, "nn"@);
    let s3 = replace_all(s2, "a8"@, "n"@);
    let s4 = replace_all(s3, "a16"@, "nn"@);
    replace_all(s4, "r8"@, "n"@)
}

/// The canonical form of the operand `s`: lower case first, then the
/// hexadecimal literals, then the placeholders. `None` where the expression
/// for hexadecimal literals is not accepted.
pub open spec fn normalized(s: Seq<char>) -> Option<Seq<char>> {
    if regex_compiles(hex_pattern()) {
        Some(
            replace_placeholders(
                regex_replaced(hex_pattern(), lowercased(s), hex_replacement()),
            ),
        )
    } else {
        None
    }
}

/// Replaces every occurrence of `from` in `s` by `to`.
fn replace_text(s: &Vec<char>, from: &str, to: &str) -> (out: Vec<char>)
    ensures
        out@ == replace_all(s@, from@, to@),
{
    let from = chars_of(from);
    let to = chars_of(to);
    replace_in(s, &from, &to)
}

/// Collapses the placeholders of an operand that is already in lower case:
/// `d8`, `a8` and `r8` become `n`, `d16` and `a16` become `nn`.
pub fn substitute_placeholders(s: &str) -> (out: String)
    ensures
        out@ == replace_placeholders(s@),
{
    let s0 = chars_of(s);
    let s1 = replace_text(&s0, "d8", "n");
    let s2 = replace_text(&s1, "d16", "nn");
    let s3 = replace_text(&s2, "a8", "n");
    let s4 = replace_text(&s3, "a16", "nn");
    let s5 = replace_text(&s4, "r8", "n");
    assert(s5@.subrange(0, s5.len() as int) =~= s5@);
    string_of(&s5, 0, s5.len())
}

/// No placeholder is left in `s`.
pub open spec fn without_placeholders(s: Seq<char>) -> bool {
    &&& !occurs(s, "d8"@)
    &&& !occurs(s, "d16"@)
    &&& !occurs(s, "a8"@)
    &&& !occurs(s, "a16"@)
    &&& !occurs(s, "r8"@)
}

/// Collapsing the placeholders leaves none behind, so collapsing them once
/// more changes nothing.
pub proof fn lemma_placeholders_idempotent(s: Seq<char>)
    ensures
        without_placeholders(replace_placeholders(s)),
        replace_placeholders(replace_placeholders(s)) == replace_placeholders(s),
{
    reveal_strlit("d8");
    reveal_strlit("d16");
    reveal_strlit("a8");
    reveal_strlit("a16");
    reveal_strlit("r8");
    reveal_strlit("n");
    reveal_strlit("nn");
    let s1 = replace_all(s, "d8"@, "n"@);
    let s2 = replace_all(s1, "d16"@, "nn"@);
    let s3 = replace_all(s2, "a8"@, "n"@);
    let s4 = replace_all(s3, "a16"@, "nn"@);
    let s5 = replace_all(s4, "r8"@, "n"@);
    lemma_replaced_is_free(s, "d8"@, "n"@, "d8"@, 'n');
    lemma_replaced_is_free(s1, "d16"@, "nn"@, "d8"@, 'n');
    lemma_replaced_is_free(s1, "d16"@, "nn"@, "d16"@, 'n');
    lemma_replaced_is_free(s2, "a8"@, "n"@, "d8"@, 'n');
    lemma_replaced_is_free(s2, "a8"@, "n"@, "d16"@, 'n');
    lemma_replaced_is_free(s2, "a8"@, "n"@, "a8"@, 'n');
    lemma_replaced_is_free(s3, "a16"@, "nn"@, "d8"@, 'n');
    lemma_replaced_is_free(s3, "a16"@, "nn"@, "d16"@, 'n');
    lemma_replaced_is_free(s3, "a16"@, "nn"@, "a8"@, 'n');
    lemma_replaced_is_free(s3, "a16"@, "nn"@, "a16"@, 'n');
    lemma_replaced_is_free(s4, "r8"@, "n"@, "d8"@, 'n');
    lemma_replaced_is_free(s4, "r8"@, "n"@, "d16"@, 'n');
    lemma_replaced_is_free(s4, "r8"@, "n"@, "a8"@, 'n');
    lemma_replaced_is_free(s4, "r8"@, "n"@, "a16"@, 'n');
    lemma_replaced_is_free(s4, "r8"@, "n"@, "r8"@, 'n');
    lemma_without_placeholders_unchanged(s5);
}

/// A text without placeholders is its own canonical form, as far as the
/// placeholders go.
pub proof fn lemma_without_placeholders_unchanged(s: Seq<char>)
    requires
        without_placeholders(s),
    ensures
        replace_placeholders(s) == s,
{
    reveal_strlit("d8");
    reveal_strlit("d16");
    reveal_strlit("a8");
    reveal_strlit("a16");
    reveal_strlit("r8");
    lemma_nothing_to_replace(s, "d8"@, "n"@);
    lemma_nothing_to_replace(s, "d16"@, "nn"@);
    lemma_nothing_to_replace(s, "a8"@, "n"@);
    lemma_nothing_to_replace(s, "a16"@, "nn"@);
    lemma_nothing_to_replace(s, "r8"@, "n"@);
}

/// What `modify` answers for an operand whose canonical form is `t`.
pub open spec fn operand_result(t: Option<Seq<char>>, r: Result<String, Fatal>) -> bool {
    match t {
        Some(t) => r is Ok && r->Ok_0@ == t,
        None => r == Err::<String, Fatal>(Fatal::BadPattern),
    }
}

/// Brings an operand into its canonical form: `FFh` becomes `0xff`, `d16`
/// becomes `nn`, `(HL)` becomes `(hl)`.
pub fn modify(s: &str) -> (r: Result<String, Fatal>)
    ensures
        operand_result(normalized(s@), r),
{
    let lower = s.to_lowercase();
    match regex_replace_all("(?P<v>[0-9a-zA-Z]+)h", lower.as_str(), "0x$v") {
        Ok(rewritten) => Ok(substitute_placeholders(rewritten.as_str())),
        Err(_) => Err(Fatal::BadPattern),
    }
}

} // verus!
