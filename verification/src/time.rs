//! The timing field of a cell: one cycle count, or two around a slash for
//! an instruction that takes longer when its condition holds.

use vstd::prelude::*;
use crate::fatal::Fatal;
use crate::number::{decimal, parse_decimal};
use crate::text::{chars_of, cut, find_char};

verus! {

#[derive(Debug, Clone, Copy, PartialEq, Eq, Structural)]
pub enum Time {
    /// The cycle count of an instruction that always takes the same time.
    One(usize),
    /// The cycle counts of a conditional instruction: taken, then not taken.
    Two(usize, usize),
}

/// What a timing field means. With a slash in it, the field is two numbers,
/// one on each side of the first slash; without, it is one number. Anything
/// else, a second slash included, means nothing.
pub open spec fn time_of(s: Seq<char>) -> Option<Time> {
    match cut(s, '/') {
        Some((taken, not_taken)) => match (decimal(taken), decimal(not_taken)) {
            (Some(a), Some(b)) => Some(Time::Two(a, b)),
            _ => None,
        },
        None => match decimal(s) {
            Some(a) => Some(Time::One(a)),
            None => None,
        },
    }
}

/// What `parse_time` answers for a field that means `t`.
pub open spec fn time_result(t: Option<Time>) -> Result<Time, Fatal> {
    match t {
        Some(t) => Ok(t),
        None => Err(Fatal::BadTime),
    }
}

/// Decodes the timing field that stands in `v[from..to]`.
pub fn decode_time(v: &Vec<char>, from: usize, to: usize) -> (r: Result<Time, Fatal>)
    requires
        from <= to <= v.len(),
    ensures
        r == time_result(time_of(v@.subrange(from as int, to as int))),
{
    let ghost s = v@.subrange(from as int, to as int);
    let slash = find_char(v, from, to, '/');
    if slash < to {
        assert(s.take(slash - from) =~= v@.subrange(from as int, slash as int));
        assert(s.skip(slash - from + 1) =~= v@.subrange(slash + 1, to as int));
        match (parse_decimal(v, from, slash), parse_decimal(v, slash + 1, to)) {
            (Some(a), Some(b)) => Ok(Time::Two(a, b)),
            _ => Err(Fatal::BadTime),
        }
    } else {
        match parse_decimal(v, from, to) {
            Some(a) => Ok(Time::One(a)),
            None => Err(Fatal::BadTime),
        }
    }
}

/// Decodes a timing field: `"4"` is one cycle count, `"8/12"` is two.
/// A field with more than one slash, or with anything but numbers around
/// it, is refused.
pub fn parse_time(s: &str) -> (r: Result<Time, Fatal>)
    ensures
        r == time_result(time_of(s@)),
{
    let v = chars_of(s);
    assert(v@.subrange(0, v.len() as int) =~= v@);
    decode_time(&v, 0, v.len())
}

} // verus!
