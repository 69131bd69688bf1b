//! The ways in which a cell that has the shape of an instruction can still
//! be unusable. Each of them ends the whole extraction.

use vstd::prelude::*;

verus! {

#[derive(Debug, Clone, Copy, PartialEq, Eq, Structural)]
pub enum Fatal {
    /// The pattern that finds hexadecimal literals was not accepted by the
    /// regular-expression engine.
    BadPattern,
    /// The size field is not a number that fits the machine word.
    BadSize,
    /// The timing field is neither one number nor two numbers around a
    /// single slash.
    BadTime,
}

} // verus!
