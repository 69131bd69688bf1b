//! Where a cell stands in its table, and what follows from that and from
//! its colour: the low byte of the opcode and the width of the immediate
//! operand.
//!
//! A table is seventeen cells wide: a header column, then sixteen columns of
//! instructions. Its first row is a header row. So the instruction in column
//! `x` of row `y` has the low byte `(y - 1) * 16 + (x - 1)`.

use vstd::prelude::*;
use crate::text::same_text;

verus! {

/// Cells in one row of a table, the header cell included.
pub const COLUMNS: usize = 17;

/// Zero-based coordinates of a cell.
#[derive(Debug, Clone, Copy, PartialEq, Eq, Structural)]
pub struct GridPos {
    pub x: usize,
    pub y: usize,
}

impl GridPos {
    /// The column lies within the table.
    pub open spec fn wf(self) -> bool {
        self.x < COLUMNS
    }

    /// The position of the `i`-th cell of a table read row by row.
    pub open spec fn of_index(i: nat) -> GridPos {
        GridPos { x: (i % COLUMNS as nat) as usize, y: (i / COLUMNS as nat) as usize }
    }

    /// The position of the cell that follows this one.
    pub open spec fn next(self) -> GridPos {
        if self.x + 1 == COLUMNS {
            GridPos { x: 0, y: (self.y + 1) as usize }
        } else {
            GridPos { x: (self.x + 1) as usize, y: self.y }
        }
    }

    /// Neither in the header row nor in the header column.
    pub open spec fn is_data(self) -> bool {
        1 <= self.x < COLUMNS && 1 <= self.y < COLUMNS
    }

    /// The top left corner, where every walk over a table starts.
    pub fn origin() -> (p: GridPos)
        ensures
            p == GridPos::of_index(0),
            p.wf(),
    {
        GridPos { x: 0, y: 0 }
    }

    /// Moves to the next cell: one column to the right, or to the start of
    /// the next row after the seventeenth column.
    pub fn advance(&mut self)
        requires
            old(self).wf(),
            old(self).y < usize::MAX,
        ensures
            *final(self) == old(self).next(),
            final(self).wf(),
    {
        self.x = self.x + 1;
        if self.x % COLUMNS == 0 {
            self.y = self.y + 1;
            self.x = 0;
        }
    }
}

/// Walking on from the `i`-th cell leads to the cell after it.
pub proof fn lemma_next_of_index(i: nat)
    requires
        i + 1 <= usize::MAX,
    ensures
        GridPos::of_index(i).wf(),
        GridPos::of_index(i).next() == GridPos::of_index(i + 1),
{
}

/// The low byte of the opcode of the cell in column `x` of row `y`. For the
/// header row and the header column the subtraction wraps round, as it does
/// in a byte.
pub open spec fn opcode_low(x: int, y: int) -> int {
    ((y - 1) % 16) * 16 + (x - 1) % 16
}

/// The opcode of the cell at `pos` in the table with the given prefix byte.
pub open spec fn opcode(pos: GridPos, op_prefix: u16) -> u16 {
    ((op_prefix % 256) * 256 + opcode_low(pos.x as int, pos.y as int)) as u16
}

/// The width in bits of the immediate operand, by the background colour of
/// the cell. A colour that is not in the legend means no immediate operand.
pub open spec fn color_bits(color: Seq<char>) -> usize {
    if color == "#ff99cc"@ || color == "#ffcc99"@ {
        0
    } else if color == "#ccccff"@ || color == "#ffff99"@ || color == "#80ffff"@ {
        8
    } else if color == "#ccffcc"@ || color == "#ffcccc"@ {
        16
    } else {
        0
    }
}

/// The width in bits of the immediate operand of a cell with the given
/// background colour: 0, 8 or 16.
pub fn bits_for_color(color: &str) -> (bits: usize)
    ensures
        bits == color_bits(color@),
{
    if same_text(color, "#ff99cc") || same_text(color, "#ffcc99") {
        0
    } else if same_text(color, "#ccccff") || same_text(color, "#ffff99") || same_text(
        color,
        "#80ffff",
    ) {
        8
    } else if same_text(color, "#ccffcc") || same_text(color, "#ffcccc") {
        16
    } else {
        0
    }
}

/// The low byte of the opcode of the cell at `pos`.
pub fn low_byte(pos: &GridPos) -> (low: u8)
    ensures
        low == opcode_low(pos.x as int, pos.y as int),
{
    let row: usize = (pos.y % 16 + 15) % 16;
    let column: usize = (pos.x % 16 + 15) % 16;
    (row * 16 + column) as u8
}

/// What the position and the colour of a cell say of its instruction: the
/// low byte of the opcode and the width of the immediate operand.
pub fn resolve(pos: &GridPos, color: &str) -> (r: (u8, usize))
    ensures
        r.0 == opcode_low(pos.x as int, pos.y as int),
        r.1 == color_bits(color@),
{
    (low_byte(pos), bits_for_color(color))
}

/// The opcode with the given low byte in the table with the given prefix
/// byte: the prefix byte above the low byte.
pub fn with_prefix(op_prefix: u16, low: u8) -> (code: u16)
    ensures
        code == (op_prefix % 256) * 256 + low,
        code / 256 == op_prefix % 256,
        code % 256 == low,
{
    (op_prefix % 256) * 256 + low as u16
}

/// The opcode of the cell at `pos`: the prefix byte of its table above the
/// low byte that its position gives.
pub fn opcode_at(pos: &GridPos, op_prefix: u16) -> (code: u16)
    ensures
        code == opcode(*pos, op_prefix),
        code / 256 == op_prefix % 256,
        code % 256 == opcode_low(pos.x as int, pos.y as int),
{
    with_prefix(op_prefix, low_byte(pos))
}

/// Away from the headers the low byte is the row above the column, four
/// bits each: `((y - 1) & 0xF) << 4 | ((x - 1) & 0xF)`.
pub proof fn lemma_opcode_low_bits(x: u64, y: u64)
    requires
        x >= 1,
        y >= 1,
    ensures
        opcode_low(x as int, y as int) == ((((y - 1) as u64 & 0xF) << 4) | ((x - 1) as u64 & 0xF)),
{
    let a: u64 = (y - 1) as u64;
    let b: u64 = (x - 1) as u64;
    assert((((a & 0xF) << 4) | (b & 0xF)) == (a % 16) * 16 + b % 16) by (bit_vector);
}

/// The sixteen by sixteen instruction cells of a table, read row by row,
/// have the low bytes 0, 1, 2, and so on up to 255: the `k`-th of them
/// stands in column `k % 16 + 1` of row `k / 16 + 1`, and its low byte is `k`.
pub proof fn lemma_low_bytes_count_up(k: int)
    requires
        0 <= k < 256,
    ensures
        opcode_low(k % 16 + 1, k / 16 + 1) == k,
{
}

/// No two instruction cells of a table share a low byte.
pub proof fn lemma_low_bytes_differ(a: GridPos, b: GridPos)
    requires
        a.is_data(),
        b.is_data(),
        opcode_low(a.x as int, a.y as int) == opcode_low(b.x as int, b.y as int),
    ensures
        a == b,
{
}

/// Every instruction cell of a table has a low byte between 0 and 255, and
/// every such byte is the low byte of an instruction cell.
pub proof fn lemma_low_bytes_cover(a: GridPos, k: int)
    requires
        a.is_data(),
        0 <= k < 256,
    ensures
        0 <= opcode_low(a.x as int, a.y as int) < 256,
        exists|b: GridPos| b.is_data() && opcode_low(b.x as int, b.y as int) == k,
{
    let b = GridPos { x: (k % 16 + 1) as usize, y: (k / 16 + 1) as usize };
    assert(b.is_data() && opcode_low(b.x as int, b.y as int) == k);
}

} // verus!
