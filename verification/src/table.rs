//! The walk over the cells of a table, which makes the list of
//! instructions.
//!
//! The cells come row by row. Each has a place in the grid, which gives the
//! low byte of its opcode, and a colour, which gives the width of its
//! immediate operand. A cell whose text is no instruction is passed over. A
//! cell whose text is an instruction with a field that cannot be decoded
//! ends the walk: the page is not what it was taken for.

use vstd::prelude::*;
use crate::fatal::Fatal;
use crate::grammar::{cell_parts, parse_cell, texts, ParsedCell, Parts};
use crate::grid::{
    color_bits, lemma_next_of_index, opcode, opcode_low, resolve, with_prefix, GridPos, COLUMNS,
};
use crate::number::{decimal, parse_number};
use crate::operand::{hex_pattern, modify, normalized};
use crate::outside::{lowercased, regex_compiles};
use crate::time::{parse_time, time_of, Time};

verus! {

/// One cell of a table: its background colour, where it has one, and the
/// text in it.
#[derive(Debug, Clone, PartialEq, Eq)]
pub struct Cell {
    pub bgcolor: Option<String>,
    pub text: String,
}

pub struct CellView {
    pub bgcolor: Option<Seq<char>>,
    pub text: Seq<char>,
}

impl View for Cell {
    type V = CellView;

    open spec fn view(&self) -> CellView {
        CellView {
            bgcolor: match self.bgcolor {
                Some(color) => Some(color@),
                None => None,
            },
            text: self.text@,
        }
    }
}

/// One instruction of the table.
#[derive(Debug, Clone, PartialEq, Eq)]
pub struct Instruction {
    /// The opcode, with the prefix byte of its table as the high byte.
    pub code: u16,
    /// The mnemonic, in lower case.
    pub operator: String,
    /// The operands in their canonical form, two at most.
    pub operands: Vec<String>,
    /// The width of the immediate operand in bits: 0, 8 or 16.
    pub bits: usize,
    /// The length of the encoded instruction in bytes.
    pub size: usize,
    /// The cycles that the instruction takes.
    pub time: Time,
    pub z: String,
    pub n: String,
    pub h: String,
    pub c: String,
}

pub struct InstructionView {
    pub code: u16,
    pub operator: Seq<char>,
    pub operands: Seq<Seq<char>>,
    pub bits: usize,
    pub size: usize,
    pub time: Time,
    pub z: Seq<char>,
    pub n: Seq<char>,
    pub h: Seq<char>,
    pub c: Seq<char>,
}

impl View for Instruction {
    type V = InstructionView;

    open spec fn view(&self) -> InstructionView {
        InstructionView {
            code: self.code,
            operator: self.operator@,
            operands: texts(self.operands@),
            bits: self.bits,
            size: self.size,
            time: self.time,
            z: self.z@,
            n: self.n@,
            h: self.h@,
            c: self.c@,
        }
    }
}

/// The instructions that a vector holds.
pub open spec fn instructions(v: Seq<Instruction>) -> Seq<InstructionView> {
    Seq::new(v.len(), |i: int| v[i]@)
}

/// The cells that a vector holds.
pub open spec fn cells_of(v: Seq<Cell>) -> Seq<CellView> {
    Seq::new(v.len(), |i: int| v[i]@)
}

/// What becomes of one cell.
pub enum Outcome {
    /// The text is no instruction: the cell is passed over.
    Skipped,
    /// The cell gives an instruction.
    Emitted(InstructionView),
    /// The text is an instruction, but a field of it cannot be decoded.
    Failed(Fatal),
}

/// The colour that decides the width of the immediate operand: the
/// background colour of the cell, or the empty text where it has none.
pub open spec fn color_of(cell: CellView) -> Seq<char> {
    match cell.bgcolor {
        Some(color) => color,
        None => Seq::empty(),
    }
}

/// The operands of a cell in their canonical form.
pub open spec fn normalized_operands(raw: Seq<Seq<char>>) -> Seq<Seq<char>> {
    Seq::new(raw.len(), |i: int| normalized(raw[i])->0)
}

/// The instruction that the parts `p` of a cell give, with the opcode and
/// the width that its place and colour gave. The operands are brought into
/// their canonical form first, then the size is decoded, then the timing;
/// the first of these that fails decides the error.
pub open spec fn assemble(p: Parts, code: u16, bits: usize) -> Result<InstructionView, Fatal> {
    if p.operands.len() > 0 && !regex_compiles(hex_pattern()) {
        Err(Fatal::BadPattern)
    } else if decimal(p.size) is None {
        Err(Fatal::BadSize)
    } else if time_of(p.time) is None {
        Err(Fatal::BadTime)
    } else {
        Ok(
            InstructionView {
                code,
                operator: lowercased(p.operator),
                operands: normalized_operands(p.operands),
                bits,
                size: decimal(p.size)->0,
                time: time_of(p.time)->0,
                z: p.z,
                n: p.n,
                h: p.h,
                c: p.c,
            },
        )
    }
}

/// What becomes of the cell at `pos` in the table with the given prefix
/// byte.
pub open spec fn cell_outcome(cell: CellView, pos: GridPos, op_prefix: u16) -> Outcome {
    match cell_parts(cell.text) {
        None => Outcome::Skipped,
        Some(p) => match assemble(p, opcode(pos, op_prefix), color_bits(color_of(cell))) {
            Ok(instruction) => Outcome::Emitted(instruction),
            Err(e) => Outcome::Failed(e),
        },
    }
}

/// The instructions of a table whose cells are `cells`, read row by row, or
/// the error of the first cell that has one.
pub open spec fn walk(cells: Seq<CellView>, op_prefix: u16) -> Result<Seq<InstructionView>, Fatal>
    decreases cells.len(),
{
    if cells.len() == 0 {
        Ok(Seq::empty())
    } else {
        match walk(cells.drop_last(), op_prefix) {
            Err(e) => Err(e),
            Ok(found) => match cell_outcome(
                cells.last(),
                GridPos::of_index((cells.len() - 1) as nat),
                op_prefix,
            ) {
                Outcome::Skipped => Ok(found),
                Outcome::Emitted(instruction) => Ok(found.push(instruction)),
                Outcome::Failed(e) => Err(e),
            },
        }
    }
}

/// What a function answers that is to give the instructions `expected`.
pub open spec fn walked_as(
    expected: Result<Seq<InstructionView>, Fatal>,
    r: Result<Vec<Instruction>, Fatal>,
) -> bool {
    match (expected, r) {
        (Ok(found), Ok(v)) => instructions(v@) == found,
        (Err(e), Err(f)) => e == f,
        _ => false,
    }
}

/// What `build_instruction` answers for parts that assemble to `expected`.
pub open spec fn assembled_as(
    expected: Result<InstructionView, Fatal>,
    r: Result<Instruction, Fatal>,
) -> bool {
    match (expected, r) {
        (Ok(instruction), Ok(built)) => built@ == instruction,
        (Err(e), Err(f)) => e == f,
        _ => false,
    }
}

/// Makes the instruction of a cell from its parts, its opcode and the width
/// of its immediate operand.
pub fn build_instruction(parts: ParsedCell, code: u16, bits: usize) -> (r: Result<
    Instruction,
    Fatal,
>)
    ensures
        assembled_as(assemble(parts@, code, bits), r),
{
    let ghost raw = texts(parts.operands@);
    let mut operands: Vec<String> = Vec::new();
    let mut i: usize = 0;
    while i < parts.operands.len()
        invariant
            i <= parts.operands.len(),
            raw == texts(parts.operands@),
            operands.len() == i,
            i > 0 ==> regex_compiles(hex_pattern()),
            forall|j: int| 0 <= j < i ==> (#[trigger] operands@[j])@ == normalized(raw[j])->0,
        decreases parts.operands.len() - i,
    {
        match modify(parts.operands[i].as_str()) {
            Ok(operand) => {
                operands.push(operand);
            },
            Err(e) => {
                return Err(e);
            },
        }
        i += 1;
    }
    assert(texts(operands@) =~= normalized_operands(raw));
    let size = match parse_number(parts.size.as_str()) {
        Some(size) => size,
        None => {
            return Err(Fatal::BadSize);
        },
    };
    let time = match parse_time(parts.time.as_str()) {
        Ok(time) => time,
        Err(e) => {
            return Err(e);
        },
    };
    let operator = parts.operator.as_str().to_lowercase();
    Ok(
        Instruction {
            code,
            operator,
            operands,
            bits,
            size,
            time,
            z: parts.z,
            n: parts.n,
            h: parts.h,
            c: parts.c,
        },
    )
}

/// The background colour of a cell, or the empty text where it has none.
pub fn cell_color(cell: &Cell) -> (color: &str)
    ensures
        color@ == color_of(cell@),
{
    match &cell.bgcolor {
        Some(color) => color.as_str(),
        None => {
            proof {
                reveal_strlit("");
            }
            assert(""@ =~= Seq::<char>::empty());
            ""
        },
    }
}

/// Reads the cells of one table, row by row from its top left corner, and
/// returns its instructions in that order. `op_prefix` is the byte that
/// selects the table: 0 for the first, `0xCB` for the second. A cell whose
/// text is no instruction gives nothing. The first cell whose text is an
/// instruction with a field that cannot be decoded ends the walk with its
/// error.
pub fn parse_table(cells: &Vec<Cell>, op_prefix: u16) -> (r: Result<Vec<Instruction>, Fatal>)
    ensures
        walked_as(walk(cells_of(cells@), op_prefix), r),
{
    let ghost all = cells_of(cells@);
    let mut found: Vec<Instruction> = Vec::new();
    let mut pos = GridPos::origin();
    let mut i: usize = 0;
    assert(all.take(0) =~= Seq::<CellView>::empty());
    assert(instructions(found@) =~= Seq::<InstructionView>::empty());
    while i < cells.len()
        invariant
            i <= cells.len(),
            all == cells_of(cells@),
            pos == GridPos::of_index(i as nat),
            walk(all.take(i as int), op_prefix) == Ok::<Seq<InstructionView>, Fatal>(
                instructions(found@),
            ),
        decreases cells.len() - i,
    {
        let cell = &cells[i];
        let ghost before = instructions(found@);
        proof {
            lemma_next_of_index(i as nat);
            assert(all.take(i + 1).drop_last() =~= all.take(i as int));
            assert(all.take(i + 1).last() == cell@);
        }
        let (low, bits) = resolve(&pos, cell_color(cell));
        let code = with_prefix(op_prefix, low);
        pos.advance();
        match parse_cell(cell.text.as_str()) {
            None => {},
            Some(parts) => {
                match build_instruction(parts, code, bits) {
                    Ok(instruction) => {
                        found.push(instruction);
                        assert(instructions(found@) =~= before.push(instruction@));
                    },
                    Err(e) => {
                        proof {
                            lemma_walk_stays_failed(all, i + 1, op_prefix);
                        }
                        return Err(e);
                    },
                }
            },
        }
        i += 1;
    }
    assert(all.take(cells.len() as int) =~= all);
    Ok(found)
}

/// The instructions of the two tables of a page: those of the table without
/// a prefix first, then those of the table behind the prefix `0xCB`. Each
/// table is walked from its own top left corner. An error in the first
/// table comes before one in the second.
pub open spec fn walk_both(unprefixed: Seq<CellView>, prefixed: Seq<CellView>) -> Result<
    Seq<InstructionView>,
    Fatal,
> {
    match walk(unprefixed, 0) {
        Err(e) => Err(e),
        Ok(first) => match walk(prefixed, 0xCB) {
            Err(e) => Err(e),
            Ok(second) => Ok(first + second),
        },
    }
}

/// Reads the two tables of a page and returns their instructions, those of
/// the table without a prefix first. A page that lacks a table is read with
/// no cells in its place.
pub fn parse_tables(unprefixed: &Vec<Cell>, prefixed: &Vec<Cell>) -> (r: Result<
    Vec<Instruction>,
    Fatal,
>)
    ensures
        walked_as(walk_both(cells_of(unprefixed@), cells_of(prefixed@)), r),
{
    let mut found = match parse_table(unprefixed, 0) {
        Ok(found) => found,
        Err(e) => {
            return Err(e);
        },
    };
    let mut second = match parse_table(prefixed, 0xCB) {
        Ok(second) => second,
        Err(e) => {
            return Err(e);
        },
    };
    let ghost a = instructions(found@);
    let ghost b = instructions(second@);
    found.append(&mut second);
    assert(instructions(found@) =~= a + b);
    Ok(found)
}

/// A cell without text gives no instruction and no error, wherever it
/// stands.
pub proof fn lemma_empty_cell_is_skipped(cell: CellView, pos: GridPos, op_prefix: u16)
    requires
        cell.text.len() == 0,
    ensures
        cell_parts(cell.text) is None,
        cell_outcome(cell, pos, op_prefix) == Outcome::Skipped,
{
}

/// A cell whose text is no instruction leaves the walk as it was: the
/// instructions found before it stay, none is added, and the walk does not
/// end on it.
pub proof fn lemma_walk_passes_over(cells: Seq<CellView>, cell: CellView, op_prefix: u16)
    requires
        cell_parts(cell.text) is None,
    ensures
        walk(cells.push(cell), op_prefix) == walk(cells, op_prefix),
{
    assert(cells.push(cell).drop_last() =~= cells);
}

/// What holds of every instruction of a table: two operands at most, an
/// immediate operand of 0, 8 or 16 bits, one character for each flag, and
/// the prefix byte of the table as the high byte of the opcode.
pub open spec fn instruction_wf(instruction: InstructionView, op_prefix: u16) -> bool {
    &&& instruction.operands.len() <= 2
    &&& (instruction.bits == 0 || instruction.bits == 8 || instruction.bits == 16)
    &&& instruction.code / 256 == op_prefix % 256
    &&& instruction.z.len() == 1
    &&& instruction.n.len() == 1
    &&& instruction.h.len() == 1
    &&& instruction.c.len() == 1
}

/// Every instruction that a walk gives is well formed.
pub proof fn lemma_walk_gives_wf(cells: Seq<CellView>, op_prefix: u16, k: int)
    requires
        walk(cells, op_prefix) is Ok,
        0 <= k < walk(cells, op_prefix)->Ok_0.len(),
    ensures
        instruction_wf(walk(cells, op_prefix)->Ok_0[k], op_prefix),
    decreases cells.len(),
{
    let before = walk(cells.drop_last(), op_prefix)->Ok_0;
    if k < before.len() {
        lemma_walk_gives_wf(cells.drop_last(), op_prefix, k);
    }
}

/// The cells of the header row and of the header column, and those beyond
/// the sixteenth row of instructions, hold no instruction.
pub open spec fn headers_skipped(cells: Seq<CellView>) -> bool {
    forall|i: int|
        0 <= i < cells.len() && !GridPos::of_index(i as nat).is_data() ==> cell_parts(
            (#[trigger] cells[i]).text,
        ) is None
}

/// The number of instruction cells among the first `n` cells of a table.
pub open spec fn data_cells_before(n: nat) -> int {
    let x = n % COLUMNS as nat;
    let y = n / COLUMNS as nat;
    if y == 0 {
        0
    } else if y > 16 {
        256
    } else if x == 0 {
        (y - 1) * 16
    } else {
        (y - 1) * 16 + x - 1
    }
}

/// The opcodes of `found` go up from one instruction to the next.
pub open spec fn codes_ascend(found: Seq<InstructionView>) -> bool {
    forall|a: int, b: int| 0 <= a < b < found.len() ==> found[a].code < found[b].code
}

/// In a table whose headers hold no instruction, the opcodes go up from one
/// instruction to the next, and each has as its low byte the number of
/// instruction cells before its own.
proof fn lemma_codes_below(cells: Seq<CellView>, op_prefix: u16)
    requires
        cells.len() <= usize::MAX,
        headers_skipped(cells),
        walk(cells, op_prefix) is Ok,
    ensures
        codes_ascend(walk(cells, op_prefix)->Ok_0),
        forall|k: int|
            0 <= k < walk(cells, op_prefix)->Ok_0.len() ==> (#[trigger] walk(
                cells,
                op_prefix,
            )->Ok_0[k]).code < (op_prefix % 256) * 256 + data_cells_before(cells.len()),
    decreases cells.len(),
{
    if cells.len() > 0 {
        let rest = cells.drop_last();
        let n = (cells.len() - 1) as nat;
        assert forall|i: int|
            0 <= i < rest.len() && !GridPos::of_index(i as nat).is_data() implies cell_parts(
            (#[trigger] rest[i]).text,
        ) is None by {
            assert(rest[i] == cells[i]);
        }
        lemma_codes_below(rest, op_prefix);
        assert(cells.last() == cells[n as int]);
        assert(data_cells_before(n) <= data_cells_before(n + 1));
        if GridPos::of_index(n).is_data() {
            let pos = GridPos::of_index(n);
            assert(opcode_low(pos.x as int, pos.y as int) == data_cells_before(n));
            assert(data_cells_before(n + 1) == data_cells_before(n) + 1);
        }
    }
}

/// In a table whose headers hold no instruction, no two instructions have
/// the same opcode: the opcodes go up from one instruction to the next. The
/// table has no more cells than a vector can hold.
pub proof fn lemma_codes_ascend(cells: Seq<CellView>, op_prefix: u16)
    requires
        cells.len() <= usize::MAX,
        headers_skipped(cells),
        walk(cells, op_prefix) is Ok,
    ensures
        codes_ascend(walk(cells, op_prefix)->Ok_0),
{
    lemma_codes_below(cells, op_prefix);
}

/// Every instruction cell of the table holds an instruction.
pub open spec fn data_cells_filled(cells: Seq<CellView>) -> bool {
    forall|i: int|
        0 <= i < cells.len() && GridPos::of_index(i as nat).is_data() ==> cell_parts(
            (#[trigger] cells[i]).text,
        ) is Some
}

/// In a table whose headers hold no instruction and whose other cells all
/// hold one, the instructions are numbered as they come: the low byte of
/// the `k`-th instruction is `k`. A table of seventeen full rows so gives
/// the 256 opcodes from 0 to 255, each once.
pub proof fn lemma_full_table_counts_up(cells: Seq<CellView>, op_prefix: u16)
    requires
        cells.len() <= usize::MAX,
        headers_skipped(cells),
        data_cells_filled(cells),
        walk(cells, op_prefix) is Ok,
    ensures
        walk(cells, op_prefix)->Ok_0.len() == data_cells_before(cells.len()),
        forall|k: int|
            0 <= k < walk(cells, op_prefix)->Ok_0.len() ==> (#[trigger] walk(
                cells,
                op_prefix,
            )->Ok_0[k]).code == (op_prefix % 256) * 256 + k,
    decreases cells.len(),
{
    if cells.len() > 0 {
        let rest = cells.drop_last();
        let n = (cells.len() - 1) as nat;
        assert forall|i: int| 0 <= i < rest.len() implies (!GridPos::of_index(i as nat).is_data()
            ==> cell_parts((#[trigger] rest[i]).text) is None) && (GridPos::of_index(
            i as nat,
        ).is_data() ==> cell_parts(rest[i].text) is Some) by {
            assert(rest[i] == cells[i]);
        }
        lemma_full_table_counts_up(rest, op_prefix);
        assert(cells.last() == cells[n as int]);
        let pos = GridPos::of_index(n);
        if pos.is_data() {
            assert(opcode_low(pos.x as int, pos.y as int) == data_cells_before(n));
            assert(data_cells_before(n + 1) == data_cells_before(n) + 1);
        } else {
            assert(data_cells_before(n + 1) == data_cells_before(n));
        }
    }
}

/// On a page whose headers hold no instruction, no two instructions have the
/// same opcode, whichever of the two tables they come from.
pub proof fn lemma_all_codes_ascend(unprefixed: Seq<CellView>, prefixed: Seq<CellView>)
    requires
        unprefixed.len() <= usize::MAX,
        prefixed.len() <= usize::MAX,
        headers_skipped(unprefixed),
        headers_skipped(prefixed),
        walk_both(unprefixed, prefixed) is Ok,
    ensures
        codes_ascend(walk_both(unprefixed, prefixed)->Ok_0),
{
    let first = walk(unprefixed, 0)->Ok_0;
    let second = walk(prefixed, 0xCB)->Ok_0;
    let both = first + second;
    lemma_codes_below(unprefixed, 0);
    lemma_codes_below(prefixed, 0xCB);
    assert forall|a: int, b: int| 0 <= a < b < both.len() implies both[a].code
        < both[b].code by {
        if a < first.len() {
            assert(first[a].code < 256);
            if b >= first.len() {
                lemma_walk_gives_wf(prefixed, 0xCB, b - first.len());
            }
        }
    }
}

/// A walk that has failed after `n` cells has failed for good, with the
/// same error.
pub proof fn lemma_walk_stays_failed(cells: Seq<CellView>, n: int, op_prefix: u16)
    requires
        0 <= n <= cells.len(),
        walk(cells.take(n), op_prefix) is Err,
    ensures
        walk(cells, op_prefix) == walk(cells.take(n), op_prefix),
    decreases cells.len() - n,
{
    if n == cells.len() {
        assert(cells.take(n) =~= cells);
    } else {
        assert(cells.take(n + 1).drop_last() =~= cells.take(n));
        lemma_walk_stays_failed(cells, n + 1, op_prefix);
    }
}

} // verus!
