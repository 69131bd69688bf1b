//! The text of one cell, taken apart.
//!
//! A cell that describes an instruction holds four lines:
//!
//! ```text
//! LD (HL),d8      operator, then up to two operands
//! 2               size in bytes
//! 12              timing
//! - - - -         what becomes of the flags Z, N, H and C
//! ```
//!
//! The operator is a run of letters. One space parts it from the first
//! operand, one comma parts the operands. An operand is a run of letters,
//! digits, `+` and `-`, and may stand in parentheses. The size is a run of
//! digits. The timing is whatever the third line holds: it is decoded later,
//! and a cell of this shape with a timing that cannot be decoded is an
//! error, not a cell to pass over. A flag is one of the characters
//! `Z N H C 0 1 -`. Every other text is no instruction: headers, blank cells
//! and the cells of opcodes that do not exist.

use vstd::prelude::*;
use crate::number::is_digit;
use crate::text::{
    after, before, chars_of, cut, find_char, joined, lacks, lemma_cut_joined, lemma_cut_nowhere,
    lemma_joined_cut, string_of,
};

verus! {

/// The kinds of character that a token can be made of.
#[derive(Debug, Clone, Copy, PartialEq, Eq, Structural)]
pub enum CharClass {
    /// `A` to `Z` and `a` to `z`.
    Letter,
    /// `0` to `9`.
    Digit,
    /// Letters, digits, `+` and `-`.
    Operand,
    /// `Z`, `N`, `H`, `C`, `0`, `1` and `-`.
    Flag,
}

pub open spec fn is_letter(c: char) -> bool {
    'A' <= c <= 'Z' || 'a' <= c <= 'z'
}

impl CharClass {
    /// Whether `c` is a character of this kind.
    pub open spec fn admits(self, c: char) -> bool {
        match self {
            CharClass::Letter => is_letter(c),
            CharClass::Digit => is_digit(c),
            CharClass::Operand => is_letter(c) || is_digit(c) || c == '+' || c == '-',
            CharClass::Flag => c == 'Z' || c == 'N' || c == 'H' || c == 'C' || c == '0' || c
                == '1' || c == '-',
        }
    }

    /// Whether `c` is a character of this kind.
    pub fn holds(self, c: char) -> (r: bool)
        ensures
            r == self.admits(c),
    {
        let letter = ('A' <= c && c <= 'Z') || ('a' <= c && c <= 'z');
        let digit = '0' <= c && c <= '9';
        match self {
            CharClass::Letter => letter,
            CharClass::Digit => digit,
            CharClass::Operand => letter || digit || c == '+' || c == '-',
            CharClass::Flag => c == 'Z' || c == 'N' || c == 'H' || c == 'C' || c == '0' || c
                == '1' || c == '-',
        }
    }
}

/// One or more characters, all of the kind `class`.
pub open spec fn is_token(s: Seq<char>, class: CharClass) -> bool {
    s.len() > 0 && forall|i: int| 0 <= i < s.len() ==> class.admits(#[trigger] s[i])
}

/// An operand: a token of operand characters, bare or in parentheses.
pub open spec fn is_operand(s: Seq<char>) -> bool {
    is_token(s, CharClass::Operand) || (s.len() >= 2 && s.first() == '(' && s.last() == ')'
        && is_token(s.subrange(1, s.len() - 1), CharClass::Operand))
}

/// The parts of a cell that describes an instruction, as they stand in it.
pub struct Parts {
    pub operator: Seq<char>,
    pub operands: Seq<Seq<char>>,
    pub size: Seq<char>,
    pub time: Seq<char>,
    pub z: Seq<char>,
    pub n: Seq<char>,
    pub h: Seq<char>,
    pub c: Seq<char>,
}

/// The parts of a cell that describes an instruction, as they stand in it:
/// nothing is decoded yet, and the case of the letters is that of the cell.
#[derive(Debug, Clone, PartialEq, Eq)]
pub struct ParsedCell {
    pub operator: String,
    pub operands: Vec<String>,
    pub size: String,
    pub time: String,
    pub z: String,
    pub n: String,
    pub h: String,
    pub c: String,
}

/// The texts that a vector of strings holds.
pub open spec fn texts(v: Seq<String>) -> Seq<Seq<char>> {
    Seq::new(v.len(), |i: int| v[i]@)
}

impl View for ParsedCell {
    type V = Parts;

    open spec fn view(&self) -> Parts {
        Parts {
            operator: self.operator@,
            operands: texts(self.operands@),
            size: self.size@,
            time: self.time@,
            z: self.z@,
            n: self.n@,
            h: self.h@,
            c: self.c@,
        }
    }
}

/// The operator and the operands of a first line. The operator ends at the
/// first space, the first operand at the first comma behind it.
pub open spec fn mnemonic_parts(line: Seq<char>) -> Option<(Seq<char>, Seq<Seq<char>>)> {
    match cut(line, ' ') {
        None => if is_token(line, CharClass::Letter) {
            Some((line, Seq::empty()))
        } else {
            None
        },
        Some((operator, rest)) => if !is_token(operator, CharClass::Letter) {
            None
        } else {
            match cut(rest, ',') {
                None => if is_operand(rest) {
                    Some((operator, seq![rest]))
                } else {
                    None
                },
                Some((first, second)) => if is_operand(first) && is_operand(second) {
                    Some((operator, seq![first, second]))
                } else {
                    None
                },
            }
        },
    }
}

/// A line of four flags with one space between them.
pub open spec fn is_flags_line(line: Seq<char>) -> bool {
    &&& line.len() == 7
    &&& CharClass::Flag.admits(line[0])
    &&& line[1] == ' '
    &&& CharClass::Flag.admits(line[2])
    &&& line[3] == ' '
    &&& CharClass::Flag.admits(line[4])
    &&& line[5] == ' '
    &&& CharClass::Flag.admits(line[6])
}

/// The parts of the cell text `t`, or `None` where `t` is no instruction.
/// The first three line feeds end the first three lines; what follows them
/// is the line of the flags. The third line is the timing, whatever it
/// holds.
pub open spec fn cell_parts(t: Seq<char>) -> Option<Parts> {
    match cut(t, '\n') {
        None => None,
        Some((mnemonic, after_mnemonic)) => match cut(after_mnemonic, '\n') {
            None => None,
            Some((size, after_size)) => match cut(after_size, '\n') {
                None => None,
                Some((time, flags)) => match mnemonic_parts(mnemonic) {
                    None => None,
                    Some((operator, operands)) => if is_token(size, CharClass::Digit)
                        && is_flags_line(flags) {
                        Some(
                            Parts {
                                operator,
                                operands,
                                size,
                                time,
                                z: flags.subrange(0, 1),
                                n: flags.subrange(2, 3),
                                h: flags.subrange(4, 5),
                                c: flags.subrange(6, 7),
                            },
                        )
                    } else {
                        None
                    },
                },
            },
        },
    }
}

/// One flag: a single character out of `Z N H C 0 1 -`.
pub open spec fn is_flag(s: Seq<char>) -> bool {
    s.len() == 1 && CharClass::Flag.admits(s[0])
}

/// Parts such as a cell can hold.
pub open spec fn parts_wf(p: Parts) -> bool {
    &&& is_token(p.operator, CharClass::Letter)
    &&& p.operands.len() <= 2
    &&& forall|i: int| 0 <= i < p.operands.len() ==> is_operand(#[trigger] p.operands[i])
    &&& is_token(p.size, CharClass::Digit)
    &&& lacks(p.time, '\n')
    &&& is_flag(p.z)
    &&& is_flag(p.n)
    &&& is_flag(p.h)
    &&& is_flag(p.c)
}

/// The first line of a cell with the given operator and operands.
pub open spec fn mnemonic_text(operator: Seq<char>, operands: Seq<Seq<char>>) -> Seq<char> {
    if operands.len() == 0 {
        operator
    } else if operands.len() == 1 {
        joined(operator, ' ', operands[0])
    } else {
        joined(operator, ' ', joined(operands[0], ',', operands[1]))
    }
}

/// The last line of a cell with the given flags.
pub open spec fn flags_text(z: Seq<char>, n: Seq<char>, h: Seq<char>, c: Seq<char>) -> Seq<char> {
    joined(z, ' ', joined(n, ' ', joined(h, ' ', c)))
}

/// The text of the cell that holds the parts `p`: four lines, with a line
/// feed after each but the last.
pub open spec fn cell_text(p: Parts) -> Seq<char> {
    joined(
        mnemonic_text(p.operator, p.operands),
        '\n',
        joined(p.size, '\n', joined(p.time, '\n', flags_text(p.z, p.n, p.h, p.c))),
    )
}

/// A token holds no character that is not of its kind.
pub proof fn lemma_token_lacks(s: Seq<char>, class: CharClass, c: char)
    requires
        is_token(s, class),
        !class.admits(c),
    ensures
        lacks(s, c),
{
}

/// An operand holds neither a space nor a comma nor a line feed.
pub proof fn lemma_operand_lacks(s: Seq<char>, c: char)
    requires
        is_operand(s),
        c == ' ' || c == ',' || c == '\n',
    ensures
        lacks(s, c),
{
    if !is_token(s, CharClass::Operand) {
        let inner = s.subrange(1, s.len() - 1);
        assert forall|i: int| 0 <= i < s.len() implies s[i] != c by {
            if 0 < i < s.len() - 1 {
                assert(s[i] == inner[i - 1]);
            }
        }
    }
}

/// The first line of well-formed parts is read back as its operator and its
/// operands, and holds no line feed.
pub proof fn lemma_mnemonic_text_is_read(operator: Seq<char>, operands: Seq<Seq<char>>)
    requires
        is_token(operator, CharClass::Letter),
        operands.len() <= 2,
        forall|i: int| 0 <= i < operands.len() ==> is_operand(#[trigger] operands[i]),
    ensures
        mnemonic_parts(mnemonic_text(operator, operands)) == Some((operator, operands)),
        lacks(mnemonic_text(operator, operands), '\n'),
{
    let line = mnemonic_text(operator, operands);
    lemma_token_lacks(operator, CharClass::Letter, ' ');
    lemma_token_lacks(operator, CharClass::Letter, '\n');
    if operands.len() == 0 {
        lemma_cut_nowhere(operator, ' ');
        assert(operands =~= Seq::<Seq<char>>::empty());
    } else if operands.len() == 1 {
        let first = operands[0];
        lemma_operand_lacks(first, ',');
        lemma_operand_lacks(first, '\n');
        lemma_cut_joined(operator, ' ', first);
        lemma_cut_nowhere(first, ',');
        assert(operands =~= seq![first]);
    } else {
        let first = operands[0];
        let second = operands[1];
        lemma_operand_lacks(first, ',');
        lemma_operand_lacks(first, '\n');
        lemma_operand_lacks(second, '\n');
        lemma_cut_joined(operator, ' ', joined(first, ',', second));
        lemma_cut_joined(first, ',', second);
        assert(operands =~= seq![first, second]);
    }
}

/// The text of well-formed parts is an instruction, and taking it apart
/// gives the parts back.
pub proof fn lemma_cell_text_is_read(p: Parts)
    requires
        parts_wf(p),
    ensures
        cell_parts(cell_text(p)) == Some(p),
{
    let mnemonic = mnemonic_text(p.operator, p.operands);
    let flags = flags_text(p.z, p.n, p.h, p.c);
    let after_size = joined(p.time, '\n', flags);
    let after_mnemonic = joined(p.size, '\n', after_size);
    lemma_mnemonic_text_is_read(p.operator, p.operands);
    lemma_token_lacks(p.size, CharClass::Digit, '\n');
    lemma_cut_joined(mnemonic, '\n', after_mnemonic);
    lemma_cut_joined(p.size, '\n', after_size);
    lemma_cut_joined(p.time, '\n', flags);
    assert(is_flags_line(flags));
    assert(flags.subrange(0, 1) =~= p.z);
    assert(flags.subrange(2, 3) =~= p.n);
    assert(flags.subrange(4, 5) =~= p.h);
    assert(flags.subrange(6, 7) =~= p.c);
}

/// What a first line is taken apart into is an operator and at most two
/// operands, and these make up the line.
pub proof fn lemma_mnemonic_parts_make_line(line: Seq<char>)
    requires
        mnemonic_parts(line) is Some,
    ensures
        ({
            let (operator, operands) = mnemonic_parts(line)->0;
            &&& is_token(operator, CharClass::Letter)
            &&& operands.len() <= 2
            &&& forall|i: int| 0 <= i < operands.len() ==> is_operand(#[trigger] operands[i])
            &&& mnemonic_text(operator, operands) == line
        }),
{
    if cut(line, ' ') is Some {
        lemma_joined_cut(line, ' ');
        let rest = after(line, ' ');
        if cut(rest, ',') is Some {
            lemma_joined_cut(rest, ',');
        }
    }
}

/// Only the text of well-formed parts is an instruction: what a text is
/// taken apart into is well formed, and the text is the text of these parts.
pub proof fn lemma_cell_parts_make_text(t: Seq<char>)
    requires
        cell_parts(t) is Some,
    ensures
        parts_wf(cell_parts(t)->0),
        cell_text(cell_parts(t)->0) == t,
{
    lemma_joined_cut(t, '\n');
    let after_mnemonic = after(t, '\n');
    lemma_joined_cut(after_mnemonic, '\n');
    let after_size = after(after_mnemonic, '\n');
    lemma_joined_cut(after_size, '\n');
    let flags = after(after_size, '\n');
    lemma_mnemonic_parts_make_line(before(t, '\n'));
    let p = cell_parts(t)->0;
    assert(flags_text(p.z, p.n, p.h, p.c) =~= flags);
}

/// Two well-formed sets of parts with the same text are the same.
pub proof fn lemma_cell_text_is_unambiguous(p: Parts, q: Parts)
    requires
        parts_wf(p),
        parts_wf(q),
        cell_text(p) == cell_text(q),
    ensures
        p == q,
{
    lemma_cell_text_is_read(p);
    lemma_cell_text_is_read(q);
}

/// Whether `v[from..to]` is a token of the kind `class`.
pub fn check_token(v: &Vec<char>, from: usize, to: usize, class: CharClass) -> (r: bool)
    requires
        from <= to <= v.len(),
    ensures
        r == is_token(v@.subrange(from as int, to as int), class),
{
    let ghost s = v@.subrange(from as int, to as int);
    if from == to {
        return false;
    }
    let mut i: usize = from;
    while i < to
        invariant
            from <= i <= to <= v.len(),
            s == v@.subrange(from as int, to as int),
            forall|j: int| 0 <= j < i - from ==> class.admits(#[trigger] s[j]),
        decreases to - i,
    {
        if !class.holds(v[i]) {
            assert(!class.admits(s[i - from]));
            return false;
        }
        i += 1;
    }
    true
}

/// Whether `v[from..to]` is an operand.
pub fn check_operand(v: &Vec<char>, from: usize, to: usize) -> (r: bool)
    requires
        from <= to <= v.len(),
    ensures
        r == is_operand(v@.subrange(from as int, to as int)),
{
    let ghost s = v@.subrange(from as int, to as int);
    if check_token(v, from, to, CharClass::Operand) {
        return true;
    }
    if to - from >= 2 && v[from] == '(' && v[to - 1] == ')' {
        assert(s.subrange(1, s.len() - 1) =~= v@.subrange(from + 1, to - 1));
        check_token(v, from + 1, to - 1, CharClass::Operand)
    } else {
        false
    }
}

/// What `parse_mnemonic` answers for a line with the operator and operands
/// `p`.
pub open spec fn mnemonic_as(
    p: Option<(Seq<char>, Seq<Seq<char>>)>,
    r: Option<(String, Vec<String>)>,
) -> bool {
    match (p, r) {
        (Some((operator, operands)), Some((found, found_operands))) => found@ == operator
            && texts(found_operands@) == operands,
        (None, None) => true,
        _ => false,
    }
}

/// Reads the first line of a cell, which stands in `v[from..to]`.
pub fn parse_mnemonic(v: &Vec<char>, from: usize, to: usize) -> (r: Option<(String, Vec<String>)>)
    requires
        from <= to <= v.len(),
    ensures
        mnemonic_as(mnemonic_parts(v@.subrange(from as int, to as int)), r),
{
    let ghost line = v@.subrange(from as int, to as int);
    let space = find_char(v, from, to, ' ');
    if space >= to {
        if check_token(v, from, to, CharClass::Letter) {
            let operands: Vec<String> = Vec::new();
            assert(texts(operands@) =~= Seq::<Seq<char>>::empty());
            return Some((string_of(v, from, to), operands));
        } else {
            return None;
        }
    }
    let ghost rest = line.skip(space - from + 1);
    assert(line.take(space - from) =~= v@.subrange(from as int, space as int));
    assert(rest =~= v@.subrange(space + 1, to as int));
    if !check_token(v, from, space, CharClass::Letter) {
        return None;
    }
    let operator = string_of(v, from, space);
    let comma = find_char(v, space + 1, to, ',');
    let mut operands: Vec<String> = Vec::new();
    if comma >= to {
        if !check_operand(v, space + 1, to) {
            return None;
        }
        operands.push(string_of(v, space + 1, to));
        assert(texts(operands@) =~= seq![rest]);
    } else {
        assert(rest.take(comma - space - 1) =~= v@.subrange(space + 1, comma as int));
        assert(rest.skip(comma - space) =~= v@.subrange(comma + 1, to as int));
        if !check_operand(v, space + 1, comma) || !check_operand(v, comma + 1, to) {
            return None;
        }
        operands.push(string_of(v, space + 1, comma));
        operands.push(string_of(v, comma + 1, to));
        assert(texts(operands@) =~= seq![
            v@.subrange(space + 1, comma as int),
            v@.subrange(comma + 1, to as int),
        ]);
    }
    Some((operator, operands))
}

/// Whether `v[from..to]` is a line of four flags.
pub fn check_flags(v: &Vec<char>, from: usize, to: usize) -> (r: bool)
    requires
        from <= to <= v.len(),
    ensures
        r == is_flags_line(v@.subrange(from as int, to as int)),
{
    if to - from != 7 {
        return false;
    }
    let flag = CharClass::Flag;
    flag.holds(v[from]) && v[from + 1] == ' ' && flag.holds(v[from + 2]) && v[from + 3] == ' '
        && flag.holds(v[from + 4]) && v[from + 5] == ' ' && flag.holds(v[from + 6])
}

/// What `parse_cell` answers for a text with the parts `p`.
pub open spec fn parsed_as(p: Option<Parts>, r: Option<ParsedCell>) -> bool {
    match p {
        Some(p) => r is Some && r->0@ == p,
        None => r is None,
    }
}

/// Takes the text of a cell apart. `None` where the text is no instruction.
pub fn parse_cell(text: &str) -> (r: Option<ParsedCell>)
    ensures
        parsed_as(cell_parts(text@), r),
{
    let v = chars_of(text);
    let end = v.len();
    let ghost t = v@;
    let first = find_char(&v, 0, end, '\n');
    assert(t.subrange(0, end as int) =~= t);
    if first >= end {
        return None;
    }
    let ghost after_mnemonic = t.skip(first + 1);
    assert(t.take(first as int) =~= t.subrange(0, first as int));
    assert(after_mnemonic =~= t.subrange(first + 1, end as int));
    let second = find_char(&v, first + 1, end, '\n');
    if second >= end {
        return None;
    }
    let ghost after_size = after_mnemonic.skip(second - first);
    assert(after_mnemonic.take(second - first - 1) =~= t.subrange(first + 1, second as int));
    assert(after_size =~= t.subrange(second + 1, end as int));
    let third = find_char(&v, second + 1, end, '\n');
    if third >= end {
        return None;
    }
    let ghost flags = after_size.skip(third - second);
    assert(after_size.take(third - second - 1) =~= t.subrange(second + 1, third as int));
    assert(flags =~= t.subrange(third + 1, end as int));
    let mnemonic = parse_mnemonic(&v, 0, first);
    match mnemonic {
        None => None,
        Some((operator, operands)) => {
            if check_token(&v, first + 1, second, CharClass::Digit) && check_flags(
                &v,
                third + 1,
                end,
            ) {
                assert(flags.subrange(0, 1) =~= t.subrange(third + 1, third + 2));
                assert(flags.subrange(2, 3) =~= t.subrange(third + 3, third + 4));
                assert(flags.subrange(4, 5) =~= t.subrange(third + 5, third + 6));
                assert(flags.subrange(6, 7) =~= t.subrange(third + 7, third + 8));
                Some(
                    ParsedCell {
                        operator,
                        operands,
                        size: string_of(&v, first + 1, second),
                        time: string_of(&v, second + 1, third),
                        z: string_of(&v, third + 1, third + 2),
                        n: string_of(&v, third + 3, third + 4),
                        h: string_of(&v, third + 5, third + 6),
                        c: string_of(&v, third + 7, third + 8),
                    },
                )
            } else {
                None
            }
        },
    }
}

} // verus!
