use opcode_table::fatal::Fatal;
use opcode_table::grammar::ParsedCell;
use opcode_table::table::{
    build_instruction, cell_color, parse_table, parse_tables, Cell, Instruction,
};
use opcode_table::time::Time;

fn cell(bgcolor: Option<&str>, text: &str) -> Cell {
    Cell { bgcolor: bgcolor.map(|c| c.to_string()), text: text.to_string() }
}

fn blank() -> Cell {
    cell(None, "")
}

/// A table of `rows` rows of blank cells, with the given cells put at their
/// column and row.
fn table(rows: usize, filled: &[(usize, usize, Cell)]) -> Vec<Cell> {
    let mut cells: Vec<Cell> = (0..rows * 17).map(|_| blank()).collect();
    for (x, y, c) in filled {
        cells[y * 17 + x] = c.clone();
    }
    cells
}

fn instruction(
    code: u16,
    operator: &str,
    operands: &[&str],
    bits: usize,
    size: usize,
    time: Time,
    flags: [&str; 4],
) -> Instruction {
    Instruction {
        code,
        operator: operator.to_string(),
        operands: operands.iter().map(|s| s.to_string()).collect(),
        bits,
        size,
        time,
        z: flags[0].to_string(),
        n: flags[1].to_string(),
        h: flags[2].to_string(),
        c: flags[3].to_string(),
    }
}

#[test]
fn single_data_cell_gives_one_instruction() {
    let cells = table(2, &[(1, 1, cell(Some("#ccccff"), "LD A,d8\n2\n8\nZ N H C"))]);
    let found = parse_table(&cells, 0).unwrap();
    assert_eq!(
        found,
        vec![instruction(0x00, "ld", &["a", "n"], 8, 2, Time::One(8), ["Z", "N", "H", "C"])]
    );
}

#[test]
fn table_that_ends_with_its_only_data_cell() {
    let mut cells: Vec<Cell> = (0..18).map(|_| blank()).collect();
    cells.push(cell(Some("#ccccff"), "LD A,d8\n2\n8\nZ N H C"));
    let found = parse_table(&cells, 0).unwrap();
    assert_eq!(found.len(), 1);
    assert_eq!(found[0].code, 0x00);
    assert_eq!(found[0].operator, "ld");
    assert_eq!(found[0].operands, vec!["a".to_string(), "n".to_string()]);
    assert_eq!(found[0].bits, 8);
    assert_eq!(found[0].size, 2);
    assert_eq!(found[0].time, Time::One(8));
    assert_eq!(found[0].z, "Z");
    assert_eq!(found[0].n, "N");
    assert_eq!(found[0].h, "H");
    assert_eq!(found[0].c, "C");
}

#[test]
fn empty_table_gives_nothing() {
    assert_eq!(parse_table(&Vec::new(), 0), Ok(Vec::new()));
}

#[test]
fn empty_cells_give_nothing_at_any_position() {
    for n in [1usize, 16, 17, 18, 34, 289, 300] {
        let cells: Vec<Cell> = (0..n).map(|_| blank()).collect();
        assert_eq!(parse_table(&cells, 0), Ok(Vec::new()));
        assert_eq!(parse_table(&cells, 0xcb), Ok(Vec::new()));
    }
}

#[test]
fn empty_cell_between_instructions_does_not_end_the_walk() {
    let cells = table(
        2,
        &[
            (1, 1, cell(Some("#ff99cc"), "NOP\n1\n4\n- - - -")),
            (2, 1, cell(None, "")),
            (3, 1, cell(Some("#ccffcc"), "LD BC,d16\n3\n12\n- - - -")),
        ],
    );
    let found = parse_table(&cells, 0).unwrap();
    assert_eq!(
        found,
        vec![
            instruction(0x00, "nop", &[], 0, 1, Time::One(4), ["-", "-", "-", "-"]),
            instruction(0x02, "ld", &["bc", "nn"], 16, 3, Time::One(12), ["-", "-", "-", "-"]),
        ]
    );
}

#[test]
fn opcode_follows_the_position() {
    let cells = table(
        17,
        &[
            (16, 1, cell(None, "RRCA\n1\n4\n0 0 0 C")),
            (1, 2, cell(None, "STOP 0\n2\n4\n- - - -")),
            (4, 13, cell(Some("#ffcccc"), "JP a16\n3\n16\n- - - -")),
            (16, 16, cell(None, "RST 38H\n1\n16\n- - - -")),
        ],
    );
    let found = parse_table(&cells, 0).unwrap();
    assert_eq!(
        found,
        vec![
            instruction(0x0f, "rrca", &[], 0, 1, Time::One(4), ["0", "0", "0", "C"]),
            instruction(0x10, "stop", &["0"], 0, 2, Time::One(4), ["-", "-", "-", "-"]),
            instruction(0xc3, "jp", &["nn"], 16, 3, Time::One(16), ["-", "-", "-", "-"]),
            instruction(0xff, "rst", &["0x38"], 0, 1, Time::One(16), ["-", "-", "-", "-"]),
        ]
    );
}

#[test]
fn full_grid_gives_every_opcode_once() {
    let mut cells: Vec<Cell> = Vec::new();
    for y in 0..17 {
        for x in 0..17 {
            if x == 0 || y == 0 {
                cells.push(cell(None, "x"));
            } else {
                cells.push(cell(Some("#ff99cc"), "NOP\n1\n4\n- - - -"));
            }
        }
    }
    let found = parse_table(&cells, 0xcb).unwrap();
    assert_eq!(found.len(), 256);
    for (k, i) in found.iter().enumerate() {
        assert_eq!(i.code as usize, 0xcb00 + k);
    }
}

#[test]
fn width_comes_from_the_colour_alone() {
    let cells = table(
        2,
        &[
            (1, 1, cell(Some("#ccffcc"), "NOP\n1\n4\n- - - -")),
            (2, 1, cell(Some("#123456"), "LD A,d8\n2\n8\n- - - -")),
            (3, 1, cell(None, "LD BC,d16\n3\n12\n- - - -")),
            (4, 1, cell(Some("#80ffff"), "LD BC,d16\n3\n12\n- - - -")),
        ],
    );
    let found = parse_table(&cells, 0).unwrap();
    let bits: Vec<usize> = found.iter().map(|i| i.bits).collect();
    assert_eq!(bits, vec![16, 0, 0, 8]);
}

#[test]
fn conditional_instruction_has_two_timings() {
    let cells = table(3, &[(1, 2, cell(Some("#ffff99"), "JR NZ,r8\n2\n12/8\n- - - -"))]);
    let found = parse_table(&cells, 0).unwrap();
    assert_eq!(
        found,
        vec![instruction(0x10, "jr", &["nz", "n"], 8, 2, Time::Two(12, 8), ["-", "-", "-", "-"])]
    );
}

#[test]
fn header_cell_that_reads_as_an_instruction_is_taken() {
    let cells = vec![cell(None, "NOP\n1\n4\n- - - -")];
    let found = parse_table(&cells, 0).unwrap();
    assert_eq!(found.len(), 1);
    assert_eq!(found[0].code, 0x00ff);
}

#[test]
fn malformed_timing_ends_the_walk() {
    let cells = table(
        2,
        &[
            (1, 1, cell(None, "NOP\n1\n4\n- - - -")),
            (2, 1, cell(None, "JR NZ,r8\n2\n8/12/16\n- - - -")),
            (3, 1, cell(None, "NOP\n1\n4\n- - - -")),
        ],
    );
    assert_eq!(parse_table(&cells, 0), Err(Fatal::BadTime));
}

#[test]
fn timing_that_is_no_number_ends_the_walk() {
    for timing in ["x/y", "x", "", "4 ", "four"] {
        let text = format!("NOP\n1\n{}\n- - - -", timing);
        let cells = table(2, &[(1, 1, cell(None, &text))]);
        assert_eq!(parse_table(&cells, 0), Err(Fatal::BadTime), "timing {:?}", timing);
    }
}

#[test]
fn timing_without_second_number_ends_the_walk() {
    let cells = table(2, &[(1, 1, cell(None, "JR NZ,r8\n2\n8/\n- - - -"))]);
    assert_eq!(parse_table(&cells, 0), Err(Fatal::BadTime));
}

#[test]
fn size_that_does_not_fit_ends_the_walk() {
    let cells = table(
        2,
        &[(1, 1, cell(None, "NOP\n99999999999999999999999999\n4\n- - - -"))],
    );
    assert_eq!(parse_table(&cells, 0), Err(Fatal::BadSize));
}

#[test]
fn size_is_decoded_before_the_timing() {
    let cells = table(
        2,
        &[(1, 1, cell(None, "NOP\n99999999999999999999999999\n4/\n- - - -"))],
    );
    assert_eq!(parse_table(&cells, 0), Err(Fatal::BadSize));
}

#[test]
fn first_failing_cell_decides_the_error() {
    let cells = table(
        2,
        &[
            (1, 1, cell(None, "NOP\n1\n/\n- - - -")),
            (2, 1, cell(None, "NOP\n99999999999999999999999999\n4\n- - - -")),
        ],
    );
    assert_eq!(parse_table(&cells, 0), Err(Fatal::BadTime));
}

#[test]
fn both_tables_are_joined_unprefixed_first() {
    let first = table(2, &[(1, 1, cell(None, "NOP\n1\n4\n- - - -"))]);
    let second = table(2, &[(1, 1, cell(None, "RLC B\n2\n8\nZ 0 0 C"))]);
    let found = parse_tables(&first, &second).unwrap();
    assert_eq!(
        found,
        vec![
            instruction(0x0000, "nop", &[], 0, 1, Time::One(4), ["-", "-", "-", "-"]),
            instruction(0xcb00, "rlc", &["b"], 0, 2, Time::One(8), ["Z", "0", "0", "C"]),
        ]
    );
}

#[test]
fn each_table_starts_in_its_own_corner() {
    let first = table(3, &[(5, 2, cell(None, "NOP\n1\n4\n- - - -"))]);
    let second = table(2, &[(2, 1, cell(None, "RLC C\n2\n8\nZ 0 0 C"))]);
    let found = parse_tables(&first, &second).unwrap();
    let codes: Vec<u16> = found.iter().map(|i| i.code).collect();
    assert_eq!(codes, vec![0x0014, 0xcb01]);
}

#[test]
fn missing_tables_give_nothing() {
    assert_eq!(parse_tables(&Vec::new(), &Vec::new()), Ok(Vec::new()));
    let first = table(2, &[(1, 1, cell(None, "NOP\n1\n4\n- - - -"))]);
    assert_eq!(parse_tables(&first, &Vec::new()).unwrap().len(), 1);
}

#[test]
fn error_in_either_table_ends_the_extraction() {
    let good = table(2, &[(1, 1, cell(None, "NOP\n1\n4\n- - - -"))]);
    let bad_time = table(2, &[(1, 1, cell(None, "NOP\n1\n/\n- - - -"))]);
    let bad_size = table(
        2,
        &[(1, 1, cell(None, "NOP\n99999999999999999999999999\n4\n- - - -"))],
    );
    assert_eq!(parse_tables(&bad_time, &good), Err(Fatal::BadTime));
    assert_eq!(parse_tables(&good, &bad_size), Err(Fatal::BadSize));
    assert_eq!(parse_tables(&bad_time, &bad_size), Err(Fatal::BadTime));
}

#[test]
fn instruction_is_built_from_its_parts() {
    let parts = ParsedCell {
        operator: "LDH".to_string(),
        operands: vec!["(a8)".to_string(), "A".to_string()],
        size: "2".to_string(),
        time: "12".to_string(),
        z: "-".to_string(),
        n: "-".to_string(),
        h: "-".to_string(),
        c: "-".to_string(),
    };
    assert_eq!(
        build_instruction(parts, 0xe0, 8),
        Ok(instruction(0xe0, "ldh", &["(n)", "a"], 8, 2, Time::One(12), ["-", "-", "-", "-"]))
    );
}

#[test]
fn parts_with_a_bad_field_build_nothing() {
    let parts = ParsedCell {
        operator: "NOP".to_string(),
        operands: Vec::new(),
        size: "one".to_string(),
        time: "4".to_string(),
        z: "-".to_string(),
        n: "-".to_string(),
        h: "-".to_string(),
        c: "-".to_string(),
    };
    assert_eq!(build_instruction(parts.clone(), 0, 0), Err(Fatal::BadSize));
    let parts = ParsedCell { size: "1".to_string(), time: "x/y".to_string(), ..parts };
    assert_eq!(build_instruction(parts, 0, 0), Err(Fatal::BadTime));
}

#[test]
fn cell_without_colour_has_the_empty_colour() {
    assert_eq!(cell_color(&cell(None, "x")), "");
    assert_eq!(cell_color(&cell(Some("#ccccff"), "x")), "#ccccff");
}
