use opcode_table::grammar::{
    check_flags, check_operand, check_token, parse_cell, parse_mnemonic, CharClass, ParsedCell,
};

fn parts(
    operator: &str,
    operands: &[&str],
    size: &str,
    time: &str,
    flags: [&str; 4],
) -> ParsedCell {
    ParsedCell {
        operator: operator.to_string(),
        operands: operands.iter().map(|s| s.to_string()).collect(),
        size: size.to_string(),
        time: time.to_string(),
        z: flags[0].to_string(),
        n: flags[1].to_string(),
        h: flags[2].to_string(),
        c: flags[3].to_string(),
    }
}

#[test]
fn instruction_with_two_operands() {
    assert_eq!(
        parse_cell("LD A,d8\n2\n8\nZ N H C"),
        Some(parts("LD", &["A", "d8"], "2", "8", ["Z", "N", "H", "C"]))
    );
}

#[test]
fn instruction_with_indirect_operand() {
    assert_eq!(
        parse_cell("LD (HL),d8\n12\n8\nZ N H C"),
        Some(parts("LD", &["(HL)", "d8"], "12", "8", ["Z", "N", "H", "C"]))
    );
    assert_eq!(
        parse_cell("LD (HL+),A\n1\n8\n- - - -"),
        Some(parts("LD", &["(HL+)", "A"], "1", "8", ["-", "-", "-", "-"]))
    );
}

#[test]
fn instruction_with_one_operand() {
    assert_eq!(
        parse_cell("INC BC\n1\n8\n- - - -"),
        Some(parts("INC", &["BC"], "1", "8", ["-", "-", "-", "-"]))
    );
    assert_eq!(
        parse_cell("RST 00H\n1\n16\n- - - -"),
        Some(parts("RST", &["00H"], "1", "16", ["-", "-", "-", "-"]))
    );
}

#[test]
fn instruction_without_operands() {
    assert_eq!(
        parse_cell("NOP\n1\n4\n- - - -"),
        Some(parts("NOP", &[], "1", "4", ["-", "-", "-", "-"]))
    );
}

#[test]
fn instruction_with_two_timings() {
    assert_eq!(
        parse_cell("JR NZ,r8\n2\n12/8\n- - - -"),
        Some(parts("JR", &["NZ", "r8"], "2", "12/8", ["-", "-", "-", "-"]))
    );
}

#[test]
fn flags_keep_their_order() {
    assert_eq!(
        parse_cell("ADD HL,BC\n1\n8\n- 0 H C"),
        Some(parts("ADD", &["HL", "BC"], "1", "8", ["-", "0", "H", "C"]))
    );
    assert_eq!(
        parse_cell("SCF\n1\n4\n- 0 0 1"),
        Some(parts("SCF", &[], "1", "4", ["-", "0", "0", "1"]))
    );
}

#[test]
fn case_is_left_as_it_stands() {
    assert_eq!(
        parse_cell("ld a,D8\n2\n8\nZ N H C"),
        Some(parts("ld", &["a", "D8"], "2", "8", ["Z", "N", "H", "C"]))
    );
}

#[test]
fn malformed_timing_still_has_the_shape() {
    assert_eq!(
        parse_cell("JR NZ,r8\n2\n8/12/16\n- - - -"),
        Some(parts("JR", &["NZ", "r8"], "2", "8/12/16", ["-", "-", "-", "-"]))
    );
}

#[test]
fn empty_text_is_no_instruction() {
    assert_eq!(parse_cell(""), None);
}

#[test]
fn header_text_is_no_instruction() {
    assert_eq!(parse_cell("x0"), None);
    assert_eq!(parse_cell("0x"), None);
    assert_eq!(parse_cell("\u{a0}"), None);
    assert_eq!(parse_cell(" "), None);
}

#[test]
fn missing_lines_are_no_instruction() {
    assert_eq!(parse_cell("NOP"), None);
    assert_eq!(parse_cell("NOP\n1"), None);
    assert_eq!(parse_cell("NOP\n1\n4"), None);
    assert_eq!(parse_cell("NOP\n1\n4\n"), None);
}

#[test]
fn extra_lines_are_no_instruction() {
    assert_eq!(parse_cell("NOP\n1\n4\n- - - -\n"), None);
    assert_eq!(parse_cell("\nNOP\n1\n4\n- - - -"), None);
    assert_eq!(parse_cell("NOP\n\n1\n4\n- - - -"), None);
}

#[test]
fn bad_operator_is_no_instruction() {
    assert_eq!(parse_cell("\n1\n4\n- - - -"), None);
    assert_eq!(parse_cell("N0P\n1\n4\n- - - -"), None);
    assert_eq!(parse_cell(" NOP\n1\n4\n- - - -"), None);
    assert_eq!(parse_cell("NOP \n1\n4\n- - - -"), None);
}

#[test]
fn bad_operands_are_no_instruction() {
    assert_eq!(parse_cell("LD A,\n2\n8\n- - - -"), None);
    assert_eq!(parse_cell("LD ,A\n2\n8\n- - - -"), None);
    assert_eq!(parse_cell("LD A,B,C\n2\n8\n- - - -"), None);
    assert_eq!(parse_cell("LD A, B\n2\n8\n- - - -"), None);
    assert_eq!(parse_cell("LD  A\n2\n8\n- - - -"), None);
    assert_eq!(parse_cell("LD (HL\n2\n8\n- - - -"), None);
    assert_eq!(parse_cell("LD HL)\n2\n8\n- - - -"), None);
    assert_eq!(parse_cell("LD ()\n2\n8\n- - - -"), None);
    assert_eq!(parse_cell("LD (\n2\n8\n- - - -"), None);
    assert_eq!(parse_cell("LD ((HL))\n2\n8\n- - - -"), None);
    assert_eq!(parse_cell("LD A B\n2\n8\n- - - -"), None);
}

#[test]
fn bad_size_is_no_instruction() {
    assert_eq!(parse_cell("NOP\n\n4\n- - - -"), None);
    assert_eq!(parse_cell("NOP\none\n4\n- - - -"), None);
    assert_eq!(parse_cell("NOP\n+1\n4\n- - - -"), None);
    assert_eq!(parse_cell("NOP\n1 \n4\n- - - -"), None);
}

#[test]
fn timing_is_taken_as_it_stands() {
    assert_eq!(
        parse_cell("NOP\n1\nx/y\n- - - -"),
        Some(parts("NOP", &[], "1", "x/y", ["-", "-", "-", "-"]))
    );
    assert_eq!(
        parse_cell("NOP\n1\n4 \n- - - -"),
        Some(parts("NOP", &[], "1", "4 ", ["-", "-", "-", "-"]))
    );
    assert_eq!(
        parse_cell("NOP\n1\n\n- - - -"),
        Some(parts("NOP", &[], "1", "", ["-", "-", "-", "-"]))
    );
}

#[test]
fn bad_flags_are_no_instruction() {
    assert_eq!(parse_cell("NOP\n1\n4\n- - -"), None);
    assert_eq!(parse_cell("NOP\n1\n4\n- - - - -"), None);
    assert_eq!(parse_cell("NOP\n1\n4\n----"), None);
    assert_eq!(parse_cell("NOP\n1\n4\n-  - - -"), None);
    assert_eq!(parse_cell("NOP\n1\n4\n- - - X"), None);
    assert_eq!(parse_cell("NOP\n1\n4\n- - - - "), None);
    assert_eq!(parse_cell("NOP\n1\n4\nz n h c"), None);
}

#[test]
fn text_beyond_ascii_is_no_instruction() {
    assert_eq!(parse_cell("N\u{d6}P\n1\n4\n- - - -"), None);
    assert_eq!(parse_cell("NOP\n\u{661}\n4\n- - - -"), None);
}

#[test]
fn number_of_size_digits_is_not_limited() {
    assert_eq!(
        parse_cell("NOP\n99999999999999999999999999\n4\n- - - -"),
        Some(parts("NOP", &[], "99999999999999999999999999", "4", ["-", "-", "-", "-"]))
    );
}

fn chars(s: &str) -> Vec<char> {
    s.chars().collect()
}

#[test]
fn characters_are_sorted_into_kinds() {
    assert!(CharClass::Letter.holds('A') && CharClass::Letter.holds('z'));
    assert!(!CharClass::Letter.holds('0') && !CharClass::Letter.holds('\u{e9}'));
    assert!(CharClass::Digit.holds('0') && CharClass::Digit.holds('9'));
    assert!(!CharClass::Digit.holds('a') && !CharClass::Digit.holds('/'));
    for c in ['H', 'l', '7', '+', '-'] {
        assert!(CharClass::Operand.holds(c));
    }
    for c in ['(', ')', ',', ' ', '\n', '_'] {
        assert!(!CharClass::Operand.holds(c));
    }
    for c in ['Z', 'N', 'H', 'C', '0', '1', '-'] {
        assert!(CharClass::Flag.holds(c));
    }
    for c in ['z', '2', ' ', 'X'] {
        assert!(!CharClass::Flag.holds(c));
    }
}

#[test]
fn tokens_are_checked_within_their_range() {
    let v = chars("LD 12");
    assert!(check_token(&v, 0, 2, CharClass::Letter));
    assert!(!check_token(&v, 0, 3, CharClass::Letter));
    assert!(check_token(&v, 3, 5, CharClass::Digit));
    assert!(!check_token(&v, 3, 3, CharClass::Digit));
}

#[test]
fn operands_are_checked_within_their_range() {
    let v = chars("(HL+),SP+r8,()");
    assert!(check_operand(&v, 0, 5));
    assert!(check_operand(&v, 1, 4));
    assert!(!check_operand(&v, 0, 4));
    assert!(check_operand(&v, 6, 11));
    assert!(!check_operand(&v, 12, 14));
    assert!(!check_operand(&v, 5, 5));
}

#[test]
fn flags_are_checked_within_their_range() {
    let v = chars("xZ 0 - Cx");
    assert!(check_flags(&v, 1, 8));
    assert!(!check_flags(&v, 0, 7));
    assert!(!check_flags(&v, 1, 9));
}

#[test]
fn first_line_is_taken_apart() {
    let v = chars("LD (HL),d8");
    assert_eq!(
        parse_mnemonic(&v, 0, v.len()),
        Some(("LD".to_string(), vec!["(HL)".to_string(), "d8".to_string()]))
    );
    assert_eq!(parse_mnemonic(&v, 0, 2), Some(("LD".to_string(), Vec::new())));
    assert_eq!(parse_mnemonic(&v, 0, 7), Some(("LD".to_string(), vec!["(HL)".to_string()])));
    assert_eq!(parse_mnemonic(&v, 0, 3), None);
    assert_eq!(parse_mnemonic(&v, 3, 7), None);
}
