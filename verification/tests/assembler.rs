use hack_assembler::assembler::assemble;
use hack_assembler::assembler::assemble_source;
use hack_assembler::assembler::AsmError;
use hack_assembler::symbol_table::SymbolTable;
use hack_assembler::text::split_lines;

fn lines(texts: &[&str]) -> Vec<String> {
    let mut v = Vec::new();
    for t in texts {
        v.push(t.to_string());
    }
    v
}

#[test]
fn test_round_trip_minimal() {
    let out = assemble(&lines(&["@16", "M=1"])).unwrap();
    assert_eq!(out, vec!["0000000000010000".to_string(), "1110111111001000".to_string()]);
}

#[test]
fn test_forward_reference() {
    let out = assemble(&lines(&["@LOOP", "0;JMP", "(LOOP)", "@1"])).unwrap();
    assert_eq!(
        out,
        vec![
            "0000000000000010".to_string(),
            "1110101010000111".to_string(),
            "0000000000000001".to_string(),
        ]
    );
}

#[test]
fn test_backward_reference() {
    let out = assemble(&lines(&["(LOOP)", "D=A", "@LOOP", "0;JMP"])).unwrap();
    assert_eq!(
        out,
        vec![
            "1110110000010000".to_string(),
            "0000000000000000".to_string(),
            "1110101010000111".to_string(),
        ]
    );
}

#[test]
fn test_variable_allocation() {
    let out = assemble(&lines(&["@foo", "@bar", "@foo"])).unwrap();
    assert_eq!(
        out,
        vec![
            "0000000000010000".to_string(),
            "0000000000010001".to_string(),
            "0000000000010000".to_string(),
        ]
    );
}

#[test]
fn test_numeric_address_not_allocated() {
    // A numeric address never allocates: the next variable still gets 16.
    let out = assemble(&lines(&["@123", "@fresh"])).unwrap();
    assert_eq!(out, vec!["0000000001111011".to_string(), "0000000000010000".to_string()]);
}

#[test]
fn test_blank_lines_and_comments_ignored() {
    let plain = assemble(&lines(&["@END", "M=1", "(END)", "@END"])).unwrap();
    let noisy = assemble(&lines(&[
        "",
        "// leading comment",
        "  @END  // use before definition",
        "",
        "   M=1",
        "// between",
        "(END) // the label",
        "@END",
        "   ",
    ]))
    .unwrap();
    assert_eq!(plain, noisy);
    assert_eq!(
        plain,
        vec![
            "0000000000000010".to_string(),
            "1110111111001000".to_string(),
            "0000000000000010".to_string(),
        ]
    );
}

#[test]
fn test_idempotent() {
    let source = lines(&["@sum", "M=0", "(LOOP)", "@sum", "D=M", "@LOOP", "D;JGT"]);
    let first = assemble(&source).unwrap();
    let second = assemble(&source).unwrap();
    assert_eq!(first, second);
}

#[test]
fn test_predefined_symbols() {
    let out = assemble(&lines(&["@SP", "@R15", "@SCREEN", "@KBD"])).unwrap();
    assert_eq!(
        out,
        vec![
            "0000000000000000".to_string(),
            "0000000000001111".to_string(),
            "0100000000000000".to_string(),
            "0110000000000000".to_string(),
        ]
    );
}

#[test]
fn test_label_never_rebinds() {
    // A label whose symbol is already bound keeps the first binding.
    let out = assemble(&lines(&["(R5)", "@R5", "(X)", "M=1", "(X)", "@X"])).unwrap();
    assert_eq!(
        out,
        vec![
            "0000000000000101".to_string(),
            "1110111111001000".to_string(),
            "0000000000000001".to_string(),
        ]
    );
}

#[test]
fn test_unknown_comp_error() {
    assert_eq!(assemble(&lines(&["M=Q"])), Err(AsmError::UnknownComp));
}

#[test]
fn test_unknown_dest_error() {
    assert_eq!(assemble(&lines(&["Q=1"])), Err(AsmError::UnknownDest));
}

#[test]
fn test_unknown_jump_error() {
    assert_eq!(assemble(&lines(&["0;JXX"])), Err(AsmError::UnknownJump));
}

#[test]
fn test_malformed_label_error() {
    assert_eq!(assemble(&lines(&["("])), Err(AsmError::MalformedLabel));
    // The first pass sees the malformed label before any encoding error.
    assert_eq!(assemble(&lines(&["M=Q", "("])), Err(AsmError::MalformedLabel));
}

#[test]
fn test_assemble_source_text() {
    let out = assemble_source("@16\nM=1").unwrap();
    assert_eq!(out, vec!["0000000000010000".to_string(), "1110111111001000".to_string()]);
}

#[test]
fn test_assemble_source_carriage_returns() {
    let with_cr = assemble_source("@2\r\nD=A\r\n").unwrap();
    let without = assemble_source("@2\nD=A\n").unwrap();
    assert_eq!(with_cr, without);
    assert_eq!(with_cr, vec!["0000000000000010".to_string(), "1110110000010000".to_string()]);
}

#[test]
fn test_split_lines_shapes() {
    assert_eq!(split_lines(""), Vec::<String>::new());
    assert_eq!(split_lines("a"), vec!["a".to_string()]);
    assert_eq!(split_lines("a\n"), vec!["a".to_string()]);
    assert_eq!(split_lines("a\nb"), vec!["a".to_string(), "b".to_string()]);
    assert_eq!(split_lines("\n"), vec!["".to_string()]);
    assert_eq!(split_lines("a\n\nb"), vec!["a".to_string(), "".to_string(), "b".to_string()]);
}

#[test]
fn test_symbol_table_basics() {
    let mut t = SymbolTable::new();
    assert_eq!(t.alloc_pos, 16);
    assert!(t.contains("R0"));
    assert!(t.contains("R15"));
    assert!(t.contains("THAT"));
    assert!(!t.contains("r0"));
    assert!(!t.contains("LOOP"));
    assert_eq!(t.get_address("SP"), 0);
    assert_eq!(t.get_address("LCL"), 1);
    assert_eq!(t.get_address("ARG"), 2);
    assert_eq!(t.get_address("THIS"), 3);
    assert_eq!(t.get_address("THAT"), 4);
    assert_eq!(t.get_address("R7"), 7);
    assert_eq!(t.get_address("SCREEN"), 16384);
    assert_eq!(t.get_address("KBD"), 24576);

    t.add_entry("LOOP", 9);
    assert!(t.contains("LOOP"));
    assert_eq!(t.get_address("LOOP"), 9);

    t.add_entry("LOOP", 11);
    assert_eq!(t.get_address("LOOP"), 11);
}

#[test]
fn test_huge_numeral_treated_as_symbol() {
    // A digit string too large for an address value is not a numeral: it
    // is allocated like any other fresh symbol.
    let out = assemble(&lines(&["@99999999999999999999999999"])).unwrap();
    assert_eq!(out, vec!["0000000000010000".to_string()]);
}
