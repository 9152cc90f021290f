use hack_assembler::parser::Instruction;
use hack_assembler::parser::InstructionType;
use hack_assembler::parser::Parser;

fn ten_numbered_lines() -> Vec<String> {
    vec![
        "0".to_string(),
        "1".to_string(),
        "2".to_string(),
        "3".to_string(),
        "4".to_string(),
        "5".to_string(),
        "6".to_string(),
        "7".to_string(),
        "8".to_string(),
        "9".to_string(),
    ]
}

#[test]
fn test_lines() {
    let parser = Parser::new(ten_numbered_lines());
    assert_eq!(parser.lines.len(), 10);
}

#[test]
fn test_has_more_lines() {
    let mut parser = Parser::new(ten_numbered_lines());

    assert_eq!(parser.next_line_number, 0);

    parser.next_line_number = 9;
    assert!(parser.has_more_lines());

    parser.next_line_number = 10;
    assert!(!parser.has_more_lines());
}

#[test]
fn test_empty() {
    let parser = Parser::new(Vec::new());

    assert_eq!(parser.current_instruction, None);
    assert_eq!(parser.next_line_number, 0);
    assert!(!parser.has_more_lines());
}

#[test]
fn test_advance() {
    let mut parser = Parser::new(vec![
        "//comment1".to_string(),
        "".to_string(),
        "//comment2".to_string(),
        " (LOOP) //comment3".to_string(),
        " @123 //comment4".to_string(),
        " M=1 //comment5".to_string(),
        "//comment6".to_string(),
    ]);
    let prev_nln = parser.next_line_number;

    assert_eq!(parser.current_instruction, None);
    assert_eq!(prev_nln, 0);
    assert_eq!(parser.next_ins_address, 0);
    assert!(parser.has_more_lines());

    parser.advance();

    assert_eq!(
        parser.current_instruction,
        Some(Instruction {
            ins_raw: String::from("(LOOP)"),
            ins_type: InstructionType::LInstruction
        })
    );
    assert_eq!(parser.next_line_number, prev_nln + 4);
    assert_eq!(parser.next_ins_address, 0);
    assert!(parser.has_more_lines());

    parser.advance();

    assert_eq!(
        parser.current_instruction,
        Some(Instruction {
            ins_raw: String::from("@123"),
            ins_type: InstructionType::AInstruction
        })
    );
    assert_eq!(parser.next_line_number, prev_nln + 5);
    assert_eq!(parser.next_ins_address, 1);
    assert!(parser.has_more_lines());

    parser.advance();

    assert_eq!(
        parser.current_instruction,
        Some(Instruction {
            ins_raw: String::from("M=1"),
            ins_type: InstructionType::CInstruction
        })
    );
    assert_eq!(parser.next_line_number, prev_nln + 6);
    assert_eq!(parser.next_ins_address, 2);
    assert!(parser.has_more_lines());

    parser.advance();

    assert_eq!(
        parser.current_instruction,
        Some(Instruction {
            ins_raw: String::from("M=1"),
            ins_type: InstructionType::CInstruction
        })
    );
    assert_eq!(parser.next_line_number, prev_nln + 7);
    assert!(!parser.has_more_lines());
}

#[test]
fn parser_test_jump() {
    let mut parser = Parser::new(vec!["1".to_string(), "M=1".to_string(), "M=1;JMP".to_string()]);

    parser.advance();
    assert_eq!(parser.jump(), "".to_string());
    parser.advance();
    assert_eq!(parser.jump(), "".to_string());
    parser.advance();
    assert_eq!(parser.jump(), "JMP".to_string());
}

#[test]
fn parser_test_comp() {
    let mut parser = Parser::new(vec!["1".to_string(), "M=1".to_string(), "M=1;JMP".to_string()]);

    parser.advance();
    assert_eq!(parser.comp(), "1".to_string());
    parser.advance();
    assert_eq!(parser.comp(), "1".to_string());
    parser.advance();
    assert_eq!(parser.comp(), "1".to_string());
}

#[test]
fn parser_test_dest() {
    let mut parser = Parser::new(vec![
        "1".to_string(),
        "M=1".to_string(),
        "D=1".to_string(),
        "DM=1".to_string(),
        "A=1".to_string(),
        "AM=1".to_string(),
        "AD=1".to_string(),
        "ADM=1".to_string(),
    ]);

    parser.advance();
    assert_eq!(parser.dest(), "".to_string());

    parser.advance();
    assert_eq!(parser.dest(), "M".to_string());

    parser.advance();
    assert_eq!(parser.dest(), "D".to_string());

    parser.advance();
    assert_eq!(parser.dest(), "DM".to_string());

    parser.advance();
    assert_eq!(parser.dest(), "A".to_string());

    parser.advance();
    assert_eq!(parser.dest(), "AM".to_string());

    parser.advance();
    assert_eq!(parser.dest(), "AD".to_string());

    parser.advance();
    assert_eq!(parser.dest(), "ADM".to_string());
}

#[test]
fn test_symbol() {
    let mut parser = Parser::new(vec![
        "(LOOP)".to_string(),
        "@123".to_string(),
        "@num".to_string(),
    ]);

    parser.advance();
    assert_eq!(parser.symbol(), "LOOP".to_string());

    parser.advance();
    assert_eq!(parser.symbol(), "123".to_string());

    parser.advance();
    assert_eq!(parser.symbol(), "num".to_string());
}

#[test]
fn test_get_type() {
    assert_eq!(InstructionType::get_type("@5"), InstructionType::AInstruction);
    assert_eq!(InstructionType::get_type("(X)"), InstructionType::LInstruction);
    assert_eq!(InstructionType::get_type("D=M"), InstructionType::CInstruction);
    assert!(InstructionType::is_a_ins("@5"));
    assert!(!InstructionType::is_a_ins("(X)"));
    assert!(InstructionType::is_l_ins("(X)"));
    assert!(!InstructionType::is_l_ins("D=M"));
    assert!(InstructionType::is_c_ins("D=M"));
    assert!(!InstructionType::is_c_ins("@5"));
}
