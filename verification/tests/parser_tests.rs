// Label resolution, error handling, operand validation and complete programs.
use isa_utils::errors::ParseError;
use isa_utils::lexer::{token_kind_debug, Lexer, Span, TokenKind};
use isa_utils::parser::Parser;
use isa_utils::types::{Opcode, Operand, ResolvedInstruction};

fn parse_source(source: &str) -> Result<Vec<ResolvedInstruction>, String> {
    let lexer = Lexer::new(source);
    let tokens = lexer.lex();

    let mut parser = Parser::new(tokens);
    parser
        .parse_instructions()
        .map_err(|e| e.display_with_source(source))
}

#[test]
fn test_label_forward_reference() {
    let input = "
        JR forward_label
        NOP
        forward_label:
        END
    ";

    let result = parse_source(input);
    assert!(result.is_ok());
    let instructions = result.unwrap();
    assert_eq!(instructions.len(), 3);

    // JR should reference instruction index 2 (forward_label)
    assert_eq!(instructions[0].opcode, Opcode::JR);
    if let Operand::Immediate(addr) = instructions[0].operands[0] {
        assert_eq!(addr, 2);
    } else {
        panic!("Expected immediate operand for JR");
    }
}

#[test]
fn test_multiple_labels_same_location() {
    let input = "
        start:
        loop:
        ADD R1, R2, R3
    ";

    let result = parse_source(input);
    assert!(result.is_ok());
    let instructions = result.unwrap();
    assert_eq!(instructions.len(), 1); // Both labels point to same instruction
}

#[test]
fn test_undefined_label_error() {
    let input = "
        JR undefined_label
        END
    ";

    let result = parse_source(input);
    assert!(result.is_err());
    let error = result.unwrap_err();
    assert!(error.contains("Undefined label") || error.contains("undefined_label"));
}

#[test]
fn test_duplicate_label_error() {
    let input = "
        start:
        ADD R1, R2, R3
        start:
        SUB R4, R5, R6
    ";

    let result = parse_source(input);
    assert!(result.is_err());
    let error = result.unwrap_err();
    assert!(error.contains("Duplicate label") || error.contains("already defined"));
}

#[test]
fn test_operand_count_mismatch_too_few() {
    let input = "ADD R1, R2"; // ADD needs 3 operands

    let result = parse_source(input);
    assert!(result.is_err());
    let error = result.unwrap_err();
    assert!(error.contains("Operand count mismatch") || error.contains("expected 3"));
}

#[test]
fn test_operand_count_mismatch_too_many() {
    let input = "NOP R1, R2"; // NOP needs 0 operands

    let result = parse_source(input);
    assert!(result.is_err());
    let error = result.unwrap_err();
    assert!(
        error.contains("Operand count mismatch") || error.contains("expected 0"),
        "Unexpected error message: {}",
        error
    );
}

#[test]
fn test_operand_type_mismatch() {
    let input = "ADD R1, 100, R3"; // ADD needs three registers, not reg+imm+reg

    let result = parse_source(input);
    assert!(result.is_err());
    let error = result.unwrap_err();
    assert!(error.contains("type mismatch") || error.contains("incorrect operand"));
}

#[test]
fn test_all_r3_instructions() {
    let input = "
        ADD R1, R2, R3
        SUB R4, R5, R6
        MULT R7, R8, R9
        OR R10, R11, R12
        AND R13, R14, R15
    ";

    let result = parse_source(input);
    assert!(result.is_ok());
    let instructions = result.unwrap();
    assert_eq!(instructions.len(), 5);

    assert_eq!(instructions[0].opcode, Opcode::ADD);
    assert_eq!(instructions[1].opcode, Opcode::SUB);
    assert_eq!(instructions[2].opcode, Opcode::MULT);
    assert_eq!(instructions[3].opcode, Opcode::OR);
    assert_eq!(instructions[4].opcode, Opcode::AND);
}

#[test]
fn test_all_r2_instructions() {
    let input = "
        NOT R1, R2
        LD R3, R4
        SD R5, R6
    ";

    let result = parse_source(input);
    assert!(result.is_ok());
    let instructions = result.unwrap();
    assert_eq!(instructions.len(), 3);

    assert_eq!(instructions[0].opcode, Opcode::NOT);
    assert_eq!(instructions[1].opcode, Opcode::LD);
    assert_eq!(instructions[2].opcode, Opcode::SD);
}

#[test]
fn test_ri_instruction() {
    let input = "LI R1, 12345";

    let result = parse_source(input);
    assert!(result.is_ok());
    let instructions = result.unwrap();
    assert_eq!(instructions.len(), 1);
    assert_eq!(instructions[0].opcode, Opcode::LI);
}

#[test]
fn test_i_instruction() {
    let input = "JR 42";

    let result = parse_source(input);
    assert!(result.is_ok());
    let instructions = result.unwrap();
    assert_eq!(instructions.len(), 1);
    assert_eq!(instructions[0].opcode, Opcode::JR);
}

#[test]
fn test_noop_instructions() {
    let input = "
        NOP
        END
    ";

    let result = parse_source(input);
    assert!(result.is_ok());
    let instructions = result.unwrap();
    assert_eq!(instructions.len(), 2);
    assert_eq!(instructions[0].opcode, Opcode::NOP);
    assert_eq!(instructions[1].opcode, Opcode::END);
}

#[test]
fn test_negative_immediates() {
    let input = "
        ADDI R1, R2, -10
        LI R3, -999
    ";

    let result = parse_source(input);
    assert!(result.is_ok());
    let instructions = result.unwrap();
    assert_eq!(instructions.len(), 2);

    if let Operand::Immediate(val) = instructions[0].operands[2] {
        assert_eq!(val, -10);
    } else {
        panic!("Expected negative immediate");
    }
}

#[test]
fn test_comments_ignored() {
    let input = "
        # This is a comment
        ADD R1, R2, R3  # inline comment
        # Another comment
        SUB R4, R5, R6
    ";

    let result = parse_source(input);
    assert!(result.is_ok());
    let instructions = result.unwrap();
    assert_eq!(instructions.len(), 2); // Only two instructions
}

#[test]
fn test_empty_input() {
    let input = "";
    let result = parse_source(input);
    assert!(result.is_err()); // Should error on empty input
}

#[test]
fn test_only_comments_and_whitespace() {
    let input = "
        # Just comments
        
        # More comments
    ";
    let result = parse_source(input);
    assert!(result.is_err()); // Should error - no instructions
}

#[test]
fn test_register_boundary_r0() {
    let input = "ADD R0, R1, R2";
    let result = parse_source(input);
    assert!(result.is_ok()); // R0 should be valid
}

#[test]
fn test_register_boundary_r31() {
    let input = "ADD R31, R30, R29";
    let result = parse_source(input);
    assert!(result.is_ok()); // R31 should be valid (if REGISTER_LIMIT is 32)
}

#[test]
fn test_label_as_jump_target() {
    let input = "
        LI R1, 5
        JEQ R1, R2, target
        ADDI R1, R1, 1
        target:
        END
    ";

    let result = parse_source(input);
    assert!(result.is_ok());
    let instructions = result.unwrap();

    // JEQ operand should point to instruction 3 (the END after target label)
    if let Operand::Immediate(addr) = instructions[1].operands[2] {
        assert_eq!(addr, 3);
    }
}

#[test]
fn parser_tests_test_zero_immediate() {
    let input = "
        LI R1, 0
        ADDI R2, R3, 0
    ";

    let result = parse_source(input);
    assert!(result.is_ok());
    let instructions = result.unwrap();
    assert_eq!(instructions.len(), 2);
}

#[test]
fn test_case_sensitive_opcodes() {
    // Opcodes should be case-sensitive (uppercase only)
    let input = "add R1, R2, R3";
    let result = parse_source(input);
    assert!(result.is_err()); // lowercase should fail
}

#[test]
fn test_label_with_underscores() {
    let input = "
        my_long_label_name:
            NOP
            JR my_long_label_name
    ";

    let result = parse_source(input);
    assert!(result.is_ok());
}

#[test]
fn test_label_with_numbers() {
    let input = "
        loop_1:
            NOP
            JR loop_1
    ";

    let result = parse_source(input);
    assert!(result.is_ok());
}

fn parse_error(source: &str) -> ParseError {
    let tokens = Lexer::new(source).lex();
    Parser::new(tokens).parse_instructions().unwrap_err()
}

#[test]
fn label_backward_reference() {
    let input = "
        loop_start:
        ADDI R1, R1, 1
        JLT R1, R2, loop_start
    ";
    let instructions = parse_source(input).unwrap();
    assert_eq!(instructions.len(), 2);
    assert_eq!(instructions[1].opcode, Opcode::JLT);
    assert_eq!(instructions[1].operands[2], Operand::Immediate(0));
}

#[test]
fn resolved_program_is_exact() {
    let instructions = parse_source("top: LI R2, -5; JEQ R2, R0, top\nEND").unwrap();
    assert_eq!(
        instructions,
        vec![
            ResolvedInstruction { opcode: Opcode::LI, operands: vec![Operand::Register(2), Operand::Immediate(-5)] },
            ResolvedInstruction {
                opcode: Opcode::JEQ,
                operands: vec![Operand::Register(2), Operand::Register(0), Operand::Immediate(0)],
            },
            ResolvedInstruction { opcode: Opcode::END, operands: vec![] },
        ]
    );
}

#[test]
fn each_parse_error_kind() {
    match parse_error("R1") {
        ParseError::UnexpectedToken { expected, found, span } => {
            assert_eq!(expected, "label definition or opcode");
            assert_eq!(found, "Register(1)");
            assert_eq!(span, Span { start: 0, end: 1, line: 0 });
        },
        e => panic!("unexpected error {:?}", e),
    }
    assert!(matches!(parse_error("# nothing"), ParseError::UnexpectedEndOfInput));
    match parse_error("a:\nNOP\na: END") {
        ParseError::DuplicateLabel { label, span } => {
            assert_eq!(label, "a");
            assert_eq!(span, Span { start: 7, end: 9, line: 2 });
        },
        e => panic!("unexpected error {:?}", e),
    }
    match parse_error("JR nowhere") {
        ParseError::UndefinedLabel { label, span } => {
            assert_eq!(label, "nowhere");
            assert_eq!(span, Span { start: 3, end: 10, line: 0 });
        },
        e => panic!("unexpected error {:?}", e),
    }
    match parse_error("ADD R1, R2") {
        ParseError::OperandCountMismatch { expected, found, span } => {
            assert_eq!((expected, found), (3, 2));
            assert_eq!(span, Span { start: 0, end: 9, line: 0 });
        },
        e => panic!("unexpected error {:?}", e),
    }
    match parse_error("LI 5, R1") {
        ParseError::OperandTypeMismatch { span } => assert_eq!(span, Span { start: 3, end: 4, line: 0 }),
        e => panic!("unexpected error {:?}", e),
    }
    match parse_error("NOT R1, R32") {
        ParseError::InvalidRegister { span } => assert_eq!(span, Span { start: 8, end: 10, line: 0 }),
        e => panic!("unexpected error {:?}", e),
    }
}

#[test]
fn first_pass_errors_come_before_label_errors() {
    // The duplicate label is found in the first pass, before the undefined one.
    assert!(matches!(parse_error("JR x\nb: NOP\nb: END"), ParseError::DuplicateLabel { .. }));
    // An undefined label is found before an operand count mismatch.
    assert!(matches!(parse_error("ADD R1\nJR x"), ParseError::UndefinedLabel { .. }));
}

#[test]
fn error_report_marks_the_span() {
    let source = "NOP\nADD R1, R2";
    let report = parse_error(source).display_with_source(source);
    assert_eq!(
        report,
        "Parse Error: Operand count mismatch, expected 3, found 2\n  |\n2 | ADD R1, R2\n  | ^^^^^^^^^ wrong number of operands"
    );
}

#[test]
fn error_report_beyond_the_source() {
    let e = ParseError::InvalidRegister { span: Span { start: 0, end: 1, line: 9 } };
    assert_eq!(e.display_with_source("NOP"), "Parse Error: Invalid register\n  at line 10");
}

#[test]
fn error_report_for_each_kind() {
    let span = Span { start: 4, end: 6, line: 0 };
    let source = "NOP R9 x";
    assert_eq!(
        ParseError::UnexpectedToken { expected: "opcode".to_string(), found: "Comma".to_string(), span }
            .display_with_source(source),
        "Parse Error: Expected opcode, found Comma\n  |\n1 | NOP R9 x\n  |     ^^ unexpected token here"
    );
    assert_eq!(
        ParseError::DuplicateLabel { label: "x".to_string(), span }.display_with_source(source),
        "Parse Error: Duplicate label 'x'\n  |\n1 | NOP R9 x\n  |     ^^ label already defined"
    );
    assert_eq!(
        ParseError::UndefinedLabel { label: "x".to_string(), span }.display_with_source(source),
        "Parse Error: Undefined label 'x'\n  |\n1 | NOP R9 x\n  |     ^^ label not found"
    );
    assert_eq!(
        ParseError::OperandTypeMismatch { span: Span { start: 7, end: 7, line: 0 } }.display_with_source(source),
        "Parse Error: Operand type mismatch\n  |\n1 | NOP R9 x\n  |        ^ incorrect operand type"
    );
    assert_eq!(ParseError::UnexpectedEndOfInput.display_with_source(source), "Parse Error: Unexpected end of input");
    assert_eq!(
        ParseError::InvalidInstruction.display_with_source(source),
        "Something went wrong when resolving an Insruction. This should not happen!"
    );
}

#[test]
fn error_messages_name_the_line() {
    let span = Span { start: 0, end: 1, line: 4 };
    assert_eq!(
        ParseError::OperandCountMismatch { expected: 2, found: 0, span }.message(),
        "Parse Error at line 5: Operand count mismatch, expected 2, found 0"
    );
    assert_eq!(ParseError::InvalidRegister { span }.message(), "Parse Error at line 5: Invalid register");
    assert_eq!(
        ParseError::UnexpectedToken { expected: "a".to_string(), found: "b".to_string(), span }.message(),
        "Parse Error at line 5: Expected a, found b"
    );
    assert_eq!(
        ParseError::DuplicateLabel { label: "l".to_string(), span }.message(),
        "Parse Error at line 5: Duplicate label 'l'"
    );
    assert_eq!(
        ParseError::UndefinedLabel { label: "l".to_string(), span }.message(),
        "Parse Error at line 5: Undefined label 'l'"
    );
    assert_eq!(ParseError::OperandTypeMismatch { span }.message(), "Parse Error at line 5: Operand type mismatch");
    assert_eq!(ParseError::UnexpectedEndOfInput.message(), "Parse Error: Unexpected end of input");
    assert_eq!(
        ParseError::InvalidInstruction.message(),
        "Error happened at instruction resolving. This should never happen, contact the author!"
    );
}

#[test]
fn error_report_with_span_before_its_line() {
    // Both ends fall before the start of line 2: the mark is one caret at
    // the line's start.
    let e = ParseError::InvalidRegister { span: Span { start: 3, end: 1, line: 1 } };
    assert_eq!(
        e.display_with_source("NOP\nADD"),
        "Parse Error: Invalid register\n  |\n2 | ADD\n  | ^ register out of range"
    );
}

#[test]
fn found_token_text_is_its_debug_form() {
    assert_eq!(token_kind_debug(&TokenKind::LabelRef("x\"y".to_string())), "LabelRef(\"x\\\"y\")");
    assert_eq!(token_kind_debug(&TokenKind::Comment(" a\tb".to_string())), "Comment(\" a\\tb\")");
    assert_eq!(token_kind_debug(&TokenKind::Opcode(Opcode::SUBI)), "Opcode(SUBI)");
    assert_eq!(token_kind_debug(&TokenKind::Immediate(-4)), "Immediate(-4)");
    assert_eq!(token_kind_debug(&TokenKind::Comma), "Comma");
    assert_eq!(token_kind_debug(&TokenKind::Terminator), "Terminator");
}

#[test]
fn labels_name_the_count_of_instructions_before_them() {
    let instructions = parse_source("a:\nb:\nNOP\nc: ; # x\nEND\nJR a\nJR b\nJR c").unwrap();
    assert_eq!(instructions.len(), 5);
    assert_eq!(instructions[2].operands, vec![Operand::Immediate(0)]);
    assert_eq!(instructions[3].operands, vec![Operand::Immediate(0)]);
    assert_eq!(instructions[4].operands, vec![Operand::Immediate(1)]);
}
