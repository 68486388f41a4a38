use isa_utils::assembler::{parse_source, try_parse_source};
use isa_utils::output::{format_hex, format_txt_binary, parse_program_line, program_to_bytes, OutputFormat};

#[test]
fn test_simple_program() {
    let input = "
            ADD R1, R2, R3
            LI R4, 100
            END
        ";

    let result = parse_source(input);
    assert!(result.is_ok());
    let instructions = result.unwrap();
    assert_eq!(instructions.len(), 3);
}

#[test]
fn test_error_reporting() {
    let input = "
            ADD R1, R2
        ";

    let result = parse_source(input);
    assert!(result.is_err());
    let error = result.unwrap_err();
    assert!(error.contains("Operand count mismatch"));
}

#[test]
fn parse_source_reports_with_the_source_line() {
    let error = parse_source("LI R1, 1\nJR missing").unwrap_err();
    assert_eq!(
        error,
        "Parse Error: Undefined label 'missing'\n  |\n2 | JR missing\n  |    ^^^^^^^ label not found"
    );
}

#[test]
fn text_binary_output() {
    assert_eq!(
        format_txt_binary(&[0x9080_0003, 0xF000_0000]),
        "10010000100000000000000000000011\n11110000000000000000000000000000\n"
    );
    assert_eq!(format_txt_binary(&[]), "");
}

#[test]
fn hex_output() {
    assert_eq!(format_hex(&[0x9080_0003, 0xDEAD_BEEF, 0]), "90800003\ndeadbeef\n00000000\n");
}

#[test]
fn byte_output_is_big_endian() {
    assert_eq!(program_to_bytes(&[0x1234_5678, 0xF000_0001]), vec![0x12, 0x34, 0x56, 0x78, 0xF0, 0x00, 0x00, 0x01]);
}

#[test]
fn output_format_names() {
    assert_eq!(OutputFormat::parse("binary"), Ok(OutputFormat::Binary));
    assert_eq!(OutputFormat::parse("BIN"), Ok(OutputFormat::Binary));
    assert_eq!(OutputFormat::parse("Hex"), Ok(OutputFormat::Hex));
    assert_eq!(OutputFormat::parse("txt"), Ok(OutputFormat::Txt));
    assert_eq!(OutputFormat::parse("elf"), Err("Invalid format: elf".to_string()));
    assert_eq!("TXT".parse::<OutputFormat>(), Ok(OutputFormat::Txt));
    assert_eq!(OutputFormat::from_lowercase("hex"), Some(OutputFormat::Hex));
    assert_eq!(OutputFormat::from_lowercase("HEX"), None);
}

#[test]
fn program_listing_lines() {
    assert_eq!(parse_program_line("  0b101\r"), Ok(Some(5)));
    assert_eq!(parse_program_line("10010000100000000000000000000011"), Ok(Some(0x9080_0003)));
    assert_eq!(parse_program_line(""), Ok(None));
    assert_eq!(parse_program_line(" \t "), Ok(None));
    assert_eq!(parse_program_line(&"1".repeat(32)), Ok(Some(u32::MAX)));
    assert_eq!(parse_program_line(&"1".repeat(33)), Err(()));
    assert_eq!(parse_program_line(&format!("{}1", "0".repeat(40))), Ok(Some(1)));
    assert_eq!(parse_program_line("+10"), Ok(Some(2)));
    assert_eq!(parse_program_line("0b+10"), Ok(Some(2)));
    assert_eq!(parse_program_line("0b"), Err(()));
    assert_eq!(parse_program_line("+"), Err(()));
    assert_eq!(parse_program_line("102"), Err(()));
    assert_eq!(parse_program_line("-1"), Err(()));
    assert_eq!(parse_program_line("0x1"), Err(()));
}

#[test]
fn try_parse_source_tells_unlexable_text() {
    assert_eq!(try_parse_source("ADD R1, R2, $"), None);
    assert_eq!(try_parse_source("NOP").map(|r| r.map(|v| v.len())), Some(Ok(1)));
    assert!(matches!(try_parse_source("ADD R1"), Some(Err(_))));
}
