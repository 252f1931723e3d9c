use assembler::driver::{assemble, LineError};
use assembler::instruction::{EncodeError, Field};

fn lines_of(source: &str) -> Vec<String> {
    source.lines().map(|line| line.to_string()).collect()
}

#[test]
fn end_to_end_scenario() {
    let source = "PRT $0\nSET $1 1 5\n; comment\nADD $2 0 3";
    let output = assemble(&lines_of(source)).unwrap();
    assert_eq!(
        output,
        "000000001000000000\n000100010100000101\n001000100000000011\n"
    );
    let rows: Vec<&str> = output.lines().collect();
    assert_eq!(rows.len(), 3);
    assert_eq!(rows[0], "000000001000000000");
    assert_eq!(rows[1], "000100010100000101");
    assert_eq!(rows[2], "001000100000000011");
}

#[test]
fn empty_source_gives_empty_output() {
    assert_eq!(assemble(&Vec::new()), Ok(String::new()));
}

#[test]
fn comments_and_blank_lines_give_no_output() {
    let source = vec![
        "; a comment".to_string(),
        "".to_string(),
        "   ".to_string(),
        "\t".to_string(),
        "   ; an indented comment".to_string(),
        ";".to_string(),
        "\u{a0}\u{3000}".to_string(),
        ";PRT $0".to_string(),
    ];
    assert_eq!(assemble(&source), Ok(String::new()));
}

#[test]
fn output_has_one_row_for_each_line_that_is_no_comment_and_not_blank() {
    let source = vec![
        "; header".to_string(),
        "PRT 1".to_string(),
        "".to_string(),
        "PRT 2".to_string(),
        "  ; note".to_string(),
        "PRT 3".to_string(),
        " ".to_string(),
        "PRT 4".to_string(),
    ];
    let meaningful = source
        .iter()
        .filter(|line| !line.trim().is_empty() && !line.trim().starts_with(';'))
        .count();
    let output = assemble(&source).unwrap();
    assert_eq!(meaningful, 4);
    assert_eq!(output.lines().count(), meaningful);
    assert_eq!(output.matches('\n').count(), meaningful);
    assert!(output.ends_with('\n'));
    assert_eq!(
        output,
        "000000000000000001\n000000000000000010\n000000000000000011\n000000000000000100\n"
    );
}

#[test]
fn lines_are_trimmed_before_they_are_encoded() {
    let source = vec![
        "   SET $1 1 5".to_string(),
        "ADD $2 0 3 \t".to_string(),
        "PRT $0\r".to_string(),
    ];
    assert_eq!(
        assemble(&source),
        Ok("000100010100000101\n001000100000000011\n000000001000000000\n".to_string())
    );
}

#[test]
fn output_holds_binary_digits_and_newlines_only() {
    let source = lines_of("SUB $a 3 -9\nPRT $F\nCLP $9 2 2147483647\nPRT -0");
    let output = assemble(&source).unwrap();
    assert!(output.chars().all(|c| c == '0' || c == '1' || c == '\n'));
    assert_eq!(output.lines().count(), 4);
}

#[test]
fn first_line_that_cannot_be_encoded_is_named() {
    let source = lines_of("PRT $0\n; fine so far\nADD $1 7 1\nNOP\n");
    assert_eq!(
        assemble(&source),
        Err(LineError { line: 2, fault: EncodeError::UnknownType })
    );
}

#[test]
fn each_fault_is_passed_on_with_its_line() {
    assert_eq!(
        assemble(&lines_of("NOP $1 1 1")),
        Err(LineError { line: 0, fault: EncodeError::UnknownOpcode })
    );
    assert_eq!(
        assemble(&lines_of("\nADD $x 1 1")),
        Err(LineError { line: 1, fault: EncodeError::UnknownRegister })
    );
    assert_eq!(
        assemble(&lines_of("\n\nADD $1 1 1.0")),
        Err(LineError { line: 2, fault: EncodeError::InvalidImmediate })
    );
    assert_eq!(
        assemble(&lines_of("; c\nADD $1 1")),
        Err(LineError { line: 1, fault: EncodeError::MissingToken(Field::Immediate) })
    );
}

#[test]
fn comment_marker_counts_only_at_the_start_of_the_line() {
    assert_eq!(
        assemble(&lines_of("ADD $1 1 1 ; trailing words")),
        Ok("001000010100000001\n".to_string())
    );
}
