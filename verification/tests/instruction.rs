use assembler::instruction::{validate_fields, EncodeError, Field, Instruction};

#[test]
fn new_instruction_is_empty() {
    let ins = Instruction::default();
    assert_eq!(ins.as_binary(), "");
}

#[test]
fn parse_opcode_sets_the_opcode_field() {
    let mut ins = Instruction::default();
    ins.parse_opcode("ADD");
    assert_eq!(ins.as_binary(), "0010");
    ins.parse_opcode("CLP");
    assert_eq!(ins.as_binary(), "1010");
}

#[test]
fn parse_var_sets_the_register_field() {
    let mut ins = Instruction::default();
    ins.parse_var("$3");
    assert_eq!(ins.as_binary(), "0011");
    ins.parse_var("$F");
    assert_eq!(ins.as_binary(), "1111");
}

#[test]
fn parse_var_gives_register_a_five_digits_in_either_case() {
    let mut lower = Instruction::default();
    lower.parse_var("$a");
    let mut upper = Instruction::default();
    upper.parse_var("$A");
    assert_eq!(lower.as_binary(), "10010");
    assert_eq!(upper.as_binary(), lower.as_binary());
}

#[test]
fn parse_type_sets_the_type_field() {
    let mut ins = Instruction::default();
    ins.parse_type("2");
    assert_eq!(ins.as_binary(), "10");
}

#[test]
fn parse_num_sets_the_immediate_field() {
    let mut ins = Instruction::default();
    ins.parse_num("10");
    assert_eq!(ins.as_binary(), "00001010");
    ins.parse_num("-1");
    assert_eq!(ins.as_binary(), "111111111111111111111111111111111");
}

#[test]
fn parse_num_gives_zero_with_a_minus_sign_eight_digits() {
    let mut ins = Instruction::default();
    ins.parse_num("-0");
    assert_eq!(ins.as_binary(), "00000000");
}

#[test]
fn fields_are_written_in_fixed_order_whatever_the_order_of_setting() {
    let mut ins = Instruction::default();
    ins.parse_num("5");
    ins.parse_type("1");
    ins.parse_var("$1");
    ins.parse_opcode("SET");
    assert_eq!(ins.as_binary(), "000100010100000101");
}

#[test]
fn as_binary_leaves_unset_fields_out() {
    let mut ins = Instruction::default();
    ins.parse_opcode("SUB");
    ins.parse_num("3");
    assert_eq!(ins.as_binary(), "001100000011");
}

#[test]
fn parse_reads_four_tokens() {
    let mut ins = Instruction::default();
    ins.parse("SET $1 1 5".to_string());
    assert_eq!(ins.as_binary(), "000100010100000101");
}

#[test]
fn parse_does_not_look_past_the_fourth_token() {
    let mut ins = Instruction::default();
    ins.parse("ADD $2 0 3 and more".to_string());
    assert_eq!(ins.as_binary(), "001000100000000011");
}

#[test]
fn parse_from_vec_reads_four_tokens() {
    let mut ins = Instruction::default();
    ins.parse_from_vec(vec!["DIV", "$A", "3", "-2"]);
    assert_eq!(
        ins.as_binary(),
        "01011001011111111111111111111111111111111110"
    );
}

#[test]
fn line_to_binary_parses_and_writes() {
    let mut ins = Instruction::default();
    assert_eq!(ins.line_to_binary("ADD $2 0 3".to_string()), "001000100000000011");
    assert_eq!(ins.as_binary(), "001000100000000011");
    assert_eq!(ins.line_to_binary("JMP $0 0 256".to_string()), "0110000000100000000");
}

#[test]
fn every_mnemonic_begins_the_encoding_of_a_four_token_line() {
    let table = [
        ("PRT", "0000"),
        ("SET", "0001"),
        ("ADD", "0010"),
        ("SUB", "0011"),
        ("MUL", "0100"),
        ("DIV", "0101"),
        ("JMP", "0110"),
        ("JNP", "0111"),
        ("EQL", "1000"),
        ("CBP", "1001"),
        ("CLP", "1010"),
    ];
    for (mnemonic, code) in table.iter() {
        let mut ins = Instruction::default();
        let bits = ins.line_to_binary(format!("{} $7 3 42", mnemonic));
        assert_eq!(&bits[..4], *code);
        assert_eq!(bits, format!("{}01111100101010", code));
    }
}

#[test]
fn parse_opcode_from_line_takes_the_first_token() {
    let mut ins = Instruction::default();
    assert_eq!(ins.parse_opcode_from_line("MUL".to_string()), Ok(()));
    assert_eq!(ins.as_binary(), "0100");
    assert_eq!(ins.parse_opcode_from_line("EQL $1 junk".to_string()), Ok(()));
    assert_eq!(ins.as_binary(), "1000");
}

#[test]
fn parse_var_from_line_takes_the_second_token() {
    let mut ins = Instruction::default();
    assert_eq!(ins.parse_var_from_line("whatever $c".to_string()), Ok(()));
    assert_eq!(ins.as_binary(), "1100");
}

#[test]
fn parse_var_from_line_reports_a_missing_token_and_goes_on() {
    let mut ins = Instruction::default();
    ins.parse_opcode("ADD");
    assert_eq!(ins.parse_var_from_line("ADD".to_string()), Err(Field::Register));
    assert_eq!(ins.as_binary(), "0010");
    ins.parse_type("1");
    assert_eq!(ins.as_binary(), "001001");
}

#[test]
fn parse_type_from_line_takes_the_third_token() {
    let mut ins = Instruction::default();
    assert_eq!(ins.parse_type_from_line("x y 3".to_string()), Ok(()));
    assert_eq!(ins.as_binary(), "11");
}

#[test]
fn parse_type_from_line_reports_a_missing_token() {
    let mut ins = Instruction::default();
    assert_eq!(ins.parse_type_from_line("ADD $1".to_string()), Err(Field::Type));
    assert_eq!(ins.parse_type_from_line("".to_string()), Err(Field::Type));
    assert_eq!(ins.as_binary(), "");
}

#[test]
fn parse_num_from_line_takes_the_fourth_token() {
    let mut ins = Instruction::default();
    assert_eq!(ins.parse_num_from_line("x y z 7".to_string()), Ok(()));
    assert_eq!(ins.as_binary(), "00000111");
}

#[test]
fn parse_num_from_line_reports_a_missing_token() {
    let mut ins = Instruction::default();
    assert_eq!(ins.parse_num_from_line("ADD".to_string()), Err(Field::Immediate));
    assert_eq!(ins.parse_num_from_line("ADD $1".to_string()), Err(Field::Immediate));
    assert_eq!(ins.parse_num_from_line("ADD $1 0".to_string()), Err(Field::Immediate));
    assert_eq!(ins.as_binary(), "");
}

#[test]
fn missing_token_diagnostics_name_the_field() {
    assert_eq!(
        Field::Opcode.missing_message(),
        "ERROR: Provided line didn't contain any opcode"
    );
    assert_eq!(
        Field::Register.missing_message(),
        "ERROR: Provided line didn't contain any var"
    );
    assert_eq!(
        Field::Type.missing_message(),
        "ERROR: Provided line didn't contain any type"
    );
    assert_eq!(
        Field::Immediate.missing_message(),
        "ERROR: Provided line didn't contain any num"
    );
}

#[test]
fn validate_fields_accepts_four_good_tokens() {
    assert_eq!(validate_fields(&vec!["SET", "$1", "1", "5"]), Ok(()));
    assert_eq!(validate_fields(&vec!["SET", "$1", "1", "5", "junk"]), Ok(()));
}

#[test]
fn validate_fields_names_the_first_fault() {
    assert_eq!(
        validate_fields(&vec![]),
        Err(EncodeError::MissingToken(Field::Opcode))
    );
    assert_eq!(validate_fields(&vec!["NOP", "$z", "9", "x"]), Err(EncodeError::UnknownOpcode));
    assert_eq!(
        validate_fields(&vec!["SET"]),
        Err(EncodeError::MissingToken(Field::Register))
    );
    assert_eq!(validate_fields(&vec!["SET", "$z", "9", "x"]), Err(EncodeError::UnknownRegister));
    assert_eq!(
        validate_fields(&vec!["SET", "$1"]),
        Err(EncodeError::MissingToken(Field::Type))
    );
    assert_eq!(validate_fields(&vec!["SET", "$1", "9", "x"]), Err(EncodeError::UnknownType));
    assert_eq!(
        validate_fields(&vec!["SET", "$1", "1"]),
        Err(EncodeError::MissingToken(Field::Immediate))
    );
    assert_eq!(validate_fields(&vec!["SET", "$1", "1", "x"]), Err(EncodeError::InvalidImmediate));
}
