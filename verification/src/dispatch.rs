//! Choosing the encoding rule for a line. A line of two tokens whose
//! mnemonic is `PRT` is a shorthand: `PRT $x` prints a register, `PRT n`
//! prints a number. Every other line names all four fields.

use crate::immediate::{
    binary_digits, decimal_value, formatted_binary, immediate_field,
    lemma_immediate_field_is_bits, lemma_immediate_field_len, lemma_literal_shape, parse_i32,
    parse_signed, zeros,
};
use crate::instruction::{
    fields_fault, parsed_fields, serialized, validate_fields, EncodeError, Fields, Instruction,
};
use crate::tables::{
    lemma_mnemonic_shape, lemma_opcode_code_shape, lemma_register_code_shape,
    lemma_register_token_shape, lemma_type_code_shape, lemma_type_digit_shape, lookup_opcode,
    lookup_register, opcode_code, register_lookup, type_code,
};
use crate::text::{
    begins_with, is_bit_string, joined, lemma_split_joined, lemma_split_on_tokens, lowered,
    split_spaces, starts_with_char, str_eq, tokens,
};
use vstd::prelude::*;

verus! {

/// The fields of a line read by the shorthand rule. With exactly two tokens,
/// the second is the operand: a register where it begins with `$`, with type
/// `2` and immediate `0`; else a literal, with register `$0` and type `0`.
/// With any other number of tokens the line names all four fields.
pub open spec fn print_fields(line: Seq<char>) -> Fields {
    let parts = tokens(line);
    if parts.len() == 2 {
        if begins_with(parts[1], '$') {
            Fields {
                opcode: opcode_code(parts[0]).unwrap(),
                register: register_lookup(parts[1]).unwrap(),
                type_tag: type_code("2"@).unwrap(),
                immediate: immediate_field("0"@).unwrap(),
            }
        } else {
            Fields {
                opcode: opcode_code(parts[0]).unwrap(),
                register: register_lookup("$0"@).unwrap(),
                type_tag: type_code("0"@).unwrap(),
                immediate: immediate_field(parts[1]).unwrap(),
            }
        }
    } else {
        parsed_fields(parts)
    }
}

/// The first thing that keeps a line from being encoded by the shorthand
/// rule; `None` where nothing does.
pub open spec fn print_fault(line: Seq<char>) -> Option<EncodeError> {
    let parts = tokens(line);
    if opcode_code(parts[0]) is None {
        Some(EncodeError::UnknownOpcode)
    } else if parts.len() == 2 {
        if begins_with(parts[1], '$') {
            if register_lookup(parts[1]) is None {
                Some(EncodeError::UnknownRegister)
            } else {
                None
            }
        } else if immediate_field(parts[1]) is None {
            Some(EncodeError::InvalidImmediate)
        } else {
            None
        }
    } else {
        fields_fault(parts)
    }
}

/// Whether a line is read by the shorthand rule: its first token is `PRT`.
pub open spec fn is_print(line: Seq<char>) -> bool {
    tokens(line)[0] == "PRT"@
}

/// The fields of a line.
pub open spec fn line_fields(line: Seq<char>) -> Fields {
    if is_print(line) {
        print_fields(line)
    } else {
        parsed_fields(tokens(line))
    }
}

/// The first thing that keeps a line from being encoded; `None` where
/// nothing does.
pub open spec fn line_fault(line: Seq<char>) -> Option<EncodeError> {
    if is_print(line) {
        print_fault(line)
    } else {
        fields_fault(tokens(line))
    }
}

/// The binary digits that a line is encoded as.
pub open spec fn line_encoding(line: Seq<char>) -> Seq<char> {
    serialized(line_fields(line))
}

/// The codes that the shorthand rule fills in.
pub proof fn lemma_shorthand_codes()
    ensures
        opcode_code("PRT"@) == Some("0000"@),
        register_lookup("$0"@) == Some("0000"@),
        type_code("0"@) == Some("00"@),
        type_code("2"@) == Some("10"@),
        immediate_field("0"@) == Some("00000000"@),
{
    reveal_strlit("0");
    reveal_strlit("1");
    reveal_strlit("2");
    reveal_strlit("$0");
    reveal_strlit("00000000");
    assert(lowered("$0"@) =~= "$0"@);
    assert("0"@[0] == '0' && "1"@[0] == '1' && "2"@[0] == '2');
    let zero = "0"@;
    assert(zero =~= seq!['0']);
    assert(zero.drop_last() =~= Seq::<char>::empty());
    assert(decimal_value(zero.drop_last()) == 0);
    assert(decimal_value(zero) == 0);
    assert(parse_signed(zero) == Some(0int));
    assert(binary_digits(0) =~= seq!['0']);
    assert(formatted_binary(0) =~= zeros(7) + seq!['0']);
    assert(formatted_binary(0) =~= "00000000"@);
    assert(immediate_field(zero).unwrap() =~= "00000000"@);
}

/// The encoding of a line begins with the four digits of its opcode.
pub proof fn lemma_encoding_begins_with_opcode(line: Seq<char>)
    requires
        line_fault(line) is None,
    ensures
        opcode_code(tokens(line)[0]) is Some,
        line_encoding(line).len() >= 4,
        line_encoding(line).take(4) == opcode_code(tokens(line)[0]).unwrap(),
{
    let code = opcode_code(tokens(line)[0]).unwrap();
    lemma_opcode_code_shape(tokens(line)[0]);
    assert(line_fields(line).opcode == code);
    assert(line_encoding(line).take(4) =~= code);
}

/// A line of four tokens, each one accepted by its field and with one space
/// between each two, is encoded as the four codes one after another; its
/// first four digits are the code of the mnemonic.
pub proof fn lemma_four_token_line(
    mnemonic: Seq<char>,
    register: Seq<char>,
    digit: Seq<char>,
    literal: Seq<char>,
)
    requires
        opcode_code(mnemonic) is Some,
        register_lookup(register) is Some,
        type_code(digit) is Some,
        immediate_field(literal) is Some,
    ensures
        ({
            let line = joined(seq![mnemonic, register, digit, literal], ' ');
            &&& tokens(line) == seq![mnemonic, register, digit, literal]
            &&& line_fault(line) is None
            &&& line_encoding(line) == opcode_code(mnemonic).unwrap() + register_lookup(
                register,
            ).unwrap() + type_code(digit).unwrap() + immediate_field(literal).unwrap()
            &&& line_encoding(line).take(4) == opcode_code(mnemonic).unwrap()
        }),
{
    let parts = seq![mnemonic, register, digit, literal];
    let line = joined(parts, ' ');
    lemma_mnemonic_shape(mnemonic);
    lemma_register_token_shape(register);
    lemma_type_digit_shape(digit);
    lemma_literal_shape(literal);
    lemma_split_joined(parts, ' ');
    assert(tokens(line) == parts);
    assert(fields_fault(parts) is None);
    lemma_encoding_begins_with_opcode(line);
}

/// `PRT`, a space and a register token print the register: the line is
/// encoded as the opcode of `PRT`, the register's code, the type code of `2`
/// and an immediate of eight zeros.
pub proof fn lemma_print_register_shorthand(register: Seq<char>)
    requires
        register_lookup(register) is Some,
    ensures
        line_fault("PRT "@ + register) is None,
        line_encoding("PRT "@ + register) == "0000"@ + register_lookup(register).unwrap() + "10"@
            + "00000000"@,
{
    let line = "PRT "@ + register;
    lemma_register_token_shape(register);
    lemma_print_tokens(register);
    lemma_shorthand_codes();
}

/// `PRT`, a space and a literal print the number: the line is encoded as the
/// opcode of `PRT`, the code of register `$0`, the type code of `0` and the
/// literal's immediate field.
pub proof fn lemma_print_literal_shorthand(literal: Seq<char>)
    requires
        immediate_field(literal) is Some,
    ensures
        line_fault("PRT "@ + literal) is None,
        line_encoding("PRT "@ + literal) == "0000"@ + "0000"@ + "00"@ + immediate_field(
            literal,
        ).unwrap(),
{
    let line = "PRT "@ + literal;
    lemma_literal_shape(literal);
    lemma_print_tokens(literal);
    lemma_shorthand_codes();
}

/// `PRT`, a space and an operand without a space are two tokens.
proof fn lemma_print_tokens(operand: Seq<char>)
    requires
        !operand.contains(' '),
    ensures
        tokens("PRT "@ + operand) == seq!["PRT"@, operand],
{
    reveal_strlit("PRT ");
    reveal_strlit("PRT");
    let parts = seq!["PRT"@, operand];
    assert(!"PRT"@.contains(' '));
    lemma_split_joined(parts, ' ');
    assert(parts.drop_last() =~= seq!["PRT"@]);
    assert(joined(parts.drop_last(), ' ') == "PRT"@);
    assert(joined(parts, ' ') =~= "PRT "@ + operand);
}

/// What the four fields of a line are made of, whichever rule reads the
/// line: binary digits, four of them for the opcode, four or five for the
/// register, two for the type and from eight to thirty-three for the
/// immediate.
proof fn lemma_line_fields_shape(line: Seq<char>)
    requires
        line_fault(line) is None,
    ensures
        line_fields(line).opcode.len() == 4,
        line_fields(line).register.len() == 4 || line_fields(line).register.len() == 5,
        line_fields(line).type_tag.len() == 2,
        8 <= line_fields(line).immediate.len() <= 33,
        is_bit_string(line_fields(line).opcode),
        is_bit_string(line_fields(line).register),
        is_bit_string(line_fields(line).type_tag),
        is_bit_string(line_fields(line).immediate),
{
    let parts = tokens(line);
    let shorthand = is_print(line) && parts.len() == 2;
    let register = if !shorthand || begins_with(parts[1], '$') {
        parts[1]
    } else {
        "$0"@
    };
    let digit = if !shorthand {
        parts[2]
    } else if begins_with(parts[1], '$') {
        "2"@
    } else {
        "0"@
    };
    let literal = if !shorthand {
        parts[3]
    } else if begins_with(parts[1], '$') {
        "0"@
    } else {
        parts[1]
    };
    lemma_shorthand_codes();
    assert(line_fields(line).register == register_lookup(register).unwrap());
    assert(line_fields(line).type_tag == type_code(digit).unwrap());
    assert(line_fields(line).immediate == immediate_field(literal).unwrap());
    lemma_opcode_code_shape(parts[0]);
    lemma_register_code_shape(lowered(register));
    lemma_type_code_shape(digit);
    lemma_immediate_field_len(literal);
    lemma_immediate_field_is_bits(literal);
}

/// How the encoding of a line is laid out: four digits of opcode, four or
/// five of register, two of type, and from eight to thirty-three of
/// immediate.
pub proof fn lemma_encoding_layout(line: Seq<char>)
    requires
        line_fault(line) is None,
    ensures
        line_fields(line).opcode.len() == 4,
        line_fields(line).register.len() == 4 || line_fields(line).register.len() == 5,
        line_fields(line).type_tag.len() == 2,
        8 <= line_fields(line).immediate.len() <= 33,
        line_encoding(line).len() == 4 + line_fields(line).register.len() + 2 + line_fields(
            line,
        ).immediate.len(),
{
    lemma_line_fields_shape(line);
}

/// The encoding of a line is made of binary digits.
pub proof fn lemma_encoding_is_bits(line: Seq<char>)
    requires
        line_fault(line) is None,
    ensures
        is_bit_string(line_encoding(line)),
{
    lemma_line_fields_shape(line);
}

/// Encodes a line by the shorthand rule.
pub fn parse_print(line: String) -> (bits: String)
    requires
        print_fault(line@) is None,
    ensures
        bits@ == serialized(print_fields(line@)),
        is_bit_string(bits@),
{
    let parts = split_spaces(line.as_str());
    proof {
        lemma_split_on_tokens(line@, ' ');
        lemma_shorthand_codes();
    }
    let mut ins = Instruction::default();
    ins.parse_opcode(parts[0]);
    if parts.len() == 2 {
        if starts_with_char(parts[1], '$') {
            ins.parse_var(parts[1]);
            ins.parse_type("2");
            ins.parse_num("0");
            return ins.as_binary();
        } else {
            ins.parse_var("$0");
            ins.parse_type("0");
            ins.parse_num(parts[1]);
            return ins.as_binary();
        }
    }
    ins.line_to_binary(line)
}

/// Encodes a line: by the shorthand rule where its mnemonic is `PRT`, else
/// as opcode, register, type and immediate.
pub fn process_line(line: String) -> (bits: String)
    requires
        line_fault(line@) is None,
    ensures
        bits@ == line_encoding(line@),
        is_bit_string(bits@),
{
    let mut ins = Instruction::default();
    let parts = split_spaces(line.as_str());
    proof {
        lemma_split_on_tokens(line@, ' ');
    }
    if str_eq(parts[0], "PRT") {
        parse_print(line)
    } else {
        ins.line_to_binary(line)
    }
}

/// Says whether a line can be encoded by the shorthand rule, and if not, what
/// is wrong with it.
pub fn validate_print(line: &str) -> (verdict: Result<(), EncodeError>)
    ensures
        verdict is Ok <==> print_fault(line@) is None,
        verdict matches Err(fault) ==> print_fault(line@) == Some(fault),
{
    let parts = split_spaces(line);
    proof {
        lemma_split_on_tokens(line@, ' ');
    }
    if lookup_opcode(parts[0]).is_none() {
        return Err(EncodeError::UnknownOpcode);
    }
    if parts.len() == 2 {
        if starts_with_char(parts[1], '$') {
            if lookup_register(parts[1]).is_none() {
                return Err(EncodeError::UnknownRegister);
            }
        } else if parse_i32(parts[1]).is_none() {
            return Err(EncodeError::InvalidImmediate);
        }
        return Ok(());
    }
    validate_fields(&parts)
}

/// Says whether a line can be encoded, and if not, what is wrong with it.
pub fn validate_line(line: &str) -> (verdict: Result<(), EncodeError>)
    ensures
        verdict is Ok <==> line_fault(line@) is None,
        verdict matches Err(fault) ==> line_fault(line@) == Some(fault),
{
    let parts = split_spaces(line);
    proof {
        lemma_split_on_tokens(line@, ' ');
    }
    if str_eq(parts[0], "PRT") {
        validate_print(line)
    } else {
        validate_fields(&parts)
    }
}

} // verus!
