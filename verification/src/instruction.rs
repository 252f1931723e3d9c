//! One instruction: four fields, each empty until it is set, written out one
//! after another as a single string of binary digits.

use crate::immediate::{
    encode_immediate, immediate_field, lemma_immediate_field_is_bits, parse_i32,
};
use crate::tables::{
    lemma_opcode_code_shape, lemma_register_code_shape, lemma_type_code_shape, lookup_opcode,
    lookup_register, lookup_type, opcode_code, register_lookup, type_code,
};
use crate::text::{is_bit_string, lemma_split_on_tokens, lowered, split_spaces, tokens, views};
use vstd::prelude::*;
use vstd::string::StringExecFns;

verus! {

/// One of the four fields of an instruction, in the order in which a line
/// names them and in which they are written out.
#[derive(Clone, Copy, Debug, PartialEq, Eq, Structural)]
pub enum Field {
    Opcode,
    Register,
    Type,
    Immediate,
}

/// Why a list of tokens cannot be encoded.
#[derive(Clone, Copy, Debug, PartialEq, Eq, Structural)]
pub enum EncodeError {
    /// The mnemonic is not in the opcode table.
    UnknownOpcode,
    /// The register token is not in the register table.
    UnknownRegister,
    /// The type digit is not in the type table.
    UnknownType,
    /// The literal stands for no signed 32-bit number.
    InvalidImmediate,
    /// The line has no token for this field.
    MissingToken(Field),
}

/// What an instruction holds: the binary digits of each field, or nothing
/// where the field has not been set.
pub struct Fields {
    pub opcode: Seq<char>,
    pub register: Seq<char>,
    pub type_tag: Seq<char>,
    pub immediate: Seq<char>,
}

/// The four fields written one after another, with nothing between them.
pub open spec fn serialized(fields: Fields) -> Seq<char> {
    fields.opcode + fields.register + fields.type_tag + fields.immediate
}

impl Field {
    /// The place of this field's token in a line, counted from zero.
    pub open spec fn position(self) -> int {
        match self {
            Field::Opcode => 0,
            Field::Register => 1,
            Field::Type => 2,
            Field::Immediate => 3,
        }
    }

    /// The code that `token` gives this field, or `None` where the token is
    /// not one that the field accepts.
    pub open spec fn code(self, token: Seq<char>) -> Option<Seq<char>> {
        match self {
            Field::Opcode => opcode_code(token),
            Field::Register => register_lookup(token),
            Field::Type => type_code(token),
            Field::Immediate => immediate_field(token),
        }
    }

    /// The text of the diagnostic for a line that has no token for this
    /// field.
    pub open spec fn missing_text(self) -> Seq<char> {
        match self {
            Field::Opcode => "ERROR: Provided line didn't contain any opcode"@,
            Field::Register => "ERROR: Provided line didn't contain any var"@,
            Field::Type => "ERROR: Provided line didn't contain any type"@,
            Field::Immediate => "ERROR: Provided line didn't contain any num"@,
        }
    }

    /// The diagnostic for a line that has no token for this field.
    pub fn missing_message(self) -> (message: &'static str)
        ensures
            message@ == self.missing_text(),
    {
        match self {
            Field::Opcode => "ERROR: Provided line didn't contain any opcode",
            Field::Register => "ERROR: Provided line didn't contain any var",
            Field::Type => "ERROR: Provided line didn't contain any type",
            Field::Immediate => "ERROR: Provided line didn't contain any num",
        }
    }
}

impl Fields {
    /// These fields with `field` set to `code`.
    pub open spec fn with(self, field: Field, code: Seq<char>) -> Fields {
        match field {
            Field::Opcode => Fields { opcode: code, ..self },
            Field::Register => Fields { register: code, ..self },
            Field::Type => Fields { type_tag: code, ..self },
            Field::Immediate => Fields { immediate: code, ..self },
        }
    }

    /// No field set.
    pub open spec fn empty() -> Fields {
        Fields {
            opcode: Seq::empty(),
            register: Seq::empty(),
            type_tag: Seq::empty(),
            immediate: Seq::empty(),
        }
    }
}

/// The first thing that keeps a list of tokens from being encoded as opcode,
/// register, type and immediate, going through the fields in order; `None`
/// where nothing does. Tokens after the fourth are not looked at.
pub open spec fn fields_fault(parts: Seq<Seq<char>>) -> Option<EncodeError> {
    if parts.len() < 1 {
        Some(EncodeError::MissingToken(Field::Opcode))
    } else if opcode_code(parts[0]) is None {
        Some(EncodeError::UnknownOpcode)
    } else if parts.len() < 2 {
        Some(EncodeError::MissingToken(Field::Register))
    } else if register_lookup(parts[1]) is None {
        Some(EncodeError::UnknownRegister)
    } else if parts.len() < 3 {
        Some(EncodeError::MissingToken(Field::Type))
    } else if type_code(parts[2]) is None {
        Some(EncodeError::UnknownType)
    } else if parts.len() < 4 {
        Some(EncodeError::MissingToken(Field::Immediate))
    } else if immediate_field(parts[3]) is None {
        Some(EncodeError::InvalidImmediate)
    } else {
        None
    }
}

/// The fields that the first four tokens give, each token read as the field
/// at its place.
pub open spec fn parsed_fields(parts: Seq<Seq<char>>) -> Fields {
    Fields {
        opcode: opcode_code(parts[0]).unwrap(),
        register: register_lookup(parts[1]).unwrap(),
        type_tag: type_code(parts[2]).unwrap(),
        immediate: immediate_field(parts[3]).unwrap(),
    }
}

/// Whether a line has a token at the place of `field`.
pub open spec fn line_has(field: Field, line: Seq<char>) -> bool {
    tokens(line).len() > field.position()
}

/// What setting `field` from a line leaves of `fields`: the field set from the
/// token at its place, or `fields` unchanged where the line has no such
/// token.
pub open spec fn set_from_line(fields: Fields, field: Field, line: Seq<char>) -> Fields {
    if line_has(field, line) {
        fields.with(field, field.code(tokens(line)[field.position()]).unwrap())
    } else {
        fields
    }
}

/// Whether `code` is what `field` can hold: nothing, or the code that some
/// token gives it.
pub open spec fn is_field_code(field: Field, code: Seq<char>) -> bool {
    code.len() == 0 || exists|token: Seq<char>| field.code(token) == Some(code)
}

/// Whether each of the four fields holds what it can hold.
pub open spec fn well_formed(fields: Fields) -> bool {
    &&& is_field_code(Field::Opcode, fields.opcode)
    &&& is_field_code(Field::Register, fields.register)
    &&& is_field_code(Field::Type, fields.type_tag)
    &&& is_field_code(Field::Immediate, fields.immediate)
}

/// What a field can hold is made of binary digits.
pub proof fn lemma_field_code_is_bits(field: Field, code: Seq<char>)
    requires
        is_field_code(field, code),
    ensures
        is_bit_string(code),
{
    if code.len() > 0 {
        let token = choose|token: Seq<char>| field.code(token) == Some(code);
        match field {
            Field::Opcode => lemma_opcode_code_shape(token),
            Field::Register => lemma_register_code_shape(lowered(token)),
            Field::Type => lemma_type_code_shape(token),
            Field::Immediate => lemma_immediate_field_is_bits(token),
        }
    }
}

/// An instruction under construction. Each field is empty or holds a code
/// from its table (the immediate: the field of some literal).
pub struct Instruction {
    opcode: String,
    var: String,
    ins_type: String,
    num: String,
}

impl View for Instruction {
    type V = Fields;

    closed spec fn view(&self) -> Fields {
        Fields {
            opcode: self.opcode@,
            register: self.var@,
            type_tag: self.ins_type@,
            immediate: self.num@,
        }
    }
}

impl Instruction {
    #[verifier::type_invariant]
    spec fn holds_codes(&self) -> bool {
        well_formed(self@)
    }

    /// An instruction with no field set.
    pub fn default() -> (ins: Instruction)
        ensures
            ins@ == Fields::empty(),
            well_formed(ins@),
    {
        Instruction {
            opcode: String::new(),
            var: String::new(),
            ins_type: String::new(),
            num: String::new(),
        }
    }

    /// Sets the opcode field from a mnemonic.
    pub fn parse_opcode(&mut self, opcode: &str)
        requires
            opcode_code(opcode@) is Some,
        ensures
            final(self)@ == old(self)@.with(Field::Opcode, opcode_code(opcode@).unwrap()),
            well_formed(final(self)@),
    {
        proof {
            use_type_invariant(&*self);
        }
        let code = String::from_str(lookup_opcode(opcode).unwrap());
        assert(Field::Opcode.code(opcode@) == Some(code@));
        self.opcode = code;
    }

    /// Sets the register field from a register token, whatever the case of
    /// its letter.
    pub fn parse_var(&mut self, var: &str)
        requires
            register_lookup(var@) is Some,
        ensures
            final(self)@ == old(self)@.with(Field::Register, register_lookup(var@).unwrap()),
            well_formed(final(self)@),
    {
        proof {
            use_type_invariant(&*self);
        }
        let code = String::from_str(lookup_register(var).unwrap());
        assert(Field::Register.code(var@) == Some(code@));
        self.var = code;
    }

    /// Sets the type field from a type digit.
    pub fn parse_type(&mut self, raw_type: &str)
        requires
            type_code(raw_type@) is Some,
        ensures
            final(self)@ == old(self)@.with(Field::Type, type_code(raw_type@).unwrap()),
            well_formed(final(self)@),
    {
        proof {
            use_type_invariant(&*self);
        }
        let code = String::from_str(lookup_type(raw_type).unwrap());
        assert(Field::Type.code(raw_type@) == Some(code@));
        self.ins_type = code;
    }

    /// Sets the immediate field from a decimal literal.
    pub fn parse_num(&mut self, num: &str)
        requires
            immediate_field(num@) is Some,
        ensures
            final(self)@ == old(self)@.with(Field::Immediate, immediate_field(num@).unwrap()),
            well_formed(final(self)@),
    {
        proof {
            use_type_invariant(&*self);
        }
        let code = encode_immediate(num).unwrap();
        assert(Field::Immediate.code(num@) == Some(code@));
        self.num = code;
    }

    /// The four fields written one after another.
    pub fn as_binary(&self) -> (bits: String)
        ensures
            bits@ == serialized(self@),
            well_formed(self@),
            is_bit_string(bits@),
    {
        proof {
            use_type_invariant(self);
            lemma_field_code_is_bits(Field::Opcode, self@.opcode);
            lemma_field_code_is_bits(Field::Register, self@.register);
            lemma_field_code_is_bits(Field::Type, self@.type_tag);
            lemma_field_code_is_bits(Field::Immediate, self@.immediate);
        }
        let mut bits = String::new();
        bits.append(self.opcode.as_str());
        bits.append(self.var.as_str());
        bits.append(self.ins_type.as_str());
        bits.append(self.num.as_str());
        assert(bits@ =~= serialized(self@));
        bits
    }

    /// Sets the opcode field from the first token of a line. A line always
    /// has a first token, so this never reports a missing one.
    pub fn parse_opcode_from_line(&mut self, line: String) -> (found: Result<(), Field>)
        requires
            opcode_code(tokens(line@)[0]) is Some,
        ensures
            found is Ok,
            line_has(Field::Opcode, line@),
            final(self)@ == set_from_line(old(self)@, Field::Opcode, line@),
            well_formed(final(self)@),
    {
        proof {
            use_type_invariant(&*self);
            lemma_split_on_tokens(line@, ' ');
        }
        let parts = split_spaces(line.as_str());
        if parts.len() > 0 {
            self.parse_opcode(parts[0]);
            Ok(())
        } else {
            Err(Field::Opcode)
        }
    }

    /// Sets the register field from the second token of a line. Where the
    /// line has no second token, the instruction is left as it is and the
    /// missing field is reported.
    pub fn parse_var_from_line(&mut self, line: String) -> (found: Result<(), Field>)
        requires
            line_has(Field::Register, line@) ==> register_lookup(tokens(line@)[1]) is Some,
        ensures
            found == (if line_has(Field::Register, line@) {
                Ok::<(), Field>(())
            } else {
                Err(Field::Register)
            }),
            final(self)@ == set_from_line(old(self)@, Field::Register, line@),
            well_formed(final(self)@),
    {
        proof {
            use_type_invariant(&*self);
        }
        let parts = split_spaces(line.as_str());
        if parts.len() > 1 {
            self.parse_var(parts[1]);
            Ok(())
        } else {
            Err(Field::Register)
        }
    }

    /// Sets the type field from the third token of a line. Where the line has
    /// no third token, the instruction is left as it is and the missing field
    /// is reported.
    pub fn parse_type_from_line(&mut self, line: String) -> (found: Result<(), Field>)
        requires
            line_has(Field::Type, line@) ==> type_code(tokens(line@)[2]) is Some,
        ensures
            found == (if line_has(Field::Type, line@) {
                Ok::<(), Field>(())
            } else {
                Err(Field::Type)
            }),
            final(self)@ == set_from_line(old(self)@, Field::Type, line@),
            well_formed(final(self)@),
    {
        proof {
            use_type_invariant(&*self);
        }
        let parts = split_spaces(line.as_str());
        if parts.len() > 2 {
            self.parse_type(parts[2]);
            Ok(())
        } else {
            Err(Field::Type)
        }
    }

    /// Sets the immediate field from the fourth token of a line. Where the
    /// line has no fourth token, the instruction is left as it is and the
    /// missing field is reported.
    pub fn parse_num_from_line(&mut self, line: String) -> (found: Result<(), Field>)
        requires
            line_has(Field::Immediate, line@) ==> immediate_field(tokens(line@)[3]) is Some,
        ensures
            found == (if line_has(Field::Immediate, line@) {
                Ok::<(), Field>(())
            } else {
                Err(Field::Immediate)
            }),
            final(self)@ == set_from_line(old(self)@, Field::Immediate, line@),
            well_formed(final(self)@),
    {
        proof {
            use_type_invariant(&*self);
        }
        let parts = split_spaces(line.as_str());
        if parts.len() > 3 {
            self.parse_num(parts[3]);
            Ok(())
        } else {
            Err(Field::Immediate)
        }
    }

    /// Sets all four fields from the first four tokens of a line.
    pub fn parse(&mut self, line: String)
        requires
            fields_fault(tokens(line@)) is None,
        ensures
            final(self)@ == parsed_fields(tokens(line@)),
            well_formed(final(self)@),
    {
        let parts = split_spaces(line.as_str());
        self.parse_opcode(parts[0]);
        self.parse_var(parts[1]);
        self.parse_type(parts[2]);
        self.parse_num(parts[3]);
    }

    /// Sets all four fields from the first four of a list of tokens.
    pub fn parse_from_vec(&mut self, parts: Vec<&str>)
        requires
            fields_fault(views(parts@)) is None,
        ensures
            final(self)@ == parsed_fields(views(parts@)),
            well_formed(final(self)@),
    {
        self.parse_opcode(parts[0]);
        self.parse_var(parts[1]);
        self.parse_type(parts[2]);
        self.parse_num(parts[3]);
    }

    /// Sets all four fields from a line and writes them out.
    pub fn line_to_binary(&mut self, line: String) -> (bits: String)
        requires
            fields_fault(tokens(line@)) is None,
        ensures
            final(self)@ == parsed_fields(tokens(line@)),
            bits@ == serialized(parsed_fields(tokens(line@))),
            well_formed(final(self)@),
            is_bit_string(bits@),
    {
        self.parse(line);
        self.as_binary()
    }
}

/// Says whether a list of tokens can be encoded as opcode, register, type and
/// immediate, and if not, what is wrong with the first field that fails.
pub fn validate_fields(parts: &Vec<&str>) -> (verdict: Result<(), EncodeError>)
    ensures
        verdict is Ok <==> fields_fault(views(parts@)) is None,
        verdict matches Err(fault) ==> fields_fault(views(parts@)) == Some(fault),
{
    if parts.len() < 1 {
        return Err(EncodeError::MissingToken(Field::Opcode));
    }
    if lookup_opcode(parts[0]).is_none() {
        return Err(EncodeError::UnknownOpcode);
    }
    if parts.len() < 2 {
        return Err(EncodeError::MissingToken(Field::Register));
    }
    if lookup_register(parts[1]).is_none() {
        return Err(EncodeError::UnknownRegister);
    }
    if parts.len() < 3 {
        return Err(EncodeError::MissingToken(Field::Type));
    }
    if lookup_type(parts[2]).is_none() {
        return Err(EncodeError::UnknownType);
    }
    if parts.len() < 4 {
        return Err(EncodeError::MissingToken(Field::Immediate));
    }
    if parse_i32(parts[3]).is_none() {
        return Err(EncodeError::InvalidImmediate);
    }
    Ok(())
}

} // verus!
