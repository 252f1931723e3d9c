//! The three field tables: mnemonic to opcode, register token to register
//! code, type digit to type code. The tables are fixed; a token that is not in
//! a table has no code.

use crate::text::{chars_of, is_bit_string, lower_char, lowered, str_eq, to_lower_char};
use vstd::prelude::*;

verus! {

/// The opcode table: eleven mnemonics, numbered in four binary digits in the
/// order in which they are listed.
pub open spec fn opcode_code(mnemonic: Seq<char>) -> Option<Seq<char>> {
    if mnemonic == "PRT"@ {
        Some("0000"@)
    } else if mnemonic == "SET"@ {
        Some("0001"@)
    } else if mnemonic == "ADD"@ {
        Some("0010"@)
    } else if mnemonic == "SUB"@ {
        Some("0011"@)
    } else if mnemonic == "MUL"@ {
        Some("0100"@)
    } else if mnemonic == "DIV"@ {
        Some("0101"@)
    } else if mnemonic == "JMP"@ {
        Some("0110"@)
    } else if mnemonic == "JNP"@ {
        Some("0111"@)
    } else if mnemonic == "EQL"@ {
        Some("1000"@)
    } else if mnemonic == "CBP"@ {
        Some("1001"@)
    } else if mnemonic == "CLP"@ {
        Some("1010"@)
    } else {
        None
    }
}

/// The register table, keyed by the lower-case register token. Every register
/// has a code of four binary digits but `$a`, whose code has five.
pub open spec fn register_code(key: Seq<char>) -> Option<Seq<char>> {
    if key == "$0"@ {
        Some("0000"@)
    } else if key == "$1"@ {
        Some("0001"@)
    } else if key == "$2"@ {
        Some("0010"@)
    } else if key == "$3"@ {
        Some("0011"@)
    } else if key == "$4"@ {
        Some("0100"@)
    } else if key == "$5"@ {
        Some("0101"@)
    } else if key == "$6"@ {
        Some("0110"@)
    } else if key == "$7"@ {
        Some("0111"@)
    } else if key == "$8"@ {
        Some("1000"@)
    } else if key == "$9"@ {
        Some("1001"@)
    } else if key == "$a"@ {
        Some("10010"@)
    } else if key == "$b"@ {
        Some("1011"@)
    } else if key == "$c"@ {
        Some("1100"@)
    } else if key == "$d"@ {
        Some("1101"@)
    } else if key == "$e"@ {
        Some("1110"@)
    } else if key == "$f"@ {
        Some("1111"@)
    } else {
        None
    }
}

/// The code of a register token as written in a source line: the token is
/// put in lower case, then looked up.
pub open spec fn register_lookup(token: Seq<char>) -> Option<Seq<char>> {
    register_code(lowered(token))
}

/// The type table: the digits `0` to `3`, in two binary digits.
pub open spec fn type_code(digit: Seq<char>) -> Option<Seq<char>> {
    if digit == "0"@ {
        Some("00"@)
    } else if digit == "1"@ {
        Some("01"@)
    } else if digit == "2"@ {
        Some("10"@)
    } else if digit == "3"@ {
        Some("11"@)
    } else {
        None
    }
}

/// The characters of a code that a lookup found, if it found one.
pub open spec fn code_view(code: Option<&str>) -> Option<Seq<char>> {
    match code {
        Some(c) => Some(c@),
        None => None,
    }
}

/// Whether two tokens are the same but for the case of their ASCII letters.
pub open spec fn same_ignoring_case(a: Seq<char>, b: Seq<char>) -> bool {
    &&& a.len() == b.len()
    &&& forall|i: int| 0 <= i < a.len() ==> lower_char(#[trigger] a[i]) == lower_char(b[i])
}

/// What the mnemonics are made of.
proof fn lemma_mnemonic_literals()
    ensures
        "PRT"@ == seq!['P', 'R', 'T'],
        "SET"@ == seq!['S', 'E', 'T'],
        "ADD"@ == seq!['A', 'D', 'D'],
        "SUB"@ == seq!['S', 'U', 'B'],
        "MUL"@ == seq!['M', 'U', 'L'],
        "DIV"@ == seq!['D', 'I', 'V'],
        "JMP"@ == seq!['J', 'M', 'P'],
        "JNP"@ == seq!['J', 'N', 'P'],
        "EQL"@ == seq!['E', 'Q', 'L'],
        "CBP"@ == seq!['C', 'B', 'P'],
        "CLP"@ == seq!['C', 'L', 'P'],
{
    reveal_strlit("PRT");
    reveal_strlit("SET");
    reveal_strlit("ADD");
    reveal_strlit("SUB");
    reveal_strlit("MUL");
    reveal_strlit("DIV");
    reveal_strlit("JMP");
    reveal_strlit("JNP");
    reveal_strlit("EQL");
    reveal_strlit("CBP");
    reveal_strlit("CLP");
    assert("PRT"@ =~= seq!['P', 'R', 'T']);
    assert("SET"@ =~= seq!['S', 'E', 'T']);
    assert("ADD"@ =~= seq!['A', 'D', 'D']);
    assert("SUB"@ =~= seq!['S', 'U', 'B']);
    assert("MUL"@ =~= seq!['M', 'U', 'L']);
    assert("DIV"@ =~= seq!['D', 'I', 'V']);
    assert("JMP"@ =~= seq!['J', 'M', 'P']);
    assert("JNP"@ =~= seq!['J', 'N', 'P']);
    assert("EQL"@ =~= seq!['E', 'Q', 'L']);
    assert("CBP"@ =~= seq!['C', 'B', 'P']);
    assert("CLP"@ =~= seq!['C', 'L', 'P']);
}

/// What the keys of the register table are made of: the sigil `$` and one
/// lower-case hexadecimal digit.
proof fn lemma_register_keys()
    ensures
        "$0"@ == seq!['$', '0'],
        "$1"@ == seq!['$', '1'],
        "$2"@ == seq!['$', '2'],
        "$3"@ == seq!['$', '3'],
        "$4"@ == seq!['$', '4'],
        "$5"@ == seq!['$', '5'],
        "$6"@ == seq!['$', '6'],
        "$7"@ == seq!['$', '7'],
        "$8"@ == seq!['$', '8'],
        "$9"@ == seq!['$', '9'],
        "$a"@ == seq!['$', 'a'],
        "$b"@ == seq!['$', 'b'],
        "$c"@ == seq!['$', 'c'],
        "$d"@ == seq!['$', 'd'],
        "$e"@ == seq!['$', 'e'],
        "$f"@ == seq!['$', 'f'],
{
    reveal_strlit("$0");
    reveal_strlit("$1");
    reveal_strlit("$2");
    reveal_strlit("$3");
    reveal_strlit("$4");
    reveal_strlit("$5");
    reveal_strlit("$6");
    reveal_strlit("$7");
    reveal_strlit("$8");
    reveal_strlit("$9");
    reveal_strlit("$a");
    reveal_strlit("$b");
    reveal_strlit("$c");
    reveal_strlit("$d");
    reveal_strlit("$e");
    reveal_strlit("$f");
    assert("$0"@ =~= seq!['$', '0']);
    assert("$1"@ =~= seq!['$', '1']);
    assert("$2"@ =~= seq!['$', '2']);
    assert("$3"@ =~= seq!['$', '3']);
    assert("$4"@ =~= seq!['$', '4']);
    assert("$5"@ =~= seq!['$', '5']);
    assert("$6"@ =~= seq!['$', '6']);
    assert("$7"@ =~= seq!['$', '7']);
    assert("$8"@ =~= seq!['$', '8']);
    assert("$9"@ =~= seq!['$', '9']);
    assert("$a"@ =~= seq!['$', 'a']);
    assert("$b"@ =~= seq!['$', 'b']);
    assert("$c"@ =~= seq!['$', 'c']);
    assert("$d"@ =~= seq!['$', 'd']);
    assert("$e"@ =~= seq!['$', 'e']);
    assert("$f"@ =~= seq!['$', 'f']);
}

/// What the codes of the three tables are made of.
proof fn lemma_code_literals()
    ensures
        "0000"@ == seq!['0', '0', '0', '0'],
        "0001"@ == seq!['0', '0', '0', '1'],
        "0010"@ == seq!['0', '0', '1', '0'],
        "0011"@ == seq!['0', '0', '1', '1'],
        "0100"@ == seq!['0', '1', '0', '0'],
        "0101"@ == seq!['0', '1', '0', '1'],
        "0110"@ == seq!['0', '1', '1', '0'],
        "0111"@ == seq!['0', '1', '1', '1'],
        "1000"@ == seq!['1', '0', '0', '0'],
        "1001"@ == seq!['1', '0', '0', '1'],
        "1010"@ == seq!['1', '0', '1', '0'],
        "1011"@ == seq!['1', '0', '1', '1'],
        "1100"@ == seq!['1', '1', '0', '0'],
        "1101"@ == seq!['1', '1', '0', '1'],
        "1110"@ == seq!['1', '1', '1', '0'],
        "1111"@ == seq!['1', '1', '1', '1'],
        "10010"@ == seq!['1', '0', '0', '1', '0'],
        "00"@ == seq!['0', '0'],
        "01"@ == seq!['0', '1'],
        "10"@ == seq!['1', '0'],
        "11"@ == seq!['1', '1'],
{
    reveal_strlit("0000");
    reveal_strlit("0001");
    reveal_strlit("0010");
    reveal_strlit("0011");
    reveal_strlit("0100");
    reveal_strlit("0101");
    reveal_strlit("0110");
    reveal_strlit("0111");
    reveal_strlit("1000");
    reveal_strlit("1001");
    reveal_strlit("1010");
    reveal_strlit("1011");
    reveal_strlit("1100");
    reveal_strlit("1101");
    reveal_strlit("1110");
    reveal_strlit("1111");
    reveal_strlit("10010");
    reveal_strlit("00");
    reveal_strlit("01");
    reveal_strlit("10");
    reveal_strlit("11");
    assert("0000"@ =~= seq!['0', '0', '0', '0']);
    assert("0001"@ =~= seq!['0', '0', '0', '1']);
    assert("0010"@ =~= seq!['0', '0', '1', '0']);
    assert("0011"@ =~= seq!['0', '0', '1', '1']);
    assert("0100"@ =~= seq!['0', '1', '0', '0']);
    assert("0101"@ =~= seq!['0', '1', '0', '1']);
    assert("0110"@ =~= seq!['0', '1', '1', '0']);
    assert("0111"@ =~= seq!['0', '1', '1', '1']);
    assert("1000"@ =~= seq!['1', '0', '0', '0']);
    assert("1001"@ =~= seq!['1', '0', '0', '1']);
    assert("1010"@ =~= seq!['1', '0', '1', '0']);
    assert("1011"@ =~= seq!['1', '0', '1', '1']);
    assert("1100"@ =~= seq!['1', '1', '0', '0']);
    assert("1101"@ =~= seq!['1', '1', '0', '1']);
    assert("1110"@ =~= seq!['1', '1', '1', '0']);
    assert("1111"@ =~= seq!['1', '1', '1', '1']);
    assert("10010"@ =~= seq!['1', '0', '0', '1', '0']);
    assert("00"@ =~= seq!['0', '0']);
    assert("01"@ =~= seq!['0', '1']);
    assert("10"@ =~= seq!['1', '0']);
    assert("11"@ =~= seq!['1', '1']);
}

/// A mnemonic has three characters, none of them a space.
pub proof fn lemma_mnemonic_shape(mnemonic: Seq<char>)
    requires
        opcode_code(mnemonic) is Some,
    ensures
        mnemonic.len() == 3,
        !mnemonic.contains(' '),
{
    lemma_mnemonic_literals();
}

/// A register token is the sigil `$` and one more character, which is no
/// space.
pub proof fn lemma_register_token_shape(token: Seq<char>)
    requires
        register_lookup(token) is Some,
    ensures
        token.len() == 2,
        token[0] == '$',
        !token.contains(' '),
{
    lemma_register_keys();
    let key = lowered(token);
    assert(key.len() == token.len());
    assert(key.len() == 2);
    assert(key[0] == lower_char(token[0]));
    assert(key[1] == lower_char(token[1]));
}

/// A type digit is one character, which is no space.
pub proof fn lemma_type_digit_shape(digit: Seq<char>)
    requires
        type_code(digit) is Some,
    ensures
        digit.len() == 1,
        !digit.contains(' '),
{
    reveal_strlit("0");
    reveal_strlit("1");
    reveal_strlit("2");
    reveal_strlit("3");
}

/// Every opcode has a code of four binary digits.
pub proof fn lemma_opcode_code_shape(mnemonic: Seq<char>)
    requires
        opcode_code(mnemonic) is Some,
    ensures
        opcode_code(mnemonic).unwrap().len() == 4,
        is_bit_string(opcode_code(mnemonic).unwrap()),
{
    lemma_code_literals();
}

/// Every register has a code of binary digits: five of them for `$a`, four
/// for any other register.
pub proof fn lemma_register_code_shape(key: Seq<char>)
    requires
        register_code(key) is Some,
    ensures
        register_code(key).unwrap().len() == (if key == "$a"@ {
            5int
        } else {
            4int
        }),
        is_bit_string(register_code(key).unwrap()),
{
    lemma_code_literals();
    lemma_register_keys();
}

/// Every type digit has a code of two binary digits.
pub proof fn lemma_type_code_shape(digit: Seq<char>)
    requires
        type_code(digit) is Some,
    ensures
        type_code(digit).unwrap().len() == 2,
        is_bit_string(type_code(digit).unwrap()),
{
    lemma_code_literals();
}

/// Register lookup does not look at the case of letters: two tokens that
/// differ in nothing else have the same code, or both have none.
pub proof fn lemma_register_lookup_ignores_case(a: Seq<char>, b: Seq<char>)
    requires
        same_ignoring_case(a, b),
    ensures
        register_lookup(a) == register_lookup(b),
{
    assert(lowered(a) =~= lowered(b));
}

/// The code of a register token has five digits where the token is `$a` or
/// `$A`, and four digits for every other register token.
pub proof fn lemma_register_code_width(token: Seq<char>)
    requires
        register_lookup(token) is Some,
    ensures
        register_lookup(token).unwrap().len() == (if token == "$a"@ || token == "$A"@ {
            5int
        } else {
            4int
        }),
{
    lemma_register_code_shape(lowered(token));
    lemma_register_token_shape(token);
    lemma_register_keys();
    reveal_strlit("$A");
    let key = lowered(token);
    assert(key[1] == lower_char(token[1]));
    if token == "$a"@ || token == "$A"@ {
        assert(key =~= "$a"@);
    } else if key == "$a"@ {
        assert(token[1] == 'a' || token[1] == 'A');
        assert(token =~= "$a"@ || token =~= "$A"@);
    }
}

/// Looks a mnemonic up in the opcode table.
pub fn lookup_opcode(mnemonic: &str) -> (code: Option<&'static str>)
    ensures
        code_view(code) == opcode_code(mnemonic@),
{
    if str_eq(mnemonic, "PRT") {
        Some("0000")
    } else if str_eq(mnemonic, "SET") {
        Some("0001")
    } else if str_eq(mnemonic, "ADD") {
        Some("0010")
    } else if str_eq(mnemonic, "SUB") {
        Some("0011")
    } else if str_eq(mnemonic, "MUL") {
        Some("0100")
    } else if str_eq(mnemonic, "DIV") {
        Some("0101")
    } else if str_eq(mnemonic, "JMP") {
        Some("0110")
    } else if str_eq(mnemonic, "JNP") {
        Some("0111")
    } else if str_eq(mnemonic, "EQL") {
        Some("1000")
    } else if str_eq(mnemonic, "CBP") {
        Some("1001")
    } else if str_eq(mnemonic, "CLP") {
        Some("1010")
    } else {
        None
    }
}

/// Looks a register token up in the register table, whatever the case of its
/// letter.
pub fn lookup_register(token: &str) -> (code: Option<&'static str>)
    ensures
        code_view(code) == register_lookup(token@),
{
    let chars = chars_of(token);
    proof {
        lemma_register_keys();
    }
    if chars.len() != 2 || chars[0] != '$' {
        assert(lowered(token@).len() != 2 || lowered(token@)[0] != '$');
        return None;
    }
    let digit = to_lower_char(chars[1]);
    assert(lowered(token@) =~= seq!['$', digit]);
    if digit == '0' {
        Some("0000")
    } else if digit == '1' {
        Some("0001")
    } else if digit == '2' {
        Some("0010")
    } else if digit == '3' {
        Some("0011")
    } else if digit == '4' {
        Some("0100")
    } else if digit == '5' {
        Some("0101")
    } else if digit == '6' {
        Some("0110")
    } else if digit == '7' {
        Some("0111")
    } else if digit == '8' {
        Some("1000")
    } else if digit == '9' {
        Some("1001")
    } else if digit == 'a' {
        Some("10010")
    } else if digit == 'b' {
        Some("1011")
    } else if digit == 'c' {
        Some("1100")
    } else if digit == 'd' {
        Some("1101")
    } else if digit == 'e' {
        Some("1110")
    } else if digit == 'f' {
        Some("1111")
    } else {
        assert(lowered(token@)[1] == digit);
        None
    }
}

/// Looks a type digit up in the type table.
pub fn lookup_type(digit: &str) -> (code: Option<&'static str>)
    ensures
        code_view(code) == type_code(digit@),
{
    if str_eq(digit, "0") {
        Some("00")
    } else if str_eq(digit, "1") {
        Some("01")
    } else if str_eq(digit, "2") {
        Some("10")
    } else if str_eq(digit, "3") {
        Some("11")
    } else {
        None
    }
}

} // verus!
