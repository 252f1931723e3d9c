use assembler::tables::{lookup_opcode, lookup_register, lookup_type};

#[test]
fn opcode_table_has_eleven_mnemonics_in_order() {
    let table = [
        ("PRT", "0000"),
        ("SET", "0001"),
        ("ADD", "0010"),
        ("SUB", "0011"),
        ("MUL", "0100"),
        ("DIV", "0101"),
        ("JMP", "0110"),
        ("JNP", "0111"),
        ("EQL", "1000"),
        ("CBP", "1001"),
        ("CLP", "1010"),
    ];
    for (index, (mnemonic, code)) in table.iter().enumerate() {
        assert_eq!(lookup_opcode(mnemonic), Some(*code));
        assert_eq!(format!("{:04b}", index), *code);
    }
}

#[test]
fn opcode_lookup_is_exact() {
    assert_eq!(lookup_opcode("prt"), None);
    assert_eq!(lookup_opcode("PRT "), None);
    assert_eq!(lookup_opcode(" PRT"), None);
    assert_eq!(lookup_opcode("PR"), None);
    assert_eq!(lookup_opcode("PRTT"), None);
    assert_eq!(lookup_opcode(""), None);
    assert_eq!(lookup_opcode("NOP"), None);
    assert_eq!(lookup_opcode("\u{c0}DD"), None);
}

#[test]
fn register_table_has_sixteen_registers() {
    let table = [
        ("$0", "0000"),
        ("$1", "0001"),
        ("$2", "0010"),
        ("$3", "0011"),
        ("$4", "0100"),
        ("$5", "0101"),
        ("$6", "0110"),
        ("$7", "0111"),
        ("$8", "1000"),
        ("$9", "1001"),
        ("$a", "10010"),
        ("$b", "1011"),
        ("$c", "1100"),
        ("$d", "1101"),
        ("$e", "1110"),
        ("$f", "1111"),
    ];
    for (token, code) in table.iter() {
        assert_eq!(lookup_register(token), Some(*code));
    }
}

#[test]
fn register_lookup_ignores_case() {
    assert_eq!(lookup_register("$A"), Some("10010"));
    assert_eq!(lookup_register("$a"), Some("10010"));
    assert_eq!(lookup_register("$A"), lookup_register("$a"));
    for letter in ['a', 'b', 'c', 'd', 'e', 'f'] {
        let lower = format!("${}", letter);
        let upper = format!("${}", letter.to_ascii_uppercase());
        assert!(lookup_register(&lower).is_some());
        assert_eq!(lookup_register(&upper), lookup_register(&lower));
    }
}

#[test]
fn register_a_alone_has_five_digits() {
    for token in ["$a", "$A"] {
        assert_eq!(lookup_register(token).unwrap().len(), 5);
    }
    for token in [
        "$0", "$1", "$2", "$3", "$4", "$5", "$6", "$7", "$8", "$9", "$b", "$c", "$d", "$e", "$f",
        "$B", "$C", "$D", "$E", "$F",
    ] {
        assert_eq!(lookup_register(token).unwrap().len(), 4);
    }
}

#[test]
fn register_lookup_rejects_other_tokens() {
    assert_eq!(lookup_register("$g"), None);
    assert_eq!(lookup_register("$G"), None);
    assert_eq!(lookup_register("$"), None);
    assert_eq!(lookup_register("$10"), None);
    assert_eq!(lookup_register("a"), None);
    assert_eq!(lookup_register("0"), None);
    assert_eq!(lookup_register(""), None);
    assert_eq!(lookup_register("$ "), None);
    assert_eq!(lookup_register(" $1"), None);
    assert_eq!(lookup_register("#1"), None);
    assert_eq!(lookup_register("$\u{e9}"), None);
}

fn is_register_key(token: &str) -> bool {
    [
        "$0", "$1", "$2", "$3", "$4", "$5", "$6", "$7", "$8", "$9", "$a", "$b", "$c", "$d", "$e",
        "$f",
    ]
    .contains(&token)
}

#[test]
fn register_lookup_finds_what_lowercases_to_a_key_with_any_second_character() {
    for code in 0u32..=0x10FFFF {
        if let Some(c) = char::from_u32(code) {
            let token: String = ['$', c].iter().collect();
            let expected = is_register_key(&token.to_lowercase());
            assert_eq!(lookup_register(&token).is_some(), expected, "{:?}", token);
        }
    }
}

#[test]
fn register_lookup_finds_what_lowercases_to_a_key_with_any_first_character() {
    for code in 0u32..=0x10FFFF {
        if let Some(c) = char::from_u32(code) {
            for digit in ['0', 'a', 'A', 'f'] {
                let token: String = [c, digit].iter().collect();
                let expected = is_register_key(&token.to_lowercase());
                assert_eq!(lookup_register(&token).is_some(), expected, "{:?}", token);
            }
        }
    }
}

#[test]
fn register_lookup_finds_no_single_character() {
    for code in 0u32..=0x10FFFF {
        if let Some(c) = char::from_u32(code) {
            let token: String = [c].iter().collect();
            let expected = is_register_key(&token.to_lowercase());
            assert_eq!(lookup_register(&token).is_some(), expected, "{:?}", token);
            assert!(!expected);
        }
    }
}

#[test]
fn type_table_has_four_digits() {
    assert_eq!(lookup_type("0"), Some("00"));
    assert_eq!(lookup_type("1"), Some("01"));
    assert_eq!(lookup_type("2"), Some("10"));
    assert_eq!(lookup_type("3"), Some("11"));
}

#[test]
fn type_lookup_rejects_other_tokens() {
    assert_eq!(lookup_type("4"), None);
    assert_eq!(lookup_type(""), None);
    assert_eq!(lookup_type("00"), None);
    assert_eq!(lookup_type("-1"), None);
    assert_eq!(lookup_type("x"), None);
    assert_eq!(lookup_type(" 1"), None);
}
