use belle_asm::{
    encode_instruction, is_arg, lex, register_to_binary, sr_check, verify, Arity, ArityError,
    EncodeError, EncodeWarning, SubroutineTable, Token,
};

fn none_source() -> Vec<String> {
    Vec::new()
}

fn word(ins: &Token, a: Option<&Token>, b: Option<&Token>) -> i16 {
    encode_instruction(ins, a, b, &SubroutineTable::new(), &none_source()).unwrap().word
}

fn ident(s: &str) -> Token {
    Token::Ident(s.to_string())
}

#[test]
fn encode_standard_layout() {
    // ADD %r3, %r5: 0001 011 0 00000101
    let w = word(&ident("add"), Some(&Token::Register(3)), Some(&Token::Register(5)));
    assert_eq!(w as u16, 0b0001_011_0_0000_0101);
    // MOV %r7, #-1 (stored 129): 1110 111 1 10000001
    let w = word(&ident("MoV"), Some(&Token::Register(7)), Some(&Token::Literal(129)));
    assert_eq!(w as u16, 0b1110_111_1_1000_0001);
    assert_eq!((w as u16) >> 12, 14);
    assert_eq!(((w as u16) >> 9) & 7, 7);
    assert_eq!((w as u16) & 0x100, 0x100);
    assert_eq!((w as u16) & 0xff, 129);
}

#[test]
fn encode_store_layout() {
    // ST $300, %r2: 0111 100101100 010
    let w = word(&ident("st"), Some(&Token::MemAddr(300)), Some(&Token::Register(2)));
    assert_eq!(w as u16, 0b0111_1001_0110_0010);
    assert_eq!(((w as u16) >> 3) & 0x1ff, 300);
}

#[test]
fn encode_one_operand_layout() {
    let w = word(&ident("jmp"), Some(&Token::MemAddr(4095)), None);
    assert_eq!(w as u16, 0x8fff);
    let w = word(&ident("int"), Some(&Token::Literal(5)), Some(&Token::Register(1)));
    assert_eq!(w as u16, 0xd000 | 0x105);
    let w = word(&ident("jz"), Some(&Token::Register(2)), None);
    assert_eq!(w as u16, 0x9002);
}

#[test]
fn encode_no_operand_and_non_identifier() {
    assert_eq!(word(&ident("ret"), None, None), 0x5000);
    assert_eq!(word(&ident("nop"), Some(&Token::Eol), None), (0xc000u16) as i16);
    // A token that is no instruction encodes as HLT with its operands.
    assert_eq!(word(&Token::Eol, Some(&Token::Register(1)), Some(&Token::Register(2))), 0x0202);
}

#[test]
fn encode_unknown_instruction() {
    let r = encode_instruction(&ident("jump"), None, None, &SubroutineTable::new(), &none_source());
    assert_eq!(r.unwrap_err(), EncodeError::UnknownInstruction("jump".to_string()));
}

#[test]
fn encode_register_warning() {
    let r = encode_instruction(
        &ident("add"),
        Some(&Token::Register(9)),
        Some(&Token::Register(8)),
        &SubroutineTable::new(),
        &none_source(),
    )
    .unwrap();
    assert_eq!(r.warnings, vec![EncodeWarning::RegisterTooLarge(9), EncodeWarning::RegisterTooLarge(8)]);
    assert_eq!(r.word as u16, 0x1000 | (9 << 9) | 8);
    let r = encode_instruction(
        &ident("add"),
        Some(&Token::Register(7)),
        Some(&Token::Register(0)),
        &SubroutineTable::new(),
        &none_source(),
    )
    .unwrap();
    assert!(r.warnings.is_empty());
}

#[test]
fn encode_subroutines() {
    let mut table = SubroutineTable::new();
    lex("start: nop", 1, &mut table);
    lex("work:", 2, &mut table);
    let source = vec![
        "start:".to_string(),
        "  nop".to_string(),
        "work:".to_string(),
        "later:;x".to_string(),
        "label: ; comment".to_string(),
    ];
    // A declaration encodes as SR_OP with its number.
    let r = encode_instruction(&Token::SR("work".to_string()), None, None, &table, &source).unwrap();
    assert_eq!(r.word as u16, 0xf002);
    // A call to a declared subroutine.
    let r = encode_instruction(
        &ident("call"),
        Some(&Token::SRCall("start".to_string())),
        None,
        &table,
        &source,
    )
    .unwrap();
    assert_eq!(r.word as u16, 0x4001);
    // A call to a subroutine declared further down: the label lines number it.
    let r = encode_instruction(
        &ident("call"),
        Some(&Token::SRCall("later".to_string())),
        None,
        &table,
        &source,
    )
    .unwrap();
    assert_eq!(r.word as u16, 0x4003);
    assert!(r.warnings.is_empty());
    // An unknown subroutine.
    let r = encode_instruction(
        &ident("call"),
        Some(&Token::SRCall("nowhere".to_string())),
        None,
        &table,
        &source,
    )
    .unwrap();
    assert_eq!(r.word as u16, 0x4000);
    assert_eq!(r.warnings, vec![EncodeWarning::UnknownSubroutine("nowhere".to_string())]);
}

#[test]
fn register_to_binary_values() {
    let table = SubroutineTable::new();
    let src = none_source();
    assert_eq!(register_to_binary(Some(&Token::Register(3)), &table, &src), (3, None));
    assert_eq!(register_to_binary(Some(&Token::Literal(4)), &table, &src), (260, None));
    assert_eq!(register_to_binary(Some(&Token::MemAddr(99)), &table, &src), (99, None));
    assert_eq!(register_to_binary(Some(&Token::Comma), &table, &src), (0, None));
    assert_eq!(register_to_binary(None, &table, &src), (0, None));
}

#[test]
fn operands_are_recognised() {
    assert!(is_arg(Some(&Token::Register(1))));
    assert!(is_arg(Some(&Token::Literal(1))));
    assert!(is_arg(Some(&Token::SRCall("a".to_string()))));
    assert!(is_arg(Some(&Token::MemAddr(1))));
    assert!(is_arg(Some(&Token::MemPointer(1))));
    assert!(is_arg(Some(&Token::RegPointer(1))));
    assert!(!is_arg(Some(&Token::Comma)));
    assert!(!is_arg(Some(&Token::Eol)));
    assert!(!is_arg(Some(&Token::SR("a".to_string()))));
    assert!(!is_arg(None));
}

#[test]
fn verify_operand_counts() {
    let r1 = Token::Register(1);
    let r2 = Token::Register(2);
    assert_eq!(verify(&ident("hlt"), Some(&Token::Eol), None), None);
    assert_eq!(
        verify(&ident("hlt"), Some(&r1), None),
        Some(ArityError { mnemonic: "HLT".to_string(), arity: Arity::NoArguments })
    );
    assert_eq!(verify(&ident("add"), Some(&r1), Some(&r2)), None);
    assert_eq!(
        verify(&ident("Add"), Some(&r1), Some(&Token::Eol)),
        Some(ArityError { mnemonic: "ADD".to_string(), arity: Arity::TwoArguments })
    );
    assert_eq!(verify(&ident("int"), Some(&r1), None), None);
    assert_eq!(verify(&ident("int"), Some(&r1), Some(&r2)), None);
    assert_eq!(
        verify(&ident("int"), None, Some(&r2)),
        Some(ArityError { mnemonic: "INT".to_string(), arity: Arity::OneOrTwoArguments })
    );
    assert_eq!(verify(&ident("call"), Some(&Token::SRCall("f".to_string())), None), None);
    assert_eq!(
        verify(&ident("jz"), Some(&r1), Some(&r2)),
        Some(ArityError { mnemonic: "JZ".to_string(), arity: Arity::OneArgument })
    );
    // Not a mnemonic, not an identifier: nothing to check.
    assert_eq!(verify(&ident("foo"), None, None), None);
    assert_eq!(verify(&Token::SR("f".to_string()), Some(&r1), None), None);
}

#[test]
fn sr_check_never_passes() {
    let table = SubroutineTable::new();
    assert!(!sr_check(&table, &none_source()));
    let source = vec!["powwow:".to_string()];
    assert!(!sr_check(&table, &source));
}
