use belle_asm::encode::encode_mnemonic;
use belle_asm::verify::verify_mnemonic;
use belle_asm::{
    classify_preamble_line, encode_instruction, lex, verify, Arity, ArityError, EncodeError,
    LexWarningKind, Lexed, PreambleLine, SubroutineTable, Token,
};

fn lex_fresh(line: &str) -> Lexed {
    let mut table = SubroutineTable::new();
    lex(line, 3, &mut table)
}

fn ident(s: &str) -> Token {
    Token::Ident(s.to_string())
}

#[test]
fn text_after_a_semicolon_is_ignored() {
    let mut t1 = SubroutineTable::new();
    let mut t2 = SubroutineTable::new();
    let a = lex("hlt ; f: %r1 #999", 1, &mut t1);
    let b = lex("hlt ;", 1, &mut t2);
    assert_eq!(a, b);
    assert_eq!(t1.len(), 0);
    assert_eq!(t2.len(), 0);
    assert_eq!(a.tokens, vec![ident("hlt"), Token::Semicolon, Token::Eol]);
}

#[test]
fn blanks_around_a_line_are_ignored() {
    assert_eq!(lex_fresh(" nop"), lex_fresh("nop"));
    assert_eq!(lex_fresh("\tmov %r1, #2"), lex_fresh("mov %r1, #2"));
    assert_eq!(lex_fresh("nop "), lex_fresh("nop"));
    assert_eq!(lex_fresh("add %r1, %r2 "), lex_fresh("add %r1, %r2"));
    // A lone `%` at the end and `%` before a blank are reported differently.
    assert_eq!(lex_fresh("%").warnings[0].kind, LexWarningKind::MissingRegisterIdentifier);
    assert_eq!(lex_fresh("% ").warnings[0].kind, LexWarningKind::ExpectedRegisterLetter);
    assert_eq!(lex_fresh("%").tokens, lex_fresh("% ").tokens);
}

#[test]
fn subroutine_numbers_follow_declaration_order() {
    let mut table = SubroutineTable::new();
    lex("first:", 1, &mut table);
    lex("second: third:", 2, &mut table);
    lex("first:", 3, &mut table);
    assert_eq!(table.len(), 3);
    for (k, name) in ["first", "second", "third"].iter().enumerate() {
        assert_eq!(table.id_of(&name.to_string()), Some(k as u32 + 1));
    }
    assert_eq!(table.id_of(&"fourth".to_string()), None);
}

#[test]
fn mnemonics_ignore_case() {
    let table = SubroutineTable::new();
    let none: Vec<String> = Vec::new();
    let r1 = Token::Register(1);
    let l = Token::Literal(4);
    let upper = encode_instruction(&ident("MOV"), Some(&r1), Some(&l), &table, &none).unwrap();
    let lower = encode_instruction(&ident("mov"), Some(&r1), Some(&l), &table, &none).unwrap();
    let mixed = encode_instruction(&ident("MoV"), Some(&r1), Some(&l), &table, &none).unwrap();
    assert_eq!(upper, lower);
    assert_eq!(upper, mixed);
    assert_eq!(verify(&ident("jMp"), None, None), verify(&ident("JMP"), None, None));
    assert_eq!(verify(&ident("jmp"), None, None), verify(&ident("JMP"), None, None));
}

#[test]
fn encode_mnemonic_after_upper_casing() {
    let table = SubroutineTable::new();
    let none: Vec<String> = Vec::new();
    let r0 = Token::Register(0);
    let l = Token::Literal(4);
    let e = encode_mnemonic(&"mov".to_string(), &"MOV".to_string(), Some(&r0), Some(&l), &table, &none)
        .unwrap();
    assert_eq!(e.word, -7932);
    assert!(e.warnings.is_empty());
    let e = encode_mnemonic(&"jz".to_string(), &"JZ".to_string(), Some(&Token::MemAddr(5)), None, &table, &none)
        .unwrap();
    assert_eq!(e.word as u16, 0x9005);
    // The mnemonic is not upper-cased again: a lower-case one is unknown, and
    // the error names the identifier.
    let r = encode_mnemonic(&"mov".to_string(), &"mov".to_string(), None, None, &table, &none);
    assert_eq!(r.unwrap_err(), EncodeError::UnknownInstruction("mov".to_string()));
}

#[test]
fn verify_mnemonic_after_upper_casing() {
    let r1 = Token::Register(1);
    assert_eq!(verify_mnemonic("ADD".to_string(), Some(&r1), Some(&r1)), None);
    assert_eq!(
        verify_mnemonic("ADD".to_string(), Some(&r1), None),
        Some(ArityError { mnemonic: "ADD".to_string(), arity: Arity::TwoArguments })
    );
    assert_eq!(verify_mnemonic("add".to_string(), Some(&r1), None), None);
    assert_eq!(
        verify_mnemonic("RET".to_string(), Some(&r1), None),
        Some(ArityError { mnemonic: "RET".to_string(), arity: Arity::NoArguments })
    );
}

#[test]
fn display_text_follows_the_flags() {
    let t = Token::Register(3);
    assert_eq!(t.display_text(false, false), "");
    assert_eq!(t.display_text(true, false), "Register(3)");
    assert_eq!(t.display_text(false, true), "Register(3)");
    assert_eq!(Token::Eol.display_text(true, true), "Eol\n");
}

#[test]
fn include_lines_name_the_text_between_quotes() {
    assert_eq!(classify_preamble_line("#include\t\"x\""), PreambleLine::Include("x".to_string()));
    assert_eq!(
        classify_preamble_line("#include \u{3000}\"a;b\"\"c\""),
        PreambleLine::Include("a;b".to_string())
    );
    assert_eq!(classify_preamble_line("#include\"x\""), PreambleLine::Malformed);
    assert_eq!(classify_preamble_line("#include \"abc"), PreambleLine::Malformed);
    assert_eq!(classify_preamble_line("#INCLUDE \"x\""), PreambleLine::Body);
}
