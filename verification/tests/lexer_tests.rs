use belle_asm::{lex, LexErrorKind, LexWarning, LexWarningKind, Lexed, SubroutineTable, Token};

fn lex_fresh(line: &str) -> Lexed {
    let mut table = SubroutineTable::new();
    lex(line, 7, &mut table)
}

fn ident(s: &str) -> Token {
    Token::Ident(s.to_string())
}

#[test]
fn lex_two_operand_instruction() {
    let r = lex_fresh("mov %r1, #4");
    assert_eq!(
        r.tokens,
        vec![ident("mov"), Token::Register(1), Token::Comma, Token::Literal(4), Token::Eol]
    );
    assert!(r.warnings.is_empty());
    assert!(r.error.is_none());
}

#[test]
fn lex_empty_line_is_eol() {
    assert_eq!(lex_fresh("").tokens, vec![Token::Eol]);
    assert_eq!(lex_fresh(" \t ").tokens, vec![Token::Eol]);
}

#[test]
fn lex_semicolon_ends_line() {
    let r = lex_fresh("hlt ; %r1 stays unread");
    assert_eq!(r.tokens, vec![ident("hlt"), Token::Semicolon, Token::Eol]);
}

#[test]
fn lex_punctuation() {
    let r = lex_fresh("&,\n");
    assert_eq!(r.tokens, vec![Token::AndSign, Token::Comma, Token::NewLine, Token::Eol]);
}

#[test]
fn lex_negative_literals_sign_magnitude() {
    assert_eq!(lex_fresh("#-1").tokens, vec![Token::Literal(129), Token::Eol]);
    assert_eq!(lex_fresh("#-5").tokens, vec![Token::Literal(133), Token::Eol]);
    assert_eq!(lex_fresh("#-127").tokens, vec![Token::Literal(255), Token::Eol]);
    assert_eq!(lex_fresh("#-128").tokens, vec![Token::Literal(128), Token::Eol]);
    assert_eq!(lex_fresh("#128").tokens, vec![Token::Literal(128), Token::Eol]);
    assert_eq!(lex_fresh("#-0").tokens, vec![Token::Literal(0), Token::Eol]);
    assert_eq!(lex_fresh("#0042").tokens, vec![Token::Literal(42), Token::Eol]);
}

#[test]
fn lex_literal_errors() {
    let r = lex_fresh("add %r1, #129");
    assert_eq!(r.error.unwrap().kind, LexErrorKind::LiteralOutOfRange);
    let r = lex_fresh("#-129");
    assert_eq!(r.error.unwrap().kind, LexErrorKind::LiteralOutOfRange);
    let r = lex_fresh("#");
    assert_eq!(r.error.unwrap().kind, LexErrorKind::LiteralNotNumeric("#".to_string()));
    let r = lex_fresh("#-x");
    assert_eq!(r.error.unwrap().kind, LexErrorKind::LiteralNotNumeric("#-".to_string()));
    let r = lex_fresh("#40000");
    let e = r.error.unwrap();
    assert_eq!(e.line, 7);
    assert_eq!(e.kind, LexErrorKind::LiteralNotNumeric("#40000".to_string()));
    let r = lex_fresh("#-32768");
    assert_eq!(r.error.unwrap().kind, LexErrorKind::LiteralOutOfRange);
    let r = lex_fresh("#-32769");
    assert_eq!(r.error.unwrap().kind, LexErrorKind::LiteralNotNumeric("#-32769".to_string()));
}

#[test]
fn lex_addresses() {
    assert_eq!(lex_fresh("$4095").tokens, vec![Token::MemAddr(4095), Token::Eol]);
    assert_eq!(lex_fresh("$1").tokens, vec![Token::MemAddr(1), Token::Eol]);
    assert_eq!(lex_fresh("$0").error.unwrap().kind, LexErrorKind::AddressOutOfRange);
    assert_eq!(lex_fresh("$4096").error.unwrap().kind, LexErrorKind::AddressOutOfRange);
    assert_eq!(lex_fresh("$").error.unwrap().kind, LexErrorKind::AddressNotNumeric);
    assert_eq!(lex_fresh("$99999").error.unwrap().kind, LexErrorKind::AddressNotNumeric);
}

#[test]
fn lex_register_warnings_stop_the_line() {
    let r = lex_fresh("mov %");
    assert_eq!(r.tokens, vec![ident("mov"), Token::Eol]);
    assert_eq!(
        r.warnings,
        vec![LexWarning { line: 7, kind: LexWarningKind::MissingRegisterIdentifier }]
    );
    let r = lex_fresh("%x1, %r2");
    assert_eq!(r.tokens, vec![Token::Eol]);
    assert_eq!(r.warnings[0].kind, LexWarningKind::ExpectedRegisterLetter);
    let r = lex_fresh("%r, %r2");
    assert_eq!(r.tokens, vec![Token::Eol]);
    assert_eq!(r.warnings[0].kind, LexWarningKind::RegisterWithoutNumber);
    let r = lex_fresh("%r99999 %r2");
    assert_eq!(r.tokens, vec![Token::Eol]);
    assert_eq!(r.warnings[0].kind, LexWarningKind::InvalidRegisterNumber);
    assert_eq!(lex_fresh("%R7").tokens, vec![Token::Register(7), Token::Eol]);
    assert_eq!(lex_fresh("%r32767").tokens, vec![Token::Register(32767), Token::Eol]);
}

#[test]
fn lex_unknown_character_is_skipped() {
    let r = lex_fresh("nop !");
    assert_eq!(r.tokens, vec![ident("nop"), Token::Eol]);
    assert_eq!(r.warnings, vec![LexWarning { line: 7, kind: LexWarningKind::UnknownCharacter('!') }]);
}

#[test]
fn lex_declarations_and_calls() {
    let mut table = SubroutineTable::new();
    let r = lex("main:", 1, &mut table);
    assert_eq!(r.tokens, vec![Token::SR("main".to_string()), Token::Eol]);
    let r = lex("loop_2: call @main", 2, &mut table);
    assert_eq!(
        r.tokens,
        vec![Token::SR("loop_2".to_string()), ident("call"), Token::SRCall("main".to_string()), Token::Eol]
    );
    assert_eq!(table.len(), 2);
    assert_eq!(table.name_at(0), "main");
    assert_eq!(table.name_at(1), "loop_2");
    assert_eq!(table.id_of(&"loop_2".to_string()), Some(2));
    let r = lex("main:", 3, &mut table);
    assert_eq!(r.tokens, vec![Token::Eol]);
    assert_eq!(
        r.warnings,
        vec![LexWarning { line: 3, kind: LexWarningKind::DuplicateSubroutine("main".to_string()) }]
    );
    assert_eq!(table.len(), 2);
    assert_eq!(table.id_of(&"main".to_string()), Some(1));
}

#[test]
fn lex_names_take_unicode_alphanumerics() {
    let r = lex_fresh("ab\u{e9}1_x,@\u{3b1}b");
    assert_eq!(
        r.tokens,
        vec![ident("ab\u{e9}1_x"), Token::Comma, Token::SRCall("\u{3b1}b".to_string()), Token::Eol]
    );
    // A name cannot start with a non-ASCII letter.
    let r = lex_fresh("\u{e9}a");
    assert_eq!(r.tokens, vec![ident("a"), Token::Eol]);
    assert_eq!(r.warnings[0].kind, LexWarningKind::UnknownCharacter('\u{e9}'));
}

#[test]
fn lex_register_raw_text_roundtrip() {
    for n in [0i16, 7, 10, 255, 32767] {
        let raw = Token::Register(n).get_raw();
        let r = lex_fresh(&format!("%r{}", raw));
        assert_eq!(r.tokens, vec![Token::Register(n), Token::Eol]);
    }
    for n in [1i16, 9, 100, 4095] {
        let raw = Token::MemAddr(n).get_raw();
        let r = lex_fresh(&format!("${}", raw));
        assert_eq!(r.tokens, vec![Token::MemAddr(n), Token::Eol]);
    }
}
