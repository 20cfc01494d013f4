use belle_asm::{encode_instruction, SubroutineTable, Token};
use colored::Colorize;

#[test]
pub fn basic_tests_basic_checks() {
    let table = SubroutineTable::new();
    let source: Vec<String> = Vec::new();
    let result = encode_instruction(
        &Token::Ident("mov".to_string()),
        Some(&Token::Register(0)),
        Some(&Token::Literal(4)),
        &table,
        &source,
    )
    .unwrap()
    .word;
    assert_eq!(result, -7932);
}

#[test]
pub fn lib_basic_checks() {
    let table = SubroutineTable::new();
    let source: Vec<String> = Vec::new();
    let mut ident = Token::Ident("mov".to_string());
    let op1 = Some(&Token::Register(0));
    let op2 = Some(&Token::Literal(4));
    let result = encode_instruction(&ident, op1, op2, &table, &source).unwrap().word;
    assert_eq!(result.abs() as u32, 0b1111011111100);
    println!("{}", "MOV check complete!".blue());

    ident = Token::Ident("hlt".to_string());
    let result = encode_instruction(&ident, None, None, &table, &source).unwrap().word;
    assert_eq!(result, 0);
}
