use belle_asm::symbols::{hoisted_lookup, label_of};
use belle_asm::text::trimmed;
use belle_asm::{
    encode_instruction, verify, Arity, ArityError, SubroutineTable,
    assemble, assemble_checked, classify_preamble_line, clean_lines, count_labels, fits_limits, EncodeError,
    EncodeWarning, Failure, LexErrorKind, PreambleLine, Token,
};

fn strings(v: &[&str]) -> Vec<String> {
    v.iter().map(|s| s.to_string()).collect()
}

#[test]
fn trimming_uses_unicode_white_space() {
    assert_eq!(trimmed("  a b \t"), "a b");
    assert_eq!(trimmed("\u{3000}x\u{a0}\u{2028}"), "x");
    assert_eq!(trimmed(" \u{85} "), "");
    assert_eq!(trimmed("\u{200b}y"), "\u{200b}y");
}

#[test]
fn mnemonics_are_matched_in_upper_case() {
    let table = SubroutineTable::new();
    let none: Vec<String> = Vec::new();
    // The dotless i upper-cases to `I`, so this is `INT`.
    let ins = Token::Ident("\u{131}nt".to_string());
    assert_eq!(
        verify(&ins, None, None),
        Some(ArityError { mnemonic: "INT".to_string(), arity: Arity::OneOrTwoArguments })
    );
    assert_eq!(encode_instruction(&ins, None, None, &table, &none).unwrap().word as u16, 0xd000);
    let ins = Token::Ident("cMp".to_string());
    assert_eq!(
        verify(&ins, None, None),
        Some(ArityError { mnemonic: "CMP".to_string(), arity: Arity::TwoArguments })
    );
}

#[test]
fn label_lines() {
    assert_eq!(label_of(&"main:".to_string()), Some("main".to_string()));
    assert_eq!(label_of(&"  a b ::;c".to_string()), Some("a b".to_string()));
    assert_eq!(label_of(&"main: ;c".to_string()), None);
    assert_eq!(label_of(&";x:".to_string()), None);
    assert_eq!(label_of(&"mov %r1, #1".to_string()), None);
    assert_eq!(label_of(&":".to_string()), Some("".to_string()));
    let src = strings(&["a:", "nop", "b:", "a:"]);
    assert_eq!(count_labels(&src), 3);
    assert_eq!(hoisted_lookup(&src, &"a".to_string()), Some(3));
    assert_eq!(hoisted_lookup(&src, &"b".to_string()), Some(2));
    assert_eq!(hoisted_lookup(&src, &"c".to_string()), None);
}

#[test]
fn preamble_lines() {
    assert_eq!(
        classify_preamble_line("  #include \"lib.asm\"  "),
        PreambleLine::Include("lib.asm".to_string())
    );
    assert_eq!(
        classify_preamble_line("#include   \"a b\" trailing"),
        PreambleLine::Include("a b".to_string())
    );
    assert_eq!(classify_preamble_line("#include lib.asm"), PreambleLine::Malformed);
    assert_eq!(classify_preamble_line("#include \"\""), PreambleLine::Malformed);
    assert_eq!(classify_preamble_line("#includes \"x\""), PreambleLine::Malformed);
    assert_eq!(classify_preamble_line("mov %r1, #1"), PreambleLine::Body);
    assert_eq!(classify_preamble_line("; #include \"x\""), PreambleLine::Body);
}

#[test]
fn cleaning_lines() {
    let raw = strings(&["", "  mov %r1, #1  ", "; comment", "   ", "#include \"x\"", "\thlt", "  ;x"]);
    assert_eq!(clean_lines(&raw), strings(&["mov %r1, #1", "", "hlt"]));
}

#[test]
fn assembling_a_program() {
    let source = strings(&["start:", "mov %r1, #4", "call @later", "hlt", "later:", "ret"]);
    // The first line of the prepared lines is dropped, as the loader duplicates it.
    let mut cleaned = clean_lines(&source);
    cleaned.insert(0, "start:".to_string());
    assert!(fits_limits(&cleaned, &source));
    let a = assemble(&cleaned, &source);
    assert!(a.failure.is_none());
    assert!(!a.rejected);
    let words: Vec<u16> = a.reports.iter().map(|r| r.word as u16).collect();
    assert_eq!(words, vec![0xf001, 0xe304, 0x4002, 0x0000, 0xf002, 0x5000]);
    assert_eq!(
        a.bytes,
        vec![0xf0, 0x01, 0xe3, 0x04, 0x40, 0x02, 0x00, 0x00, 0xf0, 0x02, 0x50, 0x00]
    );
    assert_eq!(a.reports[0].line, 1);
    assert_eq!(a.reports[1].tokens[1], Token::Register(1));
    assert_eq!(a.table.len(), 2);
}

#[test]
fn assembling_reports_operand_count_errors() {
    let lines = strings(&["x", "add %r1", "nop"]);
    let a = assemble(&lines, &lines);
    assert!(a.rejected);
    assert!(a.failure.is_none());
    assert_eq!(a.reports.len(), 2);
    assert!(a.reports[0].arity_error.is_some());
    assert!(a.reports[1].arity_error.is_none());
}

#[test]
fn assembling_stops_at_a_rejected_line() {
    let lines = strings(&["x", "nop !", "mov %r1, #200", "hlt"]);
    let a = assemble(&lines, &lines);
    assert_eq!(a.reports.len(), 1);
    assert_eq!(a.bytes, vec![0xc0, 0x00]);
    match a.failure {
        Some(Failure::Lex { warnings, error }) => {
            assert!(warnings.is_empty());
            assert_eq!(error.line, 2);
            assert_eq!(error.kind, LexErrorKind::LiteralOutOfRange);
        }
        other => panic!("unexpected {:?}", other),
    }
    let lines = strings(&["x", "call @nowhere", "jump"]);
    let a = assemble(&lines, &lines);
    assert_eq!(a.reports[0].encode_warnings, vec![EncodeWarning::UnknownSubroutine("nowhere".to_string())]);
    match a.failure {
        Some(Failure::Encode { line, error, .. }) => {
            assert_eq!(line, 2);
            assert_eq!(error, EncodeError::UnknownInstruction("jump".to_string()));
        }
        other => panic!("unexpected {:?}", other),
    }
}

#[test]
fn operand_after_comma() {
    let lines = strings(&["x", "add %r1 %r2", "add %r1, %r2", "add , %r2"]);
    let a = assemble(&lines, &lines);
    let words: Vec<u16> = a.reports.iter().map(|r| r.word as u16).collect();
    assert_eq!(words, vec![0x1202, 0x1202, 0x1002]);
}

#[test]
fn limits() {
    assert!(!fits_limits(&Vec::new(), &Vec::new()));
    assert!(fits_limits(&strings(&["a"]), &Vec::new()));
    assert!(assemble_checked(&Vec::new(), &Vec::new()).is_none());
}

#[test]
fn label_limit_only_binds_a_scan() {
    let mut source: Vec<String> = (0..32767).map(|k| format!("l{}:", k)).collect();
    // No call to an undeclared subroutine: the label lines are never scanned.
    let lines = strings(&["x", "f:", "call @f", "hlt"]);
    assert!(fits_limits(&lines, &source));
    let a = assemble_checked(&lines, &source).unwrap();
    assert!(a.failure.is_none());
    assert_eq!(a.reports.len(), 3);
    // A call that has to scan 32767 label lines runs out of label numbers.
    let lines = strings(&["x", "call @g", "g:"]);
    assert!(!fits_limits(&lines, &source));
    assert!(assemble_checked(&lines, &source).is_none());
    // The scan stops mattering once the line before it is rejected.
    let lines = strings(&["x", "jump", "call @g"]);
    assert!(fits_limits(&lines, &source));
    // One label fewer, and the scan fits.
    source.pop();
    let lines = strings(&["x", "call @g", "g:"]);
    assert!(fits_limits(&lines, &source));
    assert_eq!(assemble_checked(&lines, &source).unwrap().reports[0].word as u16, 0x4000);
}
