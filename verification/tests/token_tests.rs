use belle_asm::{declare_config, Args, Token};

#[test]
fn get_raw_of_each_token() {
    assert_eq!(Token::Ident("mov".to_string()).get_raw(), "mov");
    assert_eq!(Token::Register(-12).get_raw(), "-12");
    assert_eq!(Token::Literal(i16::MIN).get_raw(), "-32768");
    assert_eq!(Token::MemAddr(4095).get_raw(), "4095");
    assert_eq!(Token::RegPointer(0).get_raw(), "0");
    assert_eq!(Token::MemPointer(32767).get_raw(), "32767");
    assert_eq!(Token::Comma.get_raw(), "comma");
    assert_eq!(Token::NewLine.get_raw(), "newline");
    assert_eq!(Token::Eol.get_raw(), "eol");
    assert_eq!(Token::Semicolon.get_raw(), "semicolon");
    assert_eq!(Token::AndSign.get_raw(), "andsign");
    assert_eq!(Token::SR("f".to_string()).get_raw(), "f");
    assert_eq!(Token::SRCall("g".to_string()).get_raw(), "g");
    assert_eq!(Token::Label("l".to_string()).get_raw(), "l");
    assert_eq!(Token::Value("v".to_string()).get_raw(), "v");
}

#[test]
fn describe_each_token() {
    assert_eq!(Token::Ident("mov".to_string()).describe(), "Ident(\"mov\") Length: [3]");
    assert_eq!(Token::Ident("\u{e9}".to_string()).describe(), "Ident(\"\u{e9}\") Length: [2]");
    assert_eq!(Token::Register(3).describe(), "Register(3)");
    assert_eq!(Token::Literal(-4).describe(), "Number Literal(-4)");
    assert_eq!(Token::Comma.describe(), "Comma");
    assert_eq!(Token::NewLine.describe(), "Newline");
    assert_eq!(Token::Eol.describe(), "Eol\n");
    assert_eq!(Token::Semicolon.describe(), "Semicolon");
    assert_eq!(Token::SRCall("f".to_string()).describe(), "SRCall(f)");
    assert_eq!(Token::SR("f".to_string()).describe(), "Subroutine(f)");
    assert_eq!(Token::MemAddr(12).describe(), "MemAddr(12)");
    assert_eq!(Token::Label("x".to_string()).describe(), "Label(x)");
    assert_eq!(Token::RegPointer(1).describe(), "Reg Pointer(1)");
    assert_eq!(Token::MemPointer(2).describe(), "Mem Pointer(2)");
    assert_eq!(Token::Value("v".to_string()).describe(), "Value(v)");
    assert_eq!(Token::AndSign.describe(), "AndSign");
}

#[test]
fn config_defaults() {
    let r = declare_config(Args { output: None, file: None, verbose: true, debug: false });
    assert_eq!(
        r,
        Args {
            output: Some("main".to_string()),
            file: Some("main.asm".to_string()),
            verbose: true,
            debug: false
        }
    );
    let r = declare_config(Args {
        output: Some("out.bin".to_string()),
        file: Some("prog.asm".to_string()),
        verbose: false,
        debug: true,
    });
    assert_eq!(r.output.as_deref(), Some("out.bin"));
    assert_eq!(r.file.as_deref(), Some("prog.asm"));
    assert!(r.debug && !r.verbose);
}
