//! The tokens of an assembly line, their abstract view, their raw text and
//! their verbose description.

use vstd::prelude::*;
use vstd::string::StringExecFns;
use vstd::utf8::encode_utf8;
use crate::text::{int_decimal, nat_decimal, push_decimal, push_decimal_i16};

verus! {

/// One token of an assembly line.
#[derive(Debug, PartialEq, Eq)]
pub enum Token {
    Ident(String),
    Register(i16),
    Comma,
    Literal(i16),
    NewLine,
    Semicolon,
    Eol,
    SRCall(String),
    SR(String),
    MemAddr(i16),
    Label(String),
    RegPointer(i16),
    MemPointer(i16),
    Value(String),
    AndSign,
}

/// The mathematical value of a token: its text as a sequence of characters.
pub enum TokenView {
    Ident(Seq<char>),
    Register(i16),
    Comma,
    Literal(i16),
    NewLine,
    Semicolon,
    Eol,
    SRCall(Seq<char>),
    SR(Seq<char>),
    MemAddr(i16),
    Label(Seq<char>),
    RegPointer(i16),
    MemPointer(i16),
    Value(Seq<char>),
    AndSign,
}

impl View for Token {
    type V = TokenView;

    open spec fn view(&self) -> TokenView {
        match self {
            Token::Ident(s) => TokenView::Ident(s@),
            Token::Register(n) => TokenView::Register(*n),
            Token::Comma => TokenView::Comma,
            Token::Literal(n) => TokenView::Literal(*n),
            Token::NewLine => TokenView::NewLine,
            Token::Semicolon => TokenView::Semicolon,
            Token::Eol => TokenView::Eol,
            Token::SRCall(s) => TokenView::SRCall(s@),
            Token::SR(s) => TokenView::SR(s@),
            Token::MemAddr(n) => TokenView::MemAddr(*n),
            Token::Label(s) => TokenView::Label(s@),
            Token::RegPointer(n) => TokenView::RegPointer(*n),
            Token::MemPointer(n) => TokenView::MemPointer(*n),
            Token::Value(s) => TokenView::Value(s@),
            Token::AndSign => TokenView::AndSign,
        }
    }
}

/// The views of a sequence of tokens.
pub open spec fn tokens_view(v: Seq<Token>) -> Seq<TokenView> {
    v.map_values(|t: Token| t@)
}

/// The view of an optional token.
pub open spec fn opt_token_view(t: Option<&Token>) -> Option<TokenView> {
    match t {
        Some(t) => Some(t@),
        None => None,
    }
}

/// The raw text of a token: the name it carries, the decimal spelling of its
/// number, or a lower-case word for the punctuation tokens.
pub open spec fn raw_text(t: TokenView) -> Seq<char> {
    match t {
        TokenView::Ident(s) => s,
        TokenView::Register(n) => int_decimal(n as int),
        TokenView::Comma => "comma"@,
        TokenView::Literal(n) => int_decimal(n as int),
        TokenView::NewLine => "newline"@,
        TokenView::Eol => "eol"@,
        TokenView::Semicolon => "semicolon"@,
        TokenView::SRCall(s) => s,
        TokenView::SR(s) => s,
        TokenView::MemAddr(n) => int_decimal(n as int),
        TokenView::Label(s) => s,
        TokenView::RegPointer(n) => int_decimal(n as int),
        TokenView::MemPointer(n) => int_decimal(n as int),
        TokenView::Value(s) => s,
        TokenView::AndSign => "andsign"@,
    }
}

/// The verbose description of a token shown in debugging output. The length
/// shown for an identifier is its length in UTF-8 bytes (as `str::len` gives it).
pub open spec fn description(t: TokenView) -> Seq<char> {
    match t {
        TokenView::Ident(s) => "Ident(\""@ + s + "\") Length: ["@ + nat_decimal(
            (encode_utf8(s).len() as usize) as nat,
        ) + "]"@,
        TokenView::Register(n) => "Register("@ + int_decimal(n as int) + ")"@,
        TokenView::Comma => "Comma"@,
        TokenView::Literal(n) => "Number Literal("@ + int_decimal(n as int) + ")"@,
        TokenView::NewLine => "Newline"@,
        TokenView::Eol => "Eol\n"@,
        TokenView::Semicolon => "Semicolon"@,
        TokenView::SRCall(s) => "SRCall("@ + s + ")"@,
        TokenView::SR(s) => "Subroutine("@ + s + ")"@,
        TokenView::MemAddr(n) => "MemAddr("@ + int_decimal(n as int) + ")"@,
        TokenView::Label(s) => "Label("@ + s + ")"@,
        TokenView::RegPointer(n) => "Reg Pointer("@ + int_decimal(n as int) + ")"@,
        TokenView::MemPointer(n) => "Mem Pointer("@ + int_decimal(n as int) + ")"@,
        TokenView::Value(s) => "Value("@ + s + ")"@,
        TokenView::AndSign => "AndSign"@,
    }
}

/// `prefix`, then the decimal spelling of `n`, then `)`.
fn number_text(prefix: &str, n: i16) -> (r: String)
    ensures
        r@ == prefix@ + int_decimal(n as int) + ")"@,
{
    let mut s = String::from_str(prefix);
    push_decimal_i16(&mut s, n);
    s.append(")");
    s
}

/// `prefix`, then `name`, then `)`.
fn name_text(prefix: &str, name: &String) -> (r: String)
    ensures
        r@ == prefix@ + name@ + ")"@,
{
    let mut s = String::from_str(prefix);
    s.append(name.as_str());
    s.append(")");
    s
}

impl Token {
    /// The raw text of the token.
    pub fn get_raw(&self) -> (r: String)
        ensures
            r@ == raw_text(self@),
    {
        match self {
            Token::Ident(s) => String::from_str(s.as_str()),
            Token::Register(n) => {
                let mut r = String::new();
                push_decimal_i16(&mut r, *n);
                assert(r@ =~= int_decimal(*n as int));
                r
            },
            Token::Comma => String::from_str("comma"),
            Token::Literal(n) => {
                let mut r = String::new();
                push_decimal_i16(&mut r, *n);
                assert(r@ =~= int_decimal(*n as int));
                r
            },
            Token::NewLine => String::from_str("newline"),
            Token::Eol => String::from_str("eol"),
            Token::Semicolon => String::from_str("semicolon"),
            Token::SRCall(s) => String::from_str(s.as_str()),
            Token::SR(s) => String::from_str(s.as_str()),
            Token::MemAddr(n) => {
                let mut r = String::new();
                push_decimal_i16(&mut r, *n);
                assert(r@ =~= int_decimal(*n as int));
                r
            },
            Token::Label(s) => String::from_str(s.as_str()),
            Token::RegPointer(n) => {
                let mut r = String::new();
                push_decimal_i16(&mut r, *n);
                assert(r@ =~= int_decimal(*n as int));
                r
            },
            Token::MemPointer(n) => {
                let mut r = String::new();
                push_decimal_i16(&mut r, *n);
                assert(r@ =~= int_decimal(*n as int));
                r
            },
            Token::Value(s) => String::from_str(s.as_str()),
            Token::AndSign => String::from_str("andsign"),
        }
    }

    /// The verbose description of the token, as debugging output shows it.
    pub fn describe(&self) -> (r: String)
        ensures
            r@ == description(self@),
    {
        match self {
            Token::Ident(s) => {
                let mut r = String::from_str("Ident(\"");
                r.append(s.as_str());
                r.append("\") Length: [");
                let len = s.as_str().len();
                push_decimal(&mut r, len as u64);
                r.append("]");
                assert(r@ =~= description(self@));
                r
            },
            Token::Register(n) => number_text("Register(", *n),
            Token::Comma => String::from_str("Comma"),
            Token::Literal(n) => number_text("Number Literal(", *n),
            Token::NewLine => String::from_str("Newline"),
            Token::Eol => String::from_str("Eol\n"),
            Token::Semicolon => String::from_str("Semicolon"),
            Token::SRCall(s) => name_text("SRCall(", s),
            Token::SR(s) => name_text("Subroutine(", s),
            Token::MemAddr(n) => number_text("MemAddr(", *n),
            Token::Label(s) => name_text("Label(", s),
            Token::RegPointer(n) => number_text("Reg Pointer(", *n),
            Token::MemPointer(n) => number_text("Mem Pointer(", *n),
            Token::Value(s) => name_text("Value(", s),
            Token::AndSign => String::from_str("AndSign"),
        }
    }

    /// The token as it is displayed: its verbose description when verbose or
    /// debugging output is asked for, and nothing otherwise.
    pub fn display_text(&self, verbose: bool, debug: bool) -> (r: String)
        ensures
            r@ == (if verbose || debug {
                description(self@)
            } else {
                Seq::<char>::empty()
            }),
    {
        if verbose || debug {
            self.describe()
        } else {
            String::new()
        }
    }
}

} // verus!
