//! The instruction encoder: one 16-bit word per instruction.
//!
//! The standard layout, e.g. `ADD`:
//! `oooo ddd f vvvvvvvv` — four opcode bits, three destination-register bits,
//! then the operand: a register number, or (flag bit 8 set) a literal byte.
//! `ST` puts its first operand at bit 3 and its second in the low three bits;
//! one-operand instructions (`CALL`, `JMP`, `JZ`, `INT`) and subroutine
//! declarations keep the operand in the low twelve bits.

use vstd::prelude::*;
use vstd::string::StringExecFns;
use crate::symbols::{
    SubroutineTable, id_in, hoisted_id, label_count, lines_view, hoisted_lookup, distinct_names,
    lemma_numbers_are_positions,
};
use crate::text::{
    chars_of, to_uppercase, upper_case, all_ascii, ascii_lower, lemma_upper_case_of_upper_letters,
    lemma_upper_case_of_lower,
};
use crate::tokens::{Token, TokenView, opt_token_view};

verus! {

pub const HLT_OP: i16 = 0;
pub const ADD_OP: i16 = 1;
pub const AND_OP: i16 = 2;
pub const OR_OP: i16 = 3;
pub const CALL_OP: i16 = 4;
pub const RET_OP: i16 = 5;
pub const LD_OP: i16 = 6;
pub const ST_OP: i16 = 7;
pub const JMP_OP: i16 = 8;
pub const JZ_OP: i16 = 9;
pub const CMP_OP: i16 = 10;
pub const MUL_OP: i16 = 11;
pub const NOP_OP: i16 = 12;
pub const INT_OP: i16 = 13;
pub const MOV_OP: i16 = 14;
/// The opcode of a subroutine declaration.
pub const SR_OP: i16 = 15;

/// The opcode of a two-letter (upper-case) mnemonic.
pub open spec fn opcode2(a: char, b: char) -> Option<i16> {
    if a == 'O' && b == 'R' {
        Some(OR_OP)
    } else if a == 'L' && b == 'D' {
        Some(LD_OP)
    } else if a == 'S' && b == 'T' {
        Some(ST_OP)
    } else if a == 'J' && b == 'Z' {
        Some(JZ_OP)
    } else {
        None
    }
}

/// The opcode of a three-letter (upper-case) mnemonic.
pub open spec fn opcode3(a: char, b: char, c: char) -> Option<i16> {
    if a == 'H' && b == 'L' && c == 'T' {
        Some(HLT_OP)
    } else if a == 'A' && b == 'D' && c == 'D' {
        Some(ADD_OP)
    } else if a == 'A' && b == 'N' && c == 'D' {
        Some(AND_OP)
    } else if a == 'R' && b == 'E' && c == 'T' {
        Some(RET_OP)
    } else if a == 'J' && b == 'M' && c == 'P' {
        Some(JMP_OP)
    } else if a == 'C' && b == 'M' && c == 'P' {
        Some(CMP_OP)
    } else if a == 'M' && b == 'U' && c == 'L' {
        Some(MUL_OP)
    } else if a == 'N' && b == 'O' && c == 'P' {
        Some(NOP_OP)
    } else if a == 'I' && b == 'N' && c == 'T' {
        Some(INT_OP)
    } else if a == 'M' && b == 'O' && c == 'V' {
        Some(MOV_OP)
    } else {
        None
    }
}

/// The opcode of an (upper-case) mnemonic: `HLT` 0, `ADD` 1, `AND` 2, `OR` 3,
/// `CALL` 4, `RET` 5, `LD` 6, `ST` 7, `JMP` 8, `JZ` 9, `CMP` 10, `MUL` 11,
/// `NOP` 12, `INT` 13, `MOV` 14.
pub open spec fn opcode_of(m: Seq<char>) -> Option<i16> {
    if m.len() == 2 {
        opcode2(m[0], m[1])
    } else if m.len() == 3 {
        opcode3(m[0], m[1], m[2])
    } else if m.len() == 4 && m[0] == 'C' && m[1] == 'A' && m[2] == 'L' && m[3] == 'L' {
        Some(CALL_OP)
    } else {
        None
    }
}

/// The opcodes whose only operand fills the low twelve bits: `CALL`, `JMP`,
/// `JZ`, `INT`.
pub open spec fn is_one_operand(op: i16) -> bool {
    op == CALL_OP || op == JMP_OP || op == JZ_OP || op == INT_OP
}

/// The word `op << 12 | a << shift | b`, all fields as 16-bit patterns.
pub open spec fn word(op: i16, a: i16, shift: u16, b: i16) -> i16 {
    (((op as u16) << 12u16) | ((a as u16) << shift) | (b as u16)) as i16
}

/// The word with `op` in the top four bits and `v` below.
pub open spec fn word_one(op: i16, v: i16) -> i16 {
    (((op as u16) << 12u16) | (v as u16)) as i16
}

/// A warning of the encoder.
#[derive(Debug, PartialEq, Eq)]
pub enum EncodeWarning {
    /// A register number above 7: the destination field holds three bits.
    RegisterTooLarge(i16),
    /// A subroutine that neither the table nor the source's labels know; it encodes as 0.
    UnknownSubroutine(String),
}

pub enum EncodeWarningView {
    RegisterTooLarge(i16),
    UnknownSubroutine(Seq<char>),
}

impl View for EncodeWarning {
    type V = EncodeWarningView;

    open spec fn view(&self) -> EncodeWarningView {
        match self {
            EncodeWarning::RegisterTooLarge(n) => EncodeWarningView::RegisterTooLarge(*n),
            EncodeWarning::UnknownSubroutine(s) => EncodeWarningView::UnknownSubroutine(s@),
        }
    }
}

/// The encoder's rejection of an instruction.
#[derive(Debug, PartialEq, Eq)]
pub enum EncodeError {
    /// An identifier whose upper-case form is no mnemonic; carries the identifier.
    UnknownInstruction(String),
}

pub enum EncodeErrorView {
    UnknownInstruction(Seq<char>),
}

impl View for EncodeError {
    type V = EncodeErrorView;

    open spec fn view(&self) -> EncodeErrorView {
        match self {
            EncodeError::UnknownInstruction(s) => EncodeErrorView::UnknownInstruction(s@),
        }
    }
}

/// An encoded instruction and the warnings that its operands raised, in order.
#[derive(Debug, PartialEq, Eq)]
pub struct Encoded {
    pub word: i16,
    pub warnings: Vec<EncodeWarning>,
}

pub struct EncodedView {
    pub word: i16,
    pub warnings: Seq<EncodeWarningView>,
}

impl View for Encoded {
    type V = EncodedView;

    open spec fn view(&self) -> EncodedView {
        EncodedView { word: self.word, warnings: self.warnings@.map_values(|w: EncodeWarning| w@) }
    }
}

/// The one-element sequence of a warning, or the empty one.
pub open spec fn warning_seq(w: Option<EncodeWarningView>) -> Seq<EncodeWarningView> {
    match w {
        Some(w) => seq![w],
        None => Seq::<EncodeWarningView>::empty(),
    }
}

/// The view of an optional warning.
pub open spec fn opt_warning_view(w: Option<EncodeWarning>) -> Option<EncodeWarningView> {
    match w {
        Some(w) => Some(w@),
        None => None,
    }
}

/// The value of a subroutine operand: its number in the table, else the
/// number the source's label lines give it, else 0 with a warning.
pub open spec fn subroutine_value(
    name: Seq<char>,
    names: Seq<Seq<char>>,
    source: Seq<Seq<char>>,
) -> (i16, Option<EncodeWarningView>) {
    match id_in(names, name) {
        Some(id) => (id as i16, None),
        None => match hoisted_id(source, name) {
            Some(h) => (h as i16, None),
            None => (0i16, Some(EncodeWarningView::UnknownSubroutine(name))),
        },
    }
}

/// The value an operand encodes to: a register's number (with a warning
/// above 7), a literal with the flag bit 8 set, a subroutine's number, an
/// address; anything else is 0.
pub open spec fn operand_value(
    reg: Option<TokenView>,
    names: Seq<Seq<char>>,
    source: Seq<Seq<char>>,
) -> (i16, Option<EncodeWarningView>) {
    match reg {
        Some(TokenView::Register(n)) => (
            n,
            if n > 7 {
                Some(EncodeWarningView::RegisterTooLarge(n))
            } else {
                None
            },
        ),
        Some(TokenView::Literal(l)) => (((256u16 | (l as u16)) as i16), None),
        Some(TokenView::SR(s)) => subroutine_value(s, names, source),
        Some(TokenView::SRCall(s)) => subroutine_value(s, names, source),
        Some(TokenView::MemAddr(n)) => (n, None),
        _ => (0i16, None),
    }
}

/// Whether encoding the operand scans the source's label lines: a subroutine
/// that the table does not know.
pub open spec fn needs_scan(reg: Option<TokenView>, names: Seq<Seq<char>>) -> bool {
    match reg {
        Some(TokenView::SR(s)) => id_in(names, s) is None,
        Some(TokenView::SRCall(s)) => id_in(names, s) is None,
        _ => false,
    }
}

/// Whether encoding the instruction scans the source's label lines.
pub open spec fn encode_scans(
    ins: TokenView,
    reg1: Option<TokenView>,
    reg2: Option<TokenView>,
    names: Seq<Seq<char>>,
) -> bool {
    match ins {
        TokenView::Ident(s) => {
            match opcode_of(upper_case(s)) {
                None => false,
                Some(op) => if is_one_operand(op) {
                    needs_scan(reg1, names)
                } else {
                    needs_scan(reg1, names) || needs_scan(reg2, names)
                },
            }
        },
        TokenView::SR(s) => needs_scan(Some(TokenView::SR(s)), names),
        _ => needs_scan(reg1, names) || needs_scan(reg2, names),
    }
}

/// The standard encoding: opcode, first operand at bit 9, second below.
pub open spec fn standard_encoding(
    op: i16,
    reg1: Option<TokenView>,
    reg2: Option<TokenView>,
    names: Seq<Seq<char>>,
    source: Seq<Seq<char>>,
) -> EncodedView {
    let (a, wa) = operand_value(reg1, names, source);
    let (b, wb) = operand_value(reg2, names, source);
    EncodedView { word: word(op, a, 9, b), warnings: warning_seq(wa) + warning_seq(wb) }
}

/// What the encoder makes of the identifier `ident`, whose upper-case form
/// is `m`, and its operands: an unknown mnemonic rejects the identifier;
/// `CALL`, `JMP`, `JZ` and `INT` take one operand below their opcode, `ST`
/// puts its first operand at bit 3, and the rest use the standard layout.
pub open spec fn spec_encode_mnemonic(
    ident: Seq<char>,
    m: Seq<char>,
    reg1: Option<TokenView>,
    reg2: Option<TokenView>,
    names: Seq<Seq<char>>,
    source: Seq<Seq<char>>,
) -> Result<EncodedView, EncodeErrorView> {
    match opcode_of(m) {
        None => Err(EncodeErrorView::UnknownInstruction(ident)),
        Some(op) => if is_one_operand(op) {
            let (a, wa) = operand_value(reg1, names, source);
            Ok(EncodedView { word: word_one(op, a), warnings: warning_seq(wa) })
        } else if op == ST_OP {
            let (a, wa) = operand_value(reg1, names, source);
            let (b, wb) = operand_value(reg2, names, source);
            Ok(EncodedView { word: word(op, a, 3, b), warnings: warning_seq(wa) + warning_seq(wb) })
        } else {
            Ok(standard_encoding(op, reg1, reg2, names, source))
        },
    }
}

/// What the encoder makes of an instruction token and its operands, when the
/// table holds `names` and the source file's lines are `source`.
pub open spec fn spec_encode(
    ins: TokenView,
    reg1: Option<TokenView>,
    reg2: Option<TokenView>,
    names: Seq<Seq<char>>,
    source: Seq<Seq<char>>,
) -> Result<EncodedView, EncodeErrorView> {
    match ins {
        TokenView::Ident(s) => spec_encode_mnemonic(s, upper_case(s), reg1, reg2, names, source),
        TokenView::SR(s) => {
            let (a, wa) = subroutine_value(s, names, source);
            Ok(EncodedView { word: word_one(SR_OP, a), warnings: warning_seq(wa) })
        },
        _ => Ok(standard_encoding(HLT_OP, reg1, reg2, names, source)),
    }
}

/// The view of an encoder result.
pub open spec fn encode_result_view(r: Result<Encoded, EncodeError>) -> Result<
    EncodedView,
    EncodeErrorView,
> {
    match r {
        Ok(e) => Ok(e@),
        Err(e) => Err(e@),
    }
}

/// The opcode of an upper-case mnemonic.
pub fn mnemonic_opcode(m: &String) -> (r: Option<i16>)
    ensures
        r == opcode_of(m@),
{
    let v = chars_of(m.as_str());
    if v.len() == 2 {
        let (a, b) = (v[0], v[1]);
        if a == 'O' && b == 'R' {
            Some(OR_OP)
        } else if a == 'L' && b == 'D' {
            Some(LD_OP)
        } else if a == 'S' && b == 'T' {
            Some(ST_OP)
        } else if a == 'J' && b == 'Z' {
            Some(JZ_OP)
        } else {
            None
        }
    } else if v.len() == 3 {
        let (a, b, c) = (v[0], v[1], v[2]);
        if a == 'H' && b == 'L' && c == 'T' {
            Some(HLT_OP)
        } else if a == 'A' && b == 'D' && c == 'D' {
            Some(ADD_OP)
        } else if a == 'A' && b == 'N' && c == 'D' {
            Some(AND_OP)
        } else if a == 'R' && b == 'E' && c == 'T' {
            Some(RET_OP)
        } else if a == 'J' && b == 'M' && c == 'P' {
            Some(JMP_OP)
        } else if a == 'C' && b == 'M' && c == 'P' {
            Some(CMP_OP)
        } else if a == 'M' && b == 'U' && c == 'L' {
            Some(MUL_OP)
        } else if a == 'N' && b == 'O' && c == 'P' {
            Some(NOP_OP)
        } else if a == 'I' && b == 'N' && c == 'T' {
            Some(INT_OP)
        } else if a == 'M' && b == 'O' && c == 'V' {
            Some(MOV_OP)
        } else {
            None
        }
    } else if v.len() == 4 && v[0] == 'C' && v[1] == 'A' && v[2] == 'L' && v[3] == 'L' {
        Some(CALL_OP)
    } else {
        None
    }
}

/// The word `op << 12 | a << shift | b`.
fn make_word(op: i16, a: i16, shift: u16, b: i16) -> (w: i16)
    requires
        shift < 16,
    ensures
        w == word(op, a, shift, b),
{
    let bits: u16 = ((op as u16) << 12u16) | ((a as u16) << shift) | (b as u16);
    bits as i16
}

/// The word `op << 12 | v`.
fn make_word_one(op: i16, v: i16) -> (w: i16)
    ensures
        w == word_one(op, v),
{
    let bits: u16 = ((op as u16) << 12u16) | (v as u16);
    bits as i16
}

/// The value of a subroutine operand.
fn subroutine_operand(name: &String, table: &SubroutineTable, source: &Vec<String>) -> (r: (
    i16,
    Option<EncodeWarning>,
))
    requires
        table.wf(),
        id_in(table@, name@) is None ==> label_count(lines_view(source@)) < 32767,
    ensures
        (r.0, opt_warning_view(r.1)) == subroutine_value(name@, table@, lines_view(source@)),
{
    match table.id_of(name) {
        Some(id) => (id as i16, None),
        None => match hoisted_lookup(source, name) {
            Some(h) => (h, None),
            None => (0, Some(EncodeWarning::UnknownSubroutine(String::from_str(name.as_str())))),
        },
    }
}

/// The value an operand encodes to, and the warning it raises, if any.
pub fn register_to_binary(reg: Option<&Token>, table: &SubroutineTable, source: &Vec<String>) -> (r: (
    i16,
    Option<EncodeWarning>,
))
    requires
        table.wf(),
        needs_scan(opt_token_view(reg), table@) ==> label_count(lines_view(source@)) < 32767,
    ensures
        (r.0, opt_warning_view(r.1)) == operand_value(
            opt_token_view(reg),
            table@,
            lines_view(source@),
        ),
{
    match reg {
        Some(Token::Register(n)) => {
            if *n > 7 {
                (*n, Some(EncodeWarning::RegisterTooLarge(*n)))
            } else {
                (*n, None)
            }
        },
        Some(Token::Literal(l)) => {
            let bits: u16 = 256u16 | (*l as u16);
            (bits as i16, None)
        },
        Some(Token::SR(s)) => subroutine_operand(s, table, source),
        Some(Token::SRCall(s)) => subroutine_operand(s, table, source),
        Some(Token::MemAddr(n)) => (*n, None),
        _ => (0, None),
    }
}

/// Appends a warning, if there is one.
fn push_opt_warning(ws: &mut Vec<EncodeWarning>, w: Option<EncodeWarning>)
    ensures
        final(ws)@.map_values(|x: EncodeWarning| x@) == old(ws)@.map_values(
            |x: EncodeWarning| x@,
        ) + warning_seq(opt_warning_view(w)),
{
    match w {
        Some(w) => {
            let ghost wv = w@;
            ws.push(w);
            assert(final(ws)@.map_values(|x: EncodeWarning| x@) =~= old(ws)@.map_values(
                |x: EncodeWarning| x@,
            ) + seq![wv]);
        },
        None => {
            assert(final(ws)@.map_values(|x: EncodeWarning| x@) =~= old(ws)@.map_values(
                |x: EncodeWarning| x@,
            ) + Seq::<EncodeWarningView>::empty());
        },
    }
}

/// The encoding with two operands: `op << 12 | a << shift | b`.
fn encode_two(
    op: i16,
    shift: u16,
    reg1: Option<&Token>,
    reg2: Option<&Token>,
    table: &SubroutineTable,
    source: &Vec<String>,
) -> (r: Encoded)
    requires
        shift < 16,
        table.wf(),
        needs_scan(opt_token_view(reg1), table@) || needs_scan(opt_token_view(reg2), table@)
            ==> label_count(lines_view(source@)) < 32767,
    ensures
        ({
            let (a, wa) = operand_value(opt_token_view(reg1), table@, lines_view(source@));
            let (b, wb) = operand_value(opt_token_view(reg2), table@, lines_view(source@));
            r@ == EncodedView {
                word: word(op, a, shift, b),
                warnings: warning_seq(wa) + warning_seq(wb),
            }
        }),
{
    let (a, wa) = register_to_binary(reg1, table, source);
    let (b, wb) = register_to_binary(reg2, table, source);
    let mut warnings: Vec<EncodeWarning> = Vec::new();
    assert(warnings@.map_values(|x: EncodeWarning| x@) =~= Seq::<EncodeWarningView>::empty());
    push_opt_warning(&mut warnings, wa);
    push_opt_warning(&mut warnings, wb);
    let w = make_word(op, a, shift, b);
    let r = Encoded { word: w, warnings };
    assert(r@.warnings =~= warning_seq(opt_warning_view(wa)) + warning_seq(opt_warning_view(wb)));
    r
}

/// The encoding with one operand: `op << 12 | a`.
fn encode_one(op: i16, operand: Option<&Token>, table: &SubroutineTable, source: &Vec<String>) -> (r: Encoded)
    requires
        table.wf(),
        needs_scan(opt_token_view(operand), table@) ==> label_count(lines_view(source@)) < 32767,
    ensures
        ({
            let (a, wa) = operand_value(opt_token_view(operand), table@, lines_view(source@));
            r@ == EncodedView { word: word_one(op, a), warnings: warning_seq(wa) }
        }),
{
    let (a, wa) = register_to_binary(operand, table, source);
    let mut warnings: Vec<EncodeWarning> = Vec::new();
    assert(warnings@.map_values(|x: EncodeWarning| x@) =~= Seq::<EncodeWarningView>::empty());
    push_opt_warning(&mut warnings, wa);
    let r = Encoded { word: make_word_one(op, a), warnings };
    assert(r@.warnings =~= warning_seq(opt_warning_view(wa)));
    r
}

/// Whether encoding the operand scans the source's label lines.
fn operand_scans(reg: Option<&Token>, table: &SubroutineTable) -> (b: bool)
    requires
        table.wf(),
    ensures
        b == needs_scan(opt_token_view(reg), table@),
{
    match reg {
        Some(Token::SR(s)) => table.id_of(s).is_none(),
        Some(Token::SRCall(s)) => table.id_of(s).is_none(),
        _ => false,
    }
}

/// Whether encoding the instruction scans the source's label lines: it
/// names, as its operand or as the subroutine it declares, a subroutine that
/// the table does not know.
pub fn instruction_scans(
    ins: &Token,
    reg1: Option<&Token>,
    reg2: Option<&Token>,
    table: &SubroutineTable,
) -> (b: bool)
    requires
        table.wf(),
    ensures
        b == encode_scans(ins@, opt_token_view(reg1), opt_token_view(reg2), table@),
{
    match ins {
        Token::Ident(s) => {
            let upper = to_uppercase(s.as_str());
            match mnemonic_opcode(&upper) {
                None => false,
                Some(op) => if op == CALL_OP || op == JMP_OP || op == JZ_OP || op == INT_OP {
                    operand_scans(reg1, table)
                } else {
                    operand_scans(reg1, table) || operand_scans(reg2, table)
                },
            }
        },
        Token::SR(s) => table.id_of(s).is_none(),
        _ => operand_scans(reg1, table) || operand_scans(reg2, table),
    }
}

/// Encodes the identifier `instruction`, whose upper-case form is
/// `mnemonic`, with its operands (the work of `encode_instruction` once the
/// identifier is upper-cased).
pub fn encode_mnemonic(
    instruction: &String,
    mnemonic: &String,
    reg1: Option<&Token>,
    reg2: Option<&Token>,
    table: &SubroutineTable,
    source: &Vec<String>,
) -> (r: Result<Encoded, EncodeError>)
    requires
        table.wf(),
        (match opcode_of(mnemonic@) {
            None => false,
            Some(op) => if is_one_operand(op) {
                needs_scan(opt_token_view(reg1), table@)
            } else {
                needs_scan(opt_token_view(reg1), table@) || needs_scan(opt_token_view(reg2), table@)
            },
        }) ==> label_count(lines_view(source@)) < 32767,
    ensures
        encode_result_view(r) == spec_encode_mnemonic(
            instruction@,
            mnemonic@,
            opt_token_view(reg1),
            opt_token_view(reg2),
            table@,
            lines_view(source@),
        ),
{
    match mnemonic_opcode(mnemonic) {
        None => Err(EncodeError::UnknownInstruction(String::from_str(instruction.as_str()))),
        Some(op) => {
            if op == CALL_OP || op == JMP_OP || op == JZ_OP || op == INT_OP {
                Ok(encode_one(op, reg1, table, source))
            } else if op == ST_OP {
                Ok(encode_two(op, 3, reg1, reg2, table, source))
            } else {
                Ok(encode_two(op, 9, reg1, reg2, table, source))
            }
        },
    }
}

/// Encodes an instruction token with its operands.
///
/// `table` holds the subroutines declared so far; a subroutine it does not
/// know is looked up among the label lines of `source`, the source file.
/// An identifier that is no mnemonic (in any letter case) is rejected.
pub fn encode_instruction(
    ins: &Token,
    reg1: Option<&Token>,
    reg2: Option<&Token>,
    table: &SubroutineTable,
    source: &Vec<String>,
) -> (r: Result<Encoded, EncodeError>)
    requires
        table.wf(),
        encode_scans(ins@, opt_token_view(reg1), opt_token_view(reg2), table@) ==> label_count(
            lines_view(source@),
        ) < 32767,
    ensures
        encode_result_view(r) == spec_encode(
            ins@,
            opt_token_view(reg1),
            opt_token_view(reg2),
            table@,
            lines_view(source@),
        ),
{
    match ins {
        Token::Ident(instruction) => {
            let upper = to_uppercase(instruction.as_str());
            encode_mnemonic(instruction, &upper, reg1, reg2, table, source)
        },
        Token::SR(_) => Ok(encode_one(SR_OP, Some(ins), table, source)),
        _ => Ok(encode_two(HLT_OP, 9, reg1, reg2, table, source)),
    }
}

// ---------------------------------------------------------------------------
// Laws of the encoding
// ---------------------------------------------------------------------------

/// The standard layout: with an opcode below 16, a destination register
/// below 8 and a source operand below 512, the word holds the opcode in its
/// top four bits, the register in the next three and the operand in the low
/// nine.
pub proof fn lemma_standard_layout(op: i16, a: i16, b: i16)
    requires
        0 <= op < 16,
        0 <= a < 8,
        0 <= b < 512,
    ensures
        (word(op, a, 9, b) as u16) >> 12u16 == op as u16,
        ((word(op, a, 9, b) as u16) >> 9u16) & 7u16 == a as u16,
        (word(op, a, 9, b) as u16) & 0x1ffu16 == b as u16,
{
    assert(((((op as u16) << 12u16) | ((a as u16) << 9u16) | (b as u16)) as i16) as u16 >> 12u16
        == op as u16) by (bit_vector)
        requires
            0 <= op < 16,
            0 <= a < 8,
            0 <= b < 512,
    ;
    assert((((((op as u16) << 12u16) | ((a as u16) << 9u16) | (b as u16)) as i16) as u16 >> 9u16)
        & 7u16 == a as u16) by (bit_vector)
        requires
            0 <= op < 16,
            0 <= a < 8,
            0 <= b < 512,
    ;
    assert(((((op as u16) << 12u16) | ((a as u16) << 9u16) | (b as u16)) as i16) as u16 & 0x1ffu16
        == b as u16) by (bit_vector)
        requires
            0 <= op < 16,
            0 <= a < 8,
            0 <= b < 512,
    ;
}

/// The `ST` layout: with an opcode below 16, a first operand (an address)
/// below 512 and a source register below 8, the word holds the opcode in its
/// top four bits, the address in the next nine and the register in the low three.
pub proof fn lemma_store_layout(op: i16, a: i16, b: i16)
    requires
        0 <= op < 16,
        0 <= a < 512,
        0 <= b < 8,
    ensures
        (word(op, a, 3, b) as u16) >> 12u16 == op as u16,
        ((word(op, a, 3, b) as u16) >> 3u16) & 0x1ffu16 == a as u16,
        (word(op, a, 3, b) as u16) & 7u16 == b as u16,
{
    assert(((((op as u16) << 12u16) | ((a as u16) << 3u16) | (b as u16)) as i16) as u16 >> 12u16
        == op as u16) by (bit_vector)
        requires
            0 <= op < 16,
            0 <= a < 512,
            0 <= b < 8,
    ;
    assert((((((op as u16) << 12u16) | ((a as u16) << 3u16) | (b as u16)) as i16) as u16 >> 3u16)
        & 0x1ffu16 == a as u16) by (bit_vector)
        requires
            0 <= op < 16,
            0 <= a < 512,
            0 <= b < 8,
    ;
    assert(((((op as u16) << 12u16) | ((a as u16) << 3u16) | (b as u16)) as i16) as u16 & 7u16
        == b as u16) by (bit_vector)
        requires
            0 <= op < 16,
            0 <= a < 512,
            0 <= b < 8,
    ;
}

/// The one-operand layout (also that of a subroutine declaration): with an
/// opcode below 16 and an operand below 4096, the word holds the opcode in
/// its top four bits and the operand in the low twelve.
pub proof fn lemma_one_operand_layout(op: i16, v: i16)
    requires
        0 <= op < 16,
        0 <= v < 4096,
    ensures
        (word_one(op, v) as u16) >> 12u16 == op as u16,
        (word_one(op, v) as u16) & 0xfffu16 == v as u16,
{
    assert(((((op as u16) << 12u16) | (v as u16)) as i16) as u16 >> 12u16 == op as u16)
        by (bit_vector)
        requires
            0 <= op < 16,
            0 <= v < 4096,
    ;
    assert(((((op as u16) << 12u16) | (v as u16)) as i16) as u16 & 0xfffu16 == v as u16)
        by (bit_vector)
        requires
            0 <= op < 16,
            0 <= v < 4096,
    ;
}

/// The determinant bit: a literal byte encodes with bit 8 set and the byte
/// in the low eight bits; a register below 256 encodes as itself, with bit 8 clear.
pub proof fn lemma_determinant_bit(l: i16, n: i16, names: Seq<Seq<char>>, source: Seq<Seq<char>>)
    requires
        0 <= l < 256,
        0 <= n < 256,
    ensures
        ({
            let v = operand_value(Some(TokenView::Literal(l)), names, source).0;
            &&& 256 <= v < 512
            &&& (v as u16) & 0x100u16 != 0
            &&& (v as u16) & 0xffu16 == l as u16
        }),
        operand_value(Some(TokenView::Register(n)), names, source).0 == n,
        (n as u16) & 0x100u16 == 0,
{
    let v = ((256u16 | (l as u16)) as i16);
    assert(256 <= v < 512 && (v as u16) & 0x100u16 != 0 && (v as u16) & 0xffu16 == l as u16)
        by (bit_vector)
        requires
            0 <= l < 256,
            v == ((256u16 | (l as u16)) as i16),
    ;
    assert((n as u16) & 0x100u16 == 0) by (bit_vector)
        requires
            0 <= n < 256,
    ;
}

/// Every mnemonic is spelled in upper-case ASCII letters.
pub proof fn lemma_mnemonic_letters(m: Seq<char>)
    requires
        opcode_of(m) is Some,
    ensures
        forall|i: int| 0 <= i < m.len() ==> 'A' <= #[trigger] m[i] && m[i] <= 'Z',
        all_ascii(m),
        upper_case(m) == m,
{
    assert(forall|i: int| 0 <= i < m.len() ==> 'A' <= #[trigger] m[i] && m[i] <= 'Z');
    lemma_upper_case_of_upper_letters(m);
}

/// Mnemonics are matched without regard to case: an identifier whose
/// upper-case form is a mnemonic encodes as that upper-case form does, and,
/// when it is ASCII, as its lower-case form does.
pub proof fn lemma_encode_ignores_case(
    s: Seq<char>,
    reg1: Option<TokenView>,
    reg2: Option<TokenView>,
    names: Seq<Seq<char>>,
    source: Seq<Seq<char>>,
)
    requires
        opcode_of(upper_case(s)) is Some,
    ensures
        spec_encode(TokenView::Ident(upper_case(s)), reg1, reg2, names, source)
            == spec_encode(TokenView::Ident(s), reg1, reg2, names, source),
        all_ascii(s) ==> spec_encode(TokenView::Ident(ascii_lower(s)), reg1, reg2, names, source)
            == spec_encode(TokenView::Ident(s), reg1, reg2, names, source),
{
    lemma_mnemonic_letters(upper_case(s));
    if all_ascii(s) {
        lemma_upper_case_of_lower(s);
    }
}

/// The opcode table of the instruction set: `HLT` 0, `ADD` 1, `AND` 2, `OR` 3,
/// `CALL` 4, `RET` 5, `LD` 6, `ST` 7, `JMP` 8, `JZ` 9, `CMP` 10, `MUL` 11,
/// `NOP` 12, `INT` 13, `MOV` 14; no other string is a mnemonic.
pub proof fn lemma_opcode_table(m: Seq<char>)
    ensures
        opcode_of(seq!['H', 'L', 'T']) == Some(0i16),
        opcode_of(seq!['A', 'D', 'D']) == Some(1i16),
        opcode_of(seq!['A', 'N', 'D']) == Some(2i16),
        opcode_of(seq!['O', 'R']) == Some(3i16),
        opcode_of(seq!['C', 'A', 'L', 'L']) == Some(4i16),
        opcode_of(seq!['R', 'E', 'T']) == Some(5i16),
        opcode_of(seq!['L', 'D']) == Some(6i16),
        opcode_of(seq!['S', 'T']) == Some(7i16),
        opcode_of(seq!['J', 'M', 'P']) == Some(8i16),
        opcode_of(seq!['J', 'Z']) == Some(9i16),
        opcode_of(seq!['C', 'M', 'P']) == Some(10i16),
        opcode_of(seq!['M', 'U', 'L']) == Some(11i16),
        opcode_of(seq!['N', 'O', 'P']) == Some(12i16),
        opcode_of(seq!['I', 'N', 'T']) == Some(13i16),
        opcode_of(seq!['M', 'O', 'V']) == Some(14i16),
        opcode_of(m) is Some ==> (m == seq!['H', 'L', 'T'] || m == seq!['A', 'D', 'D'] || m == seq!['A', 'N', 'D'] || m == seq!['O', 'R'] || m == seq!['C', 'A', 'L', 'L'] || m == seq!['R', 'E', 'T'] || m == seq!['L', 'D'] || m == seq!['S', 'T'] || m == seq!['J', 'M', 'P'] || m == seq!['J', 'Z'] || m == seq!['C', 'M', 'P'] || m == seq!['M', 'U', 'L'] || m == seq!['N', 'O', 'P'] || m == seq!['I', 'N', 'T'] || m == seq!['M', 'O', 'V']),
{
}

/// An instruction written with any identifier whose upper-case form is a
/// mnemonic, on registers below 8, encodes without error and carries the
/// mnemonic's opcode in the top four bits of its word. `CALL`, `JMP`, `JZ`
/// and `INT` (opcodes 4, 8, 9, 13) hold the first register in the low twelve
/// bits; `ST` (opcode 7) holds it at bit 3 and the second in the low three
/// bits; every other mnemonic holds the first at bit 9 and the second in the
/// low nine bits.
pub proof fn lemma_encoded_opcode(
    s: Seq<char>,
    x: i16,
    y: i16,
    names: Seq<Seq<char>>,
    source: Seq<Seq<char>>,
)
    requires
        0 <= x < 8,
        0 <= y < 8,
        opcode_of(upper_case(s)) is Some,
    ensures
        spec_encode(
            TokenView::Ident(s),
            Some(TokenView::Register(x)),
            Some(TokenView::Register(y)),
            names,
            source,
        ) matches Ok(e) && (e.word as u16) >> 12u16 == opcode_of(upper_case(s))->0 as u16 && ({
            let op = opcode_of(upper_case(s))->0;
            let w = e.word as u16;
            if op == 4 || op == 8 || op == 9 || op == 13 {
                w & 0xfffu16 == x as u16
            } else if op == 7 {
                (w >> 3u16) & 0x1ffu16 == x as u16 && w & 7u16 == y as u16
            } else {
                (w >> 9u16) & 7u16 == x as u16 && w & 0x1ffu16 == y as u16
            }
        }),
{
    let op = opcode_of(upper_case(s))->0;
    assert(0 <= op < 16);
    if is_one_operand(op) {
        lemma_one_operand_layout(op, x);
    } else if op == ST_OP {
        lemma_store_layout(op, x, y);
    } else {
        lemma_standard_layout(op, x, y);
    }
}

/// A call of a subroutine that the table declared at position `k` encodes as
/// opcode 4 with the number `k + 1` in the low twelve bits, whatever case the
/// `call` is written in; the declaration of that subroutine encodes as
/// opcode 15 with the same number. Neither warns.
pub proof fn lemma_known_subroutine_words(
    s: Seq<char>,
    names: Seq<Seq<char>>,
    k: int,
    source: Seq<Seq<char>>,
)
    requires
        upper_case(s) == seq!['C', 'A', 'L', 'L'],
        distinct_names(names),
        0 <= k < names.len(),
        names.len() < 4096,
    ensures
        spec_encode(TokenView::Ident(s), Some(TokenView::SRCall(names[k])), None, names, source)
            matches Ok(e) && (e.word as u16) >> 12u16 == 4u16 && (e.word as u16) & 0xfffu16 == (k
            + 1) as u16 && e.warnings.len() == 0,
        spec_encode(TokenView::SR(names[k]), None, None, names, source) matches Ok(e) && (
        e.word as u16) >> 12u16 == 15u16 && (e.word as u16) & 0xfffu16 == (k + 1) as u16
            && e.warnings.len() == 0,
{
    lemma_numbers_are_positions(names);
    assert(id_in(names, names[k]) == Some(k + 1));
    let v = (k + 1) as i16;
    lemma_one_operand_layout(CALL_OP, v);
    lemma_one_operand_layout(SR_OP, v);
    assert(warning_seq(None) =~= Seq::<EncodeWarningView>::empty());
}

} // verus!
