//! The operand-count check of an instruction.

use vstd::prelude::*;
use crate::text::{to_uppercase, upper_case, all_ascii, ascii_lower, lemma_upper_case_of_lower};
use crate::tokens::{Token, TokenView, opt_token_view};
use crate::encode::{
    opcode_of, spec_encode, mnemonic_opcode, lemma_mnemonic_letters, HLT_OP, RET_OP, NOP_OP, INT_OP, CALL_OP, JMP_OP, JZ_OP,
};

verus! {

/// How many operands a mnemonic takes.
#[derive(Debug, Clone, Copy, PartialEq, Eq, Structural)]
pub enum Arity {
    /// `HLT`, `RET`, `NOP`.
    NoArguments,
    /// `CALL`, `JMP`, `JZ`.
    OneArgument,
    /// `INT`.
    OneOrTwoArguments,
    /// `ADD`, `AND`, `OR`, `LD`, `ST`, `MOV`, `MUL`, `CMP`.
    TwoArguments,
}

/// The arity of an opcode.
pub open spec fn arity_of_opcode(op: i16) -> Arity {
    if op == HLT_OP || op == RET_OP || op == NOP_OP {
        Arity::NoArguments
    } else if op == INT_OP {
        Arity::OneOrTwoArguments
    } else if op == CALL_OP || op == JMP_OP || op == JZ_OP {
        Arity::OneArgument
    } else {
        Arity::TwoArguments
    }
}

/// The arity of an (upper-case) mnemonic: none for `HLT`, `RET`, `NOP`; one
/// for `CALL`, `JMP`, `JZ`; one or two for `INT`; two for `ADD`, `AND`, `OR`,
/// `LD`, `ST`, `MOV`, `MUL`, `CMP`.
pub open spec fn arity_of(m: Seq<char>) -> Option<Arity> {
    match opcode_of(m) {
        Some(op) => Some(arity_of_opcode(op)),
        None => None,
    }
}

/// Whether the presence of a first and a second operand meets an arity.
pub open spec fn arity_met(a: Arity, first: bool, second: bool) -> bool {
    match a {
        Arity::NoArguments => !first && !second,
        Arity::OneArgument => first && !second,
        Arity::OneOrTwoArguments => first,
        Arity::TwoArguments => first && second,
    }
}

/// Whether a token stands for an operand: a register, a literal, a
/// subroutine call, an address or a pointer.
pub open spec fn is_operand(t: Option<TokenView>) -> bool {
    match t {
        Some(TokenView::Register(_)) => true,
        Some(TokenView::Literal(_)) => true,
        Some(TokenView::SRCall(_)) => true,
        Some(TokenView::MemAddr(_)) => true,
        Some(TokenView::MemPointer(_)) => true,
        Some(TokenView::RegPointer(_)) => true,
        _ => false,
    }
}

/// An instruction whose operands do not meet its mnemonic's arity: the
/// upper-case mnemonic and the arity it needs.
#[derive(Debug, PartialEq, Eq)]
pub struct ArityError {
    pub mnemonic: String,
    pub arity: Arity,
}

pub struct ArityErrorView {
    pub mnemonic: Seq<char>,
    pub arity: Arity,
}

impl View for ArityError {
    type V = ArityErrorView;

    open spec fn view(&self) -> ArityErrorView {
        ArityErrorView { mnemonic: self.mnemonic@, arity: self.arity }
    }
}

/// The view of an optional arity error.
pub open spec fn opt_arity_view(e: Option<ArityError>) -> Option<ArityErrorView> {
    match e {
        Some(e) => Some(e@),
        None => None,
    }
}

/// The operand-count check of a mnemonic `m` (in upper case): when it is a
/// mnemonic, its operands must meet its arity.
pub open spec fn spec_verify_mnemonic(
    m: Seq<char>,
    arg1: Option<TokenView>,
    arg2: Option<TokenView>,
) -> Option<ArityErrorView> {
    match arity_of(m) {
        Some(a) => if arity_met(a, is_operand(arg1), is_operand(arg2)) {
            None
        } else {
            Some(ArityErrorView { mnemonic: m, arity: a })
        },
        None => None,
    }
}

/// The operand-count check: an identifier whose upper-case form is a
/// mnemonic must have operands that meet its arity; nothing else is checked.
pub open spec fn spec_verify(
    ins: TokenView,
    arg1: Option<TokenView>,
    arg2: Option<TokenView>,
) -> Option<ArityErrorView> {
    match ins {
        TokenView::Ident(s) => spec_verify_mnemonic(upper_case(s), arg1, arg2),
        _ => None,
    }
}

/// Whether a token is an operand.
pub fn is_arg(tok_to_check: Option<&Token>) -> (b: bool)
    ensures
        b == is_operand(opt_token_view(tok_to_check)),
{
    match tok_to_check {
        Some(Token::Register(_)) => true,
        Some(Token::Literal(_)) => true,
        Some(Token::SRCall(_)) => true,
        Some(Token::MemAddr(_)) => true,
        Some(Token::MemPointer(_)) => true,
        Some(Token::RegPointer(_)) => true,
        _ => false,
    }
}

/// The arity of an upper-case mnemonic.
pub fn mnemonic_arity(m: &String) -> (r: Option<Arity>)
    ensures
        r == arity_of(m@),
{
    match mnemonic_opcode(m) {
        Some(op) => {
            if op == HLT_OP || op == RET_OP || op == NOP_OP {
                Some(Arity::NoArguments)
            } else if op == INT_OP {
                Some(Arity::OneOrTwoArguments)
            } else if op == CALL_OP || op == JMP_OP || op == JZ_OP {
                Some(Arity::OneArgument)
            } else {
                Some(Arity::TwoArguments)
            }
        },
        None => None,
    }
}

/// The operand-count check of an upper-case mnemonic (the work of `verify`
/// once the identifier is upper-cased).
pub fn verify_mnemonic(mnemonic: String, arg1: Option<&Token>, arg2: Option<&Token>) -> (r: Option<
    ArityError,
>)
    ensures
        opt_arity_view(r) == spec_verify_mnemonic(
            mnemonic@,
            opt_token_view(arg1),
            opt_token_view(arg2),
        ),
{
    match mnemonic_arity(&mnemonic) {
        Some(a) => {
            let first = is_arg(arg1);
            let second = is_arg(arg2);
            let met = match a {
                Arity::NoArguments => !first && !second,
                Arity::OneArgument => first && !second,
                Arity::OneOrTwoArguments => first,
                Arity::TwoArguments => first && second,
            };
            if met {
                None
            } else {
                Some(ArityError { mnemonic, arity: a })
            }
        },
        None => None,
    }
}

/// Checks that an instruction has as many operands as its mnemonic takes.
/// Returns the error to report, or `None` when the instruction passes.
pub fn verify(ins: &Token, arg1: Option<&Token>, arg2: Option<&Token>) -> (r: Option<ArityError>)
    ensures
        opt_arity_view(r) == spec_verify(ins@, opt_token_view(arg1), opt_token_view(arg2)),
{
    match ins {
        Token::Ident(s) => verify_mnemonic(to_uppercase(s.as_str()), arg1, arg2),
        _ => None,
    }
}

/// The encoder and the operand-count check know the same mnemonics.
pub proof fn lemma_same_mnemonics(m: Seq<char>)
    ensures
        opcode_of(m) is Some <==> arity_of(m) is Some,
{
}

/// The operand-count check reports only instructions that the encoder
/// encodes: an instruction it rejects is never one the encoder rejects.
pub proof fn lemma_reported_instructions_encode(
    ins: TokenView,
    arg1: Option<TokenView>,
    arg2: Option<TokenView>,
    names: Seq<Seq<char>>,
    source: Seq<Seq<char>>,
)
    ensures
        spec_verify(ins, arg1, arg2) is Some ==> spec_encode(ins, arg1, arg2, names, source) is Ok,
{
    if let TokenView::Ident(s) = ins {
        lemma_same_mnemonics(upper_case(s));
    }
}

/// The operand-count check reads a mnemonic without regard to case: an
/// identifier whose upper-case form is a mnemonic is checked as that
/// upper-case form is; an ASCII identifier is checked as its lower-case form is.
pub proof fn lemma_verify_ignores_case(s: Seq<char>, arg1: Option<TokenView>, arg2: Option<TokenView>)
    ensures
        opcode_of(upper_case(s)) is Some ==> spec_verify(TokenView::Ident(upper_case(s)), arg1, arg2)
            == spec_verify(TokenView::Ident(s), arg1, arg2),
        all_ascii(s) ==> spec_verify(TokenView::Ident(ascii_lower(s)), arg1, arg2) == spec_verify(
            TokenView::Ident(s),
            arg1,
            arg2,
        ),
{
    if opcode_of(upper_case(s)) is Some {
        lemma_mnemonic_letters(upper_case(s));
    }
    if all_ascii(s) {
        lemma_upper_case_of_lower(s);
    }
}

/// The operand counts of the instruction set: none for `HLT`, `RET`, `NOP`;
/// one for `CALL`, `JMP`, `JZ`; one or two for `INT`; two for `ADD`, `AND`,
/// `OR`, `LD`, `ST`, `MOV`, `MUL`, `CMP`.
pub proof fn lemma_arity_table()
    ensures
        arity_of(seq!['H', 'L', 'T']) == Some(Arity::NoArguments),
        arity_of(seq!['R', 'E', 'T']) == Some(Arity::NoArguments),
        arity_of(seq!['N', 'O', 'P']) == Some(Arity::NoArguments),
        arity_of(seq!['C', 'A', 'L', 'L']) == Some(Arity::OneArgument),
        arity_of(seq!['J', 'M', 'P']) == Some(Arity::OneArgument),
        arity_of(seq!['J', 'Z']) == Some(Arity::OneArgument),
        arity_of(seq!['I', 'N', 'T']) == Some(Arity::OneOrTwoArguments),
        arity_of(seq!['A', 'D', 'D']) == Some(Arity::TwoArguments),
        arity_of(seq!['A', 'N', 'D']) == Some(Arity::TwoArguments),
        arity_of(seq!['O', 'R']) == Some(Arity::TwoArguments),
        arity_of(seq!['L', 'D']) == Some(Arity::TwoArguments),
        arity_of(seq!['S', 'T']) == Some(Arity::TwoArguments),
        arity_of(seq!['M', 'O', 'V']) == Some(Arity::TwoArguments),
        arity_of(seq!['M', 'U', 'L']) == Some(Arity::TwoArguments),
        arity_of(seq!['C', 'M', 'P']) == Some(Arity::TwoArguments),
{
}

/// What the operand-count check answers, for any identifier and operands:
/// an instruction passes exactly when its operands are as many as its
/// mnemonic takes (a second operand is optional for `INT`), a word that is no
/// mnemonic always passes, and a reported error names the upper-case
/// mnemonic and its arity.
pub proof fn lemma_verify_counts(s: Seq<char>, a1: Option<TokenView>, a2: Option<TokenView>)
    ensures
        arity_of(upper_case(s)) == Some(Arity::NoArguments) ==> (spec_verify(
            TokenView::Ident(s),
            a1,
            a2,
        ) is None <==> !is_operand(a1) && !is_operand(a2)),
        arity_of(upper_case(s)) == Some(Arity::OneArgument) ==> (spec_verify(
            TokenView::Ident(s),
            a1,
            a2,
        ) is None <==> is_operand(a1) && !is_operand(a2)),
        arity_of(upper_case(s)) == Some(Arity::OneOrTwoArguments) ==> (spec_verify(
            TokenView::Ident(s),
            a1,
            a2,
        ) is None <==> is_operand(a1)),
        arity_of(upper_case(s)) == Some(Arity::TwoArguments) ==> (spec_verify(
            TokenView::Ident(s),
            a1,
            a2,
        ) is None <==> is_operand(a1) && is_operand(a2)),
        arity_of(upper_case(s)) is None ==> spec_verify(TokenView::Ident(s), a1, a2) is None,
        spec_verify(TokenView::Ident(s), a1, a2) matches Some(e) ==> e.mnemonic == upper_case(s)
            && arity_of(upper_case(s)) == Some(e.arity),
{
}

/// The operands an instruction counts: registers, literals, subroutine
/// calls, addresses and pointers; no token at all, and every other token
/// (an identifier, a declaration, a comma, the end of the line...), is none.
pub proof fn lemma_operand_kinds(t: TokenView)
    ensures
        !is_operand(None),
        is_operand(Some(t)) <==> (t is Register || t is Literal || t is SRCall || t is MemAddr
            || t is MemPointer || t is RegPointer),
        !is_operand(Some(TokenView::Eol)),
        !is_operand(Some(TokenView::Comma)),
{
}

} // verus!
