//! An assembler for a small 16-bit instruction set: a line lexer, an
//! instruction encoder, an operand-count checker and the pipeline that turns
//! prepared source lines into big-endian machine words.

pub mod config;
pub mod encode;
pub mod lex;
pub mod program;
pub mod symbols;
pub mod text;
pub mod tokens;
pub mod verify;

pub use config::{Args, declare_config};
pub use encode::{
    ADD_OP, AND_OP, CALL_OP, CMP_OP, EncodeError, EncodeWarning, Encoded, HLT_OP, INT_OP, JMP_OP,
    JZ_OP, LD_OP, MOV_OP, MUL_OP, NOP_OP, OR_OP, RET_OP, SR_OP, ST_OP, encode_instruction,
    register_to_binary,
};
pub use lex::{LexError, LexErrorKind, LexWarning, LexWarningKind, Lexed, lex};
pub use program::{
    Assembly, Failure, LineReport, PreambleLine, assemble, assemble_checked, classify_preamble_line,
    clean_lines, fits_limits,
};
pub use symbols::{SubroutineTable, count_labels};
pub use tokens::Token;
pub use verify::{Arity, ArityError, is_arg, verify};

use vstd::prelude::*;
use vstd::string::StringExecFns;
use crate::encode::spec_encode;
use crate::symbols::{id_in, label_count, lines_view};
use crate::tokens::TokenView;

verus! {

/// The absolute value of a word.
pub open spec fn abs_word(w: i16) -> int {
    if w < 0 {
        -(w as int)
    } else {
        w as int
    }
}

/// The self-check of subroutine encoding: encodes the declaration of the
/// subroutine `powwow` (with the subroutines of `table` declared and the
/// label lines of `source`) and tells whether the magnitude of the word is
/// `0b1111000000000001`. No word of 16 bits has that magnitude, so the check
/// never passes.
pub fn sr_check(table: &SubroutineTable, source: &Vec<String>) -> (ok: bool)
    requires
        table.wf(),
        id_in(table@, "powwow"@) is None ==> label_count(lines_view(source@)) < 32767,
    ensures
        ok == (match spec_encode(
            TokenView::SR("powwow"@),
            None,
            None,
            table@,
            lines_view(source@),
        ) {
            Ok(e) => abs_word(e.word) == 0b1111000000000001,
            Err(_) => false,
        }),
        !ok,
{
    let ident = Token::SR(String::from_str("powwow"));
    match encode_instruction(&ident, None, None, table, source) {
        Ok(enc) => {
            let w = enc.word as i32;
            let magnitude: i32 = if w < 0 {
                -w
            } else {
                w
            };
            magnitude as u32 == 0b1111000000000001u32
        },
        Err(_) => false,
    }
}

} // verus!
