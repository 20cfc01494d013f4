//! The line lexer: turns one line of assembly into tokens, declaring the
//! subroutines it meets (`name:`) in the subroutine table.

use vstd::prelude::*;
use crate::symbols::{SubroutineTable, position_of, lemma_position_bound, distinct_names};
use crate::symbols::id_in;
use crate::text::{is_ascii_char, nat_decimal, 
    chars_of, digits_value, is_alphanumeric, is_ascii_digit, is_digit, string_of,
    alphanumeric, is_ascii_letter, digit_value, int_decimal, lemma_nat_decimal_digits,
    lemma_decimal_roundtrip,
};
use crate::tokens::{Token, TokenView, tokens_view, raw_text};

verus! {

// ---------------------------------------------------------------------------
// Diagnostics
// ---------------------------------------------------------------------------

/// What a lexer warning reports.
#[derive(Debug, PartialEq, Eq)]
pub enum LexWarningKind {
    /// `%` followed by something other than `r` or `R`; lexing of the line stops.
    ExpectedRegisterLetter,
    /// `%` at the end of the line; lexing of the line stops.
    MissingRegisterIdentifier,
    /// A register number that does not fit in an `i16`; lexing of the line stops.
    InvalidRegisterNumber,
    /// `%r` with no digits; lexing of the line stops.
    RegisterWithoutNumber,
    /// A second declaration of a subroutine; it is skipped.
    DuplicateSubroutine(String),
    /// A character that starts no token; it is skipped.
    UnknownCharacter(char),
}

/// A warning of the lexer, with the line it was given.
#[derive(Debug, PartialEq, Eq)]
pub struct LexWarning {
    pub line: u32,
    pub kind: LexWarningKind,
}

/// What makes the lexer reject a line.
#[derive(Debug, PartialEq, Eq)]
pub enum LexErrorKind {
    /// `#` not followed by a number that fits in an `i16`; carries the literal's text.
    LiteralNotNumeric(String),
    /// A `#` literal beyond +/- 128.
    LiteralOutOfRange,
    /// `$` not followed by a number that fits in an `i16`.
    AddressNotNumeric,
    /// A `$` address outside 1..4095.
    AddressOutOfRange,
}

/// The lexer's rejection of a line, with the line it was given.
#[derive(Debug, PartialEq, Eq)]
pub struct LexError {
    pub line: u32,
    pub kind: LexErrorKind,
}

/// What the lexer made of a line: its tokens (ending with `Eol` unless the
/// line was rejected), the warnings in the order they arose, and the
/// rejection, if any.
#[derive(Debug, PartialEq, Eq)]
pub struct Lexed {
    pub tokens: Vec<Token>,
    pub warnings: Vec<LexWarning>,
    pub error: Option<LexError>,
}

pub enum LexWarningKindView {
    ExpectedRegisterLetter,
    MissingRegisterIdentifier,
    InvalidRegisterNumber,
    RegisterWithoutNumber,
    DuplicateSubroutine(Seq<char>),
    UnknownCharacter(char),
}

pub struct LexWarningView {
    pub line: u32,
    pub kind: LexWarningKindView,
}

pub enum LexErrorKindView {
    LiteralNotNumeric(Seq<char>),
    LiteralOutOfRange,
    AddressNotNumeric,
    AddressOutOfRange,
}

pub struct LexErrorView {
    pub line: u32,
    pub kind: LexErrorKindView,
}

impl View for LexWarning {
    type V = LexWarningView;

    open spec fn view(&self) -> LexWarningView {
        LexWarningView {
            line: self.line,
            kind: match &self.kind {
                LexWarningKind::ExpectedRegisterLetter => LexWarningKindView::ExpectedRegisterLetter,
                LexWarningKind::MissingRegisterIdentifier =>
                    LexWarningKindView::MissingRegisterIdentifier,
                LexWarningKind::InvalidRegisterNumber => LexWarningKindView::InvalidRegisterNumber,
                LexWarningKind::RegisterWithoutNumber => LexWarningKindView::RegisterWithoutNumber,
                LexWarningKind::DuplicateSubroutine(s) => LexWarningKindView::DuplicateSubroutine(
                    s@,
                ),
                LexWarningKind::UnknownCharacter(c) => LexWarningKindView::UnknownCharacter(*c),
            },
        }
    }
}

impl View for LexError {
    type V = LexErrorView;

    open spec fn view(&self) -> LexErrorView {
        LexErrorView {
            line: self.line,
            kind: match &self.kind {
                LexErrorKind::LiteralNotNumeric(s) => LexErrorKindView::LiteralNotNumeric(s@),
                LexErrorKind::LiteralOutOfRange => LexErrorKindView::LiteralOutOfRange,
                LexErrorKind::AddressNotNumeric => LexErrorKindView::AddressNotNumeric,
                LexErrorKind::AddressOutOfRange => LexErrorKindView::AddressOutOfRange,
            },
        }
    }
}

/// The views of a sequence of warnings.
pub open spec fn warnings_view(v: Seq<LexWarning>) -> Seq<LexWarningView> {
    v.map_values(|w: LexWarning| w@)
}

// ---------------------------------------------------------------------------
// The lexer as a mathematical function
// ---------------------------------------------------------------------------

/// What the lexer has produced so far, and the subroutines declared so far.
pub struct LexState {
    pub tokens: Seq<TokenView>,
    pub names: Seq<Seq<char>>,
    pub warnings: Seq<LexWarningView>,
}

impl LexState {
    pub open spec fn with_token(self, t: TokenView) -> LexState {
        LexState { tokens: self.tokens.push(t), ..self }
    }

    pub open spec fn with_warning(self, line: u32, k: LexWarningKindView) -> LexState {
        LexState { warnings: self.warnings.push(LexWarningView { line, kind: k }), ..self }
    }

    pub open spec fn with_declaration(self, name: Seq<char>) -> LexState {
        LexState {
            tokens: self.tokens.push(TokenView::SR(name)),
            names: self.names.push(name),
            ..self
        }
    }
}

/// One step of the lexer at position `i`: go on at a later position, stop
/// reading the line, or reject it.
pub enum LexStep {
    Next(int, LexState),
    Stop(LexState),
    Fail(LexErrorKindView),
}

/// The end of the lexer's work on a line: the final state and the rejection, if any.
pub struct LexOutcome {
    pub state: LexState,
    pub error: Option<LexErrorView>,
}

/// A character that may continue a name: alphanumeric or `_`.
pub open spec fn is_word_char(c: char) -> bool {
    alphanumeric(c) || c == '_'
}

/// The end of the run of name characters that starts at `i`.
pub open spec fn word_end(s: Seq<char>, i: int) -> int
    decreases s.len() - i,
{
    if 0 <= i < s.len() && is_word_char(s[i]) {
        word_end(s, i + 1)
    } else {
        i
    }
}

/// The end of the run of ASCII digits that starts at `i`.
pub open spec fn digits_end(s: Seq<char>, i: int) -> int
    decreases s.len() - i,
{
    if 0 <= i < s.len() && is_digit(s[i]) {
        digits_end(s, i + 1)
    } else {
        i
    }
}

/// The byte a `#` literal is stored as: the value itself when it is not
/// negative, else its magnitude's low seven bits with the sign bit (0x80) set.
pub open spec fn literal_byte(n: int) -> int {
    if n < 0 {
        128 + (-n) % 128
    } else {
        n
    }
}

/// The step at a `%` (a register).
pub open spec fn register_step(s: Seq<char>, i: int, line: u32, st: LexState) -> LexStep {
    if i + 1 >= s.len() {
        LexStep::Stop(st.with_warning(line, LexWarningKindView::MissingRegisterIdentifier))
    } else if s[i + 1] != 'r' && s[i + 1] != 'R' {
        LexStep::Stop(st.with_warning(line, LexWarningKindView::ExpectedRegisterLetter))
    } else {
        let e = digits_end(s, i + 2);
        if e == i + 2 {
            LexStep::Stop(st.with_warning(line, LexWarningKindView::RegisterWithoutNumber))
        } else if digits_value(s.subrange(i + 2, e)) > 32767 {
            LexStep::Stop(st.with_warning(line, LexWarningKindView::InvalidRegisterNumber))
        } else {
            LexStep::Next(e, st.with_token(TokenView::Register(digits_value(s.subrange(i + 2, e)) as i16)))
        }
    }
}

/// The step at a letter: a name, which declares a subroutine when a `:` follows it.
pub open spec fn name_step(s: Seq<char>, i: int, line: u32, st: LexState) -> LexStep {
    let e = word_end(s, i + 1);
    let name = s.subrange(i, e);
    if e < s.len() && s[e] == ':' {
        if position_of(st.names, name) is Some {
            LexStep::Next(
                e + 1,
                st.with_warning(line, LexWarningKindView::DuplicateSubroutine(name)),
            )
        } else {
            LexStep::Next(e + 1, st.with_declaration(name))
        }
    } else {
        LexStep::Next(e, st.with_token(TokenView::Ident(name)))
    }
}

/// The step at a `#` (a signed literal of at most 128 in magnitude).
pub open spec fn literal_step(s: Seq<char>, i: int, st: LexState) -> LexStep {
    let neg = i + 1 < s.len() && s[i + 1] == '-';
    let ds = if neg {
        i + 2
    } else {
        i + 1
    };
    let e = digits_end(s, ds);
    let v = digits_value(s.subrange(ds, e));
    if e == ds || v > (if neg {
        32768int
    } else {
        32767int
    }) {
        LexStep::Fail(LexErrorKindView::LiteralNotNumeric(s.subrange(i, e)))
    } else {
        let n = if neg {
            -v
        } else {
            v as int
        };
        if n > 128 || n < -128 {
            LexStep::Fail(LexErrorKindView::LiteralOutOfRange)
        } else {
            LexStep::Next(e, st.with_token(TokenView::Literal(literal_byte(n) as i16)))
        }
    }
}

/// The step at a `$` (a memory address in 1..4095).
pub open spec fn address_step(s: Seq<char>, i: int, st: LexState) -> LexStep {
    let e = digits_end(s, i + 1);
    let v = digits_value(s.subrange(i + 1, e));
    if e == i + 1 || v > 32767 {
        LexStep::Fail(LexErrorKindView::AddressNotNumeric)
    } else if v >= 4096 || v == 0 {
        LexStep::Fail(LexErrorKindView::AddressOutOfRange)
    } else {
        LexStep::Next(e, st.with_token(TokenView::MemAddr(v as i16)))
    }
}

/// One step of the lexer at position `i` of the line `s`.
pub open spec fn lex_step(s: Seq<char>, i: int, line: u32, st: LexState) -> LexStep {
    let c = s[i];
    if c == ' ' || c == '\t' {
        LexStep::Next(i + 1, st)
    } else if c == '\n' {
        LexStep::Next(i + 1, st.with_token(TokenView::NewLine))
    } else if c == ',' {
        LexStep::Next(i + 1, st.with_token(TokenView::Comma))
    } else if c == ';' {
        LexStep::Stop(st.with_token(TokenView::Semicolon))
    } else if c == '&' {
        LexStep::Next(i + 1, st.with_token(TokenView::AndSign))
    } else if c == '%' {
        register_step(s, i, line, st)
    } else if c == '@' {
        let e = word_end(s, i + 1);
        LexStep::Next(e, st.with_token(TokenView::SRCall(s.subrange(i + 1, e))))
    } else if is_ascii_letter(c) {
        name_step(s, i, line, st)
    } else if c == '#' {
        literal_step(s, i, st)
    } else if c == '$' {
        address_step(s, i, st)
    } else {
        LexStep::Next(i + 1, st.with_warning(line, LexWarningKindView::UnknownCharacter(c)))
    }
}

/// The runs of name and digit characters end within the line.
pub proof fn lemma_run_ends(s: Seq<char>, i: int)
    requires
        0 <= i <= s.len(),
    ensures
        i <= word_end(s, i) <= s.len(),
        i <= digits_end(s, i) <= s.len(),
        forall|k: int| i <= k < word_end(s, i) ==> is_word_char(#[trigger] s[k]),
        forall|k: int| i <= k < digits_end(s, i) ==> is_digit(#[trigger] s[k]),
        word_end(s, i) < s.len() ==> !is_word_char(s[word_end(s, i)]),
        digits_end(s, i) < s.len() ==> !is_digit(s[digits_end(s, i)]),
    decreases s.len() - i,
{
    if i < s.len() {
        lemma_run_ends(s, i + 1);
    }
}

/// Every step that goes on moves forward within the line.
pub proof fn lemma_step_advances(s: Seq<char>, i: int, line: u32, st: LexState)
    requires
        0 <= i < s.len(),
    ensures
        lex_step(s, i, line, st) matches LexStep::Next(j, _) ==> i < j <= s.len(),
{
    lemma_run_ends(s, i + 1);
    if i + 2 <= s.len() {
        lemma_run_ends(s, i + 2);
    }
}

/// The lexer run from position `i` in state `st`.
pub open spec fn lex_run(s: Seq<char>, i: int, line: u32, st: LexState) -> LexOutcome
    decreases s.len() - i,
{
    if i < 0 || i >= s.len() {
        LexOutcome { state: st.with_token(TokenView::Eol), error: None }
    } else {
        match lex_step(s, i, line, st) {
            LexStep::Next(j, next) => {
                proof {
                    lemma_step_advances(s, i, line, st);
                }
                lex_run(s, j, line, next)
            },
            LexStep::Stop(last) => LexOutcome { state: last.with_token(TokenView::Eol), error: None },
            LexStep::Fail(k) => LexOutcome { state: st, error: Some(LexErrorView { line, kind: k }) },
        }
    }
}

/// What the lexer makes of the line `s` (line number `line`) when the
/// subroutines `names` have been declared before it.
pub open spec fn spec_lex(s: Seq<char>, line: u32, names: Seq<Seq<char>>) -> LexOutcome {
    lex_run(
        s,
        0,
        line,
        LexState {
            tokens: Seq::<TokenView>::empty(),
            names,
            warnings: Seq::<LexWarningView>::empty(),
        },
    )
}

/// What one step does to the declared names: it keeps them, or declares one
/// new name after reading at least two characters (the name and its `:`).
pub proof fn lemma_step_names(s: Seq<char>, i: int, line: u32, st: LexState)
    requires
        0 <= i < s.len(),
    ensures
        lex_step(s, i, line, st) matches LexStep::Next(j, next) ==> (next.names == st.names || (
        next.names == st.names.push(next.names.last()) && position_of(st.names, next.names.last())
            is None && j >= i + 2)),
        lex_step(s, i, line, st) matches LexStep::Stop(next) ==> next.names == st.names,
{
    lemma_run_ends(s, i + 1);
}

/// The lexer run keeps the names declared before it as a prefix, declares
/// at most one name per character read, and, unless it rejects the line,
/// ends its tokens with `Eol`.
pub proof fn lemma_lex_run_shape(s: Seq<char>, i: int, line: u32, st: LexState)
    requires
        0 <= i,
    ensures
        st.names.is_prefix_of(lex_run(s, i, line, st).state.names),
        lex_run(s, i, line, st).state.names.len() <= st.names.len() + (if i < s.len() {
            s.len() - i
        } else {
            0
        }),
        distinct_names(st.names) ==> distinct_names(lex_run(s, i, line, st).state.names),
        lex_run(s, i, line, st).error is None ==> lex_run(s, i, line, st).state.tokens.len() >= 1
            && lex_run(s, i, line, st).state.tokens.last() == TokenView::Eol,
    decreases s.len() - i,
{
    if i < s.len() {
        lemma_step_advances(s, i, line, st);
        lemma_step_names(s, i, line, st);
        match lex_step(s, i, line, st) {
            LexStep::Next(j, next) => {
                lemma_lex_run_shape(s, j, line, next);
                if next.names != st.names {
                    assert(st.names.is_prefix_of(next.names));
                    if distinct_names(st.names) {
                        lemma_absent_distinct(st.names, next.names.last());
                    }
                }
            },
            _ => {},
        }
    }
}

/// Appending a name that is not there keeps the names distinct.
proof fn lemma_absent_distinct(names: Seq<Seq<char>>, name: Seq<char>)
    requires
        distinct_names(names),
        position_of(names, name) is None,
    ensures
        distinct_names(names.push(name)),
{
    lemma_position_bound(names, name);
    assert forall|a: int, b: int| 0 <= a < b < names.push(name).len() implies names.push(name)[a]
        != names.push(name)[b] by {
        if b == names.len() {
            assert(names.contains(names[a]));
        }
    }
}

// ---------------------------------------------------------------------------
// The lexer
// ---------------------------------------------------------------------------

/// The state that the lexer's vectors and table stand for.
pub open spec fn state_of(
    tokens: Seq<Token>,
    names: Seq<Seq<char>>,
    warnings: Seq<LexWarning>,
) -> LexState {
    LexState { tokens: tokens_view(tokens), names, warnings: warnings_view(warnings) }
}

/// The view of an optional lexer error.
pub open spec fn opt_error_view(e: Option<LexError>) -> Option<LexErrorView> {
    match e {
        Some(e) => Some(e@),
        None => None,
    }
}

fn push_token(tokens: &mut Vec<Token>, t: Token)
    ensures
        tokens_view(final(tokens)@) == tokens_view(old(tokens)@).push(t@),
{
    tokens.push(t);
    assert(tokens_view(final(tokens)@) =~= tokens_view(old(tokens)@).push(t@));
}

fn push_warning(warnings: &mut Vec<LexWarning>, line: u32, kind: LexWarningKind)
    ensures
        warnings_view(final(warnings)@) == warnings_view(old(warnings)@).push(
            LexWarning { line, kind }@,
        ),
{
    let w = LexWarning { line, kind };
    let ghost wv = w@;
    warnings.push(w);
    assert(warnings_view(final(warnings)@) =~= warnings_view(old(warnings)@).push(wv));
}

/// The end of the run of name characters that starts at `from`.
fn scan_word(v: &Vec<char>, from: usize) -> (e: usize)
    requires
        from <= v@.len(),
    ensures
        e == word_end(v@, from as int),
{
    let mut e = from;
    while e < v.len() && (is_alphanumeric(v[e]) || v[e] == '_')
        invariant
            from <= e <= v@.len(),
            word_end(v@, from as int) == word_end(v@, e as int),
        decreases v@.len() - e,
    {
        e = e + 1;
    }
    e
}

/// The end of the run of ASCII digits that starts at `from`.
fn scan_digits(v: &Vec<char>, from: usize) -> (e: usize)
    requires
        from <= v@.len(),
    ensures
        e == digits_end(v@, from as int),
{
    let mut e = from;
    while e < v.len() && is_ascii_digit(v[e])
        invariant
            from <= e <= v@.len(),
            digits_end(v@, from as int) == digits_end(v@, e as int),
        decreases v@.len() - e,
    {
        e = e + 1;
    }
    e
}

/// The value of the digits `v[from..to]`, or 100000 when it is larger.
fn number_of(v: &Vec<char>, from: usize, to: usize) -> (r: u32)
    requires
        from <= to <= v@.len(),
        forall|k: int| from <= k < to ==> is_digit(#[trigger] v@[k]),
    ensures
        r as int == if digits_value(v@.subrange(from as int, to as int)) < 100000 {
            digits_value(v@.subrange(from as int, to as int)) as int
        } else {
            100000int
        },
{
    let mut r: u32 = 0;
    let mut k = from;
    assert(v@.subrange(from as int, from as int) =~= Seq::<char>::empty());
    while k < to
        invariant
            from <= k <= to <= v@.len(),
            forall|j: int| from <= j < to ==> is_digit(#[trigger] v@[j]),
            r as int == if digits_value(v@.subrange(from as int, k as int)) < 100000 {
                digits_value(v@.subrange(from as int, k as int)) as int
            } else {
                100000int
            },
        decreases to - k,
    {
        let ghost before = v@.subrange(from as int, k as int);
        let ghost after = v@.subrange(from as int, k + 1);
        assert(after.drop_last() =~= before);
        assert(after.last() == v@[k as int]);
        assert(is_digit(v@[k as int]));
        let d = (v[k] as u32) - ('0' as u32);
        assert(d == digit_value(v@[k as int]));
        if r < 100000 {
            let n = r * 10 + d;
            r = if n < 100000 {
                n
            } else {
                100000
            };
        }
        k = k + 1;
    }
    r
}

/// Lexes one line of assembly, declaring in `table` the subroutines that the
/// line declares (a name followed by `:`).
///
/// Blanks and tabs separate tokens; `,`, `&` and a newline are tokens of
/// their own; `;` ends the line; `%r<digits>` is a register, `@<name>` a
/// subroutine call, `<name>` an identifier and `<name>:` a subroutine
/// declaration; `#[-]<digits>` is a literal of at most 128 in magnitude,
/// stored as a sign-and-magnitude byte; `$<digits>` an address in 1..4095.
/// A malformed register stops the line with a warning; a malformed literal
/// or address rejects it.
pub fn lex(line: &str, line_number: u32, table: &mut SubroutineTable) -> (r: Lexed)
    requires
        old(table).wf(),
        spec_lex(line@, line_number, old(table)@).state.names.len() < u32::MAX,
    ensures
        final(table).wf(),
        ({
            let o = spec_lex(line@, line_number, old(table)@);
            &&& tokens_view(r.tokens@) == o.state.tokens
            &&& warnings_view(r.warnings@) == o.state.warnings
            &&& final(table)@ == o.state.names
            &&& opt_error_view(r.error) == o.error
        }),
{
    lex_within_counter(line, line_number, table).unwrap()
}

/// Lexes one line as `lex` does, but gives `None` where the line would
/// declare the subroutine numbered `u32::MAX`, which no `u32` counter can
/// count past; the table then holds only part of the line's declarations.
pub(crate) fn lex_within_counter(line: &str, line_number: u32, table: &mut SubroutineTable) -> (r:
    Option<Lexed>)
    requires
        old(table).wf(),
    ensures
        final(table).wf(),
        r is None <==> spec_lex(line@, line_number, old(table)@).state.names.len() >= u32::MAX,
        (match r {
            Some(l) => {
                let o = spec_lex(line@, line_number, old(table)@);
                &&& tokens_view(l.tokens@) == o.state.tokens
                &&& warnings_view(l.warnings@) == o.state.warnings
                &&& final(table)@ == o.state.names
                &&& opt_error_view(l.error) == o.error
            },
            None => true,
        }),
{
    let v = chars_of(line);
    let len = v.len();
    let mut tokens: Vec<Token> = Vec::new();
    let mut warnings: Vec<LexWarning> = Vec::new();
    let mut pos: usize = 0;
    let mut done = false;
    let ghost s = v@;
    let ghost names0 = table@;
    let ghost outcome = spec_lex(s, line_number, names0);
    assert(tokens_view(tokens@) =~= Seq::<TokenView>::empty());
    assert(warnings_view(warnings@) =~= Seq::<LexWarningView>::empty());
    while pos < len && !done
        invariant
            s == v@,
            s == line@,
            len == s.len(),
            pos <= len,
            table.wf(),
            outcome == spec_lex(s, line_number, names0),
            names0 == old(table)@,
            !done ==> outcome == lex_run(
                s,
                pos as int,
                line_number,
                state_of(tokens@, table@, warnings@),
            ),
            done ==> outcome == (LexOutcome {
                state: state_of(tokens@, table@, warnings@).with_token(TokenView::Eol),
                error: None,
            }),
        decreases len - pos + (if done {
            0int
        } else {
            1int
        }),
    {
        let ghost st = state_of(tokens@, table@, warnings@);
        let c = v[pos];
        proof {
            lemma_run_ends(s, pos + 1);
            if pos + 2 <= len {
                lemma_run_ends(s, pos + 2);
            }
        }
        if c == ' ' || c == '\t' {
            pos = pos + 1;
        } else if c == '\n' {
            push_token(&mut tokens, Token::NewLine);
            pos = pos + 1;
        } else if c == ',' {
            push_token(&mut tokens, Token::Comma);
            pos = pos + 1;
        } else if c == ';' {
            push_token(&mut tokens, Token::Semicolon);
            done = true;
        } else if c == '&' {
            push_token(&mut tokens, Token::AndSign);
            pos = pos + 1;
        } else if c == '%' {
            if pos + 1 >= len {
                push_warning(&mut warnings, line_number, LexWarningKind::MissingRegisterIdentifier);
                done = true;
            } else if v[pos + 1] != 'r' && v[pos + 1] != 'R' {
                push_warning(&mut warnings, line_number, LexWarningKind::ExpectedRegisterLetter);
                done = true;
            } else {
                let e = scan_digits(&v, pos + 2);
                if e == pos + 2 {
                    push_warning(&mut warnings, line_number, LexWarningKind::RegisterWithoutNumber);
                    done = true;
                } else {
                    let n = number_of(&v, pos + 2, e);
                    if n > 32767 {
                        push_warning(
                            &mut warnings,
                            line_number,
                            LexWarningKind::InvalidRegisterNumber,
                        );
                        done = true;
                    } else {
                        push_token(&mut tokens, Token::Register(n as i16));
                        pos = e;
                    }
                }
            }
        } else if c == '@' {
            let e = scan_word(&v, pos + 1);
            let name = string_of(&v, pos + 1, e);
            push_token(&mut tokens, Token::SRCall(name));
            pos = e;
        } else if ('a' <= c && c <= 'z') || ('A' <= c && c <= 'Z') {
            let e = scan_word(&v, pos + 1);
            let name = string_of(&v, pos, e);
            if e < len && v[e] == ':' {
                if table.position(&name).is_some() {
                    push_warning(
                        &mut warnings,
                        line_number,
                        LexWarningKind::DuplicateSubroutine(name),
                    );
                } else {
                    let declared = name.clone();
                    proof {
                        if let LexStep::Next(j, next) = lex_step(s, pos as int, line_number, st) {
                            lemma_lex_run_shape(s, j, line_number, next);
                        }
                    }
                    if table.len() >= (u32::MAX - 1) as usize {
                        return None;
                    }
                    table.declare(declared);
                    push_token(&mut tokens, Token::SR(name));
                }
                pos = e + 1;
            } else {
                push_token(&mut tokens, Token::Ident(name));
                pos = e;
            }
        } else if c == '#' {
            let neg = pos + 1 < len && v[pos + 1] == '-';
            let ds = if neg {
                pos + 2
            } else {
                pos + 1
            };
            proof {
                lemma_run_ends(s, ds as int);
            }
            let e = scan_digits(&v, ds);
            let n = number_of(&v, ds, e);
            let limit: u32 = if neg {
                32768
            } else {
                32767
            };
            let ghost dv = digits_value(s.subrange(ds as int, e as int));
            assert(lex_step(s, pos as int, line_number, st) == literal_step(s, pos as int, st));
            assert(n > limit <==> dv > limit);
            if e == ds || n > limit {
                let text = string_of(&v, pos, e);
                return Some(Lexed {
                    tokens,
                    warnings,
                    error: Some(
                        LexError { line: line_number, kind: LexErrorKind::LiteralNotNumeric(text) },
                    ),
                });
            }
            let value: i32 = if neg {
                -(n as i32)
            } else {
                n as i32
            };
            assert(value == (if neg { -dv } else { dv as int }));
            if value > 128 || value < -128 {
                return Some(Lexed {
                    tokens,
                    warnings,
                    error: Some(LexError { line: line_number, kind: LexErrorKind::LiteralOutOfRange }),
                });
            }
            let stored: i16 = if value < 0 {
                (128 + (-value) % 128) as i16
            } else {
                value as i16
            };
            push_token(&mut tokens, Token::Literal(stored));
            pos = e;
        } else if c == '$' {
            let e = scan_digits(&v, pos + 1);
            let n = number_of(&v, pos + 1, e);
            if e == pos + 1 || n > 32767 {
                return Some(Lexed {
                    tokens,
                    warnings,
                    error: Some(LexError { line: line_number, kind: LexErrorKind::AddressNotNumeric }),
                });
            }
            if n >= 4096 || n == 0 {
                return Some(Lexed {
                    tokens,
                    warnings,
                    error: Some(LexError { line: line_number, kind: LexErrorKind::AddressOutOfRange }),
                });
            }
            push_token(&mut tokens, Token::MemAddr(n as i16));
            pos = e;
        } else {
            push_warning(&mut warnings, line_number, LexWarningKind::UnknownCharacter(c));
            pos = pos + 1;
        }
    }
    push_token(&mut tokens, Token::Eol);
    Some(Lexed { tokens, warnings, error: None })
}

// ---------------------------------------------------------------------------
// Laws of the lexer
// ---------------------------------------------------------------------------

/// Extending a sequence of names keeps the position of a name found in it.
proof fn lemma_position_extend(names: Seq<Seq<char>>, more: Seq<Seq<char>>, name: Seq<char>)
    requires
        names.is_prefix_of(more),
        position_of(names, name) is Some,
    ensures
        position_of(more, name) == position_of(names, name),
    decreases more.len(),
{
    if more.len() == names.len() {
        assert(more =~= names);
    } else {
        assert(names.is_prefix_of(more.drop_last()));
        lemma_position_extend(names, more.drop_last(), name);
    }
}

/// Lexing a line keeps the subroutines declared before it, each with its
/// number, and never declares a name twice.
pub proof fn lemma_lex_keeps_declarations(
    s: Seq<char>,
    line: u32,
    names: Seq<Seq<char>>,
    name: Seq<char>,
)
    requires
        distinct_names(names),
    ensures
        names.is_prefix_of(spec_lex(s, line, names).state.names),
        distinct_names(spec_lex(s, line, names).state.names),
        position_of(names, name) is Some ==> id_in(spec_lex(s, line, names).state.names, name)
            == id_in(names, name),
{
    let st = LexState {
        tokens: Seq::<TokenView>::empty(),
        names,
        warnings: Seq::<LexWarningView>::empty(),
    };
    lemma_lex_run_shape(s, 0, line, st);
    if position_of(names, name) is Some {
        lemma_position_extend(names, spec_lex(s, line, names).state.names, name);
    }
}

/// A line that the lexer does not reject yields tokens that end with `Eol`.
pub proof fn lemma_lex_ends_with_eol(s: Seq<char>, line: u32, names: Seq<Seq<char>>)
    ensures
        spec_lex(s, line, names).error is None ==> spec_lex(s, line, names).state.tokens.len()
            >= 1 && spec_lex(s, line, names).state.tokens.last() == TokenView::Eol,
{
    lemma_lex_run_shape(
        s,
        0,
        line,
        LexState {
            tokens: Seq::<TokenView>::empty(),
            names,
            warnings: Seq::<LexWarningView>::empty(),
        },
    );
}

/// A literal is stored as one byte in sign-and-magnitude form: bit 7 is set
/// exactly for negative values and the low seven bits hold the magnitude.
/// (At +128 and -128 the magnitude does not fit in seven bits.)
pub proof fn lemma_literal_sign_magnitude(n: int)
    requires
        -127 <= n <= 127,
    ensures
        0 <= literal_byte(n) < 256,
        (literal_byte(n) >= 128) == (n < 0),
        literal_byte(n) % 128 == (if n < 0 {
            -n
        } else {
            n
        }),
{
}

/// Every literal the lexer accepts fits in one byte.
pub proof fn lemma_literal_byte_fits(n: int)
    requires
        -128 <= n <= 128,
    ensures
        0 <= literal_byte(n) < 256,
{
}

/// A run of digits that reaches the end of the line ends there.
proof fn lemma_digits_to_end(s: Seq<char>, i: int)
    requires
        0 <= i <= s.len(),
        forall|k: int| i <= k < s.len() ==> is_digit(#[trigger] s[k]),
    ensures
        digits_end(s, i) == s.len(),
    decreases s.len() - i,
{
    if i < s.len() {
        lemma_digits_to_end(s, i + 1);
    }
}

/// Lexing `%r` followed by the raw text of a register token gives back that
/// register.
pub proof fn lemma_register_roundtrip(n: i16, line: u32, names: Seq<Seq<char>>)
    requires
        0 <= n,
    ensures
        ({
            let o = spec_lex(seq!['%', 'r'] + raw_text(TokenView::Register(n)), line, names);
            &&& o.error is None
            &&& o.state.tokens == seq![TokenView::Register(n), TokenView::Eol]
            &&& o.state.names == names
            &&& o.state.warnings.len() == 0
        }),
{
    let d = int_decimal(n as int);
    let s = seq!['%', 'r'] + d;
    lemma_nat_decimal_digits(n as nat);
    lemma_decimal_roundtrip(n as nat);
    assert forall|k: int| 2 <= k < s.len() implies is_digit(#[trigger] s[k]) by {
        assert(s[k] == d[k - 2]);
    }
    lemma_digits_to_end(s, 2);
    assert(s.subrange(2, s.len() as int) =~= d);
    let st = LexState {
        tokens: Seq::<TokenView>::empty(),
        names,
        warnings: Seq::<LexWarningView>::empty(),
    };
    assert(s[0] == '%');
    let next = st.with_token(TokenView::Register(n));
    assert(lex_step(s, 0, line, st) == LexStep::Next(s.len() as int, next));
    assert(lex_run(s, s.len() as int, line, next).state.tokens =~= seq![
        TokenView::Register(n),
        TokenView::Eol,
    ]);
}

/// Lexing `$` followed by the raw text of an address token in 1..4095 gives
/// back that address.
pub proof fn lemma_address_roundtrip(n: i16, line: u32, names: Seq<Seq<char>>)
    requires
        1 <= n < 4096,
    ensures
        ({
            let o = spec_lex(seq!['$'] + raw_text(TokenView::MemAddr(n)), line, names);
            &&& o.error is None
            &&& o.state.tokens == seq![TokenView::MemAddr(n), TokenView::Eol]
            &&& o.state.names == names
            &&& o.state.warnings.len() == 0
        }),
{
    let d = int_decimal(n as int);
    let s = seq!['$'] + d;
    lemma_nat_decimal_digits(n as nat);
    lemma_decimal_roundtrip(n as nat);
    assert forall|k: int| 1 <= k < s.len() implies is_digit(#[trigger] s[k]) by {
        assert(s[k] == d[k - 1]);
    }
    lemma_digits_to_end(s, 1);
    assert(s.subrange(1, s.len() as int) =~= d);
    let st = LexState {
        tokens: Seq::<TokenView>::empty(),
        names,
        warnings: Seq::<LexWarningView>::empty(),
    };
    assert(s[0] == '$');
    let next = st.with_token(TokenView::MemAddr(n));
    assert(lex_step(s, 0, line, st) == LexStep::Next(s.len() as int, next));
    assert(lex_run(s, s.len() as int, line, next).state.tokens =~= seq![
        TokenView::MemAddr(n),
        TokenView::Eol,
    ]);
}

/// A position where every run of name characters and of digits ends: the
/// end of the line, or a character that is neither.
pub open spec fn run_stop(s: Seq<char>, k: int) -> bool {
    k >= s.len() || (!is_word_char(s[k]) && !is_digit(s[k]))
}

/// Two lines that agree from `p` up to `k`, where both have a run stop, have
/// the same runs from `p`, ending at or before `k`.
proof fn lemma_runs_agree(s1: Seq<char>, s2: Seq<char>, k: int, p: int)
    requires
        0 <= p <= k,
        k <= s1.len(),
        k <= s2.len(),
        forall|m: int| p <= m < k ==> s1[m] == s2[m],
        run_stop(s1, k),
        run_stop(s2, k),
    ensures
        word_end(s1, p) == word_end(s2, p) <= k,
        digits_end(s1, p) == digits_end(s2, p) <= k,
    decreases k - p,
{
    if p < k {
        lemma_runs_agree(s1, s2, k, p + 1);
    }
}

/// Before a `;` at `k`, a step reads nothing beyond `k`: two lines that agree
/// up to and including that `;` take the same step, and go on no further than `k`.
proof fn lemma_step_before_semicolon(
    s1: Seq<char>,
    s2: Seq<char>,
    k: int,
    i: int,
    line: u32,
    st: LexState,
)
    requires
        0 <= i < k,
        k < s1.len(),
        k < s2.len(),
        forall|m: int| 0 <= m <= k ==> s1[m] == s2[m],
        s1[k] == ';',
    ensures
        lex_step(s1, i, line, st) == lex_step(s2, i, line, st),
        lex_step(s1, i, line, st) matches LexStep::Next(j, _) ==> j <= k,
{
    lemma_runs_agree(s1, s2, k, i + 1);
    if i + 2 <= k {
        lemma_runs_agree(s1, s2, k, i + 2);
    }
    lemma_run_ends(s1, i + 1);
    lemma_run_ends(s1, i + 2);
    let c = s1[i];
    if c == '%' {
        if i + 1 < k {
            let e = digits_end(s1, i + 2);
            assert(s1.subrange(i + 2, e) =~= s2.subrange(i + 2, e));
        }
    } else if c == '@' {
        let e = word_end(s1, i + 1);
        assert(s1.subrange(i + 1, e) =~= s2.subrange(i + 1, e));
    } else if is_ascii_letter(c) {
        let e = word_end(s1, i + 1);
        assert(s1.subrange(i, e) =~= s2.subrange(i, e));
    } else if c == '#' {
        let neg = s1[i + 1] == '-';
        let ds = if neg {
            i + 2
        } else {
            i + 1
        };
        lemma_runs_agree(s1, s2, k, ds);
        lemma_run_ends(s1, ds);
        let e = digits_end(s1, ds);
        assert(s1.subrange(ds, e) =~= s2.subrange(ds, e));
        assert(s1.subrange(i, e) =~= s2.subrange(i, e));
    } else if c == '$' {
        let e = digits_end(s1, i + 1);
        assert(s1.subrange(i + 1, e) =~= s2.subrange(i + 1, e));
    }
}

/// Runs from before a `;` on two lines that agree up to it end alike.
proof fn lemma_run_before_semicolon(
    s1: Seq<char>,
    s2: Seq<char>,
    k: int,
    i: int,
    line: u32,
    st: LexState,
)
    requires
        0 <= i <= k,
        k < s1.len(),
        k < s2.len(),
        forall|m: int| 0 <= m <= k ==> s1[m] == s2[m],
        s1[k] == ';',
    ensures
        lex_run(s1, i, line, st) == lex_run(s2, i, line, st),
    decreases k - i,
{
    if i < k {
        lemma_step_before_semicolon(s1, s2, k, i, line, st);
        lemma_step_advances(s1, i, line, st);
        match lex_step(s1, i, line, st) {
            LexStep::Next(j, next) => {
                lemma_run_before_semicolon(s1, s2, k, j, line, next);
            },
            _ => {},
        }
    }
}

/// Lexing ignores everything after the first `;`: the text after it yields
/// no token, no declaration, no warning and no rejection.
pub proof fn lemma_lex_ignores_after_semicolon(
    a: Seq<char>,
    b: Seq<char>,
    line: u32,
    names: Seq<Seq<char>>,
)
    ensures
        spec_lex(a + seq![';'] + b, line, names) == spec_lex(a + seq![';'], line, names),
{
    let s1 = a + seq![';'] + b;
    let s2 = a + seq![';'];
    let k = a.len() as int;
    assert forall|m: int| 0 <= m <= k implies s1[m] == s2[m] by {}
    lemma_run_before_semicolon(
        s1,
        s2,
        k,
        0,
        line,
        LexState {
            tokens: Seq::<TokenView>::empty(),
            names,
            warnings: Seq::<LexWarningView>::empty(),
        },
    );
}

/// A blank: a space or a tab.
pub open spec fn is_blank(c: char) -> bool {
    c == ' ' || c == '\t'
}

/// On a line `s` and on `s` with a blank after it, a step before the blank
/// goes alike (no further than the end of `s`), except for a `%` that ends
/// `s`, where both stop with the same tokens and only the warning differs.
proof fn lemma_step_before_blank(s: Seq<char>, x: char, i: int, line: u32, st: LexState)
    requires
        0 <= i < s.len(),
        is_blank(x),
    ensures
        !(s[i] == '%' && i + 1 == s.len()) ==> lex_step(s + seq![x], i, line, st) == lex_step(
            s,
            i,
            line,
            st,
        ),
        !(s[i] == '%' && i + 1 == s.len()) ==> (lex_step(s, i, line, st) matches LexStep::Next(
            j,
            _,
        ) ==> j <= s.len()),
        (s[i] == '%' && i + 1 == s.len()) ==> (lex_step(s + seq![x], i, line, st) matches LexStep::Stop(a)
            && lex_step(s, i, line, st) matches LexStep::Stop(b) && a.tokens == b.tokens
            && a.names == b.names),
{
    let t = s + seq![x];
    let k = s.len() as int;
    assert forall|m: int| i + 1 <= m < k implies t[m] == s[m] by {}
    lemma_runs_agree(t, s, k, i + 1);
    lemma_run_ends(s, i + 1);
    if i + 2 <= k {
        assert forall|m: int| i + 2 <= m < k implies t[m] == s[m] by {}
        lemma_runs_agree(t, s, k, i + 2);
        lemma_run_ends(s, i + 2);
    }
    let c = s[i];
    assert(t[i] == c);
    if c == '%' {
        if i + 1 < k {
            let e = digits_end(s, i + 2);
            assert(t.subrange(i + 2, e) =~= s.subrange(i + 2, e));
        }
    } else if c == '@' {
        let e = word_end(s, i + 1);
        assert(t.subrange(i + 1, e) =~= s.subrange(i + 1, e));
    } else if is_ascii_letter(c) {
        let e = word_end(s, i + 1);
        assert(t.subrange(i, e) =~= s.subrange(i, e));
    } else if c == '#' {
        let neg = i + 1 < k && s[i + 1] == '-';
        let ds = if neg {
            i + 2
        } else {
            i + 1
        };
        assert forall|m: int| ds <= m < k implies t[m] == s[m] by {}
        lemma_runs_agree(t, s, k, ds);
        lemma_run_ends(s, ds);
        let e = digits_end(s, ds);
        assert(t.subrange(ds, e) =~= s.subrange(ds, e));
        assert(t.subrange(i, e) =~= s.subrange(i, e));
    } else if c == '$' {
        let e = digits_end(s, i + 1);
        assert(t.subrange(i + 1, e) =~= s.subrange(i + 1, e));
    }
}

/// The lexer run on `s` and on `s` with a blank after it: the same tokens,
/// declarations and rejection; and, unless `s` ends with `%`, the same warnings.
proof fn lemma_run_before_blank(s: Seq<char>, x: char, i: int, line: u32, st: LexState)
    requires
        0 <= i <= s.len(),
        is_blank(x),
    ensures
        lex_run(s + seq![x], i, line, st).state.tokens == lex_run(s, i, line, st).state.tokens,
        lex_run(s + seq![x], i, line, st).state.names == lex_run(s, i, line, st).state.names,
        lex_run(s + seq![x], i, line, st).error == lex_run(s, i, line, st).error,
        !(s.len() > 0 && s.last() == '%') ==> lex_run(s + seq![x], i, line, st) == lex_run(
            s,
            i,
            line,
            st,
        ),
    decreases s.len() - i,
{
    let t = s + seq![x];
    if i == s.len() {
        assert(t[i] == x);
        assert(lex_step(t, i, line, st) == LexStep::Next(i + 1, st));
        assert(lex_run(t, i, line, st) == lex_run(t, i + 1, line, st));
    } else {
        lemma_step_before_blank(s, x, i, line, st);
        lemma_step_advances(s, i, line, st);
        if !(s[i] == '%' && i + 1 == s.len()) {
            match lex_step(s, i, line, st) {
                LexStep::Next(j, next) => {
                    lemma_run_before_blank(s, x, j, line, next);
                },
                _ => {},
            }
        } else {
            let a = match lex_step(t, i, line, st) {
                LexStep::Stop(a) => a,
                _ => st,
            };
            let b = match lex_step(s, i, line, st) {
                LexStep::Stop(b) => b,
                _ => st,
            };
            assert(lex_run(t, i, line, st).state == a.with_token(TokenView::Eol));
            assert(lex_run(s, i, line, st).state == b.with_token(TokenView::Eol));
        }
    }
}

/// Lexing ignores a blank after the line: the tokens, the subroutines declared
/// and the rejection stay the same, and so do the warnings unless the line ends
/// with `%` (whose warning tells the end of the line from the blank).
pub proof fn lemma_lex_ignores_trailing_blank(s: Seq<char>, x: char, line: u32, names: Seq<Seq<char>>)
    requires
        is_blank(x),
    ensures
        spec_lex(s + seq![x], line, names).state.tokens == spec_lex(s, line, names).state.tokens,
        spec_lex(s + seq![x], line, names).state.names == spec_lex(s, line, names).state.names,
        spec_lex(s + seq![x], line, names).error == spec_lex(s, line, names).error,
        !(s.len() > 0 && s.last() == '%') ==> spec_lex(s + seq![x], line, names) == spec_lex(
            s,
            line,
            names,
        ),
{
    lemma_run_before_blank(
        s,
        x,
        0,
        line,
        LexState {
            tokens: Seq::<TokenView>::empty(),
            names,
            warnings: Seq::<LexWarningView>::empty(),
        },
    );
}

/// A character before a line shifts its runs by one.
proof fn lemma_runs_shift(x: char, s: Seq<char>, p: int)
    requires
        0 <= p <= s.len(),
    ensures
        word_end(seq![x] + s, p + 1) == word_end(s, p) + 1,
        digits_end(seq![x] + s, p + 1) == digits_end(s, p) + 1,
    decreases s.len() - p,
{
    let t = seq![x] + s;
    if p < s.len() {
        assert(t[p + 1] == s[p]);
        lemma_runs_shift(x, s, p + 1);
    }
}

/// A step on a line with a character before it is the step on the line,
/// one position further on.
proof fn lemma_step_shift(x: char, s: Seq<char>, i: int, line: u32, st: LexState)
    requires
        0 <= i < s.len(),
    ensures
        lex_step(seq![x] + s, i + 1, line, st) == match lex_step(s, i, line, st) {
            LexStep::Next(j, next) => LexStep::Next(j + 1, next),
            other => other,
        },
{
    let t = seq![x] + s;
    assert forall|m: int| 0 <= m < s.len() implies t[m + 1] == s[m] by {}
    assert forall|a: int, b: int| 0 <= a <= b <= s.len() implies t.subrange(a + 1, b + 1)
        =~= s.subrange(a, b) by {}
    lemma_runs_shift(x, s, i + 1);
    lemma_run_ends(s, i + 1);
    if i + 2 <= s.len() {
        lemma_runs_shift(x, s, i + 2);
        lemma_run_ends(s, i + 2);
    }
    let c = s[i];
    if c == '%' {
        if i + 1 < s.len() {
            let e = digits_end(s, i + 2);
            assert(t.subrange(i + 3, e + 1) =~= s.subrange(i + 2, e));
        }
    } else if c == '@' {
        let e = word_end(s, i + 1);
        assert(t.subrange(i + 2, e + 1) =~= s.subrange(i + 1, e));
    } else if is_ascii_letter(c) {
        let e = word_end(s, i + 1);
        assert(t.subrange(i + 1, e + 1) =~= s.subrange(i, e));
    } else if c == '#' {
        let neg = i + 1 < s.len() && s[i + 1] == '-';
        let ds = if neg {
            i + 2
        } else {
            i + 1
        };
        lemma_runs_shift(x, s, ds);
        lemma_run_ends(s, ds);
        let e = digits_end(s, ds);
        assert(t.subrange(ds + 1, e + 1) =~= s.subrange(ds, e));
        assert(t.subrange(i + 1, e + 1) =~= s.subrange(i, e));
    } else if c == '$' {
        let e = digits_end(s, i + 1);
        assert(t.subrange(i + 2, e + 1) =~= s.subrange(i + 1, e));
    }
}

/// The lexer run on a line with a character before it, one position further
/// on, is the run on the line.
proof fn lemma_run_shift(x: char, s: Seq<char>, i: int, line: u32, st: LexState)
    requires
        0 <= i <= s.len(),
    ensures
        lex_run(seq![x] + s, i + 1, line, st) == lex_run(s, i, line, st),
    decreases s.len() - i,
{
    if i < s.len() {
        lemma_step_shift(x, s, i, line, st);
        lemma_step_advances(s, i, line, st);
        match lex_step(s, i, line, st) {
            LexStep::Next(j, next) => {
                lemma_run_shift(x, s, j, line, next);
            },
            _ => {},
        }
    }
}

/// Lexing ignores a blank before the line.
pub proof fn lemma_lex_ignores_leading_blank(x: char, s: Seq<char>, line: u32, names: Seq<Seq<char>>)
    requires
        is_blank(x),
    ensures
        spec_lex(seq![x] + s, line, names) == spec_lex(s, line, names),
{
    let st = LexState {
        tokens: Seq::<TokenView>::empty(),
        names,
        warnings: Seq::<LexWarningView>::empty(),
    };
    let t = seq![x] + s;
    assert(t[0] == x);
    assert(lex_step(t, 0, line, st) == LexStep::Next(1, st));
    lemma_run_shift(x, s, 0, line, st);
}

/// The run of name characters from `i` reaches the end of the line when every
/// character from `i` on may continue a name.
proof fn lemma_word_to_end(s: Seq<char>, i: int)
    requires
        0 <= i <= s.len(),
        forall|k: int| i <= k < s.len() ==> is_word_char(#[trigger] s[k]),
    ensures
        word_end(s, i) == s.len(),
{
    lemma_run_ends(s, i);
    if word_end(s, i) < s.len() {
        assert(is_word_char(s[word_end(s, i)]));
    }
}

/// A line made of an ASCII letter followed by ASCII letters, digits and `_`
/// lexes to one identifier holding the whole line, then `Eol`, with no
/// warning and no declaration. With a `:` after it, the same name declares
/// the next subroutine when it is new, and is warned of as a duplicate
/// otherwise.
pub proof fn lemma_lex_single_name(s: Seq<char>, line: u32, names: Seq<Seq<char>>)
    requires
        s.len() >= 1,
        ('a' <= s[0] && s[0] <= 'z') || ('A' <= s[0] && s[0] <= 'Z'),
        forall|k: int|
            1 <= k < s.len() ==> ('a' <= #[trigger] s[k] && s[k] <= 'z') || ('A' <= s[k] && s[k]
                <= 'Z') || ('0' <= s[k] && s[k] <= '9') || s[k] == '_',
    ensures
        spec_lex(s, line, names) == (LexOutcome {
            state: LexState {
                tokens: seq![TokenView::Ident(s), TokenView::Eol],
                names,
                warnings: Seq::<LexWarningView>::empty(),
            },
            error: None,
        }),
        position_of(names, s) is None ==> spec_lex(s.push(':'), line, names) == (LexOutcome {
            state: LexState {
                tokens: seq![TokenView::SR(s), TokenView::Eol],
                names: names.push(s),
                warnings: Seq::<LexWarningView>::empty(),
            },
            error: None,
        }),
        position_of(names, s) is Some ==> spec_lex(s.push(':'), line, names) == (LexOutcome {
            state: LexState {
                tokens: seq![TokenView::Eol],
                names,
                warnings: seq![
                    LexWarningView { line, kind: LexWarningKindView::DuplicateSubroutine(s) },
                ],
            },
            error: None,
        }),
{
    let st0 = LexState {
        tokens: Seq::<TokenView>::empty(),
        names,
        warnings: Seq::<LexWarningView>::empty(),
    };
    assert forall|k: int| 1 <= k < s.len() implies is_word_char(#[trigger] s[k]) by {
        assert(is_ascii_char(s[k]));
    }
    lemma_word_to_end(s, 1);
    assert(s.subrange(0, s.len() as int) =~= s);
    let st1 = st0.with_token(TokenView::Ident(s));
    assert(lex_step(s, 0, line, st0) == LexStep::Next(s.len() as int, st1));
    assert(lex_run(s, s.len() as int, line, st1) == LexOutcome {
        state: st1.with_token(TokenView::Eol),
        error: None,
    });
    assert(st1.with_token(TokenView::Eol).tokens =~= seq![TokenView::Ident(s), TokenView::Eol]);
    let t = s.push(':');
    assert forall|k: int| 1 <= k < s.len() implies is_word_char(#[trigger] t[k]) by {
        assert(t[k] == s[k]);
        assert(is_ascii_char(s[k]));
    }
    lemma_run_ends(t, 1);
    if word_end(t, 1) < s.len() {
        assert(is_word_char(t[word_end(t, 1)]));
    }
    assert(word_end(t, 1) == s.len()) by {
        assert(!is_word_char(t[s.len() as int]));
        if word_end(t, 1) > s.len() {
            assert(is_word_char(t[s.len() as int]));
        }
    }
    assert(t.subrange(0, s.len() as int) =~= s);
    if position_of(names, s) is None {
        let st2 = st0.with_declaration(s);
        assert(lex_step(t, 0, line, st0) == LexStep::Next(s.len() + 1int, st2));
        assert(lex_run(t, s.len() + 1int, line, st2) == LexOutcome {
            state: st2.with_token(TokenView::Eol),
            error: None,
        });
        assert(st2.with_token(TokenView::Eol).tokens =~= seq![TokenView::SR(s), TokenView::Eol]);
    } else {
        let st2 = st0.with_warning(line, LexWarningKindView::DuplicateSubroutine(s));
        assert(lex_step(t, 0, line, st0) == LexStep::Next(s.len() + 1int, st2));
        assert(lex_run(t, s.len() + 1int, line, st2) == LexOutcome {
            state: st2.with_token(TokenView::Eol),
            error: None,
        });
        assert(st2.with_token(TokenView::Eol).tokens =~= seq![TokenView::Eol]);
        assert(st2.warnings =~= seq![
            LexWarningView { line, kind: LexWarningKindView::DuplicateSubroutine(s) },
        ]);
    }
}

/// Lexing `#` followed by the decimal spelling of `n` gives the literal `n`
/// when `n` is at most 128 and rejects the line as out of range above that;
/// with `#-` the literal is stored in sign-and-magnitude form: bit 7 set and
/// the magnitude in the low seven bits (128 for `-128`), and anything below
/// `-128` is rejected as out of range.
pub proof fn lemma_literal_lexing(n: nat, line: u32, names: Seq<Seq<char>>)
    requires
        n <= 32767,
    ensures
        ({
            let o = spec_lex(seq!['#'] + nat_decimal(n), line, names);
            &&& n <= 128 ==> o.error is None && o.state.tokens == seq![
                TokenView::Literal(n as i16),
                TokenView::Eol,
            ] && o.state.warnings.len() == 0 && o.state.names == names
            &&& n > 128 ==> o.error == Some(
                LexErrorView { line, kind: LexErrorKindView::LiteralOutOfRange },
            )
        }),
        ({
            let o = spec_lex(seq!['#', '-'] + nat_decimal(n), line, names);
            &&& 1 <= n <= 128 ==> o.error is None && o.state.tokens == seq![
                TokenView::Literal((if n == 128 { 128 } else { 128 + n }) as i16),
                TokenView::Eol,
            ] && o.state.warnings.len() == 0 && o.state.names == names
            &&& n > 128 ==> o.error == Some(
                LexErrorView { line, kind: LexErrorKindView::LiteralOutOfRange },
            )
        }),
{
    let d = nat_decimal(n);
    lemma_nat_decimal_digits(n);
    lemma_decimal_roundtrip(n);
    let st = LexState {
        tokens: Seq::<TokenView>::empty(),
        names,
        warnings: Seq::<LexWarningView>::empty(),
    };
    let s = seq!['#'] + d;
    assert forall|k: int| 1 <= k < s.len() implies is_digit(#[trigger] s[k]) by {
        assert(s[k] == d[k - 1]);
    }
    lemma_digits_to_end(s, 1);
    assert(s.subrange(1, s.len() as int) =~= d);
    assert(s[0] == '#');
    assert(is_digit(s[1]));
    if n <= 128 {
        let next = st.with_token(TokenView::Literal(n as i16));
        assert(lex_step(s, 0, line, st) == LexStep::Next(s.len() as int, next));
        assert(lex_run(s, s.len() as int, line, next).state.tokens =~= seq![
            TokenView::Literal(n as i16),
            TokenView::Eol,
        ]);
    } else {
        assert(lex_step(s, 0, line, st) == LexStep::Fail(LexErrorKindView::LiteralOutOfRange));
    }
    let t = seq!['#', '-'] + d;
    assert forall|k: int| 2 <= k < t.len() implies is_digit(#[trigger] t[k]) by {
        assert(t[k] == d[k - 2]);
    }
    lemma_digits_to_end(t, 2);
    assert(t.subrange(2, t.len() as int) =~= d);
    assert(t[0] == '#');
    assert(t[1] == '-');
    if 1 <= n <= 128 {
        let b: int = if n == 128 {
            128
        } else {
            128 + n as int
        };
        assert(literal_byte(-(n as int)) == b);
        let next = st.with_token(TokenView::Literal(b as i16));
        assert(lex_step(t, 0, line, st) == LexStep::Next(t.len() as int, next));
        assert(lex_run(t, t.len() as int, line, next).state.tokens =~= seq![
            TokenView::Literal(b as i16),
            TokenView::Eol,
        ]);
    } else if n > 128 {
        assert(lex_step(t, 0, line, st) == LexStep::Fail(LexErrorKindView::LiteralOutOfRange));
    }
}

} // verus!
