//! Whole programs: the include lines that may open a source file, the
//! preparation of its lines, and the assembly of the prepared lines into
//! big-endian machine words.

use vstd::prelude::*;
use vstd::string::StringExecFns;
use crate::config::opt_string_view;
use crate::encode::{
    Encoded, EncodeError, EncodeErrorView, EncodeWarning, EncodeWarningView, encode_instruction,
    encode_result_view, spec_encode, encode_scans, instruction_scans,
};
use crate::lex::{
    LexError, LexErrorView, LexWarning, LexWarningView, Lexed, lex, lex_within_counter, lemma_lex_run_shape, spec_lex,
    warnings_view, opt_error_view,
};
use crate::symbols::{SubroutineTable, label_count, lines_view, count_labels};
use crate::text::{chars_of, trim, trim_start, trim_end, trimmed, is_white_space};
use crate::tokens::{Token, TokenView, tokens_view, opt_token_view};
use crate::verify::{ArityError, ArityErrorView, opt_arity_view, spec_verify, verify};

verus! {

/// The pattern of an include line: `#include "file"`.
pub const INCLUDE_PATTERN: &'static str = "^\\s*#include\\s+\"([^\"]+)\"";

/// The name for what `regex::Regex::new(pattern)` and `Regex::captures`
/// give: the text of capture group 1 of the first match of `pattern` in
/// `haystack`; none when the pattern does not compile, nothing matches, or
/// group 1 takes no part in the match.
pub uninterp spec fn regex_first_group(pattern: Seq<char>, haystack: Seq<char>) -> Option<
    Seq<char>,
>;

/// The longest prefix of `s` that holds no `"`.
pub open spec fn until_quote(s: Seq<char>) -> Seq<char>
    decreases s.len(),
{
    if s.len() == 0 || s[0] == '"' {
        Seq::<char>::empty()
    } else {
        seq![s[0]] + until_quote(s.drop_first())
    }
}

/// What capture group 1 of `INCLUDE_PATTERN` holds in `h`: after any leading
/// whitespace, `#include`, at least one whitespace character and a `"`, the
/// text up to the next `"`, which must be there and must not come at once.
/// (`\s` is the Unicode `White_Space` class; `[^"]+` is greedy and cannot pass
/// a `"`, so the group ends at the first `"`.)
pub open spec fn include_target(h: Seq<char>) -> Option<Seq<char>> {
    let t = trim_start(h);
    if !starts_with(t, "#include"@) {
        None
    } else {
        let rest = t.skip("#include"@.len() as int);
        if rest.len() == 0 || !is_white_space(rest[0]) {
            None
        } else {
            let q = trim_start(rest);
            if q.len() == 0 || q[0] != '"' {
                None
            } else {
                let x = until_quote(q.drop_first());
                if x.len() == 0 || x.len() == q.len() - 1 {
                    None
                } else {
                    Some(x)
                }
            }
        }
    }
}

/// Wraps `regex::Regex::new`, `Regex::captures`, `Captures::get` and
/// `Match::as_str`: compiles `pattern` and hands back the text of capture
/// group 1 of its leftmost-first match in `haystack`. Its contract claims that
/// the result is `regex_first_group` of the two arguments, and that for
/// `INCLUDE_PATTERN` it is `include_target` of the haystack; what the engine
/// matches for other patterns is left unsaid.
#[verifier::external_body]
fn first_capture(pattern: &str, haystack: &str) -> (r: Option<String>)
    ensures
        opt_string_view(r) == regex_first_group(pattern@, haystack@),
        pattern@ == INCLUDE_PATTERN@ ==> opt_string_view(r) == include_target(haystack@),
{
    let re = match regex::Regex::new(pattern) {
        Ok(re) => re,
        Err(_) => return None,
    };
    let captures = re.captures(haystack)?;
    let group = captures.get(1)?;
    Some(group.as_str().to_string())
}

/// Whether `s` starts with `p`.
pub open spec fn starts_with(s: Seq<char>, p: Seq<char>) -> bool {
    p.len() <= s.len() && s.subrange(0, p.len() as int) == p
}

/// Whether the string `s` starts with `p`.
pub fn has_prefix(s: &str, p: &str) -> (b: bool)
    ensures
        b == starts_with(s@, p@),
{
    let sv = chars_of(s);
    let pv = chars_of(p);
    if pv.len() > sv.len() {
        return false;
    }
    let mut k: usize = 0;
    while k < pv.len()
        invariant
            pv@ == p@,
            sv@ == s@,
            pv@.len() <= sv@.len(),
            k <= pv@.len(),
            sv@.subrange(0, k as int) == pv@.subrange(0, k as int),
        decreases pv@.len() - k,
    {
        if sv[k] != pv[k] {
            assert(sv@.subrange(0, pv@.len() as int)[k as int] != pv@[k as int]);
            return false;
        }
        assert(sv@.subrange(0, k + 1) =~= sv@.subrange(0, k as int).push(sv@[k as int]));
        assert(pv@.subrange(0, k + 1) =~= pv@.subrange(0, k as int).push(pv@[k as int]));
        k = k + 1;
    }
    assert(pv@.subrange(0, k as int) =~= pv@);
    true
}

/// What a line at the head of a source file is: an include line naming a
/// file, a line that starts like one but does not match the pattern, or the
/// first line of the program's body.
#[derive(Debug, PartialEq, Eq)]
pub enum PreambleLine {
    Include(String),
    Malformed,
    Body,
}

pub enum PreambleLineView {
    Include(Seq<char>),
    Malformed,
    Body,
}

impl View for PreambleLine {
    type V = PreambleLineView;

    open spec fn view(&self) -> PreambleLineView {
        match self {
            PreambleLine::Include(s) => PreambleLineView::Include(s@),
            PreambleLine::Malformed => PreambleLineView::Malformed,
            PreambleLine::Body => PreambleLineView::Body,
        }
    }
}

/// What a line at the head of a source file is: one whose trimmed text
/// starts with `#include` is an include line, and the file it names is
/// capture group 1 of `INCLUDE_PATTERN` on the trimmed text.
pub open spec fn preamble_kind(line: Seq<char>) -> PreambleLineView {
    if starts_with(trim(line), "#include"@) {
        match include_target(trim(line)) {
            Some(f) => PreambleLineView::Include(f),
            None => PreambleLineView::Malformed,
        }
    } else {
        PreambleLineView::Body
    }
}

/// Classifies a line at the head of a source file.
pub fn classify_preamble_line(content: &str) -> (r: PreambleLine)
    ensures
        r@ == preamble_kind(content@),
{
    let t = trimmed(content);
    if has_prefix(t.as_str(), "#include") {
        match first_capture(INCLUDE_PATTERN, t.as_str()) {
            Some(f) => PreambleLine::Include(f),
            None => PreambleLine::Malformed,
        }
    } else {
        PreambleLine::Body
    }
}

/// Whether a trimmed line is kept: it is no comment (`;`) and no directive (`#`).
pub open spec fn kept_line(t: Seq<char>) -> bool {
    !(t.len() > 0 && (t[0] == ';' || t[0] == '#'))
}

/// The lines of a program made ready for assembly: empty lines dropped, the
/// rest trimmed, and then the comment and directive lines dropped; the order
/// is kept.
pub open spec fn clean(lines: Seq<Seq<char>>) -> Seq<Seq<char>>
    decreases lines.len(),
{
    if lines.len() == 0 {
        Seq::<Seq<char>>::empty()
    } else {
        let rest = clean(lines.drop_last());
        let l = lines.last();
        if l.len() > 0 && kept_line(trim(l)) {
            rest.push(trim(l))
        } else {
            rest
        }
    }
}

/// The views of a sequence of strings.
pub open spec fn strings_view(v: Seq<String>) -> Seq<Seq<char>> {
    v.map_values(|s: String| s@)
}

/// Makes the lines of a program ready for assembly.
pub fn clean_lines(lines: &Vec<String>) -> (r: Vec<String>)
    ensures
        strings_view(r@) == clean(strings_view(lines@)),
{
    let ghost lv = strings_view(lines@);
    let mut out: Vec<String> = Vec::new();
    let mut i: usize = 0;
    assert(lv.take(0) =~= Seq::<Seq<char>>::empty());
    assert(strings_view(out@) =~= Seq::<Seq<char>>::empty());
    while i < lines.len()
        invariant
            i <= lines@.len(),
            lv == strings_view(lines@),
            strings_view(out@) == clean(lv.take(i as int)),
        decreases lines@.len() - i,
    {
        assert(lv.take(i + 1).drop_last() =~= lv.take(i as int));
        let line = &lines[i];
        if !line.as_str().is_empty() {
            let t = trimmed(line.as_str());
            let keep = !(has_prefix(t.as_str(), ";") || has_prefix(t.as_str(), "#"));
            proof {
                reveal_strlit(";");
                reveal_strlit("#");
                if t@.len() > 0 {
                    assert(t@.subrange(0, 1)[0] == t@[0]);
                    assert(t@[0] == ';' ==> t@.subrange(0, 1) =~= ";"@);
                    assert(t@[0] == '#' ==> t@.subrange(0, 1) =~= "#"@);
                }
                assert(keep == kept_line(trim(lv[i as int])));
                assert(lv.take(i + 1).last() == lv[i as int]);
            }
            if keep {
                let ghost before = strings_view(out@);
                let ghost tv = t@;
                out.push(t);
                assert(strings_view(out@) =~= before.push(tv));
            }
        } else {
            assert(lv.take(i + 1).last() == lv[i as int]);
        }
        i = i + 1;
    }
    assert(lv.take(i as int) =~= lv);
    out
}

// ---------------------------------------------------------------------------
// Assembly of prepared lines
// ---------------------------------------------------------------------------

/// What became of one assembled line: its number, its tokens and lexer
/// warnings, its word and encoder warnings, and its operand-count error.
#[derive(Debug)]
pub struct LineReport {
    pub line: u32,
    pub tokens: Vec<Token>,
    pub lex_warnings: Vec<LexWarning>,
    pub word: i16,
    pub encode_warnings: Vec<EncodeWarning>,
    pub arity_error: Option<ArityError>,
}

pub struct LineReportView {
    pub line: u32,
    pub tokens: Seq<TokenView>,
    pub lex_warnings: Seq<LexWarningView>,
    pub word: i16,
    pub encode_warnings: Seq<EncodeWarningView>,
    pub arity_error: Option<ArityErrorView>,
}

impl View for LineReport {
    type V = LineReportView;

    open spec fn view(&self) -> LineReportView {
        LineReportView {
            line: self.line,
            tokens: tokens_view(self.tokens@),
            lex_warnings: warnings_view(self.lex_warnings@),
            word: self.word,
            encode_warnings: self.encode_warnings@.map_values(|w: EncodeWarning| w@),
            arity_error: opt_arity_view(self.arity_error),
        }
    }
}

/// The line that stopped the assembly: the lexer rejected it, or the encoder
/// did (an unknown instruction); with the lexer warnings the line raised first.
#[derive(Debug)]
pub enum Failure {
    Lex { warnings: Vec<LexWarning>, error: LexError },
    Encode { line: u32, warnings: Vec<LexWarning>, error: EncodeError },
}

pub enum FailureView {
    Lex { warnings: Seq<LexWarningView>, error: LexErrorView },
    Encode { line: u32, warnings: Seq<LexWarningView>, error: EncodeErrorView },
}

impl View for Failure {
    type V = FailureView;

    open spec fn view(&self) -> FailureView {
        match self {
            Failure::Lex { warnings, error } => FailureView::Lex {
                warnings: warnings_view(warnings@),
                error: error@,
            },
            Failure::Encode { line, warnings, error } => FailureView::Encode {
                line: *line,
                warnings: warnings_view(warnings@),
                error: error@,
            },
        }
    }
}

/// The outcome of assembling a program: a report per assembled line, the
/// line that stopped the assembly (if one did), the machine code, whether an
/// operand-count error rejects the program, and the subroutines declared.
pub struct Assembly {
    pub reports: Vec<LineReport>,
    pub failure: Option<Failure>,
    pub bytes: Vec<u8>,
    pub rejected: bool,
    pub table: SubroutineTable,
}

pub struct AssemblyView {
    pub reports: Seq<LineReportView>,
    pub failure: Option<FailureView>,
    pub bytes: Seq<u8>,
    pub rejected: bool,
    pub names: Seq<Seq<char>>,
}

/// The view of an optional failure.
pub open spec fn opt_failure_view(f: Option<Failure>) -> Option<FailureView> {
    match f {
        Some(f) => Some(f@),
        None => None,
    }
}

/// The views of a sequence of reports.
pub open spec fn reports_view(v: Seq<LineReport>) -> Seq<LineReportView> {
    v.map_values(|r: LineReport| r@)
}

impl View for Assembly {
    type V = AssemblyView;

    open spec fn view(&self) -> AssemblyView {
        AssemblyView {
            reports: reports_view(self.reports@),
            failure: opt_failure_view(self.failure),
            bytes: self.bytes@,
            rejected: self.rejected,
            names: self.table@,
        }
    }
}

/// The token at position `i`, if there is one.
pub open spec fn token_at(toks: Seq<TokenView>, i: int) -> Option<TokenView> {
    if 0 <= i < toks.len() {
        Some(toks[i])
    } else {
        None
    }
}

/// The second operand of a line: the token after the comma that follows the
/// first operand, or, with no comma there, the token right after the first.
pub open spec fn second_operand(toks: Seq<TokenView>) -> Option<TokenView> {
    if token_at(toks, 2) == Some(TokenView::Comma) {
        token_at(toks, 3)
    } else {
        token_at(toks, 2)
    }
}

/// The big-endian bytes of a word.
pub open spec fn be_bytes(w: i16) -> Seq<u8> {
    seq![((w as u16) >> 8u16) as u8, ((w as u16) & 0xffu16) as u8]
}

/// Assembling one line, numbered `line`, in the state `st`.
pub open spec fn assemble_line(
    text: Seq<char>,
    line: u32,
    st: AssemblyView,
    source: Seq<Seq<char>>,
) -> AssemblyView {
    let lx = spec_lex(text, line, st.names);
    match lx.error {
        Some(e) => AssemblyView {
            failure: Some(FailureView::Lex { warnings: lx.state.warnings, error: e }),
            names: lx.state.names,
            ..st
        },
        None => {
            let toks = lx.state.tokens;
            let ins = toks[0];
            let a1 = token_at(toks, 1);
            let a2 = second_operand(toks);
            match spec_encode(ins, a1, a2, lx.state.names, source) {
                Err(e) => AssemblyView {
                    failure: Some(
                        FailureView::Encode { line, warnings: lx.state.warnings, error: e },
                    ),
                    names: lx.state.names,
                    ..st
                },
                Ok(enc) => {
                    let ar = spec_verify(ins, a1, a2);
                    AssemblyView {
                        reports: st.reports.push(
                            LineReportView {
                                line,
                                tokens: toks,
                                lex_warnings: lx.state.warnings,
                                word: enc.word,
                                encode_warnings: enc.warnings,
                                arity_error: ar,
                            },
                        ),
                        failure: None,
                        bytes: st.bytes + be_bytes(enc.word),
                        rejected: st.rejected || ar is Some,
                        names: lx.state.names,
                    }
                },
            }
        },
    }
}

/// Assembling the lines from `i` on, until one fails.
pub open spec fn assemble_run(
    lines: Seq<Seq<char>>,
    source: Seq<Seq<char>>,
    i: int,
    st: AssemblyView,
) -> AssemblyView
    decreases lines.len() - i,
{
    if i >= lines.len() || st.failure is Some {
        st
    } else {
        assemble_run(lines, source, i + 1, assemble_line(lines[i], i as u32, st, source))
    }
}

/// The state in which the assembly starts: nothing reported, nothing
/// declared.
pub open spec fn initial_assembly() -> AssemblyView {
    AssemblyView {
        reports: Seq::<LineReportView>::empty(),
        failure: None,
        bytes: Seq::<u8>::empty(),
        rejected: false,
        names: Seq::<Seq<char>>::empty(),
    }
}

/// Assembling prepared lines: the first line is dropped, and the line at
/// position `i` is numbered `i`; no subroutine is declared before.
pub open spec fn spec_assemble(lines: Seq<Seq<char>>, source: Seq<Seq<char>>) -> AssemblyView {
    assemble_run(lines, source, 1, initial_assembly())
}

/// Whether the assembly from `lines[i]` on, with the subroutines `names`
/// declared, stays within its counters: it declares fewer than `u32::MAX`
/// subroutines (their numbers are counted in a `u32`), and every line it
/// reaches whose encoding scans the source's label lines finds fewer than
/// 32767 of them (the scan numbers labels in an `i16`). The assembly stops
/// at a line it rejects.
pub open spec fn run_fits(
    lines: Seq<Seq<char>>,
    source: Seq<Seq<char>>,
    i: int,
    names: Seq<Seq<char>>,
) -> bool
    decreases lines.len() - i,
{
    if i < 0 || i >= lines.len() {
        true
    } else {
        let lx = spec_lex(lines[i], i as u32, names);
        if lx.state.names.len() >= u32::MAX {
            false
        } else {
            match lx.error {
                Some(_) => true,
                None => {
                    let toks = lx.state.tokens;
                    let ins = toks[0];
                    let a1 = token_at(toks, 1);
                    let a2 = second_operand(toks);
                    if encode_scans(ins, a1, a2, lx.state.names) && label_count(source) >= 32767 {
                        false
                    } else {
                        match spec_encode(ins, a1, a2, lx.state.names, source) {
                            Err(_) => true,
                            Ok(_) => run_fits(lines, source, i + 1, lx.state.names),
                        }
                    }
                },
            }
        }
    }
}

/// What `assemble` needs: a first line to drop, line numbers that fit in a
/// `u32`, and a run that stays within its counters.
pub open spec fn assembly_runs(lines: Seq<Seq<char>>, source: Seq<Seq<char>>) -> bool {
    &&& 1 <= lines.len() <= u32::MAX
    &&& run_fits(lines, source, 1, Seq::<Seq<char>>::empty())
}

/// Whether `assemble` can take these lines and this source: there is a
/// first line to drop, line numbers fit in a `u32`, no line declares a
/// subroutine past the `u32` counter, and no scan of the source's label lines
/// runs out of 16-bit label numbers. The lines are lexed and encoded to tell.
pub fn fits_limits(lines: &Vec<String>, source: &Vec<String>) -> (b: bool)
    ensures
        b == assembly_runs(strings_view(lines@), lines_view(source@)),
{
    if lines.len() < 1 || lines.len() > u32::MAX as usize {
        return false;
    }
    run_within_limits(lines, source)
}

/// Runs the lexer and the encoder over the lines as the assembly does, and
/// tells whether it stays within its counters.
fn run_within_limits(lines: &Vec<String>, source: &Vec<String>) -> (b: bool)
    requires
        1 <= lines@.len() <= u32::MAX,
    ensures
        b == run_fits(strings_view(lines@), lines_view(source@), 1, Seq::<Seq<char>>::empty()),
{
    let ghost lv = strings_view(lines@);
    let ghost sv = lines_view(source@);
    let many_labels = count_labels(source) >= 32767;
    let mut table = SubroutineTable::new();
    let mut i: usize = 1;
    while i < lines.len()
        invariant
            1 <= i <= lines@.len(),
            lines@.len() <= u32::MAX,
            lv == strings_view(lines@),
            sv == lines_view(source@),
            many_labels == (label_count(sv) >= 32767),
            table.wf(),
            run_fits(lv, sv, 1, Seq::<Seq<char>>::empty()) == run_fits(lv, sv, i as int, table@),
        decreases lines@.len() - i,
    {
        let ghost names_before = table@;
        let line_number = i as u32;
        proof {
            lemma_lex_run_shape(
                lv[i as int],
                0,
                line_number,
                crate::lex::LexState {
                    tokens: Seq::<TokenView>::empty(),
                    names: names_before,
                    warnings: Seq::<LexWarningView>::empty(),
                },
            );
        }
        let lexed = lex_within_counter(lines[i].as_str(), line_number, &mut table);
        let ghost lx = spec_lex(lv[i as int], line_number, names_before);
        let Lexed { tokens, warnings: _, error } = match lexed {
            Some(l) => l,
            None => {
                return false;
            },
        };
        if error.is_some() {
            return true;
        }
        let ins = &tokens[0];
        let a1 = token_ref(&tokens, 1);
        let third = token_ref(&tokens, 2);
        let a2 = match third {
            Some(Token::Comma) => token_ref(&tokens, 3),
            _ => third,
        };
        assert(opt_token_view(a2) == second_operand(lx.state.tokens));
        if many_labels && instruction_scans(ins, a1, a2, &table) {
            return false;
        }
        if encode_instruction(ins, a1, a2, &table, source).is_err() {
            return true;
        }
        i = i + 1;
    }
    true
}

fn token_ref(v: &Vec<Token>, i: usize) -> (r: Option<&Token>)
    ensures
        opt_token_view(r) == token_at(tokens_view(v@), i as int),
{
    if i < v.len() {
        Some(&v[i])
    } else {
        None
    }
}

/// Assembles prepared lines (see `clean_lines`): the first line is dropped
/// and each following line is lexed, encoded into one word and checked for
/// its operand count, until a line is rejected. `source` holds the lines of
/// the source file, whose labels number the subroutines that are called
/// before they are declared. The machine code is the words of the reports,
/// most significant byte first.
pub fn assemble(lines: &Vec<String>, source: &Vec<String>) -> (r: Assembly)
    requires
        assembly_runs(strings_view(lines@), lines_view(source@)),
    ensures
        r@ == spec_assemble(strings_view(lines@), lines_view(source@)),
        r.table.wf(),
        r.bytes@.len() == 2 * r.reports@.len(),
        forall|k: int|
            0 <= k < r.reports@.len() ==> r.bytes@.subrange(2 * k, 2 * k + 2) == be_bytes(
                #[trigger] r.reports@[k].word,
            ),
{
    let ghost lv = strings_view(lines@);
    let ghost sv = lines_view(source@);
    let mut table = SubroutineTable::new();
    let mut reports: Vec<LineReport> = Vec::new();
    let mut bytes: Vec<u8> = Vec::new();
    let mut rejected = false;
    let mut failure: Option<Failure> = None;
    let mut i: usize = 1;
    let ghost outcome = spec_assemble(lv, sv);
    assert(reports_view(reports@) =~= Seq::<LineReportView>::empty());
    while i < lines.len() && failure.is_none()
        invariant
            1 <= i <= lines@.len(),
            lines@.len() <= u32::MAX,
            lv == strings_view(lines@),
            sv == lines_view(source@),
            failure is None ==> run_fits(lv, sv, i as int, table@),
            table.wf(),
            outcome == spec_assemble(lv, sv),
            outcome == assemble_run(
                lv,
                sv,
                i as int,
                AssemblyView {
                    reports: reports_view(reports@),
                    failure: opt_failure_view(failure),
                    bytes: bytes@,
                    rejected,
                    names: table@,
                },
            ),
            bytes@.len() == 2 * reports@.len(),
            forall|k: int|
                0 <= k < reports@.len() ==> bytes@.subrange(2 * k, 2 * k + 2) == be_bytes(
                    #[trigger] reports@[k].word,
                ),
        decreases lines@.len() - i,
    {
        let ghost st = AssemblyView {
            reports: reports_view(reports@),
            failure: opt_failure_view(failure),
            bytes: bytes@,
            rejected,
            names: table@,
        };
        let ghost names_before = table@;
        let line_number = i as u32;
        proof {
            lemma_lex_run_shape(
                lv[i as int],
                0,
                line_number,
                crate::lex::LexState {
                    tokens: Seq::<TokenView>::empty(),
                    names: names_before,
                    warnings: Seq::<LexWarningView>::empty(),
                },
            );
        }
        let Lexed { tokens, warnings, error } = lex(lines[i].as_str(), line_number, &mut table);
        let ghost lx = spec_lex(lv[i as int], line_number, names_before);
        match error {
            Some(e) => {
                failure = Some(Failure::Lex { warnings, error: e });
            },
            None => {
                let ins = &tokens[0];
                let a1 = token_ref(&tokens, 1);
                let third = token_ref(&tokens, 2);
                let a2 = match third {
                    Some(Token::Comma) => token_ref(&tokens, 3),
                    _ => third,
                };
                assert(opt_token_view(a2) == second_operand(lx.state.tokens));
                match encode_instruction(ins, a1, a2, &table, source) {
                    Err(e) => {
                        failure = Some(Failure::Encode { line: line_number, warnings, error: e });
                    },
                    Ok(enc) => {
                        let arity_error = verify(ins, a1, a2);
                        if arity_error.is_some() {
                            rejected = true;
                        }
                        let Encoded { word, warnings: encode_warnings } = enc;
                        let bits = word as u16;
                        let ghost before = bytes@;
                        bytes.push((bits >> 8u16) as u8);
                        bytes.push((bits & 0xffu16) as u8);
                        assert(bytes@ =~= before + be_bytes(word));
                        let report = LineReport {
                            line: line_number,
                            tokens,
                            lex_warnings: warnings,
                            word,
                            encode_warnings,
                            arity_error,
                        };
                        let ghost rv = report@;
                        let ghost old_reports = reports@;
                        reports.push(report);
                        assert(reports_view(reports@) =~= reports_view(old_reports).push(rv));
                        assert forall|k: int| 0 <= k < reports@.len() implies bytes@.subrange(
                            2 * k,
                            2 * k + 2,
                        ) == be_bytes(#[trigger] reports@[k].word) by {
                            if k < old_reports.len() {
                                assert(reports@[k] == old_reports[k]);
                                assert(bytes@.subrange(2 * k, 2 * k + 2) =~= before.subrange(
                                    2 * k,
                                    2 * k + 2,
                                ));
                            } else {
                                assert(bytes@.subrange(2 * k, 2 * k + 2) =~= be_bytes(word));
                            }
                        }
                    },
                }
            },
        }
        i = i + 1;
    }
    Assembly { reports, failure, bytes, rejected, table }
}

/// Assembles the prepared lines when `assemble` can take them (see
/// `fits_limits`), and gives `None` otherwise.
pub fn assemble_checked(lines: &Vec<String>, source: &Vec<String>) -> (r: Option<Assembly>)
    ensures
        r is Some <==> assembly_runs(strings_view(lines@), lines_view(source@)),
        r matches Some(a) ==> a@ == spec_assemble(strings_view(lines@), lines_view(source@)),
{
    if fits_limits(lines, source) {
        Some(assemble(lines, source))
    } else {
        None
    }
}

/// Preparing lines, one line at a time: a non-empty line whose trimmed text
/// starts with neither `;` nor `#` is kept, trimmed, after the lines before it,
/// whatever else it holds (a `;` later in it included); an empty line, and one
/// whose trimmed text starts with `;` or `#`, is dropped. No lines give none.
pub proof fn lemma_clean_step(lines: Seq<Seq<char>>, l: Seq<char>)
    ensures
        clean(Seq::<Seq<char>>::empty()) == Seq::<Seq<char>>::empty(),
        (l.len() > 0 && !(trim(l).len() > 0 && (trim(l)[0] == ';' || trim(l)[0] == '#')))
            ==> clean(lines.push(l)) == clean(lines).push(trim(l)),
        !(l.len() > 0 && !(trim(l).len() > 0 && (trim(l)[0] == ';' || trim(l)[0] == '#')))
            ==> clean(lines.push(l)) == clean(lines),
{
    assert(lines.push(l).drop_last() =~= lines);
}

/// Leading whitespace does not change what trimming the start leaves.
proof fn lemma_trim_start_white_prefix(w: Seq<char>, x: Seq<char>)
    requires
        forall|k: int| 0 <= k < w.len() ==> is_white_space(#[trigger] w[k]),
    ensures
        trim_start(w + x) == trim_start(x),
    decreases w.len(),
{
    if w.len() == 0 {
        assert(w + x =~= x);
    } else {
        assert((w + x)[0] == w[0]);
        assert((w + x).drop_first() =~= w.drop_first() + x);
        lemma_trim_start_white_prefix(w.drop_first(), x);
    }
}

/// Trimming the end of `a + b`, where `a` ends in a character that is not
/// whitespace, trims only `b`.
proof fn lemma_trim_end_after(a: Seq<char>, b: Seq<char>)
    requires
        a.len() > 0,
        !is_white_space(a.last()),
    ensures
        trim_end(a + b) == a + trim_end(b),
    decreases b.len(),
{
    if b.len() == 0 {
        assert(a + b =~= a);
        assert(a + trim_end(b) =~= a);
    } else {
        assert((a + b).last() == b.last());
        if is_white_space(b.last()) {
            assert((a + b).drop_last() =~= a + b.drop_last());
            lemma_trim_end_after(a, b.drop_last());
        }
    }
}

/// The text before the first `"` of `f` followed by a `"` is `f`, when `f`
/// holds no `"`.
proof fn lemma_until_quote_closed(f: Seq<char>, r: Seq<char>)
    requires
        forall|k: int| 0 <= k < f.len() ==> #[trigger] f[k] != '"',
    ensures
        until_quote(f + seq!['"'] + r) == f,
    decreases f.len(),
{
    let g = f + seq!['"'] + r;
    if f.len() == 0 {
        assert(g[0] == '"');
    } else {
        assert(g[0] == f[0]);
        assert(g.drop_first() =~= f.drop_first() + seq!['"'] + r);
        lemma_until_quote_closed(f.drop_first(), r);
        assert(seq![f[0]] + f.drop_first() =~= f);
    }
}

/// An include line names the text between its quotes: after any leading
/// whitespace, `#include`, at least one whitespace character and a `"`, the
/// file is everything up to the next `"`, whatever characters other than `"`
/// it holds and whatever follows the closing `"`.
pub proof fn lemma_include_names_quoted_text(
    w1: Seq<char>,
    w2: Seq<char>,
    f: Seq<char>,
    rest: Seq<char>,
)
    requires
        forall|k: int| 0 <= k < w1.len() ==> is_white_space(#[trigger] w1[k]),
        w2.len() > 0,
        forall|k: int| 0 <= k < w2.len() ==> is_white_space(#[trigger] w2[k]),
        f.len() > 0,
        forall|k: int| 0 <= k < f.len() ==> #[trigger] f[k] != '"',
    ensures
        preamble_kind(w1 + "#include"@ + w2 + seq!['"'] + f + seq!['"'] + rest)
            == PreambleLineView::Include(f),
{
    reveal_strlit("#include");
    let inc = "#include"@;
    assert(inc.len() == 8);
    let q = seq!['"'];
    let a = inc + w2 + q + f + q;
    let h = a + rest;
    let line = w1 + "#include"@ + w2 + seq!['"'] + f + seq!['"'] + rest;
    assert(line =~= w1 + h);
    lemma_trim_start_white_prefix(w1, h);
    assert(h[0] == '#');
    assert(trim_start(h) == h);
    lemma_trim_end_after(a, rest);
    let t = a + trim_end(rest);
    assert(trim(line) == t);
    assert(t[0] == '#');
    assert(trim_start(t) == t);
    assert(t.subrange(0, 8) =~= inc);
    assert(starts_with(t, inc));
    let r2 = trim_end(rest);
    let rest0 = t.skip(8);
    assert(rest0 =~= w2 + (q + f + q + r2));
    assert(rest0[0] == w2[0]);
    lemma_trim_start_white_prefix(w2, q + f + q + r2);
    let qq = q + f + q + r2;
    assert(qq[0] == '"');
    assert(trim_start(qq) == qq);
    assert(qq.drop_first() =~= f + q + r2);
    lemma_until_quote_closed(f, r2);
    assert(include_target(t) == Some(f));
}

} // verus!
