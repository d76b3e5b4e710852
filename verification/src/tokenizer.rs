//! The scanner: a pull-based tokenizer over the characters of a source text.
//!
//! The ghost-level model of scanning lives here as well: [`spec_scan`] says
//! which raw token starts at a given position, [`spec_step`] folds in the
//! filtering of whitespace and comment tokens, and [`spec_items`] gives the
//! whole remaining token stream.  Every executable scanning function is
//! proved to follow this model exactly.
use vstd::prelude::*;

verus! {

use crate::token::{
    abs_lit, abs_token_type, Comment, Delimeter, DelimeterSide, DelimeterType, Keyword, Literal,
    NumberLiteral, Operator, Punctuation, RealLiteral, SpecLit, SpecTok, SpecTokenType, Token,
    TokenPosition, TokenType,
};
use crate::{Diagnostic, DiagnosticType, Source};

/// A fatal scanning failure.  Scanning continues after one: the offending
/// characters are consumed and the next pull starts afresh.
#[derive(Debug, Clone, Copy, PartialEq, Eq, Structural)]
pub enum TokenizerError {
    /// The text ended before the closing `"` of a string literal.
    UnfinishedString,
    /// A character literal was not closed by `'` right after its character.
    UnfinishedChar,
    /// A character no token can start with.
    Unexpected(char),
}

// ---------------------------------------------------------------------------
// Character classes
// ---------------------------------------------------------------------------

pub open spec fn is_digit(c: char) -> bool {
    '0' <= c && c <= '9'
}

pub open spec fn is_alpha(c: char) -> bool {
    ('a' <= c && c <= 'z') || ('A' <= c && c <= 'Z')
}

pub open spec fn is_ident_start(c: char) -> bool {
    is_alpha(c) || c == '_'
}

pub open spec fn is_ident_char(c: char) -> bool {
    is_ident_start(c) || is_digit(c)
}

pub open spec fn is_ws(c: char) -> bool {
    c == ' ' || c == '\t' || c == '\n'
}

pub open spec fn digit_val(c: char) -> int {
    c as int - '0' as int
}

/// True when position `j` exists in `s` and holds `c`.
pub open spec fn at(s: Seq<char>, j: int, c: char) -> bool {
    0 <= j < s.len() && s[j] == c
}

// ---------------------------------------------------------------------------
// Line and column bookkeeping
// ---------------------------------------------------------------------------

/// Number of newline characters strictly before position `p`.
pub open spec fn newline_count(s: Seq<char>, p: int) -> int
    decreases p,
{
    if p <= 0 || p > s.len() {
        0
    } else {
        newline_count(s, p - 1) + if s[p - 1] == '\n' { 1int } else { 0int }
    }
}

/// Offset of the newline nearest before position `p`, or 0 when the first
/// line is still running.
pub open spec fn last_newline(s: Seq<char>, p: int) -> int
    decreases p,
{
    if p <= 0 || p > s.len() {
        0
    } else if s[p - 1] == '\n' {
        p - 1
    } else {
        last_newline(s, p - 1)
    }
}

/// 1-based line of the token starting at position `p`.
pub open spec fn spec_line(s: Seq<char>, p: int) -> int {
    1 + newline_count(s, p)
}

/// Column of the token starting at position `p`: its distance from the
/// nearest newline before it.  The very first token of the text is at
/// column 1.
pub open spec fn spec_col(s: Seq<char>, p: int) -> int {
    if p == 0 {
        1
    } else {
        p - last_newline(s, p)
    }
}

// ---------------------------------------------------------------------------
// Maximal runs of a character class
// ---------------------------------------------------------------------------

pub enum CharClass {
    /// Digits and `_` separators, the body of a number literal.
    NumRun,
    /// Letters, digits and `_`, the body of an identifier.
    IdentRun,
    /// Space, tab, newline.
    WsRun,
    /// Anything but a newline, the body of a single-line comment.
    NotNewline,
}

pub open spec fn in_class(cl: CharClass, c: char) -> bool {
    match cl {
        CharClass::NumRun => is_digit(c) || c == '_',
        CharClass::IdentRun => is_ident_char(c),
        CharClass::WsRun => is_ws(c),
        CharClass::NotNewline => c != '\n',
    }
}

/// First position at or after `i` whose character leaves the class, or the
/// end of the text.
pub open spec fn run_end(s: Seq<char>, i: int, cl: CharClass) -> int
    decreases s.len() - i,
{
    if 0 <= i < s.len() {
        if in_class(cl, s[i]) {
            run_end(s, i + 1, cl)
        } else {
            i
        }
    } else {
        i
    }
}

pub proof fn lemma_run_end(s: Seq<char>, i: int, cl: CharClass)
    requires
        0 <= i <= s.len(),
    ensures
        i <= run_end(s, i, cl) <= s.len(),
        forall|k: int| i <= k < run_end(s, i, cl) ==> in_class(cl, #[trigger] s[k]),
        run_end(s, i, cl) < s.len() ==> !in_class(cl, s[run_end(s, i, cl)]),
    decreases s.len() - i,
{
    if i < s.len() && in_class(cl, s[i]) {
        lemma_run_end(s, i + 1, cl);
    }
}

/// A run over characters that are all in the class reaches the end of the
/// text.
pub proof fn lemma_run_end_full(s: Seq<char>, i: int, cl: CharClass)
    requires
        0 <= i <= s.len(),
        forall|k: int| i <= k < s.len() ==> in_class(cl, #[trigger] s[k]),
    ensures
        run_end(s, i, cl) == s.len(),
    decreases s.len() - i,
{
    if i < s.len() {
        lemma_run_end_full(s, i + 1, cl);
    }
}

// ---------------------------------------------------------------------------
// Number literals
// ---------------------------------------------------------------------------

/// The digits of a scanned run, with `_` separators removed.
pub open spec fn digits_of(q: Seq<char>) -> Seq<char>
    decreases q.len(),
{
    if q.len() == 0 {
        Seq::empty()
    } else {
        digits_of(q.drop_last()) + if is_digit(q.last()) {
            seq![q.last()]
        } else {
            Seq::<char>::empty()
        }
    }
}

/// The digits of a fractional run as digit values.
pub open spec fn frac_of(q: Seq<char>) -> Seq<u8>
    decreases q.len(),
{
    if q.len() == 0 {
        Seq::empty()
    } else {
        frac_of(q.drop_last()) + if is_digit(q.last()) {
            seq![digit_val(q.last()) as u8]
        } else {
            Seq::<u8>::empty()
        }
    }
}

/// A digit sequence read in base 10, most significant digit first.
pub open spec fn digit_seq_val(ds: Seq<char>) -> int
    decreases ds.len(),
{
    if ds.len() == 0 {
        0
    } else {
        digit_seq_val(ds.drop_last()) * 10 + digit_val(ds.last())
    }
}

pub struct SpecNumScan {
    pub lit: SpecLit,
    pub end: int,
}

/// The number literal whose first digit `c0` stood just before position `i`:
/// a maximal run of digits and separators, optionally followed by `.` and a
/// fractional run.  The integer part is the digit sequence read in base 10,
/// reduced modulo 2^64 (the scanner accumulates into a wrapping 64-bit
/// value); the fractional digits are kept as scanned.
pub open spec fn spec_number(s: Seq<char>, i: int, c0: char) -> SpecNumScan {
    let j = run_end(s, i, CharClass::NumRun);
    let intv = (digit_seq_val(seq![c0] + digits_of(s.subrange(i, j)))
        % 0x1_0000_0000_0000_0000) as u64;
    if at(s, j, '.') {
        let k = run_end(s, j + 1, CharClass::NumRun);
        SpecNumScan {
            lit: SpecLit::Real { int_part: intv, frac: frac_of(s.subrange(j + 1, k)) },
            end: k,
        }
    } else {
        SpecNumScan { lit: SpecLit::Integer(intv), end: j }
    }
}

// ---------------------------------------------------------------------------
// String and character literals
// ---------------------------------------------------------------------------

/// The escape table: `\n`, `\t` and `\0` translate; any other escaped
/// character stands for itself.
pub open spec fn escape_char(c: char) -> char {
    if c == 'n' {
        '\n'
    } else if c == 't' {
        '\t'
    } else if c == '0' {
        '\0'
    } else {
        c
    }
}

pub enum SpecStrScan {
    /// The closing quote stood at `end - 1`; `val` is the translated content.
    Fin { val: Seq<char>, end: int },
    /// The text ended before an unescaped closing quote.
    Unfinished,
}

/// Scanning a string literal body from position `i` (just past the opening
/// quote), with `acc` already read and `escaped` telling whether a backslash
/// immediately preceded.
pub open spec fn str_scan(s: Seq<char>, i: int, acc: Seq<char>, escaped: bool) -> SpecStrScan
    decreases s.len() - i,
{
    if !(0 <= i < s.len()) {
        SpecStrScan::Unfinished
    } else {
        let c = s[i];
        if escaped {
            str_scan(s, i + 1, acc.push(escape_char(c)), false)
        } else if c == '"' {
            SpecStrScan::Fin { val: acc, end: i + 1 }
        } else if c == '\\' {
            str_scan(s, i + 1, acc, true)
        } else {
            str_scan(s, i + 1, acc.push(c), false)
        }
    }
}

pub enum SpecCharScan {
    Fin { val: char, end: int },
    Fail { end: int },
}

/// Scanning a character literal from position `i` (just past the opening
/// quote): one character, possibly preceded by a backslash that makes it
/// literal, then a mandatory closing quote.
pub open spec fn char_scan(s: Seq<char>, i: int) -> SpecCharScan {
    if !(0 <= i < s.len()) {
        SpecCharScan::Fail { end: i }
    } else if s[i] == '\\' {
        if !(i + 1 < s.len()) {
            SpecCharScan::Fail { end: i + 1 }
        } else if at(s, i + 2, '\'') {
            SpecCharScan::Fin { val: s[i + 1], end: i + 3 }
        } else {
            SpecCharScan::Fail { end: i + 2 }
        }
    } else if at(s, i + 1, '\'') {
        SpecCharScan::Fin { val: s[i], end: i + 2 }
    } else {
        SpecCharScan::Fail { end: i + 1 }
    }
}

// ---------------------------------------------------------------------------
// Multiline comments
// ---------------------------------------------------------------------------

pub struct SpecComment {
    pub end: int,
    pub closed: bool,
}

/// Scanning a multiline comment body: `pc` is the previously read character,
/// `nest` the number of `/*` openings not yet closed.  A `*/` pair closes one
/// level, a `/*` pair opens one; the comment ends when the level reaches
/// zero, or at the end of the text, then unclosed.
pub open spec fn comment_scan(s: Seq<char>, i: int, pc: char, nest: int) -> SpecComment
    decreases s.len() - i,
{
    if !(0 <= i < s.len()) {
        SpecComment { end: s.len() as int, closed: false }
    } else {
        let c = s[i];
        if pc == '*' && c == '/' {
            if nest == 1 {
                SpecComment { end: i + 1, closed: true }
            } else {
                comment_scan(s, i + 1, c, nest - 1)
            }
        } else if pc == '/' && c == '*' {
            comment_scan(s, i + 1, c, nest + 1)
        } else {
            comment_scan(s, i + 1, c, nest)
        }
    }
}

// ---------------------------------------------------------------------------
// The raw scanning step
// ---------------------------------------------------------------------------

/// Outcome of scanning one raw token at a position.
pub enum SpecScan {
    /// The text is exhausted.
    End,
    /// A token of kind `ty` covering the characters up to `end` (exclusive).
    /// `unclosed` marks a multiline comment the text ended inside of; it is
    /// the one condition that emits a diagnostic.
    Tok { ty: SpecTokenType, end: int, unclosed: bool },
    /// A fatal failure; scanning consumed the characters up to `end`.
    Fail { err: TokenizerError, end: int },
}

/// Shorthand for a token without a diagnostic.
pub open spec fn tok(ty: SpecTokenType, end: int) -> SpecScan {
    SpecScan::Tok { ty, end, unclosed: false }
}

pub open spec fn op_tok(o: Operator, end: int) -> SpecScan {
    tok(SpecTokenType::Operator(o), end)
}

pub open spec fn punct_tok(p: Punctuation, end: int) -> SpecScan {
    tok(SpecTokenType::Punctuation(p), end)
}

pub open spec fn delim_tok(ty: DelimeterType, side: DelimeterSide, end: int) -> SpecScan {
    tok(SpecTokenType::Delimeter(Delimeter { ty, side }), end)
}

/// Which raw token starts at position `i` of `s`.  This is the authoritative
/// description of the scanner's per-token dispatch: single- and
/// multi-character tokens by greedy longest match on the leading characters,
/// maximal runs for whitespace, identifiers and numbers, and the literal and
/// comment forms.
#[verifier::opaque]
pub open spec fn spec_scan(s: Seq<char>, i: int) -> SpecScan {
    if !(0 <= i < s.len()) {
        SpecScan::End
    } else {
        let c = s[i];
        if c == '(' {
            delim_tok(DelimeterType::Parentheses, DelimeterSide::Left, i + 1)
        } else if c == ')' {
            delim_tok(DelimeterType::Parentheses, DelimeterSide::Right, i + 1)
        } else if c == '[' {
            delim_tok(DelimeterType::Square, DelimeterSide::Left, i + 1)
        } else if c == ']' {
            delim_tok(DelimeterType::Square, DelimeterSide::Right, i + 1)
        } else if c == '{' {
            delim_tok(DelimeterType::Curly, DelimeterSide::Left, i + 1)
        } else if c == '}' {
            delim_tok(DelimeterType::Curly, DelimeterSide::Right, i + 1)
        } else if c == '@' {
            punct_tok(Punctuation::AtSign, i + 1)
        } else if c == ',' {
            punct_tok(Punctuation::Comma, i + 1)
        } else if c == ';' {
            punct_tok(Punctuation::Semicolon, i + 1)
        } else if c == ':' {
            if at(s, i + 1, ':') {
                punct_tok(Punctuation::DoubleColon, i + 2)
            } else {
                punct_tok(Punctuation::Colon, i + 1)
            }
        } else if c == '#' {
            punct_tok(Punctuation::HashSymbol, i + 1)
        } else if c == '?' {
            punct_tok(Punctuation::QuestionMark, i + 1)
        } else if c == '$' {
            if at(s, i + 1, '$') {
                punct_tok(Punctuation::DoubleDollar, i + 2)
            } else {
                punct_tok(Punctuation::Dollar, i + 1)
            }
        } else if c == '=' {
            if at(s, i + 1, '>') {
                punct_tok(Punctuation::FatArrow, i + 2)
            } else if at(s, i + 1, '=') {
                op_tok(Operator::DoubleEquals, i + 2)
            } else {
                op_tok(Operator::Equals, i + 1)
            }
        } else if c == '.' {
            if at(s, i + 1, '.') {
                if at(s, i + 2, '.') {
                    punct_tok(Punctuation::TripleDot, i + 3)
                } else {
                    punct_tok(Punctuation::DoubleDot, i + 2)
                }
            } else {
                punct_tok(Punctuation::Dot, i + 1)
            }
        } else if is_ws(c) {
            tok(SpecTokenType::Whitespace, run_end(s, i + 1, CharClass::WsRun))
        } else if is_ident_start(c) {
            let j = run_end(s, i + 1, CharClass::IdentRun);
            if s.subrange(i, j) == seq!['_'] {
                tok(SpecTokenType::Keyword(Keyword::Underscore), j)
            } else {
                tok(SpecTokenType::Identifier, j)
            }
        } else if is_digit(c) {
            let n = spec_number(s, i + 1, c);
            tok(SpecTokenType::Literal(n.lit), n.end)
        } else if c == '\'' {
            match char_scan(s, i + 1) {
                SpecCharScan::Fin { val, end } => tok(
                    SpecTokenType::Literal(SpecLit::Char(val)),
                    end,
                ),
                SpecCharScan::Fail { end } => SpecScan::Fail {
                    err: TokenizerError::UnfinishedChar,
                    end,
                },
            }
        } else if c == '"' {
            match str_scan(s, i + 1, Seq::empty(), false) {
                SpecStrScan::Fin { val, end } => tok(
                    SpecTokenType::Literal(SpecLit::Str(val)),
                    end,
                ),
                SpecStrScan::Unfinished => SpecScan::Fail {
                    err: TokenizerError::UnfinishedString,
                    end: s.len() as int,
                },
            }
        } else if c == '+' {
            if at(s, i + 1, '=') {
                op_tok(Operator::PlusEquals, i + 2)
            } else if at(s, i + 1, '+') {
                op_tok(Operator::DoublePlus, i + 2)
            } else {
                op_tok(Operator::Plus, i + 1)
            }
        } else if c == '-' {
            if at(s, i + 1, '=') {
                op_tok(Operator::MinusEquals, i + 2)
            } else if at(s, i + 1, '-') {
                op_tok(Operator::DoubleMinus, i + 2)
            } else {
                op_tok(Operator::Minus, i + 1)
            }
        } else if c == '*' {
            if at(s, i + 1, '=') {
                op_tok(Operator::StarEquals, i + 2)
            } else if at(s, i + 1, '*') {
                if at(s, i + 2, '=') {
                    op_tok(Operator::DoubleStarEquals, i + 3)
                } else {
                    op_tok(Operator::DoubleStar, i + 2)
                }
            } else {
                op_tok(Operator::Star, i + 1)
            }
        } else if c == '!' {
            if at(s, i + 1, '=') {
                op_tok(Operator::BangEquals, i + 2)
            } else {
                op_tok(Operator::Bang, i + 1)
            }
        } else if c == '~' {
            if at(s, i + 1, '=') {
                op_tok(Operator::TildaEquals, i + 2)
            } else {
                op_tok(Operator::Tilda, i + 1)
            }
        } else if c == '^' {
            if at(s, i + 1, '=') {
                op_tok(Operator::CaretEquals, i + 2)
            } else {
                op_tok(Operator::Caret, i + 1)
            }
        } else if c == '%' {
            if at(s, i + 1, '=') {
                op_tok(Operator::PercentEquals, i + 2)
            } else {
                op_tok(Operator::Percent, i + 1)
            }
        } else if c == '/' {
            if at(s, i + 1, '*') {
                let cs = comment_scan(s, i + 2, '*', 1);
                SpecScan::Tok {
                    ty: SpecTokenType::Comment(Comment::MultiLine),
                    end: cs.end,
                    unclosed: !cs.closed,
                }
            } else if at(s, i + 1, '/') {
                tok(
                    SpecTokenType::Comment(Comment::SingleLine),
                    run_end(s, i + 1, CharClass::NotNewline),
                )
            } else if at(s, i + 1, '=') {
                op_tok(Operator::SlashEquals, i + 2)
            } else {
                op_tok(Operator::Slash, i + 1)
            }
        } else if c == '&' {
            if at(s, i + 1, '&') {
                if at(s, i + 2, '=') {
                    op_tok(Operator::DoubleAndEquals, i + 3)
                } else {
                    op_tok(Operator::DoubleAnd, i + 2)
                }
            } else if at(s, i + 1, '=') {
                op_tok(Operator::SingleAndEquals, i + 2)
            } else {
                op_tok(Operator::SingleAnd, i + 1)
            }
        } else if c == '|' {
            if at(s, i + 1, '|') {
                if at(s, i + 2, '=') {
                    op_tok(Operator::DoubleOrEquals, i + 3)
                } else {
                    op_tok(Operator::DoubleOr, i + 2)
                }
            } else if at(s, i + 1, '=') {
                op_tok(Operator::SingleOrEquals, i + 2)
            } else {
                op_tok(Operator::SingleOr, i + 1)
            }
        } else if c == '<' {
            if at(s, i + 1, '=') {
                op_tok(Operator::LesserThanEquals, i + 2)
            } else if at(s, i + 1, '<') {
                if at(s, i + 2, '=') {
                    op_tok(Operator::LeftShiftEquals, i + 3)
                } else {
                    op_tok(Operator::LeftShift, i + 2)
                }
            } else {
                op_tok(Operator::LesserThan, i + 1)
            }
        } else if c == '>' {
            if at(s, i + 1, '=') {
                op_tok(Operator::GreaterThanEquals, i + 2)
            } else if at(s, i + 1, '>') {
                if at(s, i + 2, '=') {
                    op_tok(Operator::RightShiftEquals, i + 3)
                } else {
                    op_tok(Operator::RightShift, i + 2)
                }
            } else {
                op_tok(Operator::GreaterThan, i + 1)
            }
        } else {
            SpecScan::Fail { err: TokenizerError::Unexpected(c), end: i + 1 }
        }
    }
}

pub proof fn lemma_comment_scan_bounds(s: Seq<char>, i: int, pc: char, nest: int)
    requires
        0 <= i <= s.len(),
    ensures
        i <= comment_scan(s, i, pc, nest).end <= s.len(),
    decreases s.len() - i,
{
    if 0 <= i < s.len() {
        let c = s[i];
        if pc == '*' && c == '/' {
            if nest != 1 {
                lemma_comment_scan_bounds(s, i + 1, c, nest - 1);
            }
        } else if pc == '/' && c == '*' {
            lemma_comment_scan_bounds(s, i + 1, c, nest + 1);
        } else {
            lemma_comment_scan_bounds(s, i + 1, c, nest);
        }
    }
}

pub proof fn lemma_str_scan_bounds(s: Seq<char>, i: int, acc: Seq<char>, escaped: bool)
    requires
        0 <= i <= s.len(),
    ensures
        match str_scan(s, i, acc, escaped) {
            SpecStrScan::Fin { val, end } => i < end <= s.len(),
            SpecStrScan::Unfinished => true,
        },
    decreases s.len() - i,
{
    if 0 <= i < s.len() {
        let c = s[i];
        if escaped {
            lemma_str_scan_bounds(s, i + 1, acc.push(escape_char(c)), false);
        } else if c == '"' {
        } else if c == '\\' {
            lemma_str_scan_bounds(s, i + 1, acc, true);
        } else {
            lemma_str_scan_bounds(s, i + 1, acc.push(c), false);
        }
    }
}

/// Scanning at a position inside the text yields a token or a failure whose
/// end lies strictly beyond the position; only the end of the text yields
/// `End`.
pub proof fn lemma_spec_scan_advances(s: Seq<char>, i: int)
    requires
        0 <= i <= s.len(),
    ensures
        spec_scan(s, i) is End <==> i == s.len(),
        match spec_scan(s, i) {
            SpecScan::End => true,
            SpecScan::Tok { ty, end, unclosed } => i < end <= s.len(),
            SpecScan::Fail { err, end } => i < end <= s.len(),
        },
{
    reveal(spec_scan);
    if i < s.len() {
        let c = s[i];
        lemma_run_end(s, i + 1, CharClass::WsRun);
        lemma_run_end(s, i + 1, CharClass::IdentRun);
        lemma_run_end(s, i + 1, CharClass::NotNewline);
        lemma_run_end(s, i + 1, CharClass::NumRun);
        let j = run_end(s, i + 1, CharClass::NumRun);
        if j + 1 <= s.len() {
            lemma_run_end(s, j + 1, CharClass::NumRun);
        }
        if c == '"' {
            lemma_str_scan_bounds(s, i + 1, Seq::empty(), false);
        }
        if c == '/' && at(s, i + 1, '*') {
            lemma_comment_scan_bounds(s, i + 2, '*', 1);
        }
    }
}

// ---------------------------------------------------------------------------
// The filtered scanning step and the token stream
// ---------------------------------------------------------------------------

/// One pull on the tokenizer: raw tokens are scanned and whitespace and
/// comment tokens are passed over unless the corresponding emit flag is set.
/// `diags` lists the start positions of the unclosed multiline comments met
/// on the way, in scan order.
pub enum SpecStep {
    End { diags: Seq<int> },
    Tok { start: int, ty: SpecTokenType, end: int, diags: Seq<int> },
    Fail { start: int, err: TokenizerError, end: int, diags: Seq<int> },
}

pub open spec fn step_diags(st: SpecStep) -> Seq<int> {
    match st {
        SpecStep::End { diags } => diags,
        SpecStep::Tok { start, ty, end, diags } => diags,
        SpecStep::Fail { start, err, end, diags } => diags,
    }
}

pub open spec fn prepend_diags(d: Seq<int>, st: SpecStep) -> SpecStep {
    match st {
        SpecStep::End { diags } => SpecStep::End { diags: d + diags },
        SpecStep::Tok { start, ty, end, diags } => SpecStep::Tok {
            start,
            ty,
            end,
            diags: d + diags,
        },
        SpecStep::Fail { start, err, end, diags } => SpecStep::Fail {
            start,
            err,
            end,
            diags: d + diags,
        },
    }
}

/// Whether a raw token of kind `ty` is discarded under the given emit flags.
pub open spec fn skipped(ty: SpecTokenType, ws: bool, cm: bool) -> bool {
    ||| (ty is Whitespace && !ws)
    ||| (ty is Comment && !cm)
}

/// What one pull at position `i` yields under emit flags `ws`/`cm`.
pub open spec fn spec_step(s: Seq<char>, i: int, ws: bool, cm: bool) -> SpecStep
    decreases s.len() - i,
    via spec_step_decreases
{
    match spec_scan(s, i) {
        SpecScan::End => SpecStep::End { diags: Seq::empty() },
        SpecScan::Tok { ty, end, unclosed } => {
            let d: Seq<int> = if unclosed {
                seq![i]
            } else {
                Seq::empty()
            };
            if skipped(ty, ws, cm) {
                prepend_diags(d, spec_step(s, end, ws, cm))
            } else {
                SpecStep::Tok { start: i, ty, end, diags: d }
            }
        },
        SpecScan::Fail { err, end } => SpecStep::Fail {
            start: i,
            err,
            end,
            diags: Seq::empty(),
        },
    }
}

#[via_fn]
proof fn spec_step_decreases(s: Seq<char>, i: int, ws: bool, cm: bool) {
    if 0 <= i <= s.len() {
        lemma_spec_scan_advances(s, i);
    } else {
        reveal(spec_scan);
    }
}

/// A produced token or failure lies strictly beyond the pull position.
pub proof fn lemma_spec_step_bounds(s: Seq<char>, i: int, ws: bool, cm: bool)
    requires
        0 <= i <= s.len(),
    ensures
        match spec_step(s, i, ws, cm) {
            SpecStep::End { diags } => true,
            SpecStep::Tok { start, ty, end, diags } => i <= start < end <= s.len(),
            SpecStep::Fail { start, err, end, diags } => i <= start < end <= s.len(),
        },
    decreases s.len() - i,
{
    lemma_spec_scan_advances(s, i);
    match spec_scan(s, i) {
        SpecScan::Tok { ty, end, unclosed } => {
            if skipped(ty, ws, cm) {
                lemma_spec_step_bounds(s, end, ws, cm);
            }
        },
        _ => {},
    }
}

/// The whole remaining stream of filtered tokens and failures from position
/// `i` on: what a caller that keeps pulling will see, in order.
pub open spec fn spec_items(s: Seq<char>, i: int, ws: bool, cm: bool) -> Seq<
    Result<SpecTok, TokenizerError>,
>
    decreases s.len() - i,
    via spec_items_decreases
{
    match spec_step(s, i, ws, cm) {
        SpecStep::End { diags } => Seq::empty(),
        SpecStep::Tok { start, ty, end, diags } => seq![
            Ok(SpecTok { text: s.subrange(start, end), ty }),
        ] + spec_items(s, end, ws, cm),
        SpecStep::Fail { start, err, end, diags } => seq![Err(err)] + spec_items(s, end, ws, cm),
    }
}

#[via_fn]
proof fn spec_items_decreases(s: Seq<char>, i: int, ws: bool, cm: bool) {
    if 0 <= i <= s.len() {
        lemma_spec_step_bounds(s, i, ws, cm);
    } else {
        lemma_spec_scan_out_of_range(s, i, ws, cm);
    }
}

/// Out of range, scanning reports the end of the text at once.
proof fn lemma_spec_scan_out_of_range(s: Seq<char>, i: int, ws: bool, cm: bool)
    requires
        !(0 <= i <= s.len()),
    ensures
        spec_step(s, i, ws, cm) is End,
{
    reveal(spec_scan);
}

// ---------------------------------------------------------------------------
// Small helper lemmas on the bookkeeping model
// ---------------------------------------------------------------------------

pub proof fn lemma_newline_count_bounds(s: Seq<char>, p: int)
    requires
        0 <= p <= s.len(),
    ensures
        0 <= newline_count(s, p) <= p,
    decreases p,
{
    if p > 0 {
        lemma_newline_count_bounds(s, p - 1);
    }
}

pub proof fn lemma_last_newline_bounds(s: Seq<char>, p: int)
    requires
        0 <= p <= s.len(),
    ensures
        0 <= last_newline(s, p),
        p == 0 ==> last_newline(s, p) == 0,
        p > 0 ==> last_newline(s, p) <= p - 1,
    decreases p,
{
    if p > 0 && s[p - 1] != '\n' {
        lemma_last_newline_bounds(s, p - 1);
    }
}

/// A run that was walked to its exact boundary.
pub proof fn lemma_run_end_exact(s: Seq<char>, i: int, j: int, cl: CharClass)
    requires
        0 <= i <= j <= s.len(),
        forall|k: int| i <= k < j ==> in_class(cl, #[trigger] s[k]),
        j < s.len() ==> !in_class(cl, s[j]),
    ensures
        run_end(s, i, cl) == j,
    decreases j - i,
{
    if i < j {
        lemma_run_end_exact(s, i + 1, j, cl);
    }
}

// ---------------------------------------------------------------------------
// The tokenizer
// ---------------------------------------------------------------------------

/// The scanner.  It owns the characters of the source text, a cursor over
/// them, the `[token_start, cursor)` window of the token being scanned, the
/// line and column bookkeeping, and the diagnostics collected so far.
///
/// `emit_whitespace` and `emit_comments` choose whether whitespace and
/// comment tokens are handed out or silently passed over; both default to
/// suppression.
pub struct Tokenizer {
    pub text: Vec<char>,
    pub cursor: usize,
    pub token_start: usize,
    pub start_line: usize,
    pub start_column: usize,
    pub line_count: usize,
    pub last_nl: usize,
    pub diagnostics: Vec<Diagnostic>,
    pub emit_whitespace: bool,
    pub emit_comments: bool,
}

impl Tokenizer {
    /// The bookkeeping fields agree with the text and the cursor.
    pub open spec fn wf(&self) -> bool {
        &&& self.text@.len() < usize::MAX
        &&& self.token_start <= self.cursor <= self.text@.len()
        &&& self.line_count == spec_line(self.text@, self.cursor as int)
        &&& self.last_nl == last_newline(self.text@, self.cursor as int)
        &&& self.start_line == spec_line(self.text@, self.token_start as int)
        &&& self.start_column == spec_col(self.text@, self.token_start as int)
    }

    /// Everything but the cursor position (and what it determines) is kept.
    pub open spec fn same_except_cursor(pre: Tokenizer, post: Tokenizer) -> bool {
        &&& post.text == pre.text
        &&& post.token_start == pre.token_start
        &&& post.start_line == pre.start_line
        &&& post.start_column == pre.start_column
        &&& post.diagnostics == pre.diagnostics
        &&& post.emit_whitespace == pre.emit_whitespace
        &&& post.emit_comments == pre.emit_comments
    }

    pub fn new(source: Source<'_, '_>) -> (r: Tokenizer)
        requires
            source.text@.len() < usize::MAX,
        ensures
            r.wf(),
            r.text@ == source.text@,
            r.cursor == 0,
            r.token_start == 0,
            r.diagnostics@.len() == 0,
            !r.emit_whitespace,
            !r.emit_comments,
    {
        let text = chars_vec(source.text());
        Tokenizer {
            text,
            cursor: 0,
            token_start: 0,
            start_line: 1,
            start_column: 1,
            line_count: 1,
            last_nl: 0,
            diagnostics: Vec::new(),
            emit_whitespace: false,
            emit_comments: false,
        }
    }

    /// The diagnostics recorded so far, in scan order.
    pub fn diagnostics(&self) -> (r: &Vec<Diagnostic>)
        ensures
            r == &self.diagnostics,
    {
        &self.diagnostics
    }

    /// The position of the current scan window: where the token being
    /// produced started, and the text up to the cursor.
    pub fn pos(&self) -> (r: TokenPosition)
        requires
            self.wf(),
            self.token_start < self.cursor,
        ensures
            r.absolute_position == self.token_start,
            r.line == spec_line(self.text@, self.token_start as int),
            r.column == spec_col(self.text@, self.token_start as int),
            r.text@ == self.text@.subrange(self.token_start as int, self.cursor as int),
    {
        TokenPosition {
            absolute_position: self.token_start,
            line: self.start_line,
            column: self.start_column,
            text: subvec(&self.text, self.token_start, self.cursor),
        }
    }

    fn peek_char(&self) -> (r: Option<char>)
        requires
            self.wf(),
        ensures
            r == if self.cursor < self.text@.len() {
                Some(self.text@[self.cursor as int])
            } else {
                None::<char>
            },
    {
        if self.cursor < self.text.len() {
            Some(self.text[self.cursor])
        } else {
            None
        }
    }

    fn next_char(&mut self) -> (r: Option<char>)
        requires
            old(self).wf(),
        ensures
            final(self).wf(),
            Self::same_except_cursor(*old(self), *final(self)),
            ({
                let s = old(self).text@;
                let i = old(self).cursor as int;
                if i < s.len() {
                    r == Some(s[i]) && final(self).cursor == i + 1
                } else {
                    r is None && final(self).cursor == i
                }
            }),
    {
        proof {
            lemma_newline_count_bounds(self.text@, self.cursor as int);
        }
        if self.cursor < self.text.len() {
            let c = self.text[self.cursor];
            if c == '\n' {
                self.line_count = self.line_count + 1;
                self.last_nl = self.cursor;
            }
            self.cursor = self.cursor + 1;
            Some(c)
        } else {
            None
        }
    }

    fn eat(&mut self, v: char) -> (r: bool)
        requires
            old(self).wf(),
        ensures
            final(self).wf(),
            Self::same_except_cursor(*old(self), *final(self)),
            ({
                let s = old(self).text@;
                let i = old(self).cursor as int;
                if at(s, i, v) {
                    r && final(self).cursor == i + 1
                } else {
                    !r && final(self).cursor == i
                }
            }),
    {
        let p = self.peek_char();
        match p {
            Some(c) => {
                if c == v {
                    self.next_char();
                    true
                } else {
                    false
                }
            },
            None => false,
        }
    }

    /// Commit the current window: the next token starts at the cursor.
    fn consume(&mut self)
        requires
            old(self).wf(),
            old(self).cursor > 0,
        ensures
            final(self).wf(),
            final(self).token_start == final(self).cursor,
            final(self).cursor == old(self).cursor,
            final(self).text == old(self).text,
            final(self).diagnostics == old(self).diagnostics,
            final(self).emit_whitespace == old(self).emit_whitespace,
            final(self).emit_comments == old(self).emit_comments,
    {
        proof {
            lemma_last_newline_bounds(self.text@, self.cursor as int);
        }
        self.token_start = self.cursor;
        self.start_line = self.line_count;
        self.start_column = self.cursor - self.last_nl;
    }
}

impl Tokenizer {
    /// Scan the rest of a number literal whose first digit `first_char` was
    /// just consumed: the integer digit run, then optionally `.` and a
    /// fractional digit run.  `_` separators are consumed and ignored.  The
    /// integer value accumulates in base 10 modulo 2^64.
    #[verifier::loop_isolation(false)]
    fn number(&mut self, first_char: char) -> (r: NumberLiteral)
        requires
            old(self).wf(),
            is_digit(first_char),
        ensures
            final(self).wf(),
            Self::same_except_cursor(*old(self), *final(self)),
            ({
                let n = spec_number(old(self).text@, old(self).cursor as int, first_char);
                final(self).cursor == n.end && abs_lit(Literal::Number(r)) == n.lit
            }),
    {
        let ghost pre = *self;
        let ghost s = self.text@;
        let ghost i0 = self.cursor as int;
        let ghost m = 0x1_0000_0000_0000_0000int;
        let mut int_part: u64 = first_char as u64 - '0' as u64;
        proof {
            assert(s.subrange(i0, i0) =~= Seq::<char>::empty());
            assert(seq![first_char].drop_last() =~= Seq::<char>::empty());
            assert(seq![first_char] + digits_of(s.subrange(i0, i0)) =~= seq![first_char]);
            assert(digit_seq_val(Seq::<char>::empty()) == 0);
            assert(seq![first_char].len() == 1 && seq![first_char].last() == first_char);
            assert(digit_seq_val(seq![first_char]) == digit_val(first_char));
            vstd::arithmetic::div_mod::lemma_small_mod(digit_val(first_char) as nat, m as nat);
        }
        loop
            invariant
                self.wf(),
                Self::same_except_cursor(pre, *self),
                s == self.text@,
                is_digit(first_char),
                i0 <= self.cursor <= s.len(),
                forall|k: int|
                    i0 <= k < self.cursor ==> in_class(CharClass::NumRun, #[trigger] s[k]),
                int_part == digit_seq_val(
                    seq![first_char] + digits_of(s.subrange(i0, self.cursor as int)),
                ) % m,
            decreases s.len() - self.cursor,
        {
            let p = self.peek_char();
            let ghost cur = self.cursor as int;
            let ghost va = digit_seq_val(seq![first_char] + digits_of(s.subrange(i0, cur)));
            match p {
                Some(c) => {
                    if '0' <= c && c <= '9' {
                        let d: u64 = c as u64 - '0' as u64;
                        let wide: u128 = int_part as u128 * 10 + d as u128;
                        int_part = (wide % 0x1_0000_0000_0000_0000u128) as u64;
                        proof {
                            vstd::arithmetic::div_mod::lemma_mul_mod_noop_left(va, 10, m);
                            vstd::arithmetic::div_mod::lemma_add_mod_noop((va % m) * 10, d as int, m);
                            vstd::arithmetic::div_mod::lemma_add_mod_noop(va * 10, d as int, m);
                            vstd::arithmetic::div_mod::lemma_small_mod(d as nat, m as nat);
                        }
                    } else if c == '_' {
                    } else {
                        break;
                    }
                },
                None => {
                    break;
                },
            }
            self.next_char();
            proof {
                assert(s.subrange(i0, cur + 1).drop_last() =~= s.subrange(i0, cur));
                assert(s.subrange(i0, cur + 1).last() == s[cur]);
                let a = seq![first_char] + digits_of(s.subrange(i0, cur));
                if is_digit(s[cur]) {
                    assert(seq![first_char] + digits_of(s.subrange(i0, cur + 1)) =~= a.push(
                        s[cur],
                    ));
                    assert((a.push(s[cur])).drop_last() =~= a);
                    assert((a.push(s[cur])).last() == s[cur]);
                } else {
                    assert(seq![first_char] + digits_of(s.subrange(i0, cur + 1)) =~= a);
                }
            }
        }
        proof {
            lemma_run_end_exact(s, i0, self.cursor as int, CharClass::NumRun);
        }
        if !self.eat('.') {
            return NumberLiteral::Integer(int_part);
        }
        // The fractional part: digits are kept as scanned, `_` ignored.
        let ghost j = self.cursor as int - 1;
        let ghost f0 = self.cursor as int;
        let mut frac: Vec<u8> = Vec::new();
        proof {
            assert(s.subrange(f0, f0) =~= Seq::<char>::empty());
            assert(frac@ =~= frac_of(s.subrange(f0, f0)));
        }
        loop
            invariant
                self.wf(),
                Self::same_except_cursor(pre, *self),
                s == self.text@,
                0 <= f0 <= self.cursor <= s.len(),
                forall|k: int|
                    f0 <= k < self.cursor ==> in_class(CharClass::NumRun, #[trigger] s[k]),
                frac@ == frac_of(s.subrange(f0, self.cursor as int)),
            decreases s.len() - self.cursor,
        {
            let p = self.peek_char();
            let ghost cur = self.cursor as int;
            match p {
                Some(c) => {
                    if '0' <= c && c <= '9' {
                        frac.push((c as u8) - ('0' as u8));
                    } else if c == '_' {
                    } else {
                        break;
                    }
                },
                None => {
                    break;
                },
            }
            self.next_char();
            proof {
                assert(s.subrange(f0, cur + 1).drop_last() =~= s.subrange(f0, cur));
                assert(s.subrange(f0, cur + 1).last() == s[cur]);
                if is_digit(s[cur]) {
                    assert(frac@ =~= frac_of(s.subrange(f0, cur)).push(digit_val(s[cur]) as u8));
                    assert(frac_of(s.subrange(f0, cur + 1)) =~= frac_of(s.subrange(f0, cur)).push(
                        digit_val(s[cur]) as u8,
                    ));
                } else {
                    assert(frac_of(s.subrange(f0, cur + 1)) =~= frac_of(s.subrange(f0, cur)));
                }
            }
        }
        proof {
            lemma_run_end_exact(s, f0, self.cursor as int, CharClass::NumRun);
        }
        NumberLiteral::Real(RealLiteral { int_part, frac_digits: frac })
    }

    /// Scan a character literal body, the opening quote already consumed:
    /// one character (a backslash makes the following character literal),
    /// then the mandatory closing quote.
    fn char_lit(&mut self) -> (r: Result<char, TokenizerError>)
        requires
            old(self).wf(),
        ensures
            final(self).wf(),
            Self::same_except_cursor(*old(self), *final(self)),
            ({
                let cs = char_scan(old(self).text@, old(self).cursor as int);
                match cs {
                    SpecCharScan::Fin { val, end } => r == Ok::<char, TokenizerError>(val)
                        && final(self).cursor == end,
                    SpecCharScan::Fail { end } => r == Err::<char, TokenizerError>(
                        TokenizerError::UnfinishedChar,
                    ) && final(self).cursor == end,
                }
            }),
    {
        let c0 = match self.next_char() {
            Some(c) => c,
            None => {
                return Err(TokenizerError::UnfinishedChar);
            },
        };
        let c = if c0 == '\\' {
            match self.next_char() {
                Some(c) => c,
                None => {
                    return Err(TokenizerError::UnfinishedChar);
                },
            }
        } else {
            c0
        };
        if self.eat('\'') {
            Ok(c)
        } else {
            Err(TokenizerError::UnfinishedChar)
        }
    }

    /// Scan a string literal body, the opening quote already consumed, up to
    /// and including the unescaped closing quote, translating escapes.
    #[verifier::loop_isolation(false)]
    fn string_lit(&mut self) -> (r: Result<Vec<char>, TokenizerError>)
        requires
            old(self).wf(),
        ensures
            final(self).wf(),
            Self::same_except_cursor(*old(self), *final(self)),
            ({
                let ss = str_scan(old(self).text@, old(self).cursor as int, Seq::empty(), false);
                match ss {
                    SpecStrScan::Fin { val, end } => r is Ok && r->Ok_0@ == val
                        && final(self).cursor == end,
                    SpecStrScan::Unfinished => r == Err::<Vec<char>, TokenizerError>(
                        TokenizerError::UnfinishedString,
                    ) && final(self).cursor == old(self).text@.len(),
                }
            }),
    {
        let ghost pre = *self;
        let ghost s = self.text@;
        let ghost i0 = self.cursor as int;
        let mut acc: Vec<char> = Vec::new();
        let mut escaped = false;
        proof {
            assert(acc@ =~= Seq::<char>::empty());
        }
        loop
            invariant
                self.wf(),
                Self::same_except_cursor(pre, *self),
                s == self.text@,
                i0 <= self.cursor <= s.len(),
                str_scan(s, i0, Seq::empty(), false) == str_scan(
                    s,
                    self.cursor as int,
                    acc@,
                    escaped,
                ),
            decreases s.len() - self.cursor,
        {
            match self.next_char() {
                None => {
                    return Err(TokenizerError::UnfinishedString);
                },
                Some(c) => {
                    if escaped {
                        match escape(c) {
                            Some(e) => acc.push(e),
                            None => acc.push(c),
                        }
                        escaped = false;
                    } else if c == '"' {
                        return Ok(acc);
                    } else if c == '\\' {
                        escaped = true;
                    } else {
                        acc.push(c);
                    }
                },
            }
        }
    }

    /// Scan the body of a multiline comment; the cursor stands on the `*` of
    /// the opening pair, which becomes the first previous-character.  Returns
    /// whether the comment was closed before the end of the text.
    #[verifier::loop_isolation(false)]
    fn multiline_comment(&mut self) -> (r: bool)
        requires
            old(self).wf(),
        ensures
            final(self).wf(),
            Self::same_except_cursor(*old(self), *final(self)),
            ({
                let s = old(self).text@;
                let i0 = old(self).cursor as int;
                if i0 < s.len() {
                    let cs = comment_scan(s, i0 + 1, s[i0], 1);
                    r == cs.closed && final(self).cursor == cs.end
                } else {
                    !r && final(self).cursor == i0
                }
            }),
    {
        let ghost pre = *self;
        let ghost s = self.text@;
        let ghost i0 = self.cursor as int;
        let pc0 = match self.next_char() {
            Some(c) => c,
            None => {
                return false;
            },
        };
        let mut pc = pc0;
        let mut nest: usize = 1;
        loop
            invariant
                self.wf(),
                Self::same_except_cursor(pre, *self),
                s == self.text@,
                i0 + 1 <= self.cursor <= s.len(),
                1 <= nest <= self.cursor - i0,
                comment_scan(s, i0 + 1, pc0, 1) == comment_scan(
                    s,
                    self.cursor as int,
                    pc,
                    nest as int,
                ),
            decreases s.len() - self.cursor,
        {
            match self.next_char() {
                None => {
                    return false;
                },
                Some(c) => {
                    if pc == '*' && c == '/' {
                        if nest == 1 {
                            return true;
                        }
                        nest = nest - 1;
                    } else if pc == '/' && c == '*' {
                        nest = nest + 1;
                    }
                    pc = c;
                },
            }
        }
    }

    /// Scan to (but not including) the next newline, or to the end of the
    /// text.
    #[verifier::loop_isolation(false)]
    fn singleline_comment(&mut self)
        requires
            old(self).wf(),
        ensures
            final(self).wf(),
            Self::same_except_cursor(*old(self), *final(self)),
            final(self).cursor == run_end(
                old(self).text@,
                old(self).cursor as int,
                CharClass::NotNewline,
            ),
    {
        let ghost pre = *self;
        let ghost s = self.text@;
        let ghost i0 = self.cursor as int;
        loop
            invariant
                self.wf(),
                Self::same_except_cursor(pre, *self),
                s == self.text@,
                i0 <= self.cursor <= s.len(),
                forall|k: int|
                    i0 <= k < self.cursor ==> in_class(CharClass::NotNewline, #[trigger] s[k]),
            decreases s.len() - self.cursor,
        {
            let p = self.peek_char();
            match p {
                Some(c) => {
                    if c == '\n' {
                        break;
                    }
                    self.next_char();
                },
                None => {
                    break;
                },
            }
        }
        proof {
            lemma_run_end_exact(s, i0, self.cursor as int, CharClass::NotNewline);
        }
    }

    /// Extend the cursor over a whitespace run.
    #[verifier::loop_isolation(false)]
    fn ws_run(&mut self)
        requires
            old(self).wf(),
        ensures
            final(self).wf(),
            Self::same_except_cursor(*old(self), *final(self)),
            final(self).cursor == run_end(
                old(self).text@,
                old(self).cursor as int,
                CharClass::WsRun,
            ),
    {
        let ghost pre = *self;
        let ghost s = self.text@;
        let ghost i0 = self.cursor as int;
        loop
            invariant
                self.wf(),
                Self::same_except_cursor(pre, *self),
                s == self.text@,
                i0 <= self.cursor <= s.len(),
                forall|k: int| i0 <= k < self.cursor ==> in_class(CharClass::WsRun, #[trigger] s[k]),
            decreases s.len() - self.cursor,
        {
            let p = self.peek_char();
            match p {
                Some(c) => {
                    if c == ' ' || c == '\t' || c == '\n' {
                        self.next_char();
                    } else {
                        break;
                    }
                },
                None => {
                    break;
                },
            }
        }
        proof {
            lemma_run_end_exact(s, i0, self.cursor as int, CharClass::WsRun);
        }
    }

    /// Extend the cursor over an identifier run.
    #[verifier::loop_isolation(false)]
    fn ident_run(&mut self)
        requires
            old(self).wf(),
        ensures
            final(self).wf(),
            Self::same_except_cursor(*old(self), *final(self)),
            final(self).cursor == run_end(
                old(self).text@,
                old(self).cursor as int,
                CharClass::IdentRun,
            ),
    {
        let ghost pre = *self;
        let ghost s = self.text@;
        let ghost i0 = self.cursor as int;
        loop
            invariant
                self.wf(),
                Self::same_except_cursor(pre, *self),
                s == self.text@,
                i0 <= self.cursor <= s.len(),
                forall|k: int|
                    i0 <= k < self.cursor ==> in_class(CharClass::IdentRun, #[trigger] s[k]),
            decreases s.len() - self.cursor,
        {
            let p = self.peek_char();
            match p {
                Some(c) => {
                    if ('a' <= c && c <= 'z') || ('A' <= c && c <= 'Z') || c == '_' || ('0' <= c
                        && c <= '9') {
                        self.next_char();
                    } else {
                        break;
                    }
                },
                None => {
                    break;
                },
            }
        }
        proof {
            lemma_run_end_exact(s, i0, self.cursor as int, CharClass::IdentRun);
        }
    }
}

/// How the scanned token looked: the raw kind at `end(s, i)`, whichever arm
/// produced it.
pub open spec fn scan_end(s: Seq<char>, i: int) -> int {
    match spec_scan(s, i) {
        SpecScan::End => i,
        SpecScan::Tok { ty, end, unclosed } => end,
        SpecScan::Fail { err, end } => end,
    }
}

/// What the one diagnostic the scanner can emit looks like: an unclosed
/// multiline comment, positioned at the comment's start and covering its
/// text.
pub open spec fn diag_matches(d: Diagnostic, s: Seq<char>, start: int) -> bool {
    &&& d.ty == DiagnosticType::UnclosedMultilineComment
    &&& d.position.absolute_position == start
    &&& d.position.line == spec_line(s, start)
    &&& d.position.column == spec_col(s, start)
    &&& d.position.text@ == s.subrange(start, scan_end(s, start))
}

/// The diagnostics grew by exactly the ones at `starts`, in order.
pub open spec fn diags_extended(
    post: Seq<Diagnostic>,
    pre: Seq<Diagnostic>,
    s: Seq<char>,
    starts: Seq<int>,
) -> bool {
    &&& post.len() == pre.len() + starts.len()
    &&& post.take(pre.len() as int) == pre
    &&& forall|k: int|
        0 <= k < starts.len() ==> diag_matches(#[trigger] post[pre.len() + k], s, starts[k])
}

proof fn lemma_prepend_prepend(a: Seq<int>, b: Seq<int>, st: SpecStep)
    ensures
        prepend_diags(a, prepend_diags(b, st)) == prepend_diags(a + b, st),
{
    assert(a + (b + step_diags(st)) =~= (a + b) + step_diags(st));
}

/// Two diagnostic extensions in a row extend by the concatenation.
proof fn lemma_diags_extended_chain(
    post: Seq<Diagnostic>,
    mid: Seq<Diagnostic>,
    base: Seq<Diagnostic>,
    s: Seq<char>,
    e1: Seq<int>,
    e2: Seq<int>,
)
    requires
        diags_extended(mid, base, s, e1),
        diags_extended(post, mid, s, e2),
    ensures
        diags_extended(post, base, s, e1 + e2),
{
    assert forall|idx: int| 0 <= idx < mid.len() implies post[idx] == mid[idx] by {
        assert(post.take(mid.len() as int)[idx] == post[idx]);
        assert(mid.take(base.len() as int) == base);
    }
    assert(post.take(base.len() as int) =~= base);
    assert forall|k: int| 0 <= k < (e1 + e2).len() implies diag_matches(
        #[trigger] post[base.len() + k],
        s,
        (e1 + e2)[k],
    ) by {
        if k < e1.len() {
            assert(diag_matches(mid[base.len() + k], s, e1[k]));
            assert(post[base.len() + k] == mid[base.len() + k]);
        } else {
            assert(diag_matches(post[mid.len() + (k - e1.len())], s, e2[k - e1.len()]));
        }
    }
}

/// No new diagnostics is an extension by nothing.
proof fn lemma_diags_extended_refl(d: Seq<Diagnostic>, s: Seq<char>)
    ensures
        diags_extended(d, d, s, Seq::empty()),
{
    assert(d.take(d.len() as int) =~= d);
}

impl Tokenizer {
    /// Scan one raw token at the cursor, following [`spec_scan`]: the token
    /// with its position, a fatal failure, or nothing at the end of the
    /// text.  An unclosed multiline comment appends one diagnostic.
    #[verifier::rlimit(60)]
    fn get_token_inner(&mut self) -> (r: Option<Result<Token, TokenizerError>>)
        requires
            old(self).wf(),
            old(self).token_start == old(self).cursor,
        ensures
            final(self).wf(),
            final(self).text == old(self).text,
            final(self).token_start == old(self).token_start,
            final(self).emit_whitespace == old(self).emit_whitespace,
            final(self).emit_comments == old(self).emit_comments,
            ({
                let s = old(self).text@;
                let i = old(self).cursor as int;
                match spec_scan(s, i) {
                    SpecScan::End => r is None && final(self).cursor == i
                        && final(self).diagnostics == old(self).diagnostics,
                    SpecScan::Tok { ty, end, unclosed } => {
                        &&& final(self).cursor == end
                        &&& r matches Some(Ok(t)) && abs_token_type(t.ty) == ty
                            && t.position.absolute_position == i && t.position.line == spec_line(
                            s,
                            i,
                        ) && t.position.column == spec_col(s, i) && t.position.text@ == s.subrange(
                            i,
                            end,
                        )
                        &&& if unclosed {
                            diags_extended(
                                final(self).diagnostics@,
                                old(self).diagnostics@,
                                s,
                                seq![i],
                            )
                        } else {
                            final(self).diagnostics == old(self).diagnostics
                        }
                    },
                    SpecScan::Fail { err, end } => r == Some(Err::<Token, TokenizerError>(err))
                        && final(self).cursor == end
                        && final(self).diagnostics == old(self).diagnostics,
                }
            }),
    {
        proof {
            reveal(spec_scan);
        }
        let ghost s = self.text@;
        let ghost i = self.cursor as int;
        let c = match self.next_char() {
            Some(c) => c,
            None => {
                return None;
            },
        };
        let ty: TokenType = if c == '(' {
            TokenType::Delimeter(
                Delimeter { side: DelimeterSide::Left, ty: DelimeterType::Parentheses },
            )
        } else if c == ')' {
            TokenType::Delimeter(
                Delimeter { side: DelimeterSide::Right, ty: DelimeterType::Parentheses },
            )
        } else if c == '[' {
            TokenType::Delimeter(Delimeter { side: DelimeterSide::Left, ty: DelimeterType::Square })
        } else if c == ']' {
            TokenType::Delimeter(
                Delimeter { side: DelimeterSide::Right, ty: DelimeterType::Square },
            )
        } else if c == '{' {
            TokenType::Delimeter(Delimeter { side: DelimeterSide::Left, ty: DelimeterType::Curly })
        } else if c == '}' {
            TokenType::Delimeter(Delimeter { side: DelimeterSide::Right, ty: DelimeterType::Curly })
        } else if c == '@' {
            TokenType::Punctuation(Punctuation::AtSign)
        } else if c == ',' {
            TokenType::Punctuation(Punctuation::Comma)
        } else if c == ';' {
            TokenType::Punctuation(Punctuation::Semicolon)
        } else if c == ':' {
            if self.eat(':') {
                TokenType::Punctuation(Punctuation::DoubleColon)
            } else {
                TokenType::Punctuation(Punctuation::Colon)
            }
        } else if c == '#' {
            TokenType::Punctuation(Punctuation::HashSymbol)
        } else if c == '?' {
            TokenType::Punctuation(Punctuation::QuestionMark)
        } else if c == '$' {
            if self.eat('$') {
                TokenType::Punctuation(Punctuation::DoubleDollar)
            } else {
                TokenType::Punctuation(Punctuation::Dollar)
            }
        } else if c == '=' {
            if self.eat('>') {
                TokenType::Punctuation(Punctuation::FatArrow)
            } else if self.eat('=') {
                TokenType::Operator(Operator::DoubleEquals)
            } else {
                TokenType::Operator(Operator::Equals)
            }
        } else if c == '.' {
            if self.eat('.') {
                if self.eat('.') {
                    TokenType::Punctuation(Punctuation::TripleDot)
                } else {
                    TokenType::Punctuation(Punctuation::DoubleDot)
                }
            } else {
                TokenType::Punctuation(Punctuation::Dot)
            }
        } else if c == ' ' || c == '\t' || c == '\n' {
            self.ws_run();
            TokenType::Whitespace
        } else if ('a' <= c && c <= 'z') || ('A' <= c && c <= 'Z') || c == '_' {
            self.ident_run();
            let text = subvec(&self.text, self.token_start, self.cursor);
            match crate::token::get_keyword(&text) {
                Some(k) => TokenType::Keyword(k),
                None => TokenType::Identifier,
            }
        } else if '0' <= c && c <= '9' {
            TokenType::Literal(Literal::Number(self.number(c)))
        } else if c == '\'' {
            match self.char_lit() {
                Ok(ch) => TokenType::Literal(Literal::Char(ch)),
                Err(e) => {
                    return Some(Err(e));
                },
            }
        } else if c == '"' {
            match self.string_lit() {
                Ok(v) => TokenType::Literal(Literal::String(v)),
                Err(e) => {
                    return Some(Err(e));
                },
            }
        } else if c == '+' {
            if self.eat('=') {
                TokenType::Operator(Operator::PlusEquals)
            } else if self.eat('+') {
                TokenType::Operator(Operator::DoublePlus)
            } else {
                TokenType::Operator(Operator::Plus)
            }
        } else if c == '-' {
            if self.eat('=') {
                TokenType::Operator(Operator::MinusEquals)
            } else if self.eat('-') {
                TokenType::Operator(Operator::DoubleMinus)
            } else {
                TokenType::Operator(Operator::Minus)
            }
        } else if c == '*' {
            if self.eat('=') {
                TokenType::Operator(Operator::StarEquals)
            } else if self.eat('*') {
                if self.eat('=') {
                    TokenType::Operator(Operator::DoubleStarEquals)
                } else {
                    TokenType::Operator(Operator::DoubleStar)
                }
            } else {
                TokenType::Operator(Operator::Star)
            }
        } else if c == '!' {
            if self.eat('=') {
                TokenType::Operator(Operator::BangEquals)
            } else {
                TokenType::Operator(Operator::Bang)
            }
        } else if c == '~' {
            if self.eat('=') {
                TokenType::Operator(Operator::TildaEquals)
            } else {
                TokenType::Operator(Operator::Tilda)
            }
        } else if c == '^' {
            if self.eat('=') {
                TokenType::Operator(Operator::CaretEquals)
            } else {
                TokenType::Operator(Operator::Caret)
            }
        } else if c == '%' {
            if self.eat('=') {
                TokenType::Operator(Operator::PercentEquals)
            } else {
                TokenType::Operator(Operator::Percent)
            }
        } else if c == '/' {
            let p = self.peek_char();
            let star = match p {
                Some(c2) => c2 == '*',
                None => false,
            };
            let slash = match p {
                Some(c2) => c2 == '/',
                None => false,
            };
            if star {
                let closed = self.multiline_comment();
                proof {
                    lemma_comment_scan_bounds(s, i + 2, s[i + 1], 1);
                }
                if !closed {
                    let position = self.pos();
                    let d = Diagnostic::new(DiagnosticType::UnclosedMultilineComment, position);
                    self.diagnostics.push(d);
                    proof {
                        assert(self.diagnostics@.take(old(self).diagnostics@.len() as int)
                            =~= old(self).diagnostics@);
                    }
                }
                TokenType::Comment(Comment::MultiLine)
            } else if slash {
                self.singleline_comment();
                TokenType::Comment(Comment::SingleLine)
            } else if self.eat('=') {
                TokenType::Operator(Operator::SlashEquals)
            } else {
                TokenType::Operator(Operator::Slash)
            }
        } else if c == '&' {
            if self.eat('&') {
                if self.eat('=') {
                    TokenType::Operator(Operator::DoubleAndEquals)
                } else {
                    TokenType::Operator(Operator::DoubleAnd)
                }
            } else if self.eat('=') {
                TokenType::Operator(Operator::SingleAndEquals)
            } else {
                TokenType::Operator(Operator::SingleAnd)
            }
        } else if c == '|' {
            if self.eat('|') {
                if self.eat('=') {
                    TokenType::Operator(Operator::DoubleOrEquals)
                } else {
                    TokenType::Operator(Operator::DoubleOr)
                }
            } else if self.eat('=') {
                TokenType::Operator(Operator::SingleOrEquals)
            } else {
                TokenType::Operator(Operator::SingleOr)
            }
        } else if c == '<' {
            if self.eat('=') {
                TokenType::Operator(Operator::LesserThanEquals)
            } else if self.eat('<') {
                if self.eat('=') {
                    TokenType::Operator(Operator::LeftShiftEquals)
                } else {
                    TokenType::Operator(Operator::LeftShift)
                }
            } else {
                TokenType::Operator(Operator::LesserThan)
            }
        } else if c == '>' {
            if self.eat('=') {
                TokenType::Operator(Operator::GreaterThanEquals)
            } else if self.eat('>') {
                if self.eat('=') {
                    TokenType::Operator(Operator::RightShiftEquals)
                } else {
                    TokenType::Operator(Operator::RightShift)
                }
            } else {
                TokenType::Operator(Operator::GreaterThan)
            }
        } else {
            return Some(Err(TokenizerError::Unexpected(c)));
        };
        proof {
            lemma_run_end(s, i + 1, CharClass::WsRun);
            lemma_run_end(s, i + 1, CharClass::IdentRun);
            lemma_run_end(s, i + 1, CharClass::NotNewline);
            lemma_run_end(s, i + 1, CharClass::NumRun);
            let j = run_end(s, i + 1, CharClass::NumRun);
            if j + 1 <= s.len() {
                lemma_run_end(s, j + 1, CharClass::NumRun);
            }
            if i + 2 <= s.len() {
                lemma_comment_scan_bounds(s, i + 2, s[i + 1], 1);
            }
            if s[i] == '"' {
                lemma_str_scan_bounds(s, i + 1, Seq::empty(), false);
            }
        }
        let position = self.pos();
        Some(Ok(Token { position, ty }))
    }
}

impl Tokenizer {
    /// Pull the next token, following [`spec_step`]: raw tokens are scanned
    /// and whitespace and comment tokens are passed over unless the
    /// corresponding emit flag is set.  `None` means the text is exhausted;
    /// a fatal failure is returned once and scanning then continues past
    /// it.  Unclosed multiline comments passed over append their
    /// diagnostics.
    #[verifier::loop_isolation(false)]
    #[verifier::rlimit(30)]
    pub fn next_token(&mut self) -> (r: Option<Result<Token, TokenizerError>>)
        requires
            old(self).wf(),
            old(self).token_start == old(self).cursor,
        ensures
            final(self).wf(),
            final(self).token_start == final(self).cursor,
            final(self).text == old(self).text,
            final(self).emit_whitespace == old(self).emit_whitespace,
            final(self).emit_comments == old(self).emit_comments,
            ({
                let s = old(self).text@;
                let i = old(self).cursor as int;
                let st = spec_step(s, i, old(self).emit_whitespace, old(self).emit_comments);
                &&& diags_extended(
                    final(self).diagnostics@,
                    old(self).diagnostics@,
                    s,
                    step_diags(st),
                )
                &&& match st {
                    SpecStep::End { diags } => r is None && final(self).cursor == s.len(),
                    SpecStep::Tok { start, ty, end, diags } => {
                        &&& final(self).cursor == end
                        &&& r matches Some(Ok(t)) && abs_token_type(t.ty) == ty
                            && t.position.absolute_position == start && t.position.line
                            == spec_line(s, start) && t.position.column == spec_col(s, start)
                            && t.position.text@ == s.subrange(start, end)
                    },
                    SpecStep::Fail { start, err, end, diags } => r == Some(
                        Err::<Token, TokenizerError>(err),
                    ) && final(self).cursor == end,
                }
            }),
    {
        let ghost s = self.text@;
        let ghost i0 = self.cursor as int;
        let ghost d0 = self.diagnostics@;
        let ghost ws = self.emit_whitespace;
        let ghost cm = self.emit_comments;
        let ghost mut emitted: Seq<int> = Seq::empty();
        proof {
            assert(emitted + step_diags(spec_step(s, i0, ws, cm)) =~= step_diags(
                spec_step(s, i0, ws, cm),
            ));
            assert(spec_step(s, i0, ws, cm) == prepend_diags(emitted, spec_step(s, i0, ws, cm)));
            lemma_diags_extended_refl(d0, s);
        }
        loop
            invariant
                self.wf(),
                self.token_start == self.cursor,
                self.text == old(self).text,
                s == self.text@,
                ws == self.emit_whitespace,
                cm == self.emit_comments,
                i0 <= self.cursor <= s.len(),
                spec_step(s, i0, ws, cm) == prepend_diags(
                    emitted,
                    spec_step(s, self.cursor as int, ws, cm),
                ),
                diags_extended(self.diagnostics@, d0, s, emitted),
            decreases s.len() - self.cursor,
        {
            let ghost cur = self.cursor as int;
            let ghost pre_diags = self.diagnostics@;
            let t = self.get_token_inner();
            proof {
                lemma_spec_scan_advances(s, cur);
            }
            if self.cursor > 0 {
                self.consume();
            }
            match t {
                None => {
                    proof {
                        assert(spec_step(s, cur, ws, cm) == SpecStep::End {
                            diags: Seq::<int>::empty(),
                        });
                        assert(emitted + Seq::<int>::empty() =~= emitted);
                    }
                    return None;
                },
                Some(Ok(token)) => {
                    let ghost sc = spec_scan(s, cur);
                    let ghost d: Seq<int> = if sc->Tok_unclosed {
                        seq![cur]
                    } else {
                        Seq::empty()
                    };
                    proof {
                        if sc->Tok_unclosed {
                            lemma_diags_extended_chain(
                                self.diagnostics@,
                                pre_diags,
                                d0,
                                s,
                                emitted,
                                seq![cur],
                            );
                        } else {
                            assert(emitted + d =~= emitted);
                        }
                    }
                    let is_ws_tok = match token.ty {
                        TokenType::Whitespace => true,
                        _ => false,
                    };
                    let is_comment_tok = match token.ty {
                        TokenType::Comment(_) => true,
                        _ => false,
                    };
                    if (is_ws_tok && !self.emit_whitespace) || (is_comment_tok
                        && !self.emit_comments) {
                        proof {
                            lemma_prepend_prepend(emitted, d, spec_step(s, sc->Tok_end, ws, cm));
                            emitted = emitted + d;
                        }
                        continue ;
                    }
                    return Some(Ok(token));
                },
                Some(Err(e)) => {
                    proof {
                        assert(emitted + Seq::<int>::empty() =~= emitted);
                    }
                    return Some(Err(e));
                },
            }
        }
    }
}

// ---------------------------------------------------------------------------
// Laws of the scanner
// ---------------------------------------------------------------------------

/// The digits kept from a run are digits.
proof fn lemma_digits_of_digits(q: Seq<char>)
    ensures
        forall|k: int| 0 <= k < digits_of(q).len() ==> is_digit(#[trigger] digits_of(q)[k]),
    decreases q.len(),
{
    if q.len() > 0 {
        lemma_digits_of_digits(q.drop_last());
        assert forall|k: int| 0 <= k < digits_of(q).len() implies is_digit(
            #[trigger] digits_of(q)[k],
        ) by {
            let dl = digits_of(q.drop_last());
            if k < dl.len() {
                assert(digits_of(q)[k] == dl[k]);
            } else {
                assert(digits_of(q)[k] == q.last());
            }
        }
    }
}

/// A digit sequence has a nonnegative value.
proof fn lemma_digit_seq_val_nonneg(ds: Seq<char>)
    requires
        forall|k: int| 0 <= k < ds.len() ==> is_digit(#[trigger] ds[k]),
    ensures
        digit_seq_val(ds) >= 0,
    decreases ds.len(),
{
    if ds.len() > 0 {
        assert(forall|k: int|
            0 <= k < ds.drop_last().len() ==> is_digit(#[trigger] ds.drop_last()[k]));
        lemma_digit_seq_val_nonneg(ds.drop_last());
    }
}

/// Separator removal can be read off from the front as well.
proof fn lemma_digits_of_decompose(q: Seq<char>)
    requires
        q.len() > 0,
    ensures
        digits_of(q) == (if is_digit(q[0]) {
            seq![q[0]]
        } else {
            Seq::<char>::empty()
        }) + digits_of(q.drop_first()),
    decreases q.len(),
{
    let head: Seq<char> = if is_digit(q[0]) {
        seq![q[0]]
    } else {
        Seq::empty()
    };
    if q.len() == 1 {
        assert(q.drop_last() =~= Seq::<char>::empty());
        assert(q.drop_first() =~= Seq::<char>::empty());
        assert(q.last() == q[0]);
        assert(digits_of(q) =~= head + digits_of(q.drop_first()));
    } else {
        lemma_digits_of_decompose(q.drop_last());
        assert(q.drop_last()[0] == q[0]);
        assert(q.drop_last().drop_first() =~= q.drop_first().drop_last());
        assert(q.drop_first().last() == q.last());
        assert(digits_of(q) =~= head + digits_of(q.drop_first()));
    }
}

/// LAW — integer literals.  An input that consists of one integer literal,
/// a digit followed by digits and `_` separators, scans to a single Integer
/// literal token covering the whole text, whose value is the digit sequence
/// interpreted in base 10 with the separators removed, whenever that value
/// fits in 64 bits.
pub proof fn lemma_integer_literal_value(s: Seq<char>)
    requires
        s.len() > 0,
        is_digit(s[0]),
        forall|k: int| 0 <= k < s.len() ==> in_class(CharClass::NumRun, #[trigger] s[k]),
        digit_seq_val(digits_of(s)) < 0x1_0000_0000_0000_0000,
    ensures
        spec_scan(s, 0) == tok(
            SpecTokenType::Literal(SpecLit::Integer(digit_seq_val(digits_of(s)) as u64)),
            s.len() as int,
        ),
{
    reveal(spec_scan);
    lemma_run_end_full(s, 1, CharClass::NumRun);
    lemma_digits_of_decompose(s);
    assert(s.subrange(1, s.len() as int) =~= s.drop_first());
    assert(seq![s[0]] + digits_of(s.subrange(1, s.len() as int)) =~= digits_of(s));
    lemma_digits_of_digits(s);
    lemma_digit_seq_val_nonneg(digits_of(s));
    vstd::arithmetic::div_mod::lemma_small_mod(
        digit_seq_val(digits_of(s)) as nat,
        0x1_0000_0000_0000_0000nat,
    );
}

/// An unclosed comment runs to the end of the text.
proof fn lemma_comment_scan_unclosed(s: Seq<char>, i: int, pc: char, nest: int)
    requires
        0 <= i <= s.len(),
    ensures
        !comment_scan(s, i, pc, nest).closed ==> comment_scan(s, i, pc, nest).end == s.len(),
    decreases s.len() - i,
{
    if 0 <= i < s.len() {
        let c = s[i];
        if pc == '*' && c == '/' {
            if nest != 1 {
                lemma_comment_scan_unclosed(s, i + 1, c, nest - 1);
            }
        } else if pc == '/' && c == '*' {
            lemma_comment_scan_unclosed(s, i + 1, c, nest + 1);
        } else {
            lemma_comment_scan_unclosed(s, i + 1, c, nest);
        }
    }
}

/// LAW — balanced multiline comments.  An input that is one multiline
/// comment, nesting included — it starts `/*` and the comment automaton
/// closes exactly at the end of the text — scans to a single MultiLine
/// comment token spanning the whole construct, with no diagnostic: the
/// emitted stream holds that one token and nothing else, and under the
/// default flags the token is passed over leaving no diagnostic behind.
pub proof fn lemma_balanced_comment(s: Seq<char>)
    requires
        s.len() >= 2,
        s[0] == '/',
        s[1] == '*',
        comment_scan(s, 2, '*', 1) == (SpecComment { end: s.len() as int, closed: true }),
    ensures
        spec_scan(s, 0) == tok(SpecTokenType::Comment(Comment::MultiLine), s.len() as int),
        spec_items(s, 0, true, true) == seq![
            Ok::<SpecTok, TokenizerError>(
                SpecTok { text: s, ty: SpecTokenType::Comment(Comment::MultiLine) },
            ),
        ],
        spec_step(s, 0, false, false) == (SpecStep::End { diags: Seq::<int>::empty() }),
{
    reveal(spec_scan);
    lemma_spec_scan_advances(s, s.len() as int);
    assert(s.subrange(0, s.len() as int) =~= s);
    assert(spec_items(s, s.len() as int, true, true) =~= Seq::<
        Result<SpecTok, TokenizerError>,
    >::empty());
    assert(spec_items(s, 0, true, true) =~= seq![
        Ok::<SpecTok, TokenizerError>(
            SpecTok { text: s, ty: SpecTokenType::Comment(Comment::MultiLine) },
        ),
    ]);
    assert(spec_step(s, s.len() as int, false, false) == (SpecStep::End {
        diags: Seq::<int>::empty(),
    }));
    assert(Seq::<int>::empty() + Seq::<int>::empty() =~= Seq::<int>::empty());
}

/// LAW — unclosed multiline comments.  An input whose `/*` is never closed
/// still scans to a MultiLine comment token, not a failure, covering the
/// rest of the text; exactly one diagnostic is recorded, positioned at the
/// comment's start, whether the token is emitted or passed over.
pub proof fn lemma_unclosed_comment(s: Seq<char>)
    requires
        s.len() >= 2,
        s[0] == '/',
        s[1] == '*',
        !comment_scan(s, 2, '*', 1).closed,
    ensures
        spec_scan(s, 0) == (SpecScan::Tok {
            ty: SpecTokenType::Comment(Comment::MultiLine),
            end: s.len() as int,
            unclosed: true,
        }),
        spec_step(s, 0, false, false) == (SpecStep::End { diags: seq![0int] }),
        spec_step(s, 0, true, true) == (SpecStep::Tok {
            start: 0,
            ty: SpecTokenType::Comment(Comment::MultiLine),
            end: s.len() as int,
            diags: seq![0int],
        }),
{
    reveal(spec_scan);
    lemma_comment_scan_unclosed(s, 2, '*', 1);
    lemma_spec_scan_advances(s, s.len() as int);
    assert(spec_step(s, s.len() as int, false, false) == (SpecStep::End {
        diags: Seq::<int>::empty(),
    }));
    assert(seq![0int] + Seq::<int>::empty() =~= seq![0int]);
}

/// The escape table: `\n`, `\t` and `\0` translate; anything else escaped
/// passes through unchanged.
fn escape(c: char) -> (r: Option<char>)
    ensures
        (match r {
            Some(e) => e,
            None => c,
        }) == escape_char(c),
        r is Some <==> (c == 'n' || c == 't' || c == '0'),
{
    if c == 'n' {
        Some('\n')
    } else if c == 't' {
        Some('\t')
    } else if c == '0' {
        Some('\0')
    } else {
        None
    }
}

/// Copy of the characters of `v` between two offsets.
#[verifier::loop_isolation(false)]
fn subvec(v: &Vec<char>, a: usize, b: usize) -> (r: Vec<char>)
    requires
        a <= b <= v@.len(),
    ensures
        r@ == v@.subrange(a as int, b as int),
{
    let mut r: Vec<char> = Vec::new();
    let mut k: usize = a;
    while k < b
        invariant
            a <= k <= b <= v@.len(),
            r@ == v@.subrange(a as int, k as int),
        decreases b - k,
    {
        r.push(v[k]);
        proof {
            assert(v@.subrange(a as int, k + 1int) =~= v@.subrange(a as int, k as int).push(
                v@[k as int],
            ));
        }
        k = k + 1;
    }
    r
}

/// The characters of a text, in order.
///
/// Relies on str::chars, whose items are the characters of the text that the
/// view of a `&str` consists of, and Iterator::collect on it.
#[verifier::external_body]
fn chars_vec(s: &str) -> (v: Vec<char>)
    ensures
        v@ == s@,
{
    s.chars().collect()
}

} // verus!
