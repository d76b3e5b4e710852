//! The parser: a precedence-climbing (binding-power) expression parser over
//! the token stream, one token of lookahead.
//!
//! The ghost-level model lives here too: [`spec_expr_bp`], [`spec_primary`],
//! [`spec_climb`], [`spec_call_args`] and [`spec_path_tail`] describe, over
//! the abstract token stream, exactly which expression and which remaining
//! stream every parsing step yields, or which fatal error.  The executable
//! parser is proved to follow this model.
use vstd::prelude::*;

verus! {

use crate::expression::{Expression, Path, SpecExpr, SpecPath};
use crate::token::{
    Delimeter, DelimeterSide, DelimeterType, Operator, Punctuation, SpecTok, SpecTokenType, Token,
    TokenType, abs_token, abs_token_type,
};
use crate::tokenizer::{
    lemma_spec_scan_advances, spec_items, Tokenizer, TokenizerError,
};
use crate::Diagnostic;

/// A fatal parsing failure: a lexical failure passed through, an unexpected
/// token (with a description of what was expected in its place), or the end
/// of the input where an expression had to continue.
#[derive(Debug, PartialEq, Eq)]
pub enum ParserError {
    Tokenizer(TokenizerError),
    Unexpected { found: Option<TokenType>, expected: &'static str },
    UnexpectedEnd,
}

impl ParserError {
    pub fn unexpected(found: Option<TokenType>, expected: &'static str) -> (r: Self)
        ensures
            r == (ParserError::Unexpected { found, expected }),
    {
        ParserError::Unexpected { found, expected }
    }
}

/// Ghost-level image of a [`ParserError`].
pub enum SpecPErr {
    Tokenizer(TokenizerError),
    Unexpected { found: Option<SpecTokenType>, expected: Seq<char> },
    UnexpectedEnd,
}

pub open spec fn abs_perr(e: ParserError) -> SpecPErr {
    match e {
        ParserError::Tokenizer(t) => SpecPErr::Tokenizer(t),
        ParserError::Unexpected { found, expected } => SpecPErr::Unexpected {
            found: match found {
                Some(t) => Some(abs_token_type(t)),
                None => None,
            },
            expected: expected@,
        },
        ParserError::UnexpectedEnd => SpecPErr::UnexpectedEnd,
    }
}

// ---------------------------------------------------------------------------
// Binding powers
// ---------------------------------------------------------------------------

/// How a token behaves in infix position: a defined binding-power pair, a
/// lexically recognized operator whose infix precedence the language leaves
/// deliberately undefined (meeting one is a fatal error, never silently
/// accepted), or no infix role at all.
pub enum InfixPower {
    Bind(u8, u8),
    Unresolved,
    Absent,
}

/// Prefix binding power: unary `+`, `-`, `++`, `--`, all at right power 5.
pub open spec fn spec_prefix_bp(op: Operator) -> Option<u8> {
    match op {
        Operator::Plus | Operator::Minus | Operator::DoublePlus | Operator::DoubleMinus => Some(
            5u8,
        ),
        _ => None,
    }
}

pub fn prefix_binding_power(op: Operator) -> (r: Option<u8>)
    ensures
        r == spec_prefix_bp(op),
{
    match op {
        Operator::Plus | Operator::Minus | Operator::DoublePlus | Operator::DoubleMinus => Some(
            5u8,
        ),
        _ => None,
    }
}

/// Infix binding powers, left-associative: `+ -` bind (1, 2), `* /` bind
/// (3, 4).  Every other lexically recognized binary or assignment operator
/// is `Unresolved`; anything that is not an operator is `Absent`.
pub open spec fn spec_infix_bp(t: SpecTokenType) -> InfixPower {
    match t {
        SpecTokenType::Operator(op) => match op {
            Operator::Plus | Operator::Minus => InfixPower::Bind(1u8, 2u8),
            Operator::Star | Operator::Slash => InfixPower::Bind(3u8, 4u8),
            Operator::Tilda | Operator::Bang => InfixPower::Absent,
            _ => InfixPower::Unresolved,
        },
        _ => InfixPower::Absent,
    }
}

pub fn infix_binding_power(t: &TokenType) -> (r: InfixPower)
    ensures
        r == spec_infix_bp(abs_token_type(*t)),
{
    match t {
        TokenType::Operator(op) => match op {
            Operator::Plus | Operator::Minus => InfixPower::Bind(1u8, 2u8),
            Operator::Star | Operator::Slash => InfixPower::Bind(3u8, 4u8),
            Operator::Tilda | Operator::Bang => InfixPower::Absent,
            _ => InfixPower::Unresolved,
        },
        _ => InfixPower::Absent,
    }
}

/// Postfix binding power: `!` and the `[` opening an index, both at left
/// power 7.
pub open spec fn spec_postfix_bp(t: SpecTokenType) -> Option<u8> {
    match t {
        SpecTokenType::Operator(Operator::Bang) => Some(7u8),
        SpecTokenType::Delimeter(
            Delimeter { ty: DelimeterType::Square, side: DelimeterSide::Left },
        ) => Some(7u8),
        _ => None,
    }
}

pub fn postfix_binding_power(t: &TokenType) -> (r: Option<u8>)
    ensures
        r == spec_postfix_bp(abs_token_type(*t)),
{
    match t {
        TokenType::Operator(Operator::Bang) => Some(7u8),
        TokenType::Delimeter(Delimeter { ty: DelimeterType::Square, side: DelimeterSide::Left }) => {
            Some(7u8)
        },
        _ => None,
    }
}

// ---------------------------------------------------------------------------
// The ghost parsing model
// ---------------------------------------------------------------------------

/// One entry of the abstract token stream the parser consumes.
pub open spec fn first_item(items: Seq<Result<SpecTok, TokenizerError>>) -> Option<
    Result<SpecTok, TokenizerError>,
> {
    if items.len() > 0 {
        Some(items[0])
    } else {
        None
    }
}

/// A rest-stream bounded by what it was parsed from; the bound never binds
/// in fact and only serves the termination measure.
pub open spec fn bounded_rest(
    rest: Seq<Result<SpecTok, TokenizerError>>,
    bound: Seq<Result<SpecTok, TokenizerError>>,
) -> Seq<Result<SpecTok, TokenizerError>> {
    if rest.len() <= bound.len() {
        rest
    } else {
        bound
    }
}

/// What a parsing step yields: the expression or the fatal error, and the
/// stream left over.
pub struct PRes {
    pub res: Result<SpecExpr, SpecPErr>,
    pub rest: Seq<Result<SpecTok, TokenizerError>>,
}

pub struct CallRes {
    pub res: Result<Seq<SpecExpr>, SpecPErr>,
    pub rest: Seq<Result<SpecTok, TokenizerError>>,
}

pub struct PathTailRes {
    pub res: Result<Seq<Seq<char>>, SpecPErr>,
    pub rest: Seq<Result<SpecTok, TokenizerError>>,
}

pub open spec fn is_left_paren(t: SpecTokenType) -> bool {
    t == SpecTokenType::Delimeter(
        Delimeter { ty: DelimeterType::Parentheses, side: DelimeterSide::Left },
    )
}

pub open spec fn is_right_paren(t: SpecTokenType) -> bool {
    t == SpecTokenType::Delimeter(
        Delimeter { ty: DelimeterType::Parentheses, side: DelimeterSide::Right },
    )
}

pub open spec fn is_left_square(t: SpecTokenType) -> bool {
    t == SpecTokenType::Delimeter(
        Delimeter { ty: DelimeterType::Square, side: DelimeterSide::Left },
    )
}

pub open spec fn is_right_square(t: SpecTokenType) -> bool {
    t == SpecTokenType::Delimeter(
        Delimeter { ty: DelimeterType::Square, side: DelimeterSide::Right },
    )
}

pub open spec fn is_square(t: SpecTokenType) -> bool {
    match t {
        SpecTokenType::Delimeter(d) => d.ty == DelimeterType::Square,
        _ => false,
    }
}

/// A primary expression: a literal; an identifier possibly continued into a
/// path and possibly into a call; a parenthesized expression; or a prefix
/// operator applied to an operand parsed at its right power.
pub open spec fn spec_primary(items: Seq<Result<SpecTok, TokenizerError>>) -> PRes
    decreases items.len(), 0int,
{
    match first_item(items) {
        None => PRes { res: Err(SpecPErr::UnexpectedEnd), rest: items },
        Some(Err(e)) => PRes { res: Err(SpecPErr::Tokenizer(e)), rest: items.skip(1) },
        Some(Ok(st)) => match st.ty {
            SpecTokenType::Literal(l) => PRes {
                res: Ok(SpecExpr::Lit { value: l }),
                rest: items.skip(1),
            },
            SpecTokenType::Identifier => {
                let rest1 = items.skip(1);
                match first_item(rest1) {
                    Some(Err(e)) => PRes { res: Err(SpecPErr::Tokenizer(e)), rest: rest1 },
                    Some(Ok(p)) => {
                        if is_left_paren(p.ty) {
                            let head = SpecPath { head: st.text, tail: None };
                            let ca = spec_call_args(rest1.skip(1), Seq::empty());
                            match ca.res {
                                Ok(args) => PRes {
                                    res: Ok(SpecExpr::Call { function: head, arguments: args }),
                                    rest: ca.rest,
                                },
                                Err(e) => PRes { res: Err(e), rest: ca.rest },
                            }
                        } else if p.ty == SpecTokenType::Punctuation(Punctuation::DoubleColon) {
                            let pt = spec_path_tail(rest1.skip(1), Seq::empty());
                            match pt.res {
                                Err(e) => PRes { res: Err(e), rest: pt.rest },
                                Ok(tail) => {
                                    let path = SpecPath { head: st.text, tail: Some(tail) };
                                    let r2 = bounded_rest(pt.rest, rest1.skip(1));
                                    match first_item(r2) {
                                        Some(Err(e)) => PRes {
                                            res: Err(SpecPErr::Tokenizer(e)),
                                            rest: r2,
                                        },
                                        Some(Ok(q)) => {
                                            if is_left_paren(q.ty) {
                                                let ca = spec_call_args(r2.skip(1), Seq::empty());
                                                match ca.res {
                                                    Ok(args) => PRes {
                                                        res: Ok(
                                                            SpecExpr::Call {
                                                                function: path,
                                                                arguments: args,
                                                            },
                                                        ),
                                                        rest: ca.rest,
                                                    },
                                                    Err(e) => PRes { res: Err(e), rest: ca.rest },
                                                }
                                            } else {
                                                PRes {
                                                    res: Ok(SpecExpr::Name(path)),
                                                    rest: r2,
                                                }
                                            }
                                        },
                                        None => PRes { res: Ok(SpecExpr::Name(path)), rest: r2 },
                                    }
                                },
                            }
                        } else {
                            PRes {
                                res: Ok(SpecExpr::Name(SpecPath { head: st.text, tail: None })),
                                rest: rest1,
                            }
                        }
                    },
                    None => PRes {
                        res: Ok(SpecExpr::Name(SpecPath { head: st.text, tail: None })),
                        rest: rest1,
                    },
                }
            },
            SpecTokenType::Delimeter(d) => {
                if is_left_paren(st.ty) {
                    let inner = spec_expr_bp(items.skip(1), 0);
                    match inner.res {
                        Err(e) => PRes { res: Err(e), rest: inner.rest },
                        Ok(lhs) => {
                            let r2 = bounded_rest(inner.rest, items.skip(1));
                            match first_item(r2) {
                                Some(Ok(q)) => {
                                    if is_right_paren(q.ty) {
                                        PRes { res: Ok(lhs), rest: r2.skip(1) }
                                    } else {
                                        PRes {
                                            res: Err(
                                                SpecPErr::Unexpected {
                                                    found: Some(q.ty),
                                                    expected: "a matching right parenthesis"@,
                                                },
                                            ),
                                            rest: r2.skip(1),
                                        }
                                    }
                                },
                                Some(Err(e)) => PRes {
                                    res: Err(SpecPErr::Tokenizer(e)),
                                    rest: r2.skip(1),
                                },
                                None => PRes {
                                    res: Err(
                                        SpecPErr::Unexpected {
                                            found: None,
                                            expected: "a matching right parenthesis"@,
                                        },
                                    ),
                                    rest: r2,
                                },
                            }
                        },
                    }
                } else {
                    PRes {
                        res: Err(
                            SpecPErr::Unexpected {
                                found: Some(st.ty),
                                expected: "a literal or an identifier"@,
                            },
                        ),
                        rest: items.skip(1),
                    }
                }
            },
            SpecTokenType::Operator(op) => match spec_prefix_bp(op) {
                Some(r_bp) => {
                    let rhs = spec_expr_bp(items.skip(1), r_bp);
                    match rhs.res {
                        Ok(e) => PRes {
                            res: Ok(SpecExpr::Prefix { op, right: Box::new(e) }),
                            rest: rhs.rest,
                        },
                        Err(e) => PRes { res: Err(e), rest: rhs.rest },
                    }
                },
                None => PRes {
                    res: Err(
                        SpecPErr::Unexpected {
                            found: Some(st.ty),
                            expected: "a prefix operator"@,
                        },
                    ),
                    rest: items.skip(1),
                },
            },
            _ => PRes {
                res: Err(
                    SpecPErr::Unexpected {
                        found: Some(st.ty),
                        expected: "a literal or an identifier"@,
                    },
                ),
                rest: items.skip(1),
            },
        },
    }
}

/// The climbing loop: with a left-hand expression in hand, consume postfix
/// and infix operators whose left power clears `min_bp`, extending the
/// expression, until something weaker (or no operator at all) follows.
pub open spec fn spec_climb(
    lhs: SpecExpr,
    items: Seq<Result<SpecTok, TokenizerError>>,
    min_bp: u8,
) -> PRes
    decreases items.len(), 1int,
{
    match first_item(items) {
        None => PRes { res: Ok(lhs), rest: items },
        Some(Err(e)) => PRes { res: Err(SpecPErr::Tokenizer(e)), rest: items },
        Some(Ok(st)) => {
            if !(st.ty is Operator || is_square(st.ty)) {
                PRes { res: Ok(lhs), rest: items }
            } else {
                match spec_postfix_bp(st.ty) {
                    Some(l_bp) => {
                        if l_bp < min_bp {
                            PRes { res: Ok(lhs), rest: items }
                        } else {
                            if is_left_square(st.ty) {
                                let inner = spec_expr_bp(items.skip(1), 0);
                                match inner.res {
                                    Err(e) => PRes { res: Err(e), rest: inner.rest },
                                    Ok(w) => {
                                        let r2 = bounded_rest(inner.rest, items.skip(1));
                                        match first_item(r2) {
                                            Some(Ok(q)) => {
                                                if is_right_square(q.ty) {
                                                    spec_climb(
                                                        SpecExpr::Index {
                                                            expr: Box::new(lhs),
                                                            with: Box::new(w),
                                                        },
                                                        r2.skip(1),
                                                        min_bp,
                                                    )
                                                } else {
                                                    PRes {
                                                        res: Err(
                                                            SpecPErr::Unexpected {
                                                                found: Some(q.ty),
                                                                expected:
                                                                    "a matching right square bracket"@,
                                                            },
                                                        ),
                                                        rest: r2.skip(1),
                                                    }
                                                }
                                            },
                                            Some(Err(e)) => PRes {
                                                res: Err(SpecPErr::Tokenizer(e)),
                                                rest: r2.skip(1),
                                            },
                                            None => PRes {
                                                res: Err(
                                                    SpecPErr::Unexpected {
                                                        found: None,
                                                        expected: "a matching right square bracket"@,
                                                    },
                                                ),
                                                rest: r2,
                                            },
                                        }
                                    },
                                }
                            } else {
                                match st.ty {
                                    SpecTokenType::Operator(op) => spec_climb(
                                        SpecExpr::Postfix { left: Box::new(lhs), op },
                                        items.skip(1),
                                        min_bp,
                                    ),
                                    _ => PRes { res: Ok(lhs), rest: items },
                                }
                            }
                        }
                    },
                    None => match spec_infix_bp(st.ty) {
                        InfixPower::Bind(l_bp, r_bp) => {
                            if l_bp < min_bp {
                                PRes { res: Ok(lhs), rest: items }
                            } else {
                                match st.ty {
                                    SpecTokenType::Operator(op) => {
                                        let rhs = spec_expr_bp(items.skip(1), r_bp);
                                        match rhs.res {
                                            Err(e) => PRes { res: Err(e), rest: rhs.rest },
                                            Ok(w) => spec_climb(
                                                SpecExpr::Infix {
                                                    left: Box::new(lhs),
                                                    op,
                                                    right: Box::new(w),
                                                },
                                                bounded_rest(rhs.rest, items.skip(1)),
                                                min_bp,
                                            ),
                                        }
                                    },
                                    _ => PRes { res: Ok(lhs), rest: items },
                                }
                            }
                        },
                        InfixPower::Unresolved => PRes {
                            res: Err(
                                SpecPErr::Unexpected {
                                    found: Some(st.ty),
                                    expected: "an operator with a defined binding power"@,
                                },
                            ),
                            rest: items,
                        },
                        InfixPower::Absent => PRes { res: Ok(lhs), rest: items },
                    },
                }
            }
        },
    }
}

/// A full expression at a minimum binding power: a primary expression, then
/// the climbing loop.
pub open spec fn spec_expr_bp(items: Seq<Result<SpecTok, TokenizerError>>, min_bp: u8) -> PRes
    decreases items.len(), 2int,
{
    let p = spec_primary(items);
    match p.res {
        Err(e) => p,
        Ok(lhs) => spec_climb(lhs, bounded_rest(p.rest, items), min_bp),
    }
}

/// A call argument list after the opening parenthesis: expressions separated
/// by commas, closed by a right parenthesis.  At least one argument is always
/// parsed before the closing parenthesis is considered.
pub open spec fn spec_call_args(
    items: Seq<Result<SpecTok, TokenizerError>>,
    acc: Seq<SpecExpr>,
) -> CallRes
    decreases items.len(), 3int,
{
    let a = spec_expr_bp(items, 0);
    match a.res {
        Err(e) => CallRes { res: Err(e), rest: a.rest },
        Ok(arg) => {
            let r1 = bounded_rest(a.rest, items);
            match first_item(r1) {
                Some(Ok(q)) => {
                    if is_right_paren(q.ty) {
                        CallRes { res: Ok(acc.push(arg)), rest: r1.skip(1) }
                    } else if q.ty == SpecTokenType::Punctuation(Punctuation::Comma) {
                        spec_call_args(r1.skip(1), acc.push(arg))
                    } else {
                        CallRes {
                            res: Err(
                                SpecPErr::Unexpected {
                                    found: Some(q.ty),
                                    expected:
                                        "a comma after the argument, or a parenthesis closing the argument list"@,
                                },
                            ),
                            rest: r1,
                        }
                    }
                },
                Some(Err(e)) => CallRes { res: Err(SpecPErr::Tokenizer(e)), rest: r1 },
                None => CallRes {
                    res: Err(
                        SpecPErr::Unexpected {
                            found: None,
                            expected:
                                "a comma after the argument, or a parenthesis closing the argument list"@,
                        },
                    ),
                    rest: r1,
                },
            }
        },
    }
}

/// The segments of a path after the first scope separator: identifiers
/// joined by further separators.  A separator not followed by an identifier
/// is a fatal error.
pub open spec fn spec_path_tail(
    items: Seq<Result<SpecTok, TokenizerError>>,
    acc: Seq<Seq<char>>,
) -> PathTailRes
    decreases items.len(), 0int,
{
    match first_item(items) {
        None => PathTailRes {
            res: Err(
                SpecPErr::Unexpected {
                    found: None,
                    expected: "an identifier after the scope separator"@,
                },
            ),
            rest: items,
        },
        Some(Err(e)) => PathTailRes { res: Err(SpecPErr::Tokenizer(e)), rest: items },
        Some(Ok(st)) => {
            if st.ty is Identifier {
                let acc2 = acc.push(st.text);
                let rest1 = items.skip(1);
                match first_item(rest1) {
                    Some(Ok(q)) => {
                        if q.ty == SpecTokenType::Punctuation(Punctuation::DoubleColon) {
                            spec_path_tail(rest1.skip(1), acc2)
                        } else {
                            PathTailRes { res: Ok(acc2), rest: rest1 }
                        }
                    },
                    Some(Err(e)) => PathTailRes {
                        res: Err(SpecPErr::Tokenizer(e)),
                        rest: rest1,
                    },
                    None => PathTailRes { res: Ok(acc2), rest: rest1 },
                }
            } else {
                PathTailRes {
                    res: Err(
                        SpecPErr::Unexpected {
                            found: Some(st.ty),
                            expected: "an identifier after the scope separator"@,
                        },
                    ),
                    rest: items,
                }
            }
        },
    }
}

// ---------------------------------------------------------------------------
// The parser
// ---------------------------------------------------------------------------

/// Copy of a vector of plain values.
fn copy_vec<T: Copy>(v: &Vec<T>) -> (r: Vec<T>)
    ensures
        r@ == v@,
{
    let mut r: Vec<T> = Vec::new();
    let mut k: usize = 0;
    while k < v.len()
        invariant
            k <= v@.len(),
            r@ == v@.take(k as int),
        decreases v@.len() - k,
    {
        r.push(v[k]);
        proof {
            assert(v@.take(k + 1int) =~= v@.take(k as int).push(v@[k as int]));
        }
        k = k + 1;
    }
    proof {
        assert(v@.take(v@.len() as int) =~= v@);
    }
    r
}

/// A copy of a token kind, equal at the ghost level; used to report a peeked
/// token in an error without consuming it.
fn dup_ty(t: &TokenType) -> (r: TokenType)
    ensures
        abs_token_type(r) == abs_token_type(*t),
{
    match t {
        TokenType::Identifier => TokenType::Identifier,
        TokenType::Whitespace => TokenType::Whitespace,
        TokenType::Punctuation(p) => TokenType::Punctuation(*p),
        TokenType::Delimeter(d) => TokenType::Delimeter(*d),
        TokenType::Literal(l) => TokenType::Literal(
            match l {
                crate::token::Literal::Number(crate::token::NumberLiteral::Integer(i)) => {
                    crate::token::Literal::Number(crate::token::NumberLiteral::Integer(*i))
                },
                crate::token::Literal::Number(crate::token::NumberLiteral::Real(rl)) => {
                    crate::token::Literal::Number(
                        crate::token::NumberLiteral::Real(
                            crate::token::RealLiteral {
                                int_part: rl.int_part,
                                frac_digits: copy_vec(&rl.frac_digits),
                            },
                        ),
                    )
                },
                crate::token::Literal::String(v) => crate::token::Literal::String(copy_vec(v)),
                crate::token::Literal::Char(c) => crate::token::Literal::Char(*c),
            },
        ),
        TokenType::Comment(c) => TokenType::Comment(*c),
        TokenType::Operator(o) => TokenType::Operator(*o),
        TokenType::Keyword(k) => TokenType::Keyword(*k),
    }
}

/// The expression parser: it owns the tokenizer it pulls from and one slot
/// of lookahead.
pub struct Parser {
    pub tokenizer: Tokenizer,
    pub peeked: Option<Option<Result<Token, TokenizerError>>>,
}

impl Parser {
    pub open spec fn wf(&self) -> bool {
        &&& self.tokenizer.wf()
        &&& self.tokenizer.token_start == self.tokenizer.cursor
        &&& (self.peeked == Some(None::<Result<Token, TokenizerError>>)
            ==> self.tokenizer.cursor == self.tokenizer.text@.len())
    }

    pub open spec fn abs_item(it: Option<Result<Token, TokenizerError>>) -> Seq<
        Result<SpecTok, TokenizerError>,
    > {
        match it {
            None => Seq::empty(),
            Some(Ok(t)) => seq![Ok(abs_token(t))],
            Some(Err(e)) => seq![Err(e)],
        }
    }

    /// The abstract stream of tokens and failures still to come: the peeked
    /// slot, then whatever the tokenizer will yield.
    pub open spec fn items(&self) -> Seq<Result<SpecTok, TokenizerError>> {
        let t = spec_items(
            self.tokenizer.text@,
            self.tokenizer.cursor as int,
            self.tokenizer.emit_whitespace,
            self.tokenizer.emit_comments,
        );
        match self.peeked {
            Some(it) => Self::abs_item(it) + t,
            None => t,
        }
    }

    /// The parser works over one fixed text and flag setting, and only ever
    /// appends to the diagnostics.
    pub open spec fn steady(pre: Parser, post: Parser) -> bool {
        &&& post.tokenizer.text == pre.tokenizer.text
        &&& post.tokenizer.emit_whitespace == pre.tokenizer.emit_whitespace
        &&& post.tokenizer.emit_comments == pre.tokenizer.emit_comments
        &&& pre.tokenizer.diagnostics@.is_prefix_of(post.tokenizer.diagnostics@)
    }

    proof fn lemma_steady_trans(a: Parser, b: Parser, c: Parser)
        requires
            Self::steady(a, b),
            Self::steady(b, c),
        ensures
            Self::steady(a, c),
    {
        let d1 = a.tokenizer.diagnostics@;
        let d2 = b.tokenizer.diagnostics@;
        let d3 = c.tokenizer.diagnostics@;
        assert(d3.take(d1.len() as int) =~= d2.take(d1.len() as int)) by {
            assert(forall|i: int|
                0 <= i < d2.len() ==> d3.take(d2.len() as int)[i] == #[trigger] d3[i]);
        }
    }

    pub fn new(tokenizer: Tokenizer) -> (r: Parser)
        requires
            tokenizer.wf(),
            tokenizer.token_start == tokenizer.cursor,
        ensures
            r.wf(),
            r.tokenizer == tokenizer,
            r.peeked is None,
    {
        Parser { tokenizer, peeked: None }
    }

    /// The diagnostics the scanner has recorded so far, in scan order.
    pub fn diagnostics(&self) -> (r: &Vec<Diagnostic>)
        ensures
            r == &self.tokenizer.diagnostics,
    {
        &self.tokenizer.diagnostics
    }

    /// Pull one item: the peeked one if present, else the tokenizer's next.
    fn next_token(&mut self) -> (r: Result<Option<Token>, TokenizerError>)
        requires
            old(self).wf(),
        ensures
            final(self).wf(),
            Self::steady(*old(self), *final(self)),
            match first_item(old(self).items()) {
                None => r == Ok::<Option<Token>, TokenizerError>(None) && final(self).items()
                    == old(self).items(),
                Some(Ok(st)) => (r matches Ok(Some(t)) && abs_token(t) == st)
                    && final(self).items() == old(self).items().skip(1),
                Some(Err(e)) => r == Err::<Option<Token>, TokenizerError>(e)
                    && final(self).items() == old(self).items().skip(1),
            },
    {
        let taken = self.peeked.take();
        match taken {
            Some(it) => {
                proof {
                    let s_ = self.tokenizer.text@;
                    lemma_spec_scan_advances(s_, s_.len() as int);
                    if Self::abs_item(it).len() > 0 {
                        assert((Self::abs_item(it) + spec_items(
                            self.tokenizer.text@,
                            self.tokenizer.cursor as int,
                            self.tokenizer.emit_whitespace,
                            self.tokenizer.emit_comments,
                        )).skip(1) =~= spec_items(
                            self.tokenizer.text@,
                            self.tokenizer.cursor as int,
                            self.tokenizer.emit_whitespace,
                            self.tokenizer.emit_comments,
                        ));
                    } else {
                        assert(spec_items(
                            self.tokenizer.text@,
                            self.tokenizer.cursor as int,
                            self.tokenizer.emit_whitespace,
                            self.tokenizer.emit_comments,
                        ) =~= Seq::<Result<SpecTok, TokenizerError>>::empty());
                        assert(old(self).items() =~= Seq::<Result<SpecTok, TokenizerError>>::empty());
                    }
                }
                match it {
                    None => Ok(None),
                    Some(Ok(t)) => Ok(Some(t)),
                    Some(Err(e)) => Err(e),
                }
            },
            None => {
                let pulled = self.tokenizer.next_token();
                proof {
                    let s_ = self.tokenizer.text@;
                    lemma_spec_scan_advances(s_, s_.len() as int);
                    let t0 = spec_items(
                        s_,
                        self.tokenizer.cursor as int,
                        self.tokenizer.emit_whitespace,
                        self.tokenizer.emit_comments,
                    );
                    if pulled is Some {
                        assert(old(self).items().skip(1) =~= t0);
                    } else {
                        assert(old(self).items() =~= Seq::<Result<SpecTok, TokenizerError>>::empty());
                    }
                }
                match pulled {
                    Some(Ok(t)) => Ok(Some(t)),
                    Some(Err(e)) => Err(e),
                    None => Ok(None),
                }
            },
        }
    }

    /// Fill the lookahead slot if it is empty.
    fn fill_peek(&mut self)
        requires
            old(self).wf(),
        ensures
            final(self).wf(),
            Self::steady(*old(self), *final(self)),
            final(self).items() == old(self).items(),
            final(self).peeked is Some,
    {
        if self.peeked.is_none() {
            let pulled = self.tokenizer.next_token();
            proof {
                let s_ = self.tokenizer.text@;
                lemma_spec_scan_advances(s_, s_.len() as int);
                let t0 = spec_items(
                    s_,
                    self.tokenizer.cursor as int,
                    self.tokenizer.emit_whitespace,
                    self.tokenizer.emit_comments,
                );
                assert(Self::abs_item(pulled) + t0 =~= old(self).items());
            }
            self.peeked = Some(pulled);
        }
    }

    /// Look at the kind of the next item without consuming it.
    fn peek_ty(&mut self) -> (r: Result<Option<TokenType>, TokenizerError>)
        requires
            old(self).wf(),
        ensures
            final(self).wf(),
            Self::steady(*old(self), *final(self)),
            final(self).items() == old(self).items(),
            match first_item(old(self).items()) {
                None => r == Ok::<Option<TokenType>, TokenizerError>(None),
                Some(Ok(st)) => (r matches Ok(Some(ty)) && abs_token_type(ty) == st.ty),
                Some(Err(e)) => r == Err::<Option<TokenType>, TokenizerError>(e),
            },
    {
        self.fill_peek();
        proof {
            let s_ = self.tokenizer.text@;
            lemma_spec_scan_advances(s_, s_.len() as int);
            if self.peeked == Some(None::<Result<Token, TokenizerError>>) {
                assert(old(self).items() =~= Seq::<Result<SpecTok, TokenizerError>>::empty());
            }
        }
        match &self.peeked {
            Some(Some(Ok(t))) => Ok(Some(dup_ty(&t.ty))),
            Some(Some(Err(e))) => Err(*e),
            Some(None) => Ok(None),
            None => Ok(None),
        }
    }
}

impl Parser {
    /// The further segments of a path, after the first scope separator was
    /// consumed, following [`spec_path_tail`].
    #[verifier::loop_isolation(false)]
    fn path_tail(&mut self) -> (r: Result<Vec<Vec<char>>, ParserError>)
        requires
            old(self).wf(),
        ensures
            final(self).wf(),
            Self::steady(*old(self), *final(self)),
            final(self).items().len() <= old(self).items().len(),
            ({
                let pr = spec_path_tail(old(self).items(), Seq::empty());
                &&& final(self).items() == pr.rest
                &&& match (r, pr.res) {
                    (Ok(v), Ok(t)) => v.deep_view() == t,
                    (Err(e), Err(se)) => abs_perr(e) == se,
                    _ => false,
                }
            }),
    {
        let ghost items0 = old(self).items();
        let mut acc: Vec<Vec<char>> = Vec::new();
        proof {
            assert(acc.deep_view() =~~= Seq::<Seq<char>>::empty());
        }
        loop
            invariant
                self.wf(),
                Self::steady(*old(self), *self),
                self.items().len() <= items0.len(),
                spec_path_tail(items0, Seq::empty()) == spec_path_tail(
                    self.items(),
                    acc.deep_view(),
                ),
            decreases self.items().len(),
        {
            let ghost pre = *self;
            let p = self.peek_ty();
            let ty = match p {
                Err(e) => {
                    return Err(ParserError::Tokenizer(e));
                },
                Ok(None) => {
                    return Err(
                        ParserError::unexpected(None, "an identifier after the scope separator"),
                    );
                },
                Ok(Some(ty)) => ty,
            };
            let is_ident = match &ty {
                TokenType::Identifier => true,
                _ => false,
            };
            if !is_ident {
                return Err(
                    ParserError::unexpected(
                        Some(ty),
                        "an identifier after the scope separator",
                    ),
                );
            }
            let seg = match self.next_token() {
                Ok(Some(t)) => t,
                _ => {
                    return Err(ParserError::UnexpectedEnd);
                },
            };
            let ghost acc_pre = acc.deep_view();
            let text = seg.position.text;
            acc.push(text);
            proof {
                assert(acc.deep_view() =~~= acc_pre.push(seg.position.text@));
                Self::lemma_steady_trans(*old(self), pre, *self);
            }
            let ghost mid = *self;
            let p2 = self.peek_ty();
            proof {
                Self::lemma_steady_trans(*old(self), mid, *self);
            }
            let sep = match p2 {
                Err(e) => {
                    return Err(ParserError::Tokenizer(e));
                },
                Ok(None) => {
                    return Ok(acc);
                },
                Ok(Some(t2)) => {
                    match t2 {
                        TokenType::Punctuation(Punctuation::DoubleColon) => true,
                        _ => false,
                    }
                },
            };
            if !sep {
                return Ok(acc);
            }
            let ghost mid2 = *self;
            let consumed = self.next_token();
            proof {
                Self::lemma_steady_trans(*old(self), mid2, *self);
            }
            match consumed {
                Ok(_) => {},
                Err(e) => {
                    return Err(ParserError::Tokenizer(e));
                },
            }
        }
    }

    /// A primary expression, following [`spec_primary`].
    #[verifier::rlimit(60)]
    fn expr_primary(&mut self) -> (r: Result<Expression, ParserError>)
        requires
            old(self).wf(),
        ensures
            final(self).wf(),
            Self::steady(*old(self), *final(self)),
            final(self).items().len() <= old(self).items().len(),
            r is Ok ==> final(self).items().len() < old(self).items().len(),
            ({
                let pr = spec_primary(old(self).items());
                &&& final(self).items() == pr.rest
                &&& match (r, pr.res) {
                    (Ok(e), Ok(se)) => crate::expression::abs_expr(e) == se,
                    (Err(e), Err(se)) => abs_perr(e) == se,
                    _ => false,
                }
            }),
        decreases old(self).items().len(), 0int,
    {
        let ghost items0 = old(self).items();
        let t = match self.next_token() {
            Err(e) => {
                return Err(ParserError::Tokenizer(e));
            },
            Ok(None) => {
                return Err(ParserError::UnexpectedEnd);
            },
            Ok(Some(t)) => t,
        };
        let Token { position, ty } = t;
        match ty {
            TokenType::Literal(value) => Ok(Expression::Lit { value }),
            TokenType::Identifier => {
                let head = position.text;
                let ghost after_ident = *self;
                let p = self.peek_ty();
                match p {
                    Err(e) => Err(ParserError::Tokenizer(e)),
                    Ok(None) => Ok(Expression::Name(Path::new(head, None))),
                    Ok(Some(pty)) => {
                        let lparen = match &pty {
                            TokenType::Delimeter(d) => match (d.ty, d.side) {
                                (DelimeterType::Parentheses, DelimeterSide::Left) => true,
                                _ => false,
                            },
                            _ => false,
                        };
                        let sep = match &pty {
                            TokenType::Punctuation(Punctuation::DoubleColon) => true,
                            _ => false,
                        };
                        if lparen {
                            let ghost mid = *self;
                            let c = self.next_token();
                            proof {
                                Self::lemma_steady_trans(*old(self), mid, *self);
                            }
                            match c {
                                Ok(_) => {},
                                Err(e) => {
                                    return Err(ParserError::Tokenizer(e));
                                },
                            }
                            let ghost mid2 = *self;
                            let r = self.call_expr(Path::new(head, None));
                            proof {
                                Self::lemma_steady_trans(*old(self), mid2, *self);
                            }
                            r
                        } else if sep {
                            let ghost mid = *self;
                            let c = self.next_token();
                            proof {
                                Self::lemma_steady_trans(*old(self), mid, *self);
                            }
                            match c {
                                Ok(_) => {},
                                Err(e) => {
                                    return Err(ParserError::Tokenizer(e));
                                },
                            }
                            let ghost mid2 = *self;
                            let tail = match self.path_tail() {
                                Ok(v) => v,
                                Err(e) => {
                                    proof {
                                        Self::lemma_steady_trans(*old(self), mid2, *self);
                                    }
                                    return Err(e);
                                },
                            };
                            proof {
                                Self::lemma_steady_trans(*old(self), mid2, *self);
                            }
                            let path = Path::new(head, Some(tail));
                            let ghost mid3 = *self;
                            let q = self.peek_ty();
                            proof {
                                Self::lemma_steady_trans(*old(self), mid3, *self);
                            }
                            match q {
                                Err(e) => Err(ParserError::Tokenizer(e)),
                                Ok(None) => Ok(Expression::Name(path)),
                                Ok(Some(qty)) => {
                                    let lp2 = match &qty {
                                        TokenType::Delimeter(d) => match (d.ty, d.side) {
                                            (DelimeterType::Parentheses, DelimeterSide::Left) => {
                                                true
                                            },
                                            _ => false,
                                        },
                                        _ => false,
                                    };
                                    if lp2 {
                                        let ghost mid4 = *self;
                                        let c2 = self.next_token();
                                        proof {
                                            Self::lemma_steady_trans(*old(self), mid4, *self);
                                        }
                                        match c2 {
                                            Ok(_) => {},
                                            Err(e) => {
                                                return Err(ParserError::Tokenizer(e));
                                            },
                                        }
                                        let ghost mid5 = *self;
                                        let r = self.call_expr(path);
                                        proof {
                                            Self::lemma_steady_trans(*old(self), mid5, *self);
                                        }
                                        r
                                    } else {
                                        Ok(Expression::Name(path))
                                    }
                                },
                            }
                        } else {
                            Ok(Expression::Name(Path::new(head, None)))
                        }
                    },
                }
            },
            TokenType::Delimeter(d) => {
                let lparen = match (d.ty, d.side) {
                    (DelimeterType::Parentheses, DelimeterSide::Left) => true,
                    _ => false,
                };
                if lparen {
                    let ghost mid = *self;
                    let lhs = match self.expr_bp(0) {
                        Ok(e) => e,
                        Err(e) => {
                            proof {
                                Self::lemma_steady_trans(*old(self), mid, *self);
                            }
                            return Err(e);
                        },
                    };
                    proof {
                        Self::lemma_steady_trans(*old(self), mid, *self);
                    }
                    let ghost mid2 = *self;
                    let nxt = self.next_token();
                    proof {
                        Self::lemma_steady_trans(*old(self), mid2, *self);
                    }
                    match nxt {
                        Err(e) => Err(ParserError::Tokenizer(e)),
                        Ok(None) => Err(
                            ParserError::unexpected(None, "a matching right parenthesis"),
                        ),
                        Ok(Some(t2)) => {
                            let rparen = match &t2.ty {
                                TokenType::Delimeter(d2) => match (d2.ty, d2.side) {
                                    (DelimeterType::Parentheses, DelimeterSide::Right) => true,
                                    _ => false,
                                },
                                _ => false,
                            };
                            if rparen {
                                Ok(lhs)
                            } else {
                                Err(
                                    ParserError::unexpected(
                                        Some(t2.ty),
                                        "a matching right parenthesis",
                                    ),
                                )
                            }
                        },
                    }
                } else {
                    Err(
                        ParserError::unexpected(
                            Some(TokenType::Delimeter(d)),
                            "a literal or an identifier",
                        ),
                    )
                }
            },
            TokenType::Operator(op) => {
                match prefix_binding_power(op) {
                    Some(r_bp) => {
                        let ghost mid = *self;
                        let rhs = match self.expr_bp(r_bp) {
                            Ok(e) => e,
                            Err(e) => {
                                proof {
                                    Self::lemma_steady_trans(*old(self), mid, *self);
                                }
                                return Err(e);
                            },
                        };
                        proof {
                            Self::lemma_steady_trans(*old(self), mid, *self);
                        }
                        Ok(Expression::Prefix { op, right: Box::new(rhs) })
                    },
                    None => Err(
                        ParserError::unexpected(
                            Some(TokenType::Operator(op)),
                            "a prefix operator",
                        ),
                    ),
                }
            },
            other => Err(ParserError::unexpected(Some(other), "a literal or an identifier")),
        }
    }

    /// A full expression at a minimum binding power, following
    /// [`spec_expr_bp`]: a primary expression, then the climbing loop over
    /// postfix and infix operators.
    #[verifier::loop_isolation(false)]
    #[verifier::rlimit(60)]
    fn expr_bp(&mut self, min_bp: u8) -> (r: Result<Expression, ParserError>)
        requires
            old(self).wf(),
        ensures
            final(self).wf(),
            Self::steady(*old(self), *final(self)),
            final(self).items().len() <= old(self).items().len(),
            r is Ok ==> final(self).items().len() < old(self).items().len(),
            ({
                let pr = spec_expr_bp(old(self).items(), min_bp);
                &&& final(self).items() == pr.rest
                &&& match (r, pr.res) {
                    (Ok(e), Ok(se)) => crate::expression::abs_expr(e) == se,
                    (Err(e), Err(se)) => abs_perr(e) == se,
                    _ => false,
                }
            }),
        decreases old(self).items().len(), 2int,
    {
        let ghost items0 = old(self).items();
        let mut lhs = match self.expr_primary() {
            Ok(e) => e,
            Err(e) => {
                return Err(e);
            },
        };
        loop
            invariant
                self.wf(),
                Self::steady(*old(self), *self),
                self.items().len() < items0.len(),
                spec_expr_bp(items0, min_bp) == spec_climb(
                    crate::expression::abs_expr(lhs),
                    self.items(),
                    min_bp,
                ),
            decreases self.items().len(),
        {
            let ghost iter0 = *self;
            let p = self.peek_ty();
            let ty = match p {
                Err(e) => {
                    return Err(ParserError::Tokenizer(e));
                },
                Ok(None) => {
                    return Ok(lhs);
                },
                Ok(Some(ty)) => ty,
            };
            let gate = match &ty {
                TokenType::Operator(_) => true,
                TokenType::Delimeter(d) => match d.ty {
                    DelimeterType::Square => true,
                    _ => false,
                },
                _ => false,
            };
            if !gate {
                return Ok(lhs);
            }
            match postfix_binding_power(&ty) {
                Some(l_bp) => {
                    if l_bp < min_bp {
                        return Ok(lhs);
                    }
                    let lsquare = match &ty {
                        TokenType::Delimeter(d) => match (d.ty, d.side) {
                            (DelimeterType::Square, DelimeterSide::Left) => true,
                            _ => false,
                        },
                        _ => false,
                    };
                    if lsquare {
                        let c = self.next_token();
                        proof {
                            Self::lemma_steady_trans(*old(self), iter0, *self);
                        }
                        match c {
                            Ok(_) => {},
                            Err(e) => {
                                return Err(ParserError::Tokenizer(e));
                            },
                        }
                        let ghost mid = *self;
                        let w = match self.expr_bp(0) {
                            Ok(e) => e,
                            Err(e) => {
                                proof {
                                    Self::lemma_steady_trans(*old(self), mid, *self);
                                }
                                return Err(e);
                            },
                        };
                        proof {
                            Self::lemma_steady_trans(*old(self), mid, *self);
                        }
                        let ghost mid2 = *self;
                        let nxt = self.next_token();
                        proof {
                            Self::lemma_steady_trans(*old(self), mid2, *self);
                        }
                        match nxt {
                            Err(e) => {
                                return Err(ParserError::Tokenizer(e));
                            },
                            Ok(None) => {
                                return Err(
                                    ParserError::unexpected(
                                        None,
                                        "a matching right square bracket",
                                    ),
                                );
                            },
                            Ok(Some(t2)) => {
                                let rsquare = match &t2.ty {
                                    TokenType::Delimeter(d2) => match (d2.ty, d2.side) {
                                        (DelimeterType::Square, DelimeterSide::Right) => true,
                                        _ => false,
                                    },
                                    _ => false,
                                };
                                if rsquare {
                                    lhs = Expression::Index {
                                        expr: Box::new(lhs),
                                        with: Box::new(w),
                                    };
                                } else {
                                    return Err(
                                        ParserError::unexpected(
                                            Some(t2.ty),
                                            "a matching right square bracket",
                                        ),
                                    );
                                }
                            },
                        }
                    } else {
                        match ty {
                            TokenType::Operator(op) => {
                                let c = self.next_token();
                                proof {
                                    Self::lemma_steady_trans(*old(self), iter0, *self);
                                }
                                match c {
                                    Ok(_) => {},
                                    Err(e) => {
                                        return Err(ParserError::Tokenizer(e));
                                    },
                                }
                                lhs = Expression::Postfix { left: Box::new(lhs), op };
                            },
                            _ => {
                                return Ok(lhs);
                            },
                        }
                    }
                },
                None => {
                    match infix_binding_power(&ty) {
                        InfixPower::Bind(l_bp, r_bp) => {
                            if l_bp < min_bp {
                                return Ok(lhs);
                            }
                            match ty {
                                TokenType::Operator(op) => {
                                    let c = self.next_token();
                                    proof {
                                        Self::lemma_steady_trans(*old(self), iter0, *self);
                                    }
                                    match c {
                                        Ok(_) => {},
                                        Err(e) => {
                                            return Err(ParserError::Tokenizer(e));
                                        },
                                    }
                                    let ghost mid = *self;
                                    let rhs = match self.expr_bp(r_bp) {
                                        Ok(e) => e,
                                        Err(e) => {
                                            proof {
                                                Self::lemma_steady_trans(*old(self), mid, *self);
                                            }
                                            return Err(e);
                                        },
                                    };
                                    proof {
                                        Self::lemma_steady_trans(*old(self), mid, *self);
                                    }
                                    lhs = Expression::Infix {
                                        left: Box::new(lhs),
                                        op,
                                        right: Box::new(rhs),
                                    };
                                },
                                _ => {
                                    return Ok(lhs);
                                },
                            }
                        },
                        InfixPower::Unresolved => {
                            return Err(
                                ParserError::unexpected(
                                    Some(ty),
                                    "an operator with a defined binding power",
                                ),
                            );
                        },
                        InfixPower::Absent => {
                            return Ok(lhs);
                        },
                    }
                },
            }
        }
    }

    /// The whole expression at the lowest binding power: the parser's entry
    /// point.
    pub fn expr(&mut self) -> (r: Result<Expression, ParserError>)
        requires
            old(self).wf(),
        ensures
            final(self).wf(),
            Self::steady(*old(self), *final(self)),
            ({
                let pr = spec_expr_bp(old(self).items(), 0);
                &&& final(self).items() == pr.rest
                &&& match (r, pr.res) {
                    (Ok(e), Ok(se)) => crate::expression::abs_expr(e) == se,
                    (Err(e), Err(se)) => abs_perr(e) == se,
                    _ => false,
                }
            }),
    {
        self.expr_bp(0)
    }

    /// A call argument list, the opening parenthesis already consumed,
    /// following [`spec_call_args`].
    #[verifier::loop_isolation(false)]
    #[verifier::rlimit(60)]
    fn call_expr(&mut self, function: Path) -> (r: Result<Expression, ParserError>)
        requires
            old(self).wf(),
        ensures
            final(self).wf(),
            Self::steady(*old(self), *final(self)),
            final(self).items().len() <= old(self).items().len(),
            ({
                let cr = spec_call_args(old(self).items(), Seq::empty());
                &&& final(self).items() == cr.rest
                &&& match (r, cr.res) {
                    (Ok(e), Ok(args)) => crate::expression::abs_expr(e) == (SpecExpr::Call {
                        function: crate::expression::abs_path(function),
                        arguments: args,
                    }),
                    (Err(e), Err(se)) => abs_perr(e) == se,
                    _ => false,
                }
            }),
        decreases old(self).items().len(), 3int,
    {
        let ghost items0 = old(self).items();
        let mut args: Vec<Expression> = Vec::new();
        proof {
            assert(crate::expression::abs_expr_seq(args@) =~= Seq::<SpecExpr>::empty());
        }
        loop
            invariant
                self.wf(),
                Self::steady(*old(self), *self),
                self.items().len() <= items0.len(),
                spec_call_args(items0, Seq::empty()) == spec_call_args(
                    self.items(),
                    crate::expression::abs_expr_seq(args@),
                ),
            decreases self.items().len(),
        {
            let ghost iter0 = *self;
            let arg = match self.expr_bp(0) {
                Ok(e) => e,
                Err(e) => {
                    return Err(e);
                },
            };
            let ghost args_pre = args@;
            args.push(arg);
            proof {
                assert(args@ =~= args_pre.push(args@[args_pre.len() as int]));
                crate::expression::lemma_abs_expr_seq_push(
                    args_pre,
                    args@[args_pre.len() as int],
                );
            }
            let ghost mid = *self;
            let p = self.peek_ty();
            proof {
                Self::lemma_steady_trans(*old(self), mid, *self);
            }
            let pty = match p {
                Err(e) => {
                    return Err(ParserError::Tokenizer(e));
                },
                Ok(None) => {
                    return Err(
                        ParserError::unexpected(
                            None,
                            "a comma after the argument, or a parenthesis closing the argument list",
                        ),
                    );
                },
                Ok(Some(pty)) => pty,
            };
            let rparen = match &pty {
                TokenType::Delimeter(d) => match (d.ty, d.side) {
                    (DelimeterType::Parentheses, DelimeterSide::Right) => true,
                    _ => false,
                },
                _ => false,
            };
            let comma = match &pty {
                TokenType::Punctuation(Punctuation::Comma) => true,
                _ => false,
            };
            if rparen {
                let ghost mid2 = *self;
                let c = self.next_token();
                proof {
                    Self::lemma_steady_trans(*old(self), mid2, *self);
                }
                match c {
                    Ok(_) => {},
                    Err(e) => {
                        return Err(ParserError::Tokenizer(e));
                    },
                }
                return Ok(Expression::Call { function, arguments: args });
            } else if comma {
                let ghost mid2 = *self;
                let c = self.next_token();
                proof {
                    Self::lemma_steady_trans(*old(self), mid2, *self);
                }
                match c {
                    Ok(_) => {},
                    Err(e) => {
                        return Err(ParserError::Tokenizer(e));
                    },
                }
            } else {
                return Err(
                    ParserError::unexpected(
                        Some(pty),
                        "a comma after the argument, or a parenthesis closing the argument list",
                    ),
                );
            }
        }
    }
}

} // verus!
