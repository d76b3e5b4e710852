//! The round-trip law: parsing the canonical rendering of an expression
//! gives the expression back.
//!
//! The law is stated over the token form of the rendering ([`rt`]): the
//! token stream that scanning the canonical text yields, literal and
//! identifier tokens carrying their values and texts.  For every expression
//! of the closed class [`simple`] — built from `+ - * /` (infix and
//! prefix), postfix `!`, literals, names, calls and indices — parsing that
//! stream returns exactly the expression, with nothing consumed beyond it.
use vstd::prelude::*;

verus! {

use crate::expression::{op_chars, render_lit, SpecExpr, SpecPath};
use crate::parser::{
    first_item, spec_call_args, spec_climb, spec_expr_bp, spec_path_tail, spec_primary, CallRes,
    PathTailRes, PRes,
};
use crate::token::{
    Delimeter, DelimeterSide, DelimeterType, Operator, Punctuation, SpecTok, SpecTokenType,
};
use crate::tokenizer::TokenizerError;

// ---------------------------------------------------------------------------
// The token form of a rendering
// ---------------------------------------------------------------------------

pub open spec fn it_lp() -> Result<SpecTok, TokenizerError> {
    Ok(
        SpecTok {
            text: seq!['('],
            ty: SpecTokenType::Delimeter(
                Delimeter { ty: DelimeterType::Parentheses, side: DelimeterSide::Left },
            ),
        },
    )
}

pub open spec fn it_rp() -> Result<SpecTok, TokenizerError> {
    Ok(
        SpecTok {
            text: seq![')'],
            ty: SpecTokenType::Delimeter(
                Delimeter { ty: DelimeterType::Parentheses, side: DelimeterSide::Right },
            ),
        },
    )
}

pub open spec fn it_lsq() -> Result<SpecTok, TokenizerError> {
    Ok(
        SpecTok {
            text: seq!['['],
            ty: SpecTokenType::Delimeter(
                Delimeter { ty: DelimeterType::Square, side: DelimeterSide::Left },
            ),
        },
    )
}

pub open spec fn it_rsq() -> Result<SpecTok, TokenizerError> {
    Ok(
        SpecTok {
            text: seq![']'],
            ty: SpecTokenType::Delimeter(
                Delimeter { ty: DelimeterType::Square, side: DelimeterSide::Right },
            ),
        },
    )
}

pub open spec fn it_comma() -> Result<SpecTok, TokenizerError> {
    Ok(SpecTok { text: seq![','], ty: SpecTokenType::Punctuation(Punctuation::Comma) })
}

pub open spec fn it_dc() -> Result<SpecTok, TokenizerError> {
    Ok(SpecTok { text: seq![':', ':'], ty: SpecTokenType::Punctuation(Punctuation::DoubleColon) })
}

pub open spec fn it_op(op: Operator) -> Result<SpecTok, TokenizerError> {
    Ok(SpecTok { text: op_chars(op), ty: SpecTokenType::Operator(op) })
}

pub open spec fn it_ident(text: Seq<char>) -> Result<SpecTok, TokenizerError> {
    Ok(SpecTok { text, ty: SpecTokenType::Identifier })
}

pub open spec fn it_lit(value: crate::token::SpecLit) -> Result<SpecTok, TokenizerError> {
    Ok(SpecTok { text: render_lit(value), ty: SpecTokenType::Literal(value) })
}

/// The segments of a path tail as tokens: identifiers joined by separators.
pub open spec fn rt_segs(t: Seq<Seq<char>>) -> Seq<Result<SpecTok, TokenizerError>>
    decreases t.len(),
{
    if t.len() <= 1 {
        seq![it_ident(t[0])]
    } else {
        seq![it_ident(t[0]), it_dc()] + rt_segs(t.drop_first())
    }
}

pub open spec fn rt_path(p: SpecPath) -> Seq<Result<SpecTok, TokenizerError>> {
    seq![it_ident(p.head)] + match p.tail {
        None => Seq::<Result<SpecTok, TokenizerError>>::empty(),
        Some(t) => seq![it_dc()] + rt_segs(t),
    }
}

/// The canonical rendering of an expression as the token stream scanning
/// it yields.
pub open spec fn rt(e: SpecExpr) -> Seq<Result<SpecTok, TokenizerError>>
    decreases e,
    via rt_decreases
{
    match e {
        SpecExpr::Lit { value } => seq![it_lit(value)],
        SpecExpr::Name(p) => rt_path(p),
        SpecExpr::Prefix { op, right } => seq![it_lp(), it_op(op)] + rt(*right) + seq![it_rp()],
        SpecExpr::Infix { left, op, right } => seq![it_lp()] + rt(*left) + seq![it_op(op)] + rt(
            *right,
        ) + seq![it_rp()],
        SpecExpr::Postfix { left, op } => seq![it_lp()] + rt(*left) + seq![it_op(op), it_rp()],
        SpecExpr::Index { expr, with } => seq![it_lp()] + rt(*expr) + seq![it_lsq()] + rt(*with)
            + seq![it_rsq(), it_rp()],
        SpecExpr::Call { function, arguments } => seq![it_lp()] + rt_path(function) + seq![it_lp()]
            + rt_args(arguments) + seq![it_rp(), it_rp()],
    }
}

pub open spec fn rt_args(args: Seq<SpecExpr>) -> Seq<Result<SpecTok, TokenizerError>>
    decreases args, 0int,
    via rt_args_decreases
{
    if args.len() == 0 {
        Seq::empty()
    } else {
        rt(args[0]) + rt_args_tail(args.drop_first())
    }
}

pub open spec fn rt_args_tail(args: Seq<SpecExpr>) -> Seq<Result<SpecTok, TokenizerError>>
    decreases args, 1int,
    via rt_args_tail_decreases
{
    if args.len() == 0 {
        Seq::empty()
    } else {
        seq![it_comma()] + rt(args[0]) + rt_args_tail(args.drop_first())
    }
}

#[via_fn]
proof fn rt_decreases(e: SpecExpr) {
    match e {
        SpecExpr::Call { function, arguments } => {
            assert(decreases_to!(e => arguments));
        },
        _ => {},
    }
}

#[via_fn]
proof fn rt_args_decreases(args: Seq<SpecExpr>) {
    broadcast use vstd::seq::axiom_seq_index_decreases;

    if args.len() > 0 {
        assert(decreases_to!(args => args[0]));
        vstd::seq::axiom_seq_len_decreases(args, args.drop_first());
    }
}

#[via_fn]
proof fn rt_args_tail_decreases(args: Seq<SpecExpr>) {
    broadcast use vstd::seq::axiom_seq_index_decreases;

    if args.len() > 0 {
        assert(decreases_to!(args => args[0]));
        vstd::seq::axiom_seq_len_decreases(args, args.drop_first());
    }
}

// ---------------------------------------------------------------------------
// The round-trip class
// ---------------------------------------------------------------------------

pub open spec fn simple_path(p: SpecPath) -> bool {
    match p.tail {
        None => true,
        Some(t) => t.len() >= 1,
    }
}

/// The expressions the round trip covers: infix `+ - * /`, prefix `+ -`,
/// postfix `!`, indices, calls with at least one argument, names, and
/// literals.
pub open spec fn simple(e: SpecExpr) -> bool
    decreases e, 0int,
    via simple_decreases
{
    match e {
        SpecExpr::Lit { value } => true,
        SpecExpr::Name(p) => simple_path(p),
        SpecExpr::Prefix { op, right } => (op == Operator::Plus || op == Operator::Minus)
            && simple(*right),
        SpecExpr::Infix { left, op, right } => (op == Operator::Plus || op == Operator::Minus
            || op == Operator::Star || op == Operator::Slash) && simple(*left) && simple(*right),
        SpecExpr::Postfix { left, op } => op == Operator::Bang && simple(*left),
        SpecExpr::Index { expr, with } => simple(*expr) && simple(*with),
        SpecExpr::Call { function, arguments } => simple_path(function) && arguments.len() >= 1
            && simple_args(arguments),
    }
}

pub open spec fn simple_args(args: Seq<SpecExpr>) -> bool
    decreases args, 1int,
    via simple_args_decreases
{
    if args.len() == 0 {
        true
    } else {
        simple(args[0]) && simple_args(args.drop_first())
    }
}

#[via_fn]
proof fn simple_decreases(e: SpecExpr) {
    match e {
        SpecExpr::Call { function, arguments } => {
            assert(decreases_to!(e => arguments));
        },
        _ => {},
    }
}

#[via_fn]
proof fn simple_args_decreases(args: Seq<SpecExpr>) {
    broadcast use vstd::seq::axiom_seq_index_decreases;

    if args.len() > 0 {
        assert(decreases_to!(args => args[0]));
        vstd::seq::axiom_seq_len_decreases(args, args.drop_first());
    }
}

/// What may follow a rendered expression without being drawn into it: the
/// end of the stream, a closing parenthesis or bracket, or a comma.
pub open spec fn stopper(it: Option<Result<SpecTok, TokenizerError>>) -> bool {
    match it {
        None => true,
        Some(Err(e)) => false,
        Some(Ok(st)) => crate::parser::is_right_paren(st.ty) || crate::parser::is_right_square(
            st.ty,
        ) || st.ty == SpecTokenType::Punctuation(Punctuation::Comma),
    }
}

/// What may follow a rendered name without extending it into a longer path
/// or a call: anything but an opening parenthesis, a scope separator, or a
/// lexical failure.
pub open spec fn name_stopper(it: Option<Result<SpecTok, TokenizerError>>) -> bool {
    match it {
        None => true,
        Some(Err(e)) => false,
        Some(Ok(st)) => !crate::parser::is_left_paren(st.ty) && st.ty != SpecTokenType::Punctuation(
            Punctuation::DoubleColon,
        ),
    }
}

/// What may follow the segments of a path without extending it: anything
/// but a further scope separator or a lexical failure.
pub open spec fn path_stopper(it: Option<Result<SpecTok, TokenizerError>>) -> bool {
    match it {
        None => true,
        Some(Err(e)) => false,
        Some(Ok(st)) => st.ty != SpecTokenType::Punctuation(Punctuation::DoubleColon),
    }
}

/// The climbing loop returns its expression untouched before a stopper.
proof fn lemma_climb_stops(
    lhs: SpecExpr,
    rest: Seq<Result<SpecTok, TokenizerError>>,
    min_bp: u8,
)
    requires
        stopper(first_item(rest)),
    ensures
        spec_climb(lhs, rest, min_bp) == (PRes { res: Ok(lhs), rest }),
{
}

/// Parsing rendered path segments collects exactly the segment texts.
proof fn lemma_path_tail_parse(
    t: Seq<Seq<char>>,
    acc: Seq<Seq<char>>,
    rest: Seq<Result<SpecTok, TokenizerError>>,
)
    requires
        t.len() >= 1,
        path_stopper(first_item(rest)),
    ensures
        spec_path_tail(rt_segs(t) + rest, acc) == (PathTailRes { res: Ok(acc + t), rest }),
    decreases t.len(),
{
    let items = rt_segs(t) + rest;
    if t.len() == 1 {
        assert(rt_segs(t) =~= seq![it_ident(t[0])]);
        assert(items[0] == it_ident(t[0]));
        assert(items.skip(1) =~= rest);
        assert(acc.push(t[0]) =~= acc + t);
    } else {
        let t2 = t.drop_first();
        assert(rt_segs(t) =~= seq![it_ident(t[0]), it_dc()] + rt_segs(t2));
        assert(items[0] == it_ident(t[0]));
        let rest1 = items.skip(1);
        assert(rest1 =~= seq![it_dc()] + (rt_segs(t2) + rest));
        assert(rest1[0] == it_dc());
        assert(rest1.skip(1) =~= rt_segs(t2) + rest);
        lemma_path_tail_parse(t2, acc.push(t[0]), rest);
        assert(acc.push(t[0]) + t2 =~= acc + t);
    }
}

/// Parsing a rendered argument list, closed by a right parenthesis,
/// collects exactly the arguments.
proof fn lemma_call_args_parse(
    args: Seq<SpecExpr>,
    acc: Seq<SpecExpr>,
    rest: Seq<Result<SpecTok, TokenizerError>>,
)
    requires
        args.len() >= 1,
        simple_args(args),
    ensures
        spec_call_args(rt_args(args) + (seq![it_rp()] + rest), acc) == (CallRes {
            res: Ok(acc + args),
            rest,
        }),
    decreases args, 0int,
{
    reveal_with_fuel(rt_args_tail, 1);
    broadcast use vstd::seq::axiom_seq_index_decreases;

    let a0 = args[0];
    let t2 = args.drop_first();
    assert(decreases_to!(args => args[0]));
    let items = rt_args(args) + (seq![it_rp()] + rest);
    if args.len() == 1 {
        assert(rt_args_tail(t2) =~= Seq::<Result<SpecTok, TokenizerError>>::empty());
        assert(rt_args(args) =~= rt(a0));
        assert(items =~= rt(a0) + (seq![it_rp()] + rest));
        assert((seq![it_rp()] + rest)[0] == it_rp());
        lemma_a(a0, seq![it_rp()] + rest, 0);
        assert((seq![it_rp()] + rest).skip(1) =~= rest);
        assert(acc.push(a0) =~= acc + args);
    } else {
        assert(rt_args_tail(t2) =~= seq![it_comma()] + rt_args(t2));
        let follow = seq![it_comma()] + (rt_args(t2) + (seq![it_rp()] + rest));
        assert(rt_args(args) =~= rt(a0) + (seq![it_comma()] + rt_args(t2)));
        assert(items =~= rt(a0) + follow);
        assert(follow[0] == it_comma());
        lemma_a(a0, follow, 0);
        assert(follow.skip(1) =~= rt_args(t2) + (seq![it_rp()] + rest));
        vstd::seq::axiom_seq_len_decreases(args, t2);
        lemma_call_args_parse(t2, acc.push(a0), rest);
        assert(acc.push(a0) + t2 =~= acc + args);
    }
}

/// A rendered expression parses as one primary expression: renders are
/// either single tokens or fully parenthesized, so the primary parser
/// consumes exactly the rendering.
proof fn lemma_p(e: SpecExpr, rest: Seq<Result<SpecTok, TokenizerError>>)
    requires
        simple(e),
        name_stopper(first_item(rest)),
    ensures
        spec_primary(rt(e) + rest) == (PRes { res: Ok(e), rest }),
    decreases e, 1int,
{
    match e {
        SpecExpr::Lit { value } => {
            let items = rt(e) + rest;
            assert(items[0] == it_lit(value));
            assert(items.skip(1) =~= rest);
        },
        SpecExpr::Name(p) => {
            lemma_p_name(e, rest);
        },
        SpecExpr::Prefix { op, right } => {
            lemma_p_prefix(e, rest);
        },
        SpecExpr::Infix { left, op, right } => {
            lemma_p_infix(e, rest);
        },
        SpecExpr::Postfix { left, op } => {
            lemma_p_postfix(e, rest);
        },
        SpecExpr::Index { expr, with } => {
            lemma_p_index(e, rest);
        },
        SpecExpr::Call { function, arguments } => {
            lemma_p_call(e, rest);
        },
    }
}

#[verifier::rlimit(100)]
proof fn lemma_p_name(e: SpecExpr, rest: Seq<Result<SpecTok, TokenizerError>>)
    requires
        simple(e),
        name_stopper(first_item(rest)),
        e is Name,
    ensures
        spec_primary(rt(e) + rest) == (PRes { res: Ok(e), rest }),
    decreases e, 0int,
{
    let items = rt(e) + rest;
    let p = e->Name_0;
    assert(items[0] == it_ident(p.head));
    match p.tail {
        None => {
            assert(rt(e) =~= seq![it_ident(p.head)]);
            assert(items.skip(1) =~= rest);
        },
        Some(t) => {
            assert(rt(e) =~= seq![it_ident(p.head)] + (seq![it_dc()] + rt_segs(t)));
            let rest1 = items.skip(1);
            assert(rest1 =~= seq![it_dc()] + (rt_segs(t) + rest));
            assert(rest1[0] == it_dc());
            assert(rest1.skip(1) =~= rt_segs(t) + rest);
            lemma_path_tail_parse(t, Seq::empty(), rest);
            assert(Seq::<Seq<char>>::empty() + t =~= t);
            assert((SpecPath { head: p.head, tail: Some(t) }) == p);
        },
    }
}

#[verifier::rlimit(100)]
proof fn lemma_p_prefix(e: SpecExpr, rest: Seq<Result<SpecTok, TokenizerError>>)
    requires
        simple(e),
        name_stopper(first_item(rest)),
        e is Prefix,
    ensures
        spec_primary(rt(e) + rest) == (PRes { res: Ok(e), rest }),
    decreases e, 0int,
{
    let items = rt(e) + rest;
    let op = e->Prefix_op;
    let r = *e->Prefix_right;
    assert(rt(e) =~= seq![it_lp(), it_op(op)] + rt(r) + seq![it_rp()]);
    assert(items[0] == it_lp());
    let inner = items.skip(1);
    assert(inner =~= seq![it_op(op)] + (rt(r) + (seq![it_rp()] + rest)));
    assert(inner[0] == it_op(op));
    assert(inner.skip(1) =~= rt(r) + (seq![it_rp()] + rest));
    assert((seq![it_rp()] + rest)[0] == it_rp());
    lemma_a(r, seq![it_rp()] + rest, 5);
    assert(spec_primary(inner) == (PRes { res: Ok(e), rest: seq![it_rp()] + rest }));
    lemma_climb_stops(e, seq![it_rp()] + rest, 0);
    assert(spec_expr_bp(inner, 0) == (PRes { res: Ok(e), rest: seq![it_rp()] + rest }));
    assert((seq![it_rp()] + rest).skip(1) =~= rest);
}

#[verifier::rlimit(100)]
proof fn lemma_p_infix(e: SpecExpr, rest: Seq<Result<SpecTok, TokenizerError>>)
    requires
        simple(e),
        name_stopper(first_item(rest)),
        e is Infix,
    ensures
        spec_primary(rt(e) + rest) == (PRes { res: Ok(e), rest }),
    decreases e, 0int,
{
    let items = rt(e) + rest;
    let l = *e->Infix_left;
    let op = e->Infix_op;
    let r = *e->Infix_right;
    assert(rt(e) =~= seq![it_lp()] + rt(l) + seq![it_op(op)] + rt(r) + seq![it_rp()]);
    assert(items[0] == it_lp());
    let follow = seq![it_op(op)] + (rt(r) + (seq![it_rp()] + rest));
    let inner = items.skip(1);
    assert(inner =~= rt(l) + follow);
    assert(follow[0] == it_op(op));
    lemma_p(l, follow);
    assert(follow.skip(1) =~= rt(r) + (seq![it_rp()] + rest));
    assert((seq![it_rp()] + rest)[0] == it_rp());
    let r_bp: u8 = if op == Operator::Plus || op == Operator::Minus {
        2
    } else {
        4
    };
    lemma_a(r, seq![it_rp()] + rest, r_bp);
    lemma_climb_stops(e, seq![it_rp()] + rest, 0);
    assert(spec_climb(l, follow, 0) == (PRes { res: Ok(e), rest: seq![it_rp()] + rest }));
    assert(spec_expr_bp(inner, 0) == (PRes { res: Ok(e), rest: seq![it_rp()] + rest }));
    assert((seq![it_rp()] + rest).skip(1) =~= rest);
}

#[verifier::rlimit(100)]
proof fn lemma_p_postfix(e: SpecExpr, rest: Seq<Result<SpecTok, TokenizerError>>)
    requires
        simple(e),
        name_stopper(first_item(rest)),
        e is Postfix,
    ensures
        spec_primary(rt(e) + rest) == (PRes { res: Ok(e), rest }),
    decreases e, 0int,
{
    let items = rt(e) + rest;
    let l = *e->Postfix_left;
    let op = e->Postfix_op;
    assert(rt(e) =~= seq![it_lp()] + rt(l) + seq![it_op(op), it_rp()]);
    assert(items[0] == it_lp());
    let follow = seq![it_op(op)] + (seq![it_rp()] + rest);
    let inner = items.skip(1);
    assert(inner =~= rt(l) + follow);
    assert(follow[0] == it_op(op));
    lemma_p(l, follow);
    assert(follow.skip(1) =~= seq![it_rp()] + rest);
    assert((seq![it_rp()] + rest)[0] == it_rp());
    lemma_climb_stops(e, seq![it_rp()] + rest, 0);
    assert(spec_climb(l, follow, 0) == (PRes { res: Ok(e), rest: seq![it_rp()] + rest }));
    assert(spec_expr_bp(inner, 0) == (PRes { res: Ok(e), rest: seq![it_rp()] + rest }));
    assert((seq![it_rp()] + rest).skip(1) =~= rest);
}

#[verifier::rlimit(100)]
proof fn lemma_p_index(e: SpecExpr, rest: Seq<Result<SpecTok, TokenizerError>>)
    requires
        simple(e),
        name_stopper(first_item(rest)),
        e is Index,
    ensures
        spec_primary(rt(e) + rest) == (PRes { res: Ok(e), rest }),
    decreases e, 0int,
{
    let items = rt(e) + rest;
    let a = *e->Index_expr;
    let w = *e->Index_with;
    assert(rt(e) =~= seq![it_lp()] + rt(a) + seq![it_lsq()] + rt(w) + seq![it_rsq(), it_rp()]);
    assert(items[0] == it_lp());
    let after_w = seq![it_rsq()] + (seq![it_rp()] + rest);
    let follow = seq![it_lsq()] + (rt(w) + after_w);
    let inner = items.skip(1);
    assert(inner =~= rt(a) + follow);
    assert(follow[0] == it_lsq());
    lemma_p(a, follow);
    assert(follow.skip(1) =~= rt(w) + after_w);
    assert(after_w[0] == it_rsq());
    lemma_a(w, after_w, 0);
    assert(after_w.skip(1) =~= seq![it_rp()] + rest);
    assert((seq![it_rp()] + rest)[0] == it_rp());
    lemma_climb_stops(e, seq![it_rp()] + rest, 0);
    assert(spec_climb(a, follow, 0) == (PRes { res: Ok(e), rest: seq![it_rp()] + rest }));
    assert(spec_expr_bp(inner, 0) == (PRes { res: Ok(e), rest: seq![it_rp()] + rest }));
    assert((seq![it_rp()] + rest).skip(1) =~= rest);
}

#[verifier::rlimit(100)]
proof fn lemma_p_call(e: SpecExpr, rest: Seq<Result<SpecTok, TokenizerError>>)
    requires
        simple(e),
        name_stopper(first_item(rest)),
        e is Call,
    ensures
        spec_primary(rt(e) + rest) == (PRes { res: Ok(e), rest }),
    decreases e, 0int,
{
    let items = rt(e) + rest;
    let function = e->Call_function;
    let arguments = e->Call_arguments;
    assert(decreases_to!(e => arguments));
    let close = seq![it_rp()] + rest;
    let after_args = seq![it_rp()] + close;
    assert(rt(e) =~= seq![it_lp()] + rt_path(function) + seq![it_lp()] + rt_args(arguments) + seq![
        it_rp(),
        it_rp(),
    ]);
    assert(items[0] == it_lp());
    let inner = items.skip(1);
    assert(inner =~= rt_path(function) + (seq![it_lp()] + (rt_args(arguments) + after_args)));
    lemma_call_args_parse(arguments, Seq::empty(), close);
    assert(Seq::<SpecExpr>::empty() + arguments =~= arguments);
    let head_tok = it_ident(function.head);
    assert(inner[0] == head_tok);
    match function.tail {
        None => {
            assert(rt_path(function) =~= seq![head_tok]);
            let rest1 = inner.skip(1);
            assert(rest1 =~= seq![it_lp()] + (rt_args(arguments) + after_args));
            assert(rest1[0] == it_lp());
            assert(rest1.skip(1) =~= rt_args(arguments) + (seq![it_rp()] + close));
            assert((SpecPath { head: function.head, tail: None }) == function);
            assert(spec_primary(inner) == (PRes { res: Ok(e), rest: close }));
        },
        Some(t) => {
            assert(rt_path(function) =~= seq![head_tok] + (seq![it_dc()] + rt_segs(t)));
            let rest1 = inner.skip(1);
            assert(rest1 =~= seq![it_dc()] + (rt_segs(t) + (seq![it_lp()] + (rt_args(arguments)
                + after_args))));
            assert(rest1[0] == it_dc());
            let segrest = seq![it_lp()] + (rt_args(arguments) + after_args);
            assert(rest1.skip(1) =~= rt_segs(t) + segrest);
            assert(segrest[0] == it_lp());
            lemma_path_tail_parse(t, Seq::empty(), segrest);
            assert(Seq::<Seq<char>>::empty() + t =~= t);
            assert((SpecPath { head: function.head, tail: Some(t) }) == function);
            assert(segrest.skip(1) =~= rt_args(arguments) + (seq![it_rp()] + close));
            assert(spec_primary(inner) == (PRes { res: Ok(e), rest: close }));
        },
    }
    assert(close[0] == it_rp());
    lemma_climb_stops(e, close, 0);
    assert(spec_expr_bp(inner, 0) == (PRes { res: Ok(e), rest: close }));
    assert(close.skip(1) =~= rest);
}

/// A rendered expression parses whole at any minimum binding power, leaving
/// exactly what follows it.
proof fn lemma_a(e: SpecExpr, rest: Seq<Result<SpecTok, TokenizerError>>, min_bp: u8)
    requires
        simple(e),
        stopper(first_item(rest)),
    ensures
        spec_expr_bp(rt(e) + rest, min_bp) == (PRes { res: Ok(e), rest }),
    decreases e, 2int,
{
    lemma_p(e, rest);
    lemma_climb_stops(e, rest, min_bp);
}

/// LAW — round trip.  For every expression of the class [`simple`] — built
/// from `+ - * /` (infix and prefix), postfix `!`, literals, names, calls
/// and indices — parsing the token stream of its canonical rendering
/// returns exactly the expression, with the whole stream consumed.
pub proof fn lemma_render_parse_round_trip(e: SpecExpr)
    requires
        simple(e),
    ensures
        spec_expr_bp(rt(e), 0) == (PRes {
            res: Ok(e),
            rest: Seq::<Result<SpecTok, TokenizerError>>::empty(),
        }),
{
    assert(rt(e) + Seq::<Result<SpecTok, TokenizerError>>::empty() =~= rt(e));
    lemma_a(e, Seq::empty(), 0);
}

} // verus!
