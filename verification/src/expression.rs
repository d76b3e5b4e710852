//! The expression tree the parser builds, its ghost-level abstraction
//! (positions and vectors replaced by sequences), and the canonical
//! bracketed rendering.
use vstd::prelude::*;

verus! {

use crate::token::{abs_lit, Literal, Operator, SpecLit};

/// A possibly multi-segment scoped name such as `a::b::c`.  `tail` is `None`
/// until at least one scope separator was consumed; each element is the text
/// of one further segment.
#[derive(Debug, Clone, PartialEq, Eq)]
pub struct Path {
    pub head: Vec<char>,
    pub tail: Option<Vec<Vec<char>>>,
}

impl Path {
    pub fn new(head: Vec<char>, tail: Option<Vec<Vec<char>>>) -> (r: Self)
        ensures
            r.head == head,
            r.tail == tail,
    {
        Self { head, tail }
    }
}

/// Ghost-level image of a [`Path`]: the segment texts alone.
pub struct SpecPath {
    pub head: Seq<char>,
    pub tail: Option<Seq<Seq<char>>>,
}

pub open spec fn abs_path(p: Path) -> SpecPath {
    SpecPath {
        head: p.head@,
        tail: match p.tail {
            Some(v) => Some(v.deep_view()),
            None => None,
        },
    }
}

/// An expression tree: a strict tree with exclusive child ownership.
#[derive(Debug, PartialEq, Eq)]
pub enum Expression {
    Prefix { op: Operator, right: Box<Expression> },
    Infix { left: Box<Expression>, op: Operator, right: Box<Expression> },
    Postfix { left: Box<Expression>, op: Operator },
    Call { function: Path, arguments: Vec<Expression> },
    Name(Path),
    Lit { value: Literal },
    Index { expr: Box<Expression>, with: Box<Expression> },
}

/// Ghost-level image of an [`Expression`]: the same tree shape over sequences,
/// what the parser's contract speaks of.
pub enum SpecExpr {
    Prefix { op: Operator, right: Box<SpecExpr> },
    Infix { left: Box<SpecExpr>, op: Operator, right: Box<SpecExpr> },
    Postfix { left: Box<SpecExpr>, op: Operator },
    Call { function: SpecPath, arguments: Seq<SpecExpr> },
    Name(SpecPath),
    Lit { value: SpecLit },
    Index { expr: Box<SpecExpr>, with: Box<SpecExpr> },
}

pub open spec fn abs_expr(e: Expression) -> SpecExpr
    decreases e,
    via abs_expr_decreases
{
    match e {
        Expression::Prefix { op, right } => SpecExpr::Prefix {
            op,
            right: Box::new(abs_expr(*right)),
        },
        Expression::Infix { left, op, right } => SpecExpr::Infix {
            left: Box::new(abs_expr(*left)),
            op,
            right: Box::new(abs_expr(*right)),
        },
        Expression::Postfix { left, op } => SpecExpr::Postfix {
            left: Box::new(abs_expr(*left)),
            op,
        },
        Expression::Call { function, arguments } => SpecExpr::Call {
            function: abs_path(function),
            arguments: abs_expr_seq(arguments@),
        },
        Expression::Name(p) => SpecExpr::Name(abs_path(p)),
        Expression::Lit { value } => SpecExpr::Lit { value: abs_lit(value) },
        Expression::Index { expr, with } => SpecExpr::Index {
            expr: Box::new(abs_expr(*expr)),
            with: Box::new(abs_expr(*with)),
        },
    }
}

pub open spec fn abs_expr_seq(s: Seq<Expression>) -> Seq<SpecExpr>
    decreases s,
    via abs_expr_seq_decreases
{
    if s.len() == 0 {
        Seq::empty()
    } else {
        seq![abs_expr(s[0])] + abs_expr_seq(s.drop_first())
    }
}

// ---------------------------------------------------------------------------
// The canonical textual form
// ---------------------------------------------------------------------------

/// The decimal digit character for a value below ten.
pub open spec fn digit_char(d: nat) -> char {
    (((d + 48) % 256) as u8) as char
}

/// The decimal digits of a number, most significant first.
pub open spec fn dec_digits(n: nat) -> Seq<char>
    decreases n,
{
    if n < 10 {
        seq![digit_char(n)]
    } else {
        dec_digits(n / 10).push(digit_char(n % 10))
    }
}

/// The characters of an operator, as written in source text.
pub open spec fn op_chars(op: Operator) -> Seq<char> {
    match op {
        Operator::Plus => seq!['+'],
        Operator::Minus => seq!['-'],
        Operator::DoublePlus => seq!['+', '+'],
        Operator::DoubleMinus => seq!['-', '-'],
        Operator::Tilda => seq!['~'],
        Operator::Bang => seq!['!'],
        Operator::Star => seq!['*'],
        Operator::Slash => seq!['/'],
        Operator::BangEquals => seq!['!', '='],
        Operator::RightShift => seq!['>', '>'],
        Operator::LesserThan => seq!['<'],
        Operator::DoubleStar => seq!['*', '*'],
        Operator::DoubleAnd => seq!['&', '&'],
        Operator::DoubleOr => seq!['|', '|'],
        Operator::DoubleEquals => seq!['=', '='],
        Operator::GreaterThan => seq!['>'],
        Operator::Caret => seq!['^'],
        Operator::Percent => seq!['%'],
        Operator::SingleAnd => seq!['&'],
        Operator::SingleOr => seq!['|'],
        Operator::LeftShift => seq!['<', '<'],
        Operator::Equals => seq!['='],
        Operator::PlusEquals => seq!['+', '='],
        Operator::MinusEquals => seq!['-', '='],
        Operator::StarEquals => seq!['*', '='],
        Operator::SlashEquals => seq!['/', '='],
        Operator::TildaEquals => seq!['~', '='],
        Operator::DoubleStarEquals => seq!['*', '*', '='],
        Operator::DoubleAndEquals => seq!['&', '&', '='],
        Operator::DoubleOrEquals => seq!['|', '|', '='],
        Operator::LesserThanEquals => seq!['<', '='],
        Operator::GreaterThanEquals => seq!['>', '='],
        Operator::CaretEquals => seq!['^', '='],
        Operator::PercentEquals => seq!['%', '='],
        Operator::SingleAndEquals => seq!['&', '='],
        Operator::SingleOrEquals => seq!['|', '='],
        Operator::LeftShiftEquals => seq!['<', '<', '='],
        Operator::RightShiftEquals => seq!['>', '>', '='],
    }
}

/// The characters of a fractional digit run.
pub open spec fn frac_chars(f: Seq<u8>) -> Seq<char>
    decreases f.len(),
{
    if f.len() == 0 {
        Seq::empty()
    } else {
        seq![digit_char(f[0] as nat)] + frac_chars(f.drop_first())
    }
}

/// The further segments of a path, each preceded by the scope separator.
pub open spec fn render_tail(t: Seq<Seq<char>>) -> Seq<char>
    decreases t.len(),
{
    if t.len() == 0 {
        Seq::empty()
    } else {
        seq![':', ':'] + t[0] + render_tail(t.drop_first())
    }
}

/// A path as written: its head, then `::` before each further segment.
pub open spec fn render_path(p: SpecPath) -> Seq<char> {
    p.head + match p.tail {
        None => Seq::<char>::empty(),
        Some(t) => render_tail(t),
    }
}

/// A literal in its natural textual form: numbers in decimal, strings
/// double-quoted (the content as stored, without re-escaping), characters
/// single-quoted.
pub open spec fn render_lit(l: SpecLit) -> Seq<char> {
    match l {
        SpecLit::Integer(i) => dec_digits(i as nat),
        SpecLit::Real { int_part, frac } => dec_digits(int_part as nat) + seq!['.'] + frac_chars(
            frac,
        ),
        SpecLit::Str(s) => seq!['"'] + s + seq!['"'],
        SpecLit::Char(c) => seq!['\''] + seq![c] + seq!['\''],
    }
}

/// The canonical bracketed rendering of an expression: infix as
/// `(left op right)`, prefix as `(op operand)`, postfix as `(operand op)`,
/// index as `(expr[index])`, call as `(path(arg, arg))`, names and literals
/// bare.
pub open spec fn spec_render(e: SpecExpr) -> Seq<char>
    decreases e,
    via spec_render_decreases
{
    match e {
        SpecExpr::Name(p) => render_path(p),
        SpecExpr::Lit { value } => render_lit(value),
        SpecExpr::Prefix { op, right } => seq!['('] + op_chars(op) + spec_render(*right) + seq![
            ')',
        ],
        SpecExpr::Infix { left, op, right } => seq!['('] + spec_render(*left) + seq![' ']
            + op_chars(op) + seq![' '] + spec_render(*right) + seq![')'],
        SpecExpr::Index { expr, with } => seq!['('] + spec_render(*expr) + seq!['['] + spec_render(
            *with,
        ) + seq![']', ')'],
        SpecExpr::Postfix { left, op } => seq!['('] + spec_render(*left) + op_chars(op) + seq![
            ')',
        ],
        SpecExpr::Call { function, arguments } => seq!['('] + render_path(function) + seq!['(']
            + render_args(arguments) + seq![')', ')'],
    }
}

/// Call arguments in order, separated by a comma and a space.
pub open spec fn render_args(args: Seq<SpecExpr>) -> Seq<char>
    decreases args,
    via render_args_decreases
{
    if args.len() == 0 {
        Seq::empty()
    } else {
        spec_render(args[0]) + render_args_tail(args.drop_first())
    }
}

pub open spec fn render_args_tail(args: Seq<SpecExpr>) -> Seq<char>
    decreases args, 1int,
    via render_args_tail_decreases
{
    if args.len() == 0 {
        Seq::empty()
    } else {
        seq![',', ' '] + spec_render(args[0]) + render_args_tail(args.drop_first())
    }
}

#[via_fn]
proof fn spec_render_decreases(e: SpecExpr) {
    broadcast use vstd::seq::axiom_seq_index_decreases;

    match e {
        SpecExpr::Call { function, arguments } => {
            assert(decreases_to!(e => arguments));
        },
        _ => {},
    }
}

#[via_fn]
proof fn render_args_decreases(args: Seq<SpecExpr>) {
    broadcast use vstd::seq::axiom_seq_index_decreases;

    if args.len() > 0 {
        assert(decreases_to!(args => args[0]));
        vstd::seq::axiom_seq_len_decreases(args, args.drop_first());
    }
}

#[via_fn]
proof fn render_args_tail_decreases(args: Seq<SpecExpr>) {
    broadcast use vstd::seq::axiom_seq_index_decreases;

    if args.len() > 0 {
        assert(decreases_to!(args => args[0]));
        vstd::seq::axiom_seq_len_decreases(args, args.drop_first());
    }
}

#[via_fn]
proof fn abs_expr_decreases(e: Expression) {
    broadcast use vstd::std_specs::vec::group_vec_axioms;

    match e {
        Expression::Call { function, arguments } => {
            assert(decreases_to!(e => arguments));
            assert(decreases_to!(arguments => arguments@));
        },
        _ => {},
    }
}

/// Abstracting a list of expressions commutes with appending one.
pub proof fn lemma_abs_expr_seq_push(s: Seq<Expression>, e: Expression)
    ensures
        abs_expr_seq(s.push(e)) == abs_expr_seq(s).push(abs_expr(e)),
    decreases s.len(),
{
    if s.len() == 0 {
        assert(s.push(e)[0] == e);
        assert(s.push(e).drop_first() =~= Seq::<Expression>::empty());
        assert(abs_expr_seq(s.push(e)) =~= abs_expr_seq(s).push(abs_expr(e))) by {
            reveal_with_fuel(abs_expr_seq, 3);
        }
    } else {
        assert(s.push(e)[0] == s[0]);
        assert(s.push(e).drop_first() =~= s.drop_first().push(e));
        lemma_abs_expr_seq_push(s.drop_first(), e);
        assert(abs_expr_seq(s.push(e)) =~= abs_expr_seq(s).push(abs_expr(e))) by {
            reveal_with_fuel(abs_expr_seq, 2);
        }
    }
}

#[via_fn]
proof fn abs_expr_seq_decreases(s: Seq<Expression>) {
    broadcast use vstd::seq::axiom_seq_index_decreases;

    if s.len() > 0 {
        assert(decreases_to!(s => s[0]));
        vstd::seq::axiom_seq_len_decreases(s, s.drop_first());
    }
}

/// Append the decimal digits of `n`, most significant first.
fn push_dec(out: &mut Vec<char>, n: u64)
    ensures
        final(out)@ == old(out)@ + dec_digits(n as nat),
    decreases n,
{
    if n < 10 {
        out.push(((n as u8) + 48) as char);
        proof {
            assert(final(out)@ =~= old(out)@ + dec_digits(n as nat));
        }
    } else {
        push_dec(out, n / 10);
        out.push((((n % 10) as u8) + 48) as char);
        proof {
            assert(dec_digits(n as nat) =~= dec_digits(n as nat / 10).push(
                digit_char(n as nat % 10),
            ));
            assert(final(out)@ =~= old(out)@ + dec_digits(n as nat));
        }
    }
}

/// Append the characters of an operator.
fn push_op(out: &mut Vec<char>, op: Operator)
    ensures
        final(out)@ == old(out)@ + op_chars(op),
{
    match op {
        Operator::Plus => out.push('+'),
        Operator::Minus => out.push('-'),
        Operator::DoublePlus => {
            out.push('+');
            out.push('+');
        },
        Operator::DoubleMinus => {
            out.push('-');
            out.push('-');
        },
        Operator::Tilda => out.push('~'),
        Operator::Bang => out.push('!'),
        Operator::Star => out.push('*'),
        Operator::Slash => out.push('/'),
        Operator::BangEquals => {
            out.push('!');
            out.push('=');
        },
        Operator::RightShift => {
            out.push('>');
            out.push('>');
        },
        Operator::LesserThan => out.push('<'),
        Operator::DoubleStar => {
            out.push('*');
            out.push('*');
        },
        Operator::DoubleAnd => {
            out.push('&');
            out.push('&');
        },
        Operator::DoubleOr => {
            out.push('|');
            out.push('|');
        },
        Operator::DoubleEquals => {
            out.push('=');
            out.push('=');
        },
        Operator::GreaterThan => out.push('>'),
        Operator::Caret => out.push('^'),
        Operator::Percent => out.push('%'),
        Operator::SingleAnd => out.push('&'),
        Operator::SingleOr => out.push('|'),
        Operator::LeftShift => {
            out.push('<');
            out.push('<');
        },
        Operator::Equals => out.push('='),
        Operator::PlusEquals => {
            out.push('+');
            out.push('=');
        },
        Operator::MinusEquals => {
            out.push('-');
            out.push('=');
        },
        Operator::StarEquals => {
            out.push('*');
            out.push('=');
        },
        Operator::SlashEquals => {
            out.push('/');
            out.push('=');
        },
        Operator::TildaEquals => {
            out.push('~');
            out.push('=');
        },
        Operator::DoubleStarEquals => {
            out.push('*');
            out.push('*');
            out.push('=');
        },
        Operator::DoubleAndEquals => {
            out.push('&');
            out.push('&');
            out.push('=');
        },
        Operator::DoubleOrEquals => {
            out.push('|');
            out.push('|');
            out.push('=');
        },
        Operator::LesserThanEquals => {
            out.push('<');
            out.push('=');
        },
        Operator::GreaterThanEquals => {
            out.push('>');
            out.push('=');
        },
        Operator::CaretEquals => {
            out.push('^');
            out.push('=');
        },
        Operator::PercentEquals => {
            out.push('%');
            out.push('=');
        },
        Operator::SingleAndEquals => {
            out.push('&');
            out.push('=');
        },
        Operator::SingleOrEquals => {
            out.push('|');
            out.push('=');
        },
        Operator::LeftShiftEquals => {
            out.push('<');
            out.push('<');
            out.push('=');
        },
        Operator::RightShiftEquals => {
            out.push('>');
            out.push('>');
            out.push('=');
        },
    }
    proof {
        assert(final(out)@ =~= old(out)@ + op_chars(op));
    }
}

/// Append the characters of another vector.
fn push_all(out: &mut Vec<char>, v: &Vec<char>)
    ensures
        final(out)@ == old(out)@ + v@,
{
    let mut k: usize = 0;
    while k < v.len()
        invariant
            k <= v@.len(),
            out@ == old(out)@ + v@.take(k as int),
        decreases v@.len() - k,
    {
        out.push(v[k]);
        proof {
            assert(old(out)@ + v@.take(k + 1int) =~= (old(out)@ + v@.take(k as int)).push(
                v@[k as int],
            ));
        }
        k = k + 1;
    }
    proof {
        assert(v@.take(v@.len() as int) =~= v@);
        assert(old(out)@ + v@.take(v@.len() as int) =~= old(out)@ + v@);
    }
}

impl Path {
    /// Append this path as written: head, then `::` before each further
    /// segment.
    fn render_into(&self, out: &mut Vec<char>)
        ensures
            final(out)@ == old(out)@ + render_path(abs_path(*self)),
        decreases self,
    {
        push_all(out, &self.head);
        match &self.tail {
            None => {
                proof {
                    assert(final(out)@ =~= old(out)@ + render_path(abs_path(*self)));
                }
            },
            Some(t) => {
                let ghost base = out@;
                let mut k: usize = 0;
                while k < t.len()
                    invariant
                        k <= t@.len(),
                        base == old(out)@ + abs_path(*self).head,
                        abs_path(*self).tail == Some(t.deep_view()),
                        out@ == base + render_tail(t.deep_view().take(k as int)),
                    decreases t@.len() - k,
                {
                    let ghost pre = out@;
                    out.push(':');
                    out.push(':');
                    push_all(out, &t[k]);
                    proof {
                        let dv = t.deep_view();
                        lemma_render_tail_push(dv.take(k as int), dv[k as int]);
                        assert(dv.take(k + 1int) =~= dv.take(k as int).push(dv[k as int]));
                        assert(out@ =~= base + render_tail(dv.take(k + 1int)));
                    }
                    k = k + 1;
                }
                proof {
                    let dv = t.deep_view();
                    assert(dv.take(dv.len() as int) =~= dv);
                    assert(final(out)@ =~= old(out)@ + render_path(abs_path(*self)));
                }
            },
        }
    }
}

/// One more fractional digit appends its character.
proof fn lemma_frac_chars_push(f: Seq<u8>, d: u8)
    ensures
        frac_chars(f.push(d)) == frac_chars(f) + seq![digit_char(d as nat)],
    decreases f.len(),
{
    if f.len() == 0 {
        assert(f.push(d)[0] == d);
        assert(f.push(d).drop_first() =~= Seq::<u8>::empty());
        assert(frac_chars(f.push(d)) =~= frac_chars(f) + seq![digit_char(d as nat)]) by {
            reveal_with_fuel(frac_chars, 3);
        }
    } else {
        assert(f.push(d)[0] == f[0]);
        assert(f.push(d).drop_first() =~= f.drop_first().push(d));
        lemma_frac_chars_push(f.drop_first(), d);
        assert(frac_chars(f.push(d)) =~= frac_chars(f) + seq![digit_char(d as nat)]) by {
            reveal_with_fuel(frac_chars, 2);
        }
    }
}

/// Rendering a tail of one more segment appends `::` and the segment.
proof fn lemma_render_tail_push(t: Seq<Seq<char>>, seg: Seq<char>)
    ensures
        render_tail(t.push(seg)) == render_tail(t) + (seq![':', ':'] + seg),
    decreases t.len(),
{
    if t.len() == 0 {
        assert(t.push(seg)[0] == seg);
        assert(t.push(seg).drop_first() =~= Seq::<Seq<char>>::empty());
        assert(render_tail(t.push(seg)) =~= render_tail(t) + (seq![':', ':'] + seg)) by {
            reveal_with_fuel(render_tail, 3);
        }
    } else {
        assert(t.push(seg)[0] == t[0]);
        assert(t.push(seg).drop_first() =~= t.drop_first().push(seg));
        lemma_render_tail_push(t.drop_first(), seg);
        assert(render_tail(t.push(seg)) =~= render_tail(t) + (seq![':', ':'] + seg)) by {
            reveal_with_fuel(render_tail, 2);
        }
    }
}

impl Expression {
    /// Append the canonical bracketed form of this expression.
    #[verifier::loop_isolation(false)]
    #[verifier::rlimit(100)]
    fn render_into(&self, out: &mut Vec<char>)
        ensures
            final(out)@ == old(out)@ + spec_render(abs_expr(*self)),
        decreases self, 0int,
    {
        match self {
            Expression::Name(p) => {
                p.render_into(out);
            },
            Expression::Lit { value } => {
                match value {
                    Literal::Number(crate::token::NumberLiteral::Integer(i)) => {
                        push_dec(out, *i);
                    },
                    Literal::Number(crate::token::NumberLiteral::Real(rl)) => {
                        push_dec(out, rl.int_part);
                        out.push('.');
                        let ghost base = out@;
                        let mut k: usize = 0;
                        while k < rl.frac_digits.len()
                            invariant
                                k <= rl.frac_digits@.len(),
                                forall|j: int|
                                    0 <= j < rl.frac_digits@.len() ==> #[trigger] rl.frac_digits@[j]
                                        < 256,
                                out@ == base + frac_chars(rl.frac_digits@.take(k as int)),
                            decreases rl.frac_digits@.len() - k,
                        {
                            out.push((rl.frac_digits[k] as u8).wrapping_add(48) as char);
                            proof {
                                let f = rl.frac_digits@;
                                assert((f[k as int] as u8).wrapping_add(48) as char == digit_char(
                                    f[k as int] as nat,
                                ));
                                lemma_frac_chars_push(f.take(k as int), f[k as int]);
                                assert(f.take(k + 1int) =~= f.take(k as int).push(f[k as int]));
                                assert(out@ =~= base + frac_chars(f.take(k + 1int)));
                            }
                            k = k + 1;
                        }
                        proof {
                            let f = rl.frac_digits@;
                            assert(f.take(f.len() as int) =~= f);
                        }
                    },
                    Literal::String(v) => {
                        out.push('"');
                        push_all(out, v);
                        out.push('"');
                    },
                    Literal::Char(c) => {
                        out.push('\'');
                        out.push(*c);
                        out.push('\'');
                    },
                }
                proof {
                    assert(final(out)@ =~= old(out)@ + spec_render(abs_expr(*self)));
                }
            },
            Expression::Prefix { op, right } => {
                out.push('(');
                push_op(out, *op);
                right.render_into(out);
                out.push(')');
                proof {
                    assert(final(out)@ =~= old(out)@ + spec_render(abs_expr(*self)));
                }
            },
            Expression::Infix { left, op, right } => {
                out.push('(');
                left.render_into(out);
                out.push(' ');
                push_op(out, *op);
                out.push(' ');
                right.render_into(out);
                out.push(')');
                proof {
                    assert(final(out)@ =~= old(out)@ + spec_render(abs_expr(*self)));
                }
            },
            Expression::Postfix { left, op } => {
                out.push('(');
                left.render_into(out);
                push_op(out, *op);
                out.push(')');
                proof {
                    assert(final(out)@ =~= old(out)@ + spec_render(abs_expr(*self)));
                }
            },
            Expression::Index { expr, with } => {
                out.push('(');
                expr.render_into(out);
                out.push('[');
                with.render_into(out);
                out.push(']');
                out.push(')');
                proof {
                    assert(final(out)@ =~= old(out)@ + spec_render(abs_expr(*self)));
                }
            },
            Expression::Call { function, arguments } => {
                out.push('(');
                function.render_into(out);
                out.push('(');
                let ghost base = out@;
                let ghost absargs = abs_expr_seq(arguments@);
                let mut k: usize = 0;
                while k < arguments.len()
                    invariant
                        k <= arguments@.len(),
                        absargs == abs_expr_seq(arguments@),
                        out@ == base + (if k == 0 {
                            Seq::<char>::empty()
                        } else {
                            render_args(absargs.take(k as int))
                        }),
                    decreases arguments@.len() - k,
                {
                    if k > 0 {
                        out.push(',');
                        out.push(' ');
                    }
                    let ghost pre = out@;
                    arguments[k].render_into(out);
                    proof {
                        lemma_abs_expr_seq_index(arguments@, k as int);
                        lemma_render_args_take_step(absargs, k as int);
                        assert(out@ =~= base + render_args(absargs.take(k + 1int)));
                    }
                    k = k + 1;
                }
                out.push(')');
                out.push(')');
                proof {
                    lemma_abs_expr_seq_len(arguments@);
                    assert(absargs.take(arguments@.len() as int) =~= absargs);
                    if arguments@.len() == 0 {
                        assert(render_args(absargs) == Seq::<char>::empty());
                    }
                    assert(final(out)@ =~= old(out)@ + spec_render(abs_expr(*self)));
                }
            },
        }
    }

    /// The canonical bracketed form, as characters.
    pub fn render_chars(&self) -> (r: Vec<char>)
        ensures
            r@ == spec_render(abs_expr(*self)),
    {
        let mut out: Vec<char> = Vec::new();
        self.render_into(&mut out);
        proof {
            assert(Seq::<char>::empty() + spec_render(abs_expr(*self)) =~= spec_render(
                abs_expr(*self),
            ));
        }
        out
    }

    /// The canonical bracketed form, as a string.
    pub fn render(&self) -> (r: String)
        ensures
            r@ == spec_render(abs_expr(*self)),
    {
        string_from_chars(self.render_chars())
    }
}

/// Abstracting a list of expressions goes element by element.
pub proof fn lemma_abs_expr_seq_index(s: Seq<Expression>, k: int)
    requires
        0 <= k < s.len(),
    ensures
        abs_expr_seq(s).len() == s.len(),
        abs_expr_seq(s)[k] == abs_expr(s[k]),
    decreases s.len(),
{
    lemma_abs_expr_seq_len(s);
    if k == 0 {
    } else {
        lemma_abs_expr_seq_index(s.drop_first(), k - 1);
    }
}

pub proof fn lemma_abs_expr_seq_len(s: Seq<Expression>)
    ensures
        abs_expr_seq(s).len() == s.len(),
    decreases s.len(),
{
    if s.len() > 0 {
        lemma_abs_expr_seq_len(s.drop_first());
    }
}

/// One more argument extends the rendered list by a separator (after the
/// first) and the argument's rendering.
proof fn lemma_render_args_take_step(args: Seq<SpecExpr>, k: int)
    requires
        0 <= k < args.len(),
    ensures
        k == 0 ==> render_args(args.take(1)) == spec_render(args[0]) + Seq::<char>::empty(),
        k > 0 ==> render_args(args.take(k + 1)) == render_args(args.take(k)) + (seq![',', ' ']
            + spec_render(args[k])),
    decreases k,
{
    if k == 0 {
        assert(args.take(1)[0] == args[0]);
        assert(args.take(1).drop_first() =~= Seq::<SpecExpr>::empty());
        assert(render_args(args.take(1)) =~= spec_render(args[0]) + Seq::<char>::empty()) by {
            reveal_with_fuel(render_args, 2);
            reveal_with_fuel(render_args_tail, 2);
        }
    } else {
        lemma_render_args_tail_push_chain(args, k);
    }
}

proof fn lemma_render_args_tail_push_chain(args: Seq<SpecExpr>, k: int)
    requires
        1 <= k < args.len(),
    ensures
        render_args(args.take(k + 1)) == render_args(args.take(k)) + (seq![',', ' ']
            + spec_render(args[k])),
{
    assert(args.take(k + 1)[0] == args[0]);
    assert(args.take(k)[0] == args[0]);
    assert(args.take(k + 1).drop_first() =~= args.take(k).drop_first().push(args[k]));
    lemma_render_tail_args_push(args.take(k).drop_first(), args[k]);
}

proof fn lemma_render_tail_args_push(t: Seq<SpecExpr>, e: SpecExpr)
    ensures
        render_args_tail(t.push(e)) == render_args_tail(t) + (seq![',', ' '] + spec_render(e)),
    decreases t.len(),
{
    if t.len() == 0 {
        assert(t.push(e)[0] == e);
        assert(t.push(e).drop_first() =~= Seq::<SpecExpr>::empty());
        assert(render_args_tail(t.push(e)) =~= render_args_tail(t) + (seq![',', ' ']
            + spec_render(e))) by {
            reveal_with_fuel(render_args_tail, 3);
        }
    } else {
        assert(t.push(e)[0] == t[0]);
        assert(t.push(e).drop_first() =~= t.drop_first().push(e));
        lemma_render_tail_args_push(t.drop_first(), e);
        assert(render_args_tail(t.push(e)) =~= render_args_tail(t) + (seq![',', ' ']
            + spec_render(e))) by {
            reveal_with_fuel(render_args_tail, 2);
        }
    }
}

/// A string made of the given characters.
///
/// Relies on Iterator::collect over str's characters: collecting an iterator
/// of chars into a String yields the string of exactly those characters.
#[verifier::external_body]
fn string_from_chars(v: Vec<char>) -> (r: String)
    ensures
        r@ == v@,
{
    v.into_iter().collect()
}

} // verus!
