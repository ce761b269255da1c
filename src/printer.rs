use vstd::prelude::*;
use crate::grammar::is_digit;
use crate::types::{BinOp, Expr, Term, term_of};

verus! {

/// One or more decimal digits.
pub open spec fn is_numeral(d: Seq<char>) -> bool {
    d.len() > 0 && forall|i: int| 0 <= i < d.len() ==> #[trigger] is_digit(d[i])
}

/// Built from numerals and the five operators alone.
pub open spec fn arith_shape(t: Term) -> bool
    decreases t,
{
    match t {
        Term::Lit(_) => true,
        Term::Bin(_, a, b) => arith_shape(*a) && arith_shape(*b),
        _ => false,
    }
}

/// Built from numerals and the five operators alone, each numeral one or more digits.
pub open spec fn is_arith(t: Term) -> bool
    decreases t,
{
    match t {
        Term::Lit(d) => is_numeral(d),
        Term::Bin(_, a, b) => is_arith(*a) && is_arith(*b),
        _ => false,
    }
}

pub open spec fn op_char(op: BinOp) -> char {
    match op {
        BinOp::Add => '+',
        BinOp::Sub => '-',
        BinOp::Mul => '*',
        BinOp::Div => '/',
        BinOp::Pow => '^',
    }
}

/// The text of an arithmetic term: numerals as written, every operation in parentheses.
pub open spec fn text_of(t: Term) -> Seq<char>
    decreases t,
{
    match t {
        Term::Lit(d) => d,
        Term::Bin(op, a, b) => seq!['('] + text_of(*a) + seq![op_char(op)] + text_of(*b) + seq![')'],
        _ => Seq::empty(),
    }
}

fn op_text(op: BinOp) -> (r: &'static str)
    ensures
        r@ == seq![op_char(op)],
{
    proof {
        reveal_strlit("+");
        reveal_strlit("-");
        reveal_strlit("*");
        reveal_strlit("/");
        reveal_strlit("^");
    }
    match op {
        BinOp::Add => "+",
        BinOp::Sub => "-",
        BinOp::Mul => "*",
        BinOp::Div => "/",
        BinOp::Pow => "^",
    }
}

fn write_text(e: &Expr, out: &mut String) -> (ok: bool)
    ensures
        ok == arith_shape(term_of(*e)),
        ok ==> final(out)@ == old(out)@ + text_of(term_of(*e)),
    decreases e,
{
    let (op, a, b) = match e {
        Expr::ENum(d) => {
            out.append(d.as_str());
            return true;
        },
        Expr::EAdd(a, b) => (BinOp::Add, a, b),
        Expr::ESub(a, b) => (BinOp::Sub, a, b),
        Expr::EMul(a, b) => (BinOp::Mul, a, b),
        Expr::EDiv(a, b) => (BinOp::Div, a, b),
        Expr::EExp(a, b) => (BinOp::Pow, a, b),
        _ => return false,
    };
    proof {
        reveal_strlit("(");
        reveal_strlit(")");
    }
    out.append("(");
    if !write_text(a, out) {
        return false;
    }
    out.append(op_text(op));
    if !write_text(b, out) {
        return false;
    }
    out.append(")");
    proof {
        assert(final(out)@ =~= old(out)@ + text_of(term_of(*e)));
    }
    true
}

/// The text of an arithmetic expression, every operation in parentheses; `None` for any
/// other construct.
pub fn to_text(e: &Expr) -> (r: Option<String>)
    ensures
        match r {
            Some(s) => arith_shape(term_of(*e)) && s@ == text_of(term_of(*e)),
            None => !arith_shape(term_of(*e)),
        },
{
    let mut out = String::new();
    if write_text(e, &mut out) {
        proof {
            assert(out@ =~= text_of(term_of(*e)));
        }
        Some(out)
    } else {
        None
    }
}

} // verus!
