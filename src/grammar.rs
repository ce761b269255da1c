use vstd::prelude::*;
use crate::types::{BinOp, Branch, Func, Term};

verus! {

// The grammar, as functions from text and a position to what is recognised there and
// the position after it. Whitespace may stand before every token.
pub open spec fn is_space(c: char) -> bool {
    c == ' ' || c == '\t' || c == '\n' || c == '\r'
}

pub open spec fn is_letter(c: char) -> bool {
    ('a' <= c && c <= 'z') || ('A' <= c && c <= 'Z')
}

pub open spec fn is_digit(c: char) -> bool {
    '0' <= c && c <= '9'
}

pub open spec fn skip_ws(s: Seq<char>, p: int) -> int
    decreases s.len() - p,
{
    if 0 <= p < s.len() && is_space(s[p]) {
        skip_ws(s, p + 1)
    } else {
        p
    }
}

pub open spec fn letters_end(s: Seq<char>, p: int) -> int
    decreases s.len() - p,
{
    if 0 <= p < s.len() && is_letter(s[p]) {
        letters_end(s, p + 1)
    } else {
        p
    }
}

pub open spec fn digits_end(s: Seq<char>, p: int) -> int
    decreases s.len() - p,
{
    if 0 <= p < s.len() && is_digit(s[p]) {
        digits_end(s, p + 1)
    } else {
        p
    }
}

/// The single character `c`.
pub open spec fn token(s: Seq<char>, p: int, c: char) -> Option<int> {
    let q = skip_ws(s, p);
    if 0 <= p <= q < s.len() && s[q] == c {
        Some(q + 1)
    } else {
        None
    }
}

/// The two characters `a` `b`, adjacent.
pub open spec fn token2(s: Seq<char>, p: int, a: char, b: char) -> Option<int> {
    let q = skip_ws(s, p);
    if 0 <= p <= q && q + 1 < s.len() && s[q] == a && s[q + 1] == b {
        Some(q + 2)
    } else {
        None
    }
}

/// A name: one or more letters.
pub open spec fn word(s: Seq<char>, p: int) -> Option<(Seq<char>, int)> {
    let q = skip_ws(s, p);
    let e = letters_end(s, q);
    if 0 <= p <= q < e <= s.len() {
        Some((s.subrange(q, e), e))
    } else {
        None
    }
}

/// The reserved word `kw`, as a whole name.
pub open spec fn keyword(s: Seq<char>, p: int, kw: Seq<char>) -> Option<int> {
    match word(s, p) {
        Some((w, e)) => if w == kw {
            Some(e)
        } else {
            None
        },
        None => None,
    }
}

/// A numeral: one or more decimal digits.
pub open spec fn numeral(s: Seq<char>, p: int) -> Option<(Seq<char>, int)> {
    let q = skip_ws(s, p);
    let e = digits_end(s, q);
    if 0 <= p <= q < e <= s.len() {
        Some((s.subrange(q, e), e))
    } else {
        None
    }
}

/// `p < q <= |s|`: the guard on every step that goes on from a position already reached.
pub open spec fn ahead(s: Seq<char>, p: int, q: int) -> bool {
    p < q <= s.len()
}

/// Parameter names after the first: `, name` repeated.
pub open spec fn params_tail(s: Seq<char>, p: int, acc: Seq<Seq<char>>) -> (Seq<Seq<char>>, int)
    decreases s.len() - p,
{
    match token(s, p, ',') {
        Some(q) => match word(s, q) {
            Some((n, r)) => if ahead(s, p, r) {
                params_tail(s, r, acc.push(n))
            } else {
                (acc, p)
            },
            None => (acc, p),
        },
        None => (acc, p),
    }
}

/// Zero or more names separated by commas.
pub open spec fn params(s: Seq<char>, p: int) -> (Seq<Seq<char>>, int) {
    match word(s, p) {
        Some((n, q)) => params_tail(s, q, seq![n]),
        None => (Seq::empty(), p),
    }
}

pub open spec fn bin(op: BinOp, a: Term, b: Term) -> Term {
    Term::Bin(op, Box::new(a), Box::new(b))
}

/// A top-level construct: a function definition, else a nested expression.
pub open spec fn p_expr(s: Seq<char>, p: int) -> Option<(Term, int)>
    decreases s.len() - p, 7nat,
{
    match p_defun(s, p) {
        Some(r) => Some(r),
        None => p_nested(s, p),
    }
}

/// A `let`, a conditional, a `return`, else an arithmetic expression.
pub open spec fn p_nested(s: Seq<char>, p: int) -> Option<(Term, int)>
    decreases s.len() - p, 6nat,
{
    match p_let(s, p) {
        Some(r) => Some(r),
        None => match p_if(s, p) {
            Some(r) => Some(r),
            None => match p_return(s, p) {
                Some(r) => Some(r),
                None => p_math(s, p),
            },
        },
    }
}

/// `define name(params) { body }`
pub open spec fn p_defun(s: Seq<char>, p: int) -> Option<(Term, int)>
    decreases s.len() - p, 5nat,
{
    match keyword(s, p, "define"@) {
        None => None,
        Some(q1) => match word(s, q1) {
            None => None,
            Some((n, q2)) => match token(s, q2, '(') {
                None => None,
                Some(q3) => {
                    let (ps, q4) = params(s, q3);
                    match token(s, q4, ')') {
                        None => None,
                        Some(q5) => if ahead(s, p, q5) {
                            match p_block(s, q5) {
                                None => None,
                                Some((body, q6)) => Some(
                                    (Term::Define(n, Func { params: ps, body }), q6),
                                ),
                            }
                        } else {
                            None
                        },
                    }
                },
            },
        },
    }
}

/// `let name = math`
pub open spec fn p_let(s: Seq<char>, p: int) -> Option<(Term, int)>
    decreases s.len() - p, 5nat,
{
    match keyword(s, p, "let"@) {
        None => None,
        Some(q1) => match word(s, q1) {
            None => None,
            Some((n, q2)) => match token(s, q2, '=') {
                None => None,
                Some(q3) => if ahead(s, p, q3) {
                    match p_math(s, q3) {
                        None => None,
                        Some((x, q4)) => Some((Term::Let(n, Box::new(x)), q4)),
                    }
                } else {
                    None
                },
            },
        },
    }
}

/// `return math`
pub open spec fn p_return(s: Seq<char>, p: int) -> Option<(Term, int)>
    decreases s.len() - p, 5nat,
{
    match keyword(s, p, "return"@) {
        None => None,
        Some(q1) => if ahead(s, p, q1) {
            match p_math(s, q1) {
                None => None,
                Some((x, q2)) => Some((Term::Return(Box::new(x)), q2)),
            }
        } else {
            None
        },
    }
}

/// `if (expr == expr) { body }`, any number of `else if (expr == expr) { body }`, and
/// `else { body }`.
pub open spec fn p_if(s: Seq<char>, p: int) -> Option<(Term, int)>
    decreases s.len() - p, 5nat,
{
    match keyword(s, p, "if"@) {
        None => None,
        Some(q1) => if ahead(s, p, q1) {
            match p_branch(s, q1) {
                None => None,
                Some((b, q2)) => if ahead(s, p, q2) {
                    p_else(s, q2, seq![b])
                } else {
                    None
                },
            }
        } else {
            None
        },
    }
}

/// What follows the guarded branches `acc`.
pub open spec fn p_else(s: Seq<char>, p: int, acc: Seq<Branch>) -> Option<(Term, int)>
    decreases s.len() - p, 0nat,
{
    match keyword(s, p, "else"@) {
        None => None,
        Some(q1) => if ahead(s, p, q1) {
            match keyword(s, q1, "if"@) {
                Some(q2) => if ahead(s, p, q2) {
                    match p_branch(s, q2) {
                        None => None,
                        Some((b, q3)) => if ahead(s, p, q3) {
                            p_else(s, q3, acc.push(b))
                        } else {
                            None
                        },
                    }
                } else {
                    None
                },
                None => match p_block(s, q1) {
                    None => None,
                    Some((body, q2)) => Some((Term::If(acc, body), q2)),
                },
            }
        } else {
            None
        },
    }
}

/// `(expr == expr) { body }`
pub open spec fn p_branch(s: Seq<char>, p: int) -> Option<(Branch, int)>
    decreases s.len() - p, 0nat,
{
    match token(s, p, '(') {
        None => None,
        Some(q1) => match p_expr(s, q1) {
            None => None,
            Some((l, q2)) => match token2(s, q2, '=', '=') {
                None => None,
                Some(q3) => if ahead(s, p, q3) {
                    match p_expr(s, q3) {
                        None => None,
                        Some((r, q4)) => match token(s, q4, ')') {
                            None => None,
                            Some(q5) => if ahead(s, p, q5) {
                                match p_block(s, q5) {
                                    None => None,
                                    Some((body, q6)) => Some((Branch { lhs: l, rhs: r, body }, q6)),
                                }
                            } else {
                                None
                            },
                        },
                    }
                } else {
                    None
                },
            },
        },
    }
}

/// `{` then nested expressions each followed by `;`, then `}`.
pub open spec fn p_block(s: Seq<char>, p: int) -> Option<(Seq<Term>, int)>
    decreases s.len() - p, 0nat,
{
    match token(s, p, '{') {
        None => None,
        Some(q) => p_stmts(s, q, Seq::empty()),
    }
}

pub open spec fn p_stmts(s: Seq<char>, p: int, acc: Seq<Term>) -> Option<(Seq<Term>, int)>
    decreases s.len() - p, 8nat,
{
    let close = match token(s, p, '}') {
        Some(q) => Some((acc, q)),
        None => None,
    };
    match p_nested(s, p) {
        None => close,
        Some((t, q1)) => match token(s, q1, ';') {
            Some(q2) => if ahead(s, p, q2) {
                p_stmts(s, q2, acc.push(t))
            } else {
                close
            },
            None => close,
        },
    }
}

/// `term`, then any number of `+ term` or `- term`, grouped to the left.
pub open spec fn p_math(s: Seq<char>, p: int) -> Option<(Term, int)>
    decreases s.len() - p, 4nat,
{
    match p_term(s, p) {
        None => None,
        Some((t, q)) => if ahead(s, p, q) {
            Some(p_math_tail(s, q, t))
        } else {
            None
        },
    }
}

pub open spec fn p_math_tail(s: Seq<char>, p: int, acc: Term) -> (Term, int)
    decreases s.len() - p, 4nat,
{
    let q = skip_ws(s, p);
    if 0 <= p <= q < s.len() && (s[q] == '+' || s[q] == '-') {
        let op = if s[q] == '+' {
            BinOp::Add
        } else {
            BinOp::Sub
        };
        match p_term(s, q + 1) {
            Some((t, r)) => if ahead(s, p, r) {
                p_math_tail(s, r, bin(op, acc, t))
            } else {
                (acc, p)
            },
            None => (acc, p),
        }
    } else {
        (acc, p)
    }
}

/// `factor`, then any number of `* factor` or `/ factor`, grouped to the left.
pub open spec fn p_term(s: Seq<char>, p: int) -> Option<(Term, int)>
    decreases s.len() - p, 3nat,
{
    match p_factor(s, p) {
        None => None,
        Some((f, q)) => if ahead(s, p, q) {
            Some(p_term_tail(s, q, f))
        } else {
            None
        },
    }
}

pub open spec fn p_term_tail(s: Seq<char>, p: int, acc: Term) -> (Term, int)
    decreases s.len() - p, 3nat,
{
    let q = skip_ws(s, p);
    if 0 <= p <= q < s.len() && (s[q] == '*' || s[q] == '/') {
        let op = if s[q] == '*' {
            BinOp::Mul
        } else {
            BinOp::Div
        };
        match p_factor(s, q + 1) {
            Some((f, r)) => if ahead(s, p, r) {
                p_term_tail(s, r, bin(op, acc, f))
            } else {
                (acc, p)
            },
            None => (acc, p),
        }
    } else {
        (acc, p)
    }
}

/// `operand`, optionally followed by `^ factor`: powers group to the right.
pub open spec fn p_factor(s: Seq<char>, p: int) -> Option<(Term, int)>
    decreases s.len() - p, 2nat,
{
    match p_operand(s, p) {
        None => None,
        Some((a, q)) => match token(s, q, '^') {
            Some(q1) => if ahead(s, p, q1) {
                match p_factor(s, q1) {
                    Some((b, q2)) => Some((bin(BinOp::Pow, a, b), q2)),
                    None => Some((a, q)),
                }
            } else {
                Some((a, q))
            },
            None => Some((a, q)),
        },
    }
}

/// A call, else a variable, else a numeral, else a parenthesised arithmetic expression.
pub open spec fn p_operand(s: Seq<char>, p: int) -> Option<(Term, int)>
    decreases s.len() - p, 1nat,
{
    match p_call(s, p) {
        Some(r) => Some(r),
        None => match word(s, p) {
            Some((n, q)) => Some((Term::Var(n), q)),
            None => match numeral(s, p) {
                Some((d, q)) => Some((Term::Lit(d), q)),
                None => match token(s, p, '(') {
                    None => None,
                    Some(q1) => match p_math(s, q1) {
                        None => None,
                        Some((x, q2)) => match token(s, q2, ')') {
                            None => None,
                            Some(q3) => Some((x, q3)),
                        },
                    },
                },
            },
        },
    }
}

/// `name(args)`
pub open spec fn p_call(s: Seq<char>, p: int) -> Option<(Term, int)>
    decreases s.len() - p, 0nat,
{
    match word(s, p) {
        None => None,
        Some((n, q1)) => match token(s, q1, '(') {
            None => None,
            Some(q2) => match p_args(s, q2) {
                None => None,
                Some((args, q3)) => match token(s, q3, ')') {
                    None => None,
                    Some(q4) => Some((Term::Call(n, args), q4)),
                },
            },
        },
    }
}

/// Zero or more top-level constructs separated by commas.
pub open spec fn p_args(s: Seq<char>, p: int) -> Option<(Seq<Term>, int)>
    decreases s.len() - p, 8nat,
{
    match p_expr(s, p) {
        None => Some((Seq::empty(), p)),
        Some((t, q)) => if ahead(s, p, q) {
            p_args_tail(s, q, seq![t])
        } else {
            None
        },
    }
}

pub open spec fn p_args_tail(s: Seq<char>, p: int, acc: Seq<Term>) -> Option<(Seq<Term>, int)>
    decreases s.len() - p, 0nat,
{
    match token(s, p, ',') {
        None => Some((acc, p)),
        Some(q1) => match p_expr(s, q1) {
            None => Some((acc, p)),
            Some((t, q2)) => if ahead(s, p, q2) {
                p_args_tail(s, q2, acc.push(t))
            } else {
                None
            },
        },
    }
}

/// The constructs of a whole text, read one after another from `p`, and whether reading
/// reached the end of the text (rather than stopping at text outside the grammar).
pub open spec fn program(s: Seq<char>, p: int) -> (Seq<Term>, bool)
    decreases s.len() - p,
{
    let q = skip_ws(s, p);
    if !(0 <= p <= q) || q >= s.len() {
        (Seq::empty(), true)
    } else {
        match p_expr(s, p) {
            Some((t, r)) => if ahead(s, p, r) {
                (seq![t] + program(s, r).0, program(s, r).1)
            } else {
                (Seq::empty(), false)
            },
            None => (Seq::empty(), false),
        }
    }
}

} // verus!
