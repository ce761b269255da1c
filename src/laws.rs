use vstd::prelude::*;
use crate::grammar::{
    bin, digits_end, is_digit, keyword, numeral, p_call, p_defun, p_expr, p_factor, p_if, p_let,
    p_math, p_math_tail, p_nested, p_operand, p_return, p_term, p_term_tail, token, word,
};
use crate::printer::{is_arith, is_numeral, op_char, text_of};
use crate::semantics::{
    Env, eval_args, eval_body, eval_conds, eval_term, host_value, select, zero,
};
use crate::types::{BinOp, Branch, Fault, Num, NumOp, OpModel, Term};

verus! {

/// A numeral evaluates to the number the host reads it as, and binds nothing.
pub proof fn law_literal<F: Fn(NumOp) -> Num>(host: F, env: Env, digits: Seq<char>, fuel: nat)
    requires
        fuel > 0,
    ensures
        eval_term(host, env, Term::Lit(digits), fuel) == (
            Ok::<(Num, bool), Fault>((host_value(host, OpModel::Literal(digits)), false)),
            env,
        ),
{
}

/// A `let` binds its value in the very environment it ran in: reading the name afterwards
/// gives the same number back.
pub proof fn law_let_persists<F: Fn(NumOp) -> Num>(
    host: F,
    env: Env,
    name: Seq<char>,
    x: Term,
    fuel: nat,
)
    requires
        fuel > 0,
        eval_term(host, env, Term::Let(name, Box::new(x)), fuel).0 is Ok,
    ensures
        ({
            let (r, after) = eval_term(host, env, Term::Let(name, Box::new(x)), fuel);
            eval_term(host, after, Term::Var(name), fuel) == (
                Ok::<(Num, bool), Fault>((r->Ok_0.0, false)),
                after,
            )
        }),
{
}

/// Arguments that are numerals bind nothing, however many there are.
proof fn lemma_literal_args_bind_nothing<F: Fn(NumOp) -> Num>(
    host: F,
    env: Env,
    args: Seq<Term>,
    i: nat,
    acc: Seq<Num>,
    fuel: nat,
)
    requires
        fuel > 0,
        forall|j: int| 0 <= j < args.len() ==> #[trigger] args[j] is Lit,
    ensures
        eval_args(host, env, args, i, acc, fuel).0 is Ok,
        eval_args(host, env, args, i, acc, fuel).1 == env,
    decreases args.len() - i,
{
    if i < args.len() {
        let t = args[i as int];
        assert(t is Lit);
        assert(eval_term(host, env, t, fuel) == (
            Ok::<(Num, bool), Fault>((host_value(host, OpModel::Literal(t->Lit_0)), false)),
            env,
        ));
        lemma_literal_args_bind_nothing(
            host,
            env,
            args,
            i + 1,
            acc.push(host_value(host, OpModel::Literal(t->Lit_0))),
            fuel,
        );
    }
}

/// A call of a user function leaves the caller's bindings as they were when its arguments
/// are numerals: what the body binds, parameters included, stays in the call's own frame.
/// So a name unbound before the call is still unbound after it.
pub proof fn law_call_does_not_leak<F: Fn(NumOp) -> Num>(
    host: F,
    env: Env,
    name: Seq<char>,
    args: Seq<Term>,
    other: Seq<char>,
    fuel: nat,
)
    requires
        fuel > 1,
        env.contains_key(name),
        env[name] is Function,
        forall|j: int| 0 <= j < args.len() ==> #[trigger] args[j] is Lit,
        !env.contains_key(other),
    ensures
        eval_term(host, env, Term::Call(name, args), fuel).1 == env,
        eval_term(host, eval_term(host, env, Term::Call(name, args), fuel).1, Term::Var(other), fuel)
            == (Err::<(Num, bool), Fault>(Fault::UndefinedVariable(other)), env),
{
    lemma_literal_args_bind_nothing(host, env, args, 0, Seq::empty(), (fuel - 1) as nat);
}

/// Calling a user function with a number of arguments other than its number of parameters
/// fails, naming the function, the parameter count and the argument count, and binds nothing.
pub proof fn law_arity_mismatch<F: Fn(NumOp) -> Num>(
    host: F,
    env: Env,
    name: Seq<char>,
    args: Seq<Term>,
    fuel: nat,
)
    requires
        fuel > 0,
        env.contains_key(name),
        env[name] is Function,
        args.len() != env[name]->Function_0.params.len(),
    ensures
        eval_term(host, env, Term::Call(name, args), fuel) == (
            Err::<(Num, bool), Fault>(
                Fault::InvalidLambdaArgs(name, env[name]->Function_0.params.len(), args.len()),
            ),
            env,
        ),
{
}

proof fn lemma_select(bs: Seq<Branch>, flags: Seq<bool>, els: Seq<Term>, i: nat, k: int)
    requires
        i <= k,
        flags.len() == bs.len(),
        forall|j: int| i <= j < k && j < bs.len() ==> !#[trigger] flags[j],
        k < bs.len() ==> flags[k],
    ensures
        select(bs, flags, els, i) == if k < bs.len() {
            bs[k].body
        } else {
            els
        },
    decreases bs.len() - i,
{
    if i < bs.len() && i < k {
        lemma_select(bs, flags, els, i + 1, k);
    }
}

/// A conditional runs exactly one body, in a fork of the environment its guards left: that of
/// the first branch whose two sides are equal, or the `else` body when there is none.
pub proof fn law_branch_selection<F: Fn(NumOp) -> Num>(
    host: F,
    env: Env,
    bs: Seq<Branch>,
    els: Seq<Term>,
    k: int,
    fuel: nat,
)
    requires
        fuel > 0,
        eval_conds(host, env, bs, 0, Seq::empty(), (fuel - 1) as nat).0 is Ok,
        eval_conds(host, env, bs, 0, Seq::empty(), (fuel - 1) as nat).0->Ok_0.len() == bs.len(),
        0 <= k <= bs.len(),
        forall|j: int|
            0 <= j < k ==> !#[trigger] eval_conds(host, env, bs, 0, Seq::empty(), (fuel - 1) as nat).0->Ok_0[j],
        k < bs.len() ==> eval_conds(host, env, bs, 0, Seq::empty(), (fuel - 1) as nat).0->Ok_0[k],
    ensures
        ({
            let after = eval_conds(host, env, bs, 0, Seq::empty(), (fuel - 1) as nat).1;
            let body = if k < bs.len() {
                bs[k].body
            } else {
                els
            };
            eval_term(host, env, Term::If(bs, els), fuel) == (
                eval_body(host, after, body, 0, zero(), (fuel - 1) as nat).0,
                after,
            )
        }),
{
    let flags = eval_conds(host, env, bs, 0, Seq::empty(), (fuel - 1) as nat).0->Ok_0;
    lemma_select(bs, flags, els, 0, k);
}

proof fn lemma_digits_run(s: Seq<char>, i: int, n: int)
    requires
        0 <= i,
        0 <= n,
        i + n <= s.len(),
        forall|j: int| i <= j < i + n ==> #[trigger] is_digit(s[j]),
        i + n == s.len() || !is_digit(s[i + n]),
    ensures
        digits_end(s, i) == i + n,
    decreases n,
{
    if n > 0 {
        lemma_digits_run(s, i + 1, n - 1);
    }
}

/// Between parentheses at `i` and `k`: operand `a`, the operator at `j`, operand `b`.
proof fn lemma_parenthesised(s: Seq<char>, i: int, j: int, k: int, op: BinOp, a: Term, b: Term)
    requires
        0 <= i,
        i + 1 < j,
        j + 1 < k < s.len(),
        p_operand(s, i + 1) == Some((a, j)),
        p_operand(s, j + 1) == Some((b, k)),
        s[j] == op_char(op),
        s[k] == ')',
    ensures
        p_math(s, i + 1) == Some((Term::Bin(op, Box::new(a), Box::new(b)), k)),
{
    let t = Term::Bin(op, Box::new(a), Box::new(b));
    assert(token(s, k, '^') is None);
    assert(p_factor(s, j + 1) == Some((b, k)));
    assert(p_term_tail(s, k, t) == (t, k));
    assert(p_math_tail(s, k, t) == (t, k));
    match op {
        BinOp::Pow => {
            assert(token(s, j, '^') == Some(j + 1));
            assert(p_factor(s, i + 1) == Some((t, k)));
            assert(p_term(s, i + 1) == Some((t, k)));
        },
        BinOp::Mul | BinOp::Div => {
            assert(token(s, j, '^') is None);
            assert(p_factor(s, i + 1) == Some((a, j)));
            assert(p_term_tail(s, j, a) == (t, k));
            assert(p_term(s, i + 1) == Some((t, k)));
        },
        BinOp::Add | BinOp::Sub => {
            assert(token(s, j, '^') is None);
            assert(p_factor(s, i + 1) == Some((a, j)));
            assert(p_term_tail(s, j, a) == (a, j));
            assert(p_term(s, i + 1) == Some((a, j)));
            assert(p_term_tail(s, k, b) == (b, k));
            assert(p_term(s, j + 1) == Some((b, k)));
            assert(p_math_tail(s, j, a) == (t, k));
        },
    }
}

/// The text of an arithmetic term, wherever it stands, reads back as an operand.
proof fn lemma_operand_reads_text(s: Seq<char>, i: int, t: Term)
    requires
        is_arith(t),
        0 <= i,
        i + text_of(t).len() <= s.len(),
        s.subrange(i, i + text_of(t).len()) == text_of(t),
        i + text_of(t).len() == s.len() || !is_digit(s[i + text_of(t).len()]),
    ensures
        text_of(t).len() > 0,
        is_digit(s[i]) || s[i] == '(',
        p_operand(s, i) == Some((t, i + text_of(t).len())),
    decreases t,
{
    let n = text_of(t).len() as int;
    match t {
        Term::Lit(d) => {
            assert(s[i] == s.subrange(i, i + n)[0]);
            assert forall|j: int| i <= j < i + n implies #[trigger] is_digit(s[j]) by {
                assert(s[j] == s.subrange(i, i + n)[j - i]);
            }
            lemma_digits_run(s, i, n);
            assert(word(s, i) is None);
            assert(p_call(s, i) is None);
            assert(numeral(s, i) == Some((d, i + n)));
        },
        Term::Bin(op, a, b) => {
            let ta = text_of(*a);
            let tb = text_of(*b);
            let j = i + 1 + ta.len();
            let k = j + 1 + tb.len();
            let whole = text_of(t);
            assert(whole == seq!['('] + ta + seq![op_char(op)] + tb + seq![')']);
            assert(n == k + 1 - i);
            assert(s[i] == s.subrange(i, i + n)[0]);
            assert(s[j] == s.subrange(i, i + n)[j - i]);
            assert(s[k] == s.subrange(i, i + n)[k - i]);
            assert(s[i] == '(');
            assert(s[j] == op_char(op));
            assert(s[k] == ')');
            assert(s.subrange(i + 1, j) =~= ta) by {
                assert forall|x: int| 0 <= x < ta.len() implies #[trigger] s.subrange(i + 1, j)[x]
                    == ta[x] by {
                    assert(s.subrange(i + 1, j)[x] == s.subrange(i, i + n)[1 + x]);
                }
            }
            assert(s.subrange(j + 1, k) =~= tb) by {
                assert forall|x: int| 0 <= x < tb.len() implies #[trigger] s.subrange(j + 1, k)[x]
                    == tb[x] by {
                    assert(s.subrange(j + 1, k)[x] == s.subrange(i, i + n)[j + 1 - i + x]);
                }
            }
            lemma_operand_reads_text(s, i + 1, *a);
            lemma_operand_reads_text(s, j + 1, *b);
            assert(word(s, i) is None);
            assert(p_call(s, i) is None);
            assert(numeral(s, i) is None);
            assert(token(s, i, '(') == Some(i + 1));
            lemma_parenthesised(s, i, j, k, op, *a, *b);
            assert(p_math(s, i + 1) == Some((t, k)));
            assert(token(s, k, ')') == Some(k + 1));
        },
        _ => {},
    }
}

/// Text that starts with a digit or `(` is read as an arithmetic expression.
proof fn lemma_starts_arithmetic(s: Seq<char>)
    requires
        s.len() > 0,
        is_digit(s[0]) || s[0] == '(',
    ensures
        p_expr(s, 0) == p_math(s, 0),
{
    assert(word(s, 0) is None);
    assert(keyword(s, 0, "define"@) is None);
    assert(keyword(s, 0, "let"@) is None);
    assert(keyword(s, 0, "if"@) is None);
    assert(keyword(s, 0, "return"@) is None);
    assert(p_defun(s, 0) is None);
    assert(p_let(s, 0) is None);
    assert(p_if(s, 0) is None);
    assert(p_return(s, 0) is None);
}

/// `x o1 y o2 z` with numerals `x`, `y`, `z`: the text, the positions of the two operators,
/// and each numeral read as an operand.
proof fn lemma_three_numerals(x: Seq<char>, y: Seq<char>, z: Seq<char>, o1: BinOp, o2: BinOp)
    requires
        is_numeral(x),
        is_numeral(y),
        is_numeral(z),
    ensures
        ({
            let s = x + seq![op_char(o1)] + y + seq![op_char(o2)] + z;
            let j1 = x.len() as int;
            let j2 = j1 + 1 + y.len();
            &&& s[0] == x[0]
            &&& s[j1] == op_char(o1)
            &&& s[j2] == op_char(o2)
            &&& p_operand(s, 0) == Some((Term::Lit(x), j1))
            &&& p_operand(s, j1 + 1) == Some((Term::Lit(y), j2))
            &&& p_operand(s, j2 + 1) == Some((Term::Lit(z), s.len() as int))
        }),
{
    let s = x + seq![op_char(o1)] + y + seq![op_char(o2)] + z;
    let j1 = x.len() as int;
    let j2 = j1 + 1 + y.len();
    assert(s.subrange(0, j1) =~= x);
    assert(s.subrange(j1 + 1, j2) =~= y);
    assert(s.subrange(j2 + 1, s.len() as int) =~= z);
    assert(!is_digit(s[j1]));
    assert(!is_digit(s[j2]));
    lemma_operand_reads_text(s, 0, Term::Lit(x));
    lemma_operand_reads_text(s, j1 + 1, Term::Lit(y));
    lemma_operand_reads_text(s, j2 + 1, Term::Lit(z));
}

pub open spec fn same_level(o1: BinOp, o2: BinOp) -> bool {
    ((o1 == BinOp::Add || o1 == BinOp::Sub) && (o2 == BinOp::Add || o2 == BinOp::Sub)) || ((o1
        == BinOp::Mul || o1 == BinOp::Div) && (o2 == BinOp::Mul || o2 == BinOp::Div))
}

/// `+ -` and `* /` group to the left: `x o1 y o2 z` reads as `(x o1 y) o2 z` when the two
/// operators bind equally tightly.
pub proof fn law_left_grouping(x: Seq<char>, y: Seq<char>, z: Seq<char>, o1: BinOp, o2: BinOp)
    requires
        is_numeral(x),
        is_numeral(y),
        is_numeral(z),
        same_level(o1, o2),
    ensures
        p_expr(x + seq![op_char(o1)] + y + seq![op_char(o2)] + z, 0) == Some((
            bin(o2, bin(o1, Term::Lit(x), Term::Lit(y)), Term::Lit(z)),
            (x + seq![op_char(o1)] + y + seq![op_char(o2)] + z).len() as int,
        )),
{
    let s = x + seq![op_char(o1)] + y + seq![op_char(o2)] + z;
    let n = s.len() as int;
    let j1 = x.len() as int;
    let j2 = j1 + 1 + y.len();
    let (tx, ty, tz) = (Term::Lit(x), Term::Lit(y), Term::Lit(z));
    let inner = bin(o1, tx, ty);
    let whole = bin(o2, inner, tz);
    lemma_three_numerals(x, y, z, o1, o2);
    lemma_starts_arithmetic(s);
    assert(token(s, j1, '^') is None);
    assert(token(s, j2, '^') is None);
    assert(token(s, n, '^') is None);
    assert(p_factor(s, 0) == Some((tx, j1)));
    assert(p_factor(s, j1 + 1) == Some((ty, j2)));
    assert(p_factor(s, j2 + 1) == Some((tz, n)));
    if o1 == BinOp::Add || o1 == BinOp::Sub {
        assert(p_term_tail(s, j1, tx) == (tx, j1));
        assert(p_term_tail(s, j2, ty) == (ty, j2));
        assert(p_term_tail(s, n, tz) == (tz, n));
        assert(p_term(s, 0) == Some((tx, j1)));
        assert(p_term(s, j1 + 1) == Some((ty, j2)));
        assert(p_term(s, j2 + 1) == Some((tz, n)));
        assert(p_math_tail(s, n, whole) == (whole, n));
        assert(p_math_tail(s, j2, inner) == (whole, n));
        assert(p_math_tail(s, j1, tx) == (whole, n));
    } else {
        assert(p_term_tail(s, n, whole) == (whole, n));
        assert(p_term_tail(s, j2, inner) == (whole, n));
        assert(p_term_tail(s, j1, tx) == (whole, n));
        assert(p_term(s, 0) == Some((whole, n)));
        assert(p_math_tail(s, n, whole) == (whole, n));
    }
}

/// `^` groups to the right: `x ^ y ^ z` reads as `x ^ (y ^ z)`.
pub proof fn law_power_groups_right(x: Seq<char>, y: Seq<char>, z: Seq<char>)
    requires
        is_numeral(x),
        is_numeral(y),
        is_numeral(z),
    ensures
        p_expr(x + seq!['^'] + y + seq!['^'] + z, 0) == Some((
            bin(BinOp::Pow, Term::Lit(x), bin(BinOp::Pow, Term::Lit(y), Term::Lit(z))),
            (x + seq!['^'] + y + seq!['^'] + z).len() as int,
        )),
{
    let s = x + seq!['^'] + y + seq!['^'] + z;
    let n = s.len() as int;
    let j1 = x.len() as int;
    let j2 = j1 + 1 + y.len();
    let (tx, ty, tz) = (Term::Lit(x), Term::Lit(y), Term::Lit(z));
    let inner = bin(BinOp::Pow, ty, tz);
    let whole = bin(BinOp::Pow, tx, inner);
    lemma_three_numerals(x, y, z, BinOp::Pow, BinOp::Pow);
    assert(s == x + seq![op_char(BinOp::Pow)] + y + seq![op_char(BinOp::Pow)] + z);
    lemma_starts_arithmetic(s);
    assert(token(s, j1, '^') == Some(j1 + 1));
    assert(token(s, j2, '^') == Some(j2 + 1));
    assert(token(s, n, '^') is None);
    assert(p_factor(s, j2 + 1) == Some((tz, n)));
    assert(p_factor(s, j1 + 1) == Some((inner, n)));
    assert(p_factor(s, 0) == Some((whole, n)));
    assert(p_term_tail(s, n, whole) == (whole, n));
    assert(p_term(s, 0) == Some((whole, n)));
    assert(p_math_tail(s, n, whole) == (whole, n));
}

/// How tightly an operator binds: `+ -` least, then `* /`, then `^`.
pub open spec fn binding(op: BinOp) -> int {
    match op {
        BinOp::Add | BinOp::Sub => 0,
        BinOp::Mul | BinOp::Div => 1,
        BinOp::Pow => 2,
    }
}

/// The tighter operator takes its operands first: `x o1 y o2 z` reads as `x o1 (y o2 z)` when
/// `o2` binds more tightly than `o1`.
pub proof fn law_tighter_on_right(x: Seq<char>, y: Seq<char>, z: Seq<char>, o1: BinOp, o2: BinOp)
    requires
        is_numeral(x),
        is_numeral(y),
        is_numeral(z),
        binding(o1) < binding(o2),
    ensures
        p_expr(x + seq![op_char(o1)] + y + seq![op_char(o2)] + z, 0) == Some((
            bin(o1, Term::Lit(x), bin(o2, Term::Lit(y), Term::Lit(z))),
            (x + seq![op_char(o1)] + y + seq![op_char(o2)] + z).len() as int,
        )),
{
    let s = x + seq![op_char(o1)] + y + seq![op_char(o2)] + z;
    let n = s.len() as int;
    let j1 = x.len() as int;
    let j2 = j1 + 1 + y.len();
    let (tx, ty, tz) = (Term::Lit(x), Term::Lit(y), Term::Lit(z));
    let inner = bin(o2, ty, tz);
    let whole = bin(o1, tx, inner);
    lemma_three_numerals(x, y, z, o1, o2);
    lemma_starts_arithmetic(s);
    assert(token(s, j1, '^') is None);
    assert(token(s, n, '^') is None);
    assert(p_factor(s, 0) == Some((tx, j1)));
    assert(p_factor(s, j2 + 1) == Some((tz, n)));
    assert(p_term_tail(s, n, tz) == (tz, n));
    if o2 == BinOp::Pow {
        assert(token(s, j2, '^') == Some(j2 + 1));
        assert(p_factor(s, j1 + 1) == Some((inner, n)));
    } else {
        assert(token(s, j2, '^') is None);
        assert(p_factor(s, j1 + 1) == Some((ty, j2)));
        assert(p_term_tail(s, n, inner) == (inner, n));
        assert(p_term_tail(s, j2, ty) == (inner, n));
    }
    assert(p_term_tail(s, n, inner) == (inner, n));
    if o1 == BinOp::Add || o1 == BinOp::Sub {
        assert(p_term_tail(s, j1, tx) == (tx, j1));
        assert(p_term(s, 0) == Some((tx, j1)));
        assert(p_term(s, j1 + 1) == Some((inner, n)));
        assert(p_math_tail(s, n, whole) == (whole, n));
        assert(p_math_tail(s, j1, tx) == (whole, n));
    } else {
        assert(p_term_tail(s, n, whole) == (whole, n));
        assert(p_term_tail(s, j1, tx) == (whole, n));
        assert(p_term(s, 0) == Some((whole, n)));
        assert(p_math_tail(s, n, whole) == (whole, n));
    }
}

/// The tighter operator takes its operands first: `x o1 y o2 z` reads as `(x o1 y) o2 z` when
/// `o1` binds more tightly than `o2`.
pub proof fn law_tighter_on_left(x: Seq<char>, y: Seq<char>, z: Seq<char>, o1: BinOp, o2: BinOp)
    requires
        is_numeral(x),
        is_numeral(y),
        is_numeral(z),
        binding(o1) > binding(o2),
    ensures
        p_expr(x + seq![op_char(o1)] + y + seq![op_char(o2)] + z, 0) == Some((
            bin(o2, bin(o1, Term::Lit(x), Term::Lit(y)), Term::Lit(z)),
            (x + seq![op_char(o1)] + y + seq![op_char(o2)] + z).len() as int,
        )),
{
    let s = x + seq![op_char(o1)] + y + seq![op_char(o2)] + z;
    let n = s.len() as int;
    let j1 = x.len() as int;
    let j2 = j1 + 1 + y.len();
    let (tx, ty, tz) = (Term::Lit(x), Term::Lit(y), Term::Lit(z));
    let inner = bin(o1, tx, ty);
    let whole = bin(o2, inner, tz);
    lemma_three_numerals(x, y, z, o1, o2);
    lemma_starts_arithmetic(s);
    assert(token(s, j2, '^') is None);
    assert(token(s, n, '^') is None);
    assert(p_factor(s, j2 + 1) == Some((tz, n)));
    assert(p_factor(s, j1 + 1) == Some((ty, j2)));
    assert(p_term_tail(s, n, tz) == (tz, n));
    if o1 == BinOp::Pow {
        assert(token(s, j1, '^') == Some(j1 + 1));
        assert(p_factor(s, 0) == Some((inner, j2)));
        if o2 == BinOp::Add || o2 == BinOp::Sub {
            assert(p_term_tail(s, j2, inner) == (inner, j2));
            assert(p_term(s, 0) == Some((inner, j2)));
        } else {
            assert(p_term_tail(s, n, whole) == (whole, n));
            assert(p_term_tail(s, j2, inner) == (whole, n));
            assert(p_term(s, 0) == Some((whole, n)));
        }
    } else {
        assert(token(s, j1, '^') is None);
        assert(p_factor(s, 0) == Some((tx, j1)));
        assert(p_term_tail(s, j2, inner) == (inner, j2));
        assert(p_term_tail(s, j1, tx) == (inner, j2));
        assert(p_term(s, 0) == Some((inner, j2)));
    }
    if o2 == BinOp::Add || o2 == BinOp::Sub {
        assert(p_term(s, j2 + 1) == Some((tz, n)));
        assert(p_math_tail(s, n, whole) == (whole, n));
        assert(p_math_tail(s, j2, inner) == (whole, n));
    } else {
        assert(p_math_tail(s, n, whole) == (whole, n));
    }
}

/// Reading back the text of an arithmetic expression gives the same tree, so it
/// evaluates to the same number with the same effect.
pub proof fn law_round_trip<F: Fn(NumOp) -> Num>(host: F, env: Env, t: Term, fuel: nat)
    requires
        is_arith(t),
    ensures
        p_expr(text_of(t), 0) == Some((t, text_of(t).len() as int)),
        eval_term(host, env, p_expr(text_of(t), 0)->Some_0.0, fuel) == eval_term(host, env, t, fuel),
{
    let s = text_of(t);
    let n = s.len() as int;
    assert(s.subrange(0, n) =~= s);
    lemma_operand_reads_text(s, 0, t);
    lemma_starts_arithmetic(s);
    assert(token(s, n, '^') is None);
    assert(p_factor(s, 0) == Some((t, n)));
    assert(p_term_tail(s, n, t) == (t, n));
    assert(p_term(s, 0) == Some((t, n)));
    assert(p_math_tail(s, n, t) == (t, n));
    assert(p_math(s, 0) == Some((t, n)));
    assert(p_nested(s, 0) == Some((t, n)));
}

} // verus!
