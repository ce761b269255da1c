use vstd::prelude::*;
use crate::types::{Branch, Fault, Num, NumOp, OpModel, Term, Val, num_equal};

verus! {

/// Model of an environment: names to bound values.
pub type Env = Map<Seq<char>, Val>;

/// The host's number backend can be asked anything, and answers as a function of the request.
pub open spec fn host_ready<F: Fn(NumOp) -> Num>(host: F) -> bool {
    &&& forall|o: NumOp| #[trigger] host.requires((o,))
    &&& forall|o1: NumOp, o2: NumOp, r1: Num, r2: Num|
        o1@ == o2@ && #[trigger] host.ensures((o1,), r1) && #[trigger] host.ensures((o2,), r2)
            ==> r1 == r2
}

/// `r` is an answer the host gives to a request that `op` models.
pub open spec fn host_answers<F: Fn(NumOp) -> Num>(host: F, op: OpModel, r: Num) -> bool {
    exists|o: NumOp| o@ == op && #[trigger] host.ensures((o,), r)
}

/// The host's answer to a request.
pub open spec fn host_value<F: Fn(NumOp) -> Num>(host: F, op: OpModel) -> Num {
    choose|r: Num| #[trigger] host_answers(host, op, r)
}

pub proof fn lemma_host_value<F: Fn(NumOp) -> Num>(host: F, o: NumOp, r: Num)
    requires
        host_ready(host),
        host.ensures((o,), r),
    ensures
        host_value(host, o@) == r,
{
    assert(host_answers(host, o@, r));
    let c = host_value(host, o@);
    assert(host_answers(host, o@, c));
    let witness = choose|o2: NumOp| o2@ == o@ && #[trigger] host.ensures((o2,), c);
    assert(host.ensures((witness,), c));
}

pub open spec fn zero() -> Num {
    Num { bits: 0 }
}

/// The outcome of evaluating a term: a number, marked when it came from a `return`,
/// or a fault; and the environment afterwards. `fuel` bounds the nesting depth.
pub open spec fn eval_term<F: Fn(NumOp) -> Num>(host: F, env: Env, t: Term, fuel: nat) -> (
    Result<(Num, bool), Fault>,
    Env,
)
    decreases fuel, 0nat,
{
    if fuel == 0 {
        (Err(Fault::RecursionLimit), env)
    } else {
        let f = (fuel - 1) as nat;
        match t {
            Term::Lit(d) => (Ok((host_value(host, OpModel::Literal(d)), false)), env),
            Term::Var(n) => {
                if !env.contains_key(n) {
                    (Err(Fault::UndefinedVariable(n)), env)
                } else {
                    match env[n] {
                        Val::Number(x) => (Ok((x, false)), env),
                        _ => (Err(Fault::InvalidVariableReference(n)), env),
                    }
                }
            },
            Term::Bin(op, a, b) => {
                let (ra, e1) = eval_term(host, env, *a, f);
                match ra {
                    Err(x) => (Err(x), e1),
                    Ok((va, _)) => {
                        let (rb, e2) = eval_term(host, e1, *b, f);
                        match rb {
                            Err(x) => (Err(x), e2),
                            Ok((vb, _)) => (Ok((host_value(host, OpModel::Binary(op, va, vb)), false)), e2),
                        }
                    },
                }
            },
            Term::Let(n, x) => {
                let (r, e1) = eval_term(host, env, *x, f);
                match r {
                    Err(x) => (Err(x), e1),
                    Ok((v, _)) => (Ok((v, false)), e1.insert(n, Val::Number(v))),
                }
            },
            Term::Define(n, func) => (Ok((zero(), false)), env.insert(n, Val::Function(func))),
            Term::Return(x) => {
                let (r, e1) = eval_term(host, env, *x, f);
                match r {
                    Err(x) => (Err(x), e1),
                    Ok((v, _)) => (Ok((v, true)), e1),
                }
            },
            Term::Call(n, args) => {
                if !env.contains_key(n) {
                    (Err(Fault::UndefinedFunction(n)), env)
                } else {
                    match env[n] {
                        Val::Number(_) => (Err(Fault::InvalidFunctionReference(n)), env),
                        Val::Function(func) => {
                            if args.len() != func.params.len() {
                                (Err(Fault::InvalidLambdaArgs(n, func.params.len(), args.len())), env)
                            } else {
                                let (ra, e1) = eval_args(host, env, args, 0, Seq::empty(), f);
                                match ra {
                                    Err(x) => (Err(x), e1),
                                    Ok(vals) => {
                                        let frame = bind_params(e1, func.params, vals, 0);
                                        let (rb, _) = eval_body(host, frame, func.body, 0, zero(), f);
                                        match rb {
                                            Err(x) => (Err(x), e1),
                                            Ok((v, _)) => (Ok((v, false)), e1),
                                        }
                                    },
                                }
                            }
                        },
                        Val::Native(m) => {
                            if args.len() != 1 {
                                (Err(Fault::InvalidNativeFunctionArgs(n, args.len())), env)
                            } else {
                                let (ra, e1) = eval_term(host, env, args[0], f);
                                match ra {
                                    Err(x) => (Err(x), e1),
                                    Ok((v, _)) => (Ok((host_value(host, OpModel::Native(m, v)), false)), e1),
                                }
                            }
                        },
                    }
                }
            },
            Term::If(branches, els) => {
                let (rc, e1) = eval_conds(host, env, branches, 0, Seq::empty(), f);
                match rc {
                    Err(x) => (Err(x), e1),
                    Ok(flags) => {
                        let (rb, _) = eval_body(host, e1, select(branches, flags, els, 0), 0, zero(), f);
                        (rb, e1)
                    },
                }
            },
        }
    }
}

/// Evaluates `args[i..]` in order, each in the environment the previous one left,
/// appending their values to `acc`.
pub open spec fn eval_args<F: Fn(NumOp) -> Num>(
    host: F,
    env: Env,
    args: Seq<Term>,
    i: nat,
    acc: Seq<Num>,
    fuel: nat,
) -> (Result<Seq<Num>, Fault>, Env)
    decreases fuel, args.len() + 1 - i,
{
    if i >= args.len() {
        (Ok(acc), env)
    } else {
        let (r, e1) = eval_term(host, env, args[i as int], fuel);
        match r {
            Err(x) => (Err(x), e1),
            Ok((v, _)) => eval_args(host, e1, args, i + 1, acc.push(v), fuel),
        }
    }
}

/// Evaluates both sides of the conditions of `bs[i..]` in order, appending to `acc`
/// whether the two sides are equal.
pub open spec fn eval_conds<F: Fn(NumOp) -> Num>(
    host: F,
    env: Env,
    bs: Seq<Branch>,
    i: nat,
    acc: Seq<bool>,
    fuel: nat,
) -> (Result<Seq<bool>, Fault>, Env)
    decreases fuel, bs.len() + 1 - i,
{
    if i >= bs.len() {
        (Ok(acc), env)
    } else {
        let (rl, e1) = eval_term(host, env, bs[i as int].lhs, fuel);
        match rl {
            Err(x) => (Err(x), e1),
            Ok((l, _)) => {
                let (rr, e2) = eval_term(host, e1, bs[i as int].rhs, fuel);
                match rr {
                    Err(x) => (Err(x), e2),
                    Ok((r, _)) => eval_conds(host, e2, bs, i + 1, acc.push(num_equal(l, r)), fuel),
                }
            },
        }
    }
}

/// Evaluates `body[i..]` in order; stops at the first `return`. Without one, the value is
/// that of the last expression (`last` so far), zero for an empty body.
pub open spec fn eval_body<F: Fn(NumOp) -> Num>(
    host: F,
    env: Env,
    body: Seq<Term>,
    i: nat,
    last: Num,
    fuel: nat,
) -> (Result<(Num, bool), Fault>, Env)
    decreases fuel, body.len() + 1 - i,
{
    if i >= body.len() {
        (Ok((last, false)), env)
    } else {
        let (r, e1) = eval_term(host, env, body[i as int], fuel);
        match r {
            Err(x) => (Err(x), e1),
            Ok((v, true)) => (Ok((v, true)), e1),
            Ok((v, false)) => eval_body(host, e1, body, i + 1, v, fuel),
        }
    }
}

/// Binds `params[i..]` to the numbers `vals[i..]`, in order.
pub open spec fn bind_params(env: Env, params: Seq<Seq<char>>, vals: Seq<Num>, i: nat) -> Env
    decreases params.len() - i,
{
    if i >= params.len() || i >= vals.len() {
        env
    } else {
        bind_params(env.insert(params[i as int], Val::Number(vals[i as int])), params, vals, i + 1)
    }
}

/// The body of the first branch from `i` on whose flag is set, else `els`.
pub open spec fn select(bs: Seq<Branch>, flags: Seq<bool>, els: Seq<Term>, i: nat) -> Seq<Term>
    decreases bs.len() - i,
{
    if i >= bs.len() || i >= flags.len() {
        els
    } else if flags[i as int] {
        bs[i as int].body
    } else {
        select(bs, flags, els, i + 1)
    }
}

} // verus!
