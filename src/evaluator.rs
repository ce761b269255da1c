use vstd::prelude::*;
use crate::environment::Environment;
use crate::grammar::p_expr;
use crate::parser::parse;
use crate::semantics::{
    Env, eval_args, eval_body, eval_conds, eval_term, host_ready, host_value, lemma_host_value,
    bind_params, select, zero,
};
use crate::types::{
    BinOp, EnvValue, Error, Expr, Fault, IfExpr, Num, NumOp, Term, branches_of, func_of,
    lemma_branches_of, lemma_terms_of, term_of, terms_of,
};

verus! {

/// How deeply evaluations may nest before `evaluate` gives up with `RecursionLimit`.
pub const MAX_DEPTH: u32 = 1000;

pub open spec fn flagged_model(r: Result<(Num, bool), Error>) -> Result<(Num, bool), Fault> {
    match r {
        Ok(v) => Ok(v),
        Err(e) => Err(e@),
    }
}

pub open spec fn nums_model(r: Result<Vec<Num>, Error>) -> Result<Seq<Num>, Fault> {
    match r {
        Ok(v) => Ok(v@),
        Err(e) => Err(e@),
    }
}

pub open spec fn flags_model(r: Result<Vec<bool>, Error>) -> Result<Seq<bool>, Fault> {
    match r {
        Ok(v) => Ok(v@),
        Err(e) => Err(e@),
    }
}

pub open spec fn num_model(r: Result<Num, Error>) -> Result<Num, Fault> {
    match r {
        Ok(v) => Ok(v),
        Err(e) => Err(e@),
    }
}

/// What evaluating `t` at the top level with nesting bound `depth` gives: the number
/// (a `return` at the top level just yields its value) or the fault, and the environment after.
pub open spec fn evaluation<F: Fn(NumOp) -> Num>(host: F, env: Env, t: Term, depth: nat) -> (
    Result<Num, Fault>,
    Env,
) {
    let (r, e) = eval_term(host, env, t, depth);
    (
        match r {
            Ok((v, _)) => Ok(v),
            Err(x) => Err(x),
        },
        e,
    )
}

fn ask<F: Fn(NumOp) -> Num>(host: &F, op: NumOp) -> (r: Num)
    requires
        host_ready(*host),
    ensures
        r == host_value(*host, op@),
{
    let ghost o = op;
    let r = host(op);
    proof {
        lemma_host_value(*host, o, r);
    }
    r
}

/// Evaluates `expr` against `env`: the number it yields, or why it fails. `let` and
/// `define` bind in `env` itself; calls and conditional bodies run in forks of it.
pub fn evaluate<F: Fn(NumOp) -> Num>(env: &mut Environment, expr: &Expr, host: &F) -> (r: Result<
    Num,
    Error,
>)
    requires
        host_ready(*host),
    ensures
        num_model(r) == evaluation(*host, old(env)@, term_of(*expr), MAX_DEPTH as nat).0,
        final(env)@ == evaluation(*host, old(env)@, term_of(*expr), MAX_DEPTH as nat).1,
{
    evaluate_with_depth(env, expr, MAX_DEPTH, host)
}

/// Parses the construct at the start of `line` and evaluates it against `env`. Text outside
/// the grammar is a parse error and leaves `env` as it was.
pub fn interpret<F: Fn(NumOp) -> Num>(env: &mut Environment, line: &str, host: &F) -> (r: Result<
    Num,
    Error,
>)
    requires
        host_ready(*host),
    ensures
        match p_expr(line@, 0) {
            None => r matches Err(Error::ParseError) && final(env)@ == old(env)@,
            Some((t, _)) => num_model(r) == evaluation(*host, old(env)@, t, MAX_DEPTH as nat).0
                && final(env)@ == evaluation(*host, old(env)@, t, MAX_DEPTH as nat).1,
        },
{
    match parse(line) {
        Err(x) => Err(x),
        Ok(e) => evaluate(env, &e, host),
    }
}

/// As `evaluate`, with evaluations nesting at most `depth` deep.
pub fn evaluate_with_depth<F: Fn(NumOp) -> Num>(
    env: &mut Environment,
    expr: &Expr,
    depth: u32,
    host: &F,
) -> (r: Result<Num, Error>)
    requires
        host_ready(*host),
    ensures
        num_model(r) == evaluation(*host, old(env)@, term_of(*expr), depth as nat).0,
        final(env)@ == evaluation(*host, old(env)@, term_of(*expr), depth as nat).1,
{
    match eval(env, expr, depth, host) {
        Ok((v, _)) => Ok(v),
        Err(x) => Err(x),
    }
}

fn eval<F: Fn(NumOp) -> Num>(env: &mut Environment, e: &Expr, fuel: u32, host: &F) -> (r: Result<
    (Num, bool),
    Error,
>)
    requires
        host_ready(*host),
    ensures
        flagged_model(r) == eval_term(*host, old(env)@, term_of(*e), fuel as nat).0,
        final(env)@ == eval_term(*host, old(env)@, term_of(*e), fuel as nat).1,
    decreases fuel, 2nat,
{
    if fuel == 0 {
        return Err(Error::RecursionLimit);
    }
    let f = fuel - 1;
    match e {
        Expr::ENum(t) => Ok((ask(host, NumOp::Literal(t.clone())), false)),
        Expr::EVar(n) => match env.lookup(n) {
            None => Err(Error::UndefinedVariable(n.clone())),
            Some(EnvValue::ComputedResult(x)) => Ok((*x, false)),
            Some(_) => Err(Error::InvalidVariableReference(n.clone())),
        },
        Expr::EAdd(a, b) => eval_binary(env, BinOp::Add, a, b, fuel, host),
        Expr::ESub(a, b) => eval_binary(env, BinOp::Sub, a, b, fuel, host),
        Expr::EMul(a, b) => eval_binary(env, BinOp::Mul, a, b, fuel, host),
        Expr::EDiv(a, b) => eval_binary(env, BinOp::Div, a, b, fuel, host),
        Expr::EExp(a, b) => eval_binary(env, BinOp::Pow, a, b, fuel, host),
        Expr::ELet(n, x) => match eval(env, x, f, host) {
            Err(err) => Err(err),
            Ok((v, _)) => {
                env.add(n.clone(), EnvValue::ComputedResult(v));
                Ok((v, false))
            },
        },
        Expr::EDefun(n, l) => {
            env.add(n.clone(), EnvValue::LambdaRef(l.duplicate()));
            Ok((Num::zero(), false))
        },
        Expr::EReturn(x) => match eval(env, x, f, host) {
            Err(err) => Err(err),
            Ok((v, _)) => Ok((v, true)),
        },
        Expr::EFunCall(n, args) => eval_call(env, n, args, fuel, host),
        Expr::EIf(bs, els) => eval_if(env, bs, els, fuel, host),
    }
}

fn eval_binary<F: Fn(NumOp) -> Num>(
    env: &mut Environment,
    op: BinOp,
    a: &Expr,
    b: &Expr,
    fuel: u32,
    host: &F,
) -> (r: Result<(Num, bool), Error>)
    requires
        host_ready(*host),
        fuel > 0,
    ensures
        flagged_model(r) == eval_term(
            *host,
            old(env)@,
            Term::Bin(op, Box::new(term_of(*a)), Box::new(term_of(*b))),
            fuel as nat,
        ).0,
        final(env)@ == eval_term(
            *host,
            old(env)@,
            Term::Bin(op, Box::new(term_of(*a)), Box::new(term_of(*b))),
            fuel as nat,
        ).1,
    decreases fuel, 1nat,
{
    let f = fuel - 1;
    let va = match eval(env, a, f, host) {
        Err(x) => return Err(x),
        Ok((v, _)) => v,
    };
    let vb = match eval(env, b, f, host) {
        Err(x) => return Err(x),
        Ok((v, _)) => v,
    };
    Ok((ask(host, NumOp::Binary(op, va, vb)), false))
}

fn eval_call<F: Fn(NumOp) -> Num>(
    env: &mut Environment,
    name: &String,
    args: &Vec<Expr>,
    fuel: u32,
    host: &F,
) -> (r: Result<(Num, bool), Error>)
    requires
        host_ready(*host),
        fuel > 0,
    ensures
        flagged_model(r) == eval_term(
            *host,
            old(env)@,
            Term::Call(name@, terms_of(args@, args@.len())),
            fuel as nat,
        ).0,
        final(env)@ == eval_term(
            *host,
            old(env)@,
            Term::Call(name@, terms_of(args@, args@.len())),
            fuel as nat,
        ).1,
    decreases fuel, 1nat,
{
    let f = fuel - 1;
    proof {
        lemma_terms_of(args@, args@.len());
    }
    let func = match env.lookup(name) {
        None => {
            return Err(Error::UndefinedFunction(name.clone()));
        },
        Some(EnvValue::ComputedResult(_)) => {
            return Err(Error::InvalidFunctionReference(name.clone()));
        },
        Some(EnvValue::NativeFn(m)) => {
            if args.len() != 1 {
                return Err(Error::InvalidNativeFunctionArgs(name.clone(), args.len()));
            }
            let m = m.clone();
            return match eval(env, &args[0], f, host) {
                Err(x) => Err(x),
                Ok((v, _)) => Ok((ask(host, NumOp::Native(m, v)), false)),
            };
        },
        Some(EnvValue::LambdaRef(l)) => {
            if args.len() != l.params.len() {
                return Err(Error::InvalidLambdaArgs(name.clone(), l.params.len(), args.len()));
            }
            l.duplicate()
        },
    };
    let ghost before = env@;
    let vals = match run_args(env, args, f, host) {
        Err(x) => return Err(x),
        Ok(v) => v,
    };
    let ghost ps = func_of(func).params;
    let mut frame = env.fork();
    let mut i: usize = 0;
    while i < func.params.len()
        invariant
            i <= func.params@.len(),
            vals@.len() == func.params@.len(),
            ps == crate::types::names_of(func.params@),
            bind_params(env@, ps, vals@, 0) == bind_params(frame@, ps, vals@, i as nat),
        decreases func.params@.len() - i,
    {
        frame.add(func.params[i].clone(), EnvValue::ComputedResult(vals[i]));
        i += 1;
    }
    match run_body(&mut frame, &func.body, f, host) {
        Err(x) => Err(x),
        Ok((v, _)) => Ok((v, false)),
    }
}

fn eval_if<F: Fn(NumOp) -> Num>(
    env: &mut Environment,
    bs: &Vec<IfExpr>,
    els: &Vec<Expr>,
    fuel: u32,
    host: &F,
) -> (r: Result<(Num, bool), Error>)
    requires
        host_ready(*host),
        fuel > 0,
    ensures
        flagged_model(r) == eval_term(
            *host,
            old(env)@,
            Term::If(branches_of(bs@, bs@.len()), terms_of(els@, els@.len())),
            fuel as nat,
        ).0,
        final(env)@ == eval_term(
            *host,
            old(env)@,
            Term::If(branches_of(bs@, bs@.len()), terms_of(els@, els@.len())),
            fuel as nat,
        ).1,
    decreases fuel, 1nat,
{
    let f = fuel - 1;
    let ghost model = branches_of(bs@, bs@.len());
    let ghost else_model = terms_of(els@, els@.len());
    proof {
        lemma_branches_of(bs@, bs@.len());
    }
    let flags = match run_conds(env, bs, f, host) {
        Err(x) => return Err(x),
        Ok(v) => v,
    };
    let mut i: usize = 0;
    while i < bs.len() && !flags[i]
        invariant
            i <= bs@.len(),
            flags@.len() == bs@.len(),
            select(model, flags@, else_model, 0) == select(model, flags@, else_model, i as nat),
        decreases bs@.len() - i,
    {
        i += 1;
    }
    let mut frame = env.fork();
    if i < bs.len() {
        run_body(&mut frame, &bs[i].body, f, host)
    } else {
        run_body(&mut frame, els, f, host)
    }
}

fn run_args<F: Fn(NumOp) -> Num>(env: &mut Environment, args: &Vec<Expr>, fuel: u32, host: &F) -> (r:
    Result<Vec<Num>, Error>)
    requires
        host_ready(*host),
    ensures
        nums_model(r) == eval_args(
            *host,
            old(env)@,
            terms_of(args@, args@.len()),
            0,
            Seq::empty(),
            fuel as nat,
        ).0,
        final(env)@ == eval_args(
            *host,
            old(env)@,
            terms_of(args@, args@.len()),
            0,
            Seq::empty(),
            fuel as nat,
        ).1,
        match r {
            Ok(v) => v@.len() == args@.len(),
            Err(_) => true,
        },
    decreases fuel, 3nat,
{
    let ghost ts = terms_of(args@, args@.len());
    proof {
        lemma_terms_of(args@, args@.len());
    }
    let mut vals: Vec<Num> = Vec::new();
    let mut i: usize = 0;
    while i < args.len()
        invariant
            host_ready(*host),
            i <= args@.len(),
            vals@.len() == i,
            ts == terms_of(args@, args@.len()),
            ts.len() == args@.len(),
            forall|j: int| 0 <= j < args@.len() ==> #[trigger] ts[j] == term_of(args@[j]),
            eval_args(*host, old(env)@, ts, 0, Seq::empty(), fuel as nat) == eval_args(
                *host,
                env@,
                ts,
                i as nat,
                vals@,
                fuel as nat,
            ),
        decreases args@.len() - i,
    {
        match eval(env, &args[i], fuel, host) {
            Err(x) => return Err(x),
            Ok((v, _)) => vals.push(v),
        }
        i += 1;
    }
    Ok(vals)
}

fn run_conds<F: Fn(NumOp) -> Num>(env: &mut Environment, bs: &Vec<IfExpr>, fuel: u32, host: &F) -> (r:
    Result<Vec<bool>, Error>)
    requires
        host_ready(*host),
    ensures
        flags_model(r) == eval_conds(
            *host,
            old(env)@,
            branches_of(bs@, bs@.len()),
            0,
            Seq::empty(),
            fuel as nat,
        ).0,
        final(env)@ == eval_conds(
            *host,
            old(env)@,
            branches_of(bs@, bs@.len()),
            0,
            Seq::empty(),
            fuel as nat,
        ).1,
        match r {
            Ok(v) => v@.len() == bs@.len(),
            Err(_) => true,
        },
    decreases fuel, 3nat,
{
    let ghost model = branches_of(bs@, bs@.len());
    proof {
        lemma_branches_of(bs@, bs@.len());
    }
    let mut flags: Vec<bool> = Vec::new();
    let mut i: usize = 0;
    while i < bs.len()
        invariant
            host_ready(*host),
            i <= bs@.len(),
            flags@.len() == i,
            model == branches_of(bs@, bs@.len()),
            model.len() == bs@.len(),
            forall|j: int| 0 <= j < bs@.len() ==> #[trigger] model[j] == crate::types::branch_of(bs@[j]),
            eval_conds(*host, old(env)@, model, 0, Seq::empty(), fuel as nat) == eval_conds(
                *host,
                env@,
                model,
                i as nat,
                flags@,
                fuel as nat,
            ),
        decreases bs@.len() - i,
    {
        let l = match eval(env, &bs[i].condition.0, fuel, host) {
            Err(x) => return Err(x),
            Ok((v, _)) => v,
        };
        let r = match eval(env, &bs[i].condition.1, fuel, host) {
            Err(x) => return Err(x),
            Ok((v, _)) => v,
        };
        flags.push(l.equals(&r));
        i += 1;
    }
    Ok(flags)
}

fn run_body<F: Fn(NumOp) -> Num>(env: &mut Environment, body: &Vec<Expr>, fuel: u32, host: &F) -> (r:
    Result<(Num, bool), Error>)
    requires
        host_ready(*host),
    ensures
        flagged_model(r) == eval_body(
            *host,
            old(env)@,
            terms_of(body@, body@.len()),
            0,
            zero(),
            fuel as nat,
        ).0,
        final(env)@ == eval_body(
            *host,
            old(env)@,
            terms_of(body@, body@.len()),
            0,
            zero(),
            fuel as nat,
        ).1,
    decreases fuel, 3nat,
{
    let ghost ts = terms_of(body@, body@.len());
    proof {
        lemma_terms_of(body@, body@.len());
    }
    let mut last = Num::zero();
    let mut i: usize = 0;
    while i < body.len()
        invariant
            host_ready(*host),
            i <= body@.len(),
            ts == terms_of(body@, body@.len()),
            ts.len() == body@.len(),
            forall|j: int| 0 <= j < body@.len() ==> #[trigger] ts[j] == term_of(body@[j]),
            eval_body(*host, old(env)@, ts, 0, zero(), fuel as nat) == eval_body(
                *host,
                env@,
                ts,
                i as nat,
                last,
                fuel as nat,
            ),
        decreases body@.len() - i,
    {
        match eval(env, &body[i], fuel, host) {
            Err(x) => return Err(x),
            Ok((v, true)) => return Ok((v, true)),
            Ok((v, false)) => last = v,
        }
        i += 1;
    }
    Ok((last, false))
}

} // verus!
