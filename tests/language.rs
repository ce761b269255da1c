use bcalc::environment::Environment;
use bcalc::evaluator::{evaluate, evaluate_with_depth, interpret};
use bcalc::messages::display;
use bcalc::parser::{expr, parse, parse_all};
use bcalc::printer::to_text;
use bcalc::types::EnvValue::{ComputedResult, NativeFn};
use bcalc::types::Expr::{EAdd, EExp, EMul, ESub, EVar};
use bcalc::types::{BinOp, Error, Expr, Num, NumOp};

fn host(op: NumOp) -> Num {
    let r: f32 = match op {
        NumOp::Literal(digits) => digits.parse::<f32>().unwrap(),
        NumOp::Binary(o, a, b) => {
            let x = f32::from_bits(a.bits);
            let y = f32::from_bits(b.bits);
            match o {
                BinOp::Add => x + y,
                BinOp::Sub => x - y,
                BinOp::Mul => x * y,
                BinOp::Div => x / y,
                BinOp::Pow => x.powf(y),
            }
        }
        NumOp::Native(name, a) => {
            let x = f32::from_bits(a.bits);
            if name == "sqrt" {
                x.sqrt()
            } else {
                f32::NAN
            }
        }
    };
    Num::from_bits(r.to_bits())
}

fn show(n: Num) -> String {
    f32::from_bits(n.bits).to_string()
}

fn run(env: &mut Environment, text: &str) -> Result<f32, Error> {
    let e = parse(text)?;
    evaluate(env, &e, &host).map(|n| f32::from_bits(n.bits))
}

fn num(digits: &str) -> Expr {
    Expr::ENum(String::from(digits))
}

#[test]
fn literal_evaluates_to_itself() {
    let mut env = Environment::new();
    assert_eq!(run(&mut env, "42"), Ok(42.0));
    assert_eq!(run(&mut env, "0"), Ok(0.0));
    assert_eq!(run(&mut env, "  7  "), Ok(7.0));
}

#[test]
fn power_groups_to_the_right() {
    let mut env = Environment::new();
    assert_eq!(run(&mut env, "2^3^2"), Ok(512.0));
    assert_eq!(
        parse("2^3^2").unwrap(),
        EExp(Box::new(num("2")), Box::new(EExp(Box::new(num("3")), Box::new(num("2")))))
    );
}

#[test]
fn other_operators_group_to_the_left() {
    let mut env = Environment::new();
    assert_eq!(run(&mut env, "8 - 3 - 2"), Ok(3.0));
    assert_eq!(run(&mut env, "16 / 4 / 2"), Ok(2.0));
    assert_eq!(
        parse("8-3+2").unwrap(),
        EAdd(Box::new(ESub(Box::new(num("8")), Box::new(num("3")))), Box::new(num("2")))
    );
}

#[test]
fn precedence_evaluates_as_grouped() {
    let mut env = Environment::new();
    let r = run(&mut env, "1 * 2 + 3 / 4 ^ 6").unwrap();
    assert_eq!(r, 1.0 * 2.0 + 3.0 / 4.0f32.powf(6.0));
}

#[test]
fn let_persists_across_evaluations() {
    let mut env = Environment::new();
    assert_eq!(run(&mut env, "let x = 5"), Ok(5.0));
    assert_eq!(run(&mut env, "x + 1"), Ok(6.0));
    assert_eq!(env.get(String::from("x")), Some(ComputedResult(Num::from_bits(5.0f32.to_bits()))));
}

#[test]
fn call_bindings_do_not_leak() {
    let mut env = Environment::new();
    assert_eq!(run(&mut env, "define f(n) { let y = n * 2; return y; }"), Ok(0.0));
    assert_eq!(run(&mut env, "f(3)"), Ok(6.0));
    assert_eq!(run(&mut env, "y"), Err(Error::UndefinedVariable(String::from("y"))));
    assert_eq!(run(&mut env, "n"), Err(Error::UndefinedVariable(String::from("n"))));
}

#[test]
fn arity_mismatch_names_both_counts() {
    let mut env = Environment::new();
    run(&mut env, "define f(n) { return n; }").unwrap();
    assert_eq!(
        run(&mut env, "f(1, 2)"),
        Err(Error::InvalidLambdaArgs(String::from("f"), 1, 2))
    );
}

#[test]
fn recursive_fibonacci_from_text() {
    let mut env = Environment::new();
    run(
        &mut env,
        "define fib(n) {
            if (n == 1) { return 1; } else if (n == 2) { return 1; } else { return fib(n - 1) + fib(n - 2); };
        }",
    )
    .unwrap();
    assert_eq!(run(&mut env, "fib(4)"), Ok(3.0));
    assert_eq!(run(&mut env, "fib(10)"), Ok(55.0));
}

#[test]
fn only_the_else_branch_runs() {
    let mut env = Environment::new();
    run(&mut env, "let n = 3").unwrap();
    let text = "if (n==1){return 1;} else if (n==2){return 2;} else {return 7;}";
    assert_eq!(run(&mut env, text), Ok(7.0));
    run(&mut env, "let n = 2").unwrap();
    assert_eq!(run(&mut env, text), Ok(2.0));
}

#[test]
fn branch_bindings_do_not_leak() {
    let mut env = Environment::new();
    assert_eq!(run(&mut env, "if (1 == 1) { let w = 5; } else { let w = 6; }"), Ok(5.0));
    assert_eq!(run(&mut env, "w"), Err(Error::UndefinedVariable(String::from("w"))));
}

#[test]
fn return_inside_a_branch_ends_the_call() {
    let mut env = Environment::new();
    run(&mut env, "define f(n) { if (n == 1) { return 10; } else { let z = 0; }; return 20; }").unwrap();
    assert_eq!(run(&mut env, "f(1)"), Ok(10.0));
    assert_eq!(run(&mut env, "f(2)"), Ok(20.0));
}

#[test]
fn body_without_return_yields_its_last_value() {
    let mut env = Environment::new();
    run(&mut env, "define g(a) { let b = a + 1; b * 2; }").unwrap();
    assert_eq!(run(&mut env, "g(4)"), Ok(10.0));
    run(&mut env, "define h() { }").unwrap();
    assert_eq!(run(&mut env, "h()"), Ok(0.0));
    run(&mut env, "define k() { return 1; return 2; }").unwrap();
    assert_eq!(run(&mut env, "k()"), Ok(1.0));
}

#[test]
fn arguments_run_in_the_callers_environment() {
    let mut env = Environment::new();
    run(&mut env, "define id(a) { return a; }").unwrap();
    assert_eq!(run(&mut env, "id(let q = 2)"), Ok(2.0));
    assert_eq!(run(&mut env, "q"), Ok(2.0));
}

#[test]
fn round_trip_through_text() {
    let e = EMul(
        Box::new(EAdd(Box::new(num("1")), Box::new(num("2")))),
        Box::new(EExp(Box::new(num("3")), Box::new(ESub(Box::new(num("4")), Box::new(num("2")))))),
    );
    let text = to_text(&e).unwrap();
    assert_eq!(text, "((1+2)*(3^(4-2)))");
    let back = parse(&text).unwrap();
    assert_eq!(back, e);
    let mut env = Environment::new();
    let first = evaluate(&mut env, &e, &host).unwrap();
    let second = evaluate(&mut env, &back, &host).unwrap();
    assert_eq!(first, second);
    assert_eq!(f32::from_bits(first.bits), 27.0);
    assert_eq!(to_text(&EVar(String::from("x"))), None);
}

#[test]
fn undefined_variable_error() {
    let mut env = Environment::new();
    assert_eq!(run(&mut env, "zz + 1"), Err(Error::UndefinedVariable(String::from("zz"))));
}

#[test]
fn function_read_as_variable_error() {
    let mut env = Environment::new();
    run(&mut env, "define f() { return 1; }").unwrap();
    assert_eq!(run(&mut env, "f + 1"), Err(Error::InvalidVariableReference(String::from("f"))));
    assert_eq!(run(&mut env, "sqrt"), Err(Error::InvalidVariableReference(String::from("sqrt"))));
}

#[test]
fn number_called_as_function_error() {
    let mut env = Environment::new();
    run(&mut env, "let a = 1").unwrap();
    assert_eq!(run(&mut env, "a(2)"), Err(Error::InvalidFunctionReference(String::from("a"))));
}

#[test]
fn undefined_function_error() {
    let mut env = Environment::new();
    assert_eq!(run(&mut env, "nope(1)"), Err(Error::UndefinedFunction(String::from("nope"))));
}

#[test]
fn native_function_needs_exactly_one_argument() {
    let mut env = Environment::new();
    assert_eq!(run(&mut env, "sqrt(16)"), Ok(4.0));
    assert_eq!(
        run(&mut env, "sqrt(1, 2)"),
        Err(Error::InvalidNativeFunctionArgs(String::from("sqrt"), 2))
    );
    assert_eq!(
        run(&mut env, "sqrt()"),
        Err(Error::InvalidNativeFunctionArgs(String::from("sqrt"), 0))
    );
}

#[test]
fn parse_error_on_text_outside_the_grammar() {
    assert_eq!(parse("+ 1"), Err(Error::ParseError));
    assert_eq!(parse(""), Err(Error::ParseError));
    assert_eq!(parse("(1 + 2"), Err(Error::ParseError));
    assert_eq!(parse("{ 1; }"), Err(Error::ParseError));
}

#[test]
fn recursion_limit_stops_endless_calls() {
    let mut env = Environment::new();
    let def = parse("define loop(n) { return loop(n); }").unwrap();
    evaluate(&mut env, &def, &host).unwrap();
    let call = parse("loop(1)").unwrap();
    assert_eq!(evaluate_with_depth(&mut env, &call, 40, &host), Err(Error::RecursionLimit));
    assert_eq!(evaluate_with_depth(&mut env, &num("1"), 0, &host), Err(Error::RecursionLimit));
}

#[test]
fn division_by_zero_is_not_an_error() {
    let mut env = Environment::new();
    assert_eq!(run(&mut env, "1 / 0"), Ok(f32::INFINITY));
}

#[test]
fn keywords_are_whole_words() {
    let mut env = Environment::new();
    run(&mut env, "let letter = 2").unwrap();
    assert_eq!(run(&mut env, "letter + 1"), Ok(3.0));
}

#[test]
fn expr_hands_back_the_rest() {
    let (rest, e) = expr("1 + 2 leftover").unwrap();
    assert_eq!(rest, " leftover");
    assert_eq!(e, EAdd(Box::new(num("1")), Box::new(num("2"))));
    assert_eq!(parse("1 + 2 leftover").unwrap(), e);
}

#[test]
fn environment_starts_with_sqrt_and_rebinds_in_place() {
    let mut env = Environment::new();
    assert_eq!(env.get(String::from("sqrt")), Some(NativeFn(String::from("sqrt"))));
    assert_eq!(env.get(String::from("x")), None);
    env.add(String::from("x"), ComputedResult(Num::from_bits(1)));
    env.add(String::from("x"), ComputedResult(Num::from_bits(2)));
    assert_eq!(env.get(String::from("x")), Some(ComputedResult(Num::from_bits(2))));
}

#[test]
fn fork_is_independent() {
    let mut env = Environment::new();
    env.add(String::from("x"), ComputedResult(Num::from_bits(1)));
    let mut copy = env.fork();
    copy.add(String::from("x"), ComputedResult(Num::from_bits(9)));
    copy.add(String::from("y"), ComputedResult(Num::from_bits(3)));
    assert_eq!(env.get(String::from("x")), Some(ComputedResult(Num::from_bits(1))));
    assert_eq!(env.get(String::from("y")), None);
    assert_eq!(copy.get(String::from("x")), Some(ComputedResult(Num::from_bits(9))));
}

#[test]
fn number_equality_follows_floating_point() {
    let nan = Num::from_bits(f32::NAN.to_bits());
    let zero = Num::from_bits(0.0f32.to_bits());
    let minus_zero = Num::from_bits((-0.0f32).to_bits());
    assert!(!nan.equals(&nan));
    assert!(zero.equals(&minus_zero));
    assert!(Num::from_bits(1.0f32.to_bits()).equals(&Num::from_bits(1.0f32.to_bits())));
    assert!(!Num::from_bits(1.0f32.to_bits()).equals(&Num::from_bits(2.0f32.to_bits())));
}

#[test]
fn messages_of_every_error() {
    assert_eq!(Error::UndefinedVariable(String::from("v")).message(), "Undefined Variable: v");
    assert_eq!(
        Error::InvalidVariableReference(String::from("v")).message(),
        "Syntax Error: Variable v doesn't refer to a computed value"
    );
    assert_eq!(
        Error::InvalidFunctionReference(String::from("f")).message(),
        "Syntax Error: Function f doesn't refer to a lambda"
    );
    assert_eq!(
        Error::InvalidLambdaArgs(String::from("f"), 1, 12).message(),
        "Syntax Error: Function 'f' expects only 1 arguments, but got 12"
    );
    assert_eq!(
        Error::InvalidNativeFunctionArgs(String::from("sqrt"), 305).message(),
        "Syntax Error: Native function 'sqrt' can only be called with a single argument, but got 305"
    );
    assert_eq!(Error::UndefinedFunction(String::from("g")).message(), "Undefined Function: g");
    assert_eq!(Error::ParseError.message(), "Unable the parse the input. Please recheck.");
    assert_eq!(Error::RecursionLimit.message(), "Evaluation nested too deeply.");
}

#[test]
fn display_shows_value_or_message() {
    assert_eq!(display(Ok(Num::from_bits(2.5f32.to_bits())), &show), "2.5");
    assert_eq!(display(Err(Error::ParseError), &show), "Unable the parse the input. Please recheck.");
}

#[test]
fn add_chains() {
    let mut env = Environment::new();
    env.add(String::from("a"), ComputedResult(Num::from_bits(1)))
        .add(String::from("b"), ComputedResult(Num::from_bits(2)));
    assert_eq!(env.get(String::from("a")), Some(ComputedResult(Num::from_bits(1))));
    assert_eq!(env.get(String::from("b")), Some(ComputedResult(Num::from_bits(2))));
}

#[test]
fn interpret_parses_then_evaluates() {
    let mut env = Environment::new();
    let seven = interpret(&mut env, "let s = 3 + 4\n", &host).unwrap();
    assert_eq!(f32::from_bits(seven.bits), 7.0);
    assert_eq!(interpret(&mut env, ")", &host), Err(Error::ParseError));
    let eight = interpret(&mut env, "s + 1", &host).unwrap();
    assert_eq!(f32::from_bits(eight.bits), 8.0);
}

#[test]
fn parse_all_reads_constructs_in_turn() {
    let text = "define sq(n) { return n * n; }\nlet a = sq(3)\n\n a + 1\n";
    let (constructs, complete) = parse_all(text);
    assert!(complete);
    assert_eq!(constructs.len(), 3);
    let mut env = Environment::new();
    let mut last = 0.0f32;
    for e in constructs.iter() {
        last = f32::from_bits(evaluate(&mut env, e, &host).unwrap().bits);
    }
    assert_eq!(last, 10.0);
    let (partial, complete) = parse_all("1 + 2\n ) 3");
    assert!(!complete);
    assert_eq!(partial, vec![EAdd(Box::new(num("1")), Box::new(num("2")))]);
    let (none, complete) = parse_all("   ");
    assert!(complete);
    assert!(none.is_empty());
}

#[test]
fn recursion_a_hundred_calls_deep() {
    let mut env = Environment::new();
    run(&mut env, "define sum(n) { if (n == 0) { return 0; } else { return n + sum(n - 1); }; }").unwrap();
    assert_eq!(run(&mut env, "sum(100)"), Ok(5050.0));
}
