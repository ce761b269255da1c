use bcalc::environment::Environment;
use bcalc::evaluator::evaluate;
use bcalc::types::EnvValue::{ComputedResult, LambdaRef};
use bcalc::types::Expr::{EAdd, EDefun, EDiv, EExp, EFunCall, EIf, ELet, EMul, EReturn, ESub, EVar};
use bcalc::types::{BinOp, Error, Expr, IfExpr, Lambda, Num, NumOp};

/// Single-precision arithmetic, as the host supplies it.
fn host(op: NumOp) -> Num {
    let r: f32 = match op {
        NumOp::Literal(digits) => digits.parse::<f32>().unwrap(),
        NumOp::Binary(o, a, b) => {
            let x = f32::from_bits(a.bits);
            let y = f32::from_bits(b.bits);
            match o {
                BinOp::Add => x + y,
                BinOp::Sub => x - y,
                BinOp::Mul => x * y,
                BinOp::Div => x / y,
                BinOp::Pow => x.powf(y),
            }
        }
        NumOp::Native(name, a) => {
            let x = f32::from_bits(a.bits);
            if name == "sqrt" {
                x.sqrt()
            } else {
                f32::NAN
            }
        }
    };
    Num::from_bits(r.to_bits())
}

fn num(digits: &str) -> Expr {
    Expr::ENum(String::from(digits))
}

fn float(x: f32) -> Num {
    Num::from_bits(x.to_bits())
}

fn eval(env: &mut Environment, expr: Expr) -> Result<f32, Error> {
    evaluate(env, &expr, &host).map(|n| f32::from_bits(n.bits))
}

#[test]
fn test_evaluate_add_expression() {
    let expr = EAdd(Box::new(num("1")), Box::new(num("2")));
    assert_eq!(eval(&mut Environment::new(), expr).unwrap(), 3.0);
}

#[test]
fn test_evaluate_subtraction_expression() {
    let expr = ESub(Box::new(num("3")), Box::new(num("2")));
    assert_eq!(eval(&mut Environment::new(), expr).unwrap(), 1.0);
}

#[test]
fn test_evaluate_multiplication_expression() {
    let expr = EMul(Box::new(num("3")), Box::new(num("2")));
    assert_eq!(eval(&mut Environment::new(), expr).unwrap(), 6.0);
}

#[test]
fn test_evaluate_division_expression() {
    let expr = EDiv(Box::new(num("3")), Box::new(num("2")));
    assert_eq!(eval(&mut Environment::new(), expr).unwrap(), 1.5);
}

#[test]
fn test_evaluate_nested_arithmetic_expression() {
    let expr = EAdd(
        Box::new(EMul(Box::new(num("1")), Box::new(num("2")))),
        Box::new(EDiv(
            Box::new(EExp(Box::new(num("6")), Box::new(num("2")))),
            Box::new(num("5")),
        )),
    );
    assert_eq!(eval(&mut Environment::new(), expr).unwrap(), 9.2);
}

#[test]
fn test_evaluate_let_expressions() {
    let var_name = String::from("phi");
    let let_expr = EAdd(Box::new(num("1")), Box::new(num("2")));
    let expr = ELet(var_name.clone(), Box::new(let_expr.clone()));
    let mut env = Environment::new();
    assert_eq!(eval(&mut env, expr.clone()).unwrap(), 3.0);
    assert_eq!(env.get(var_name.clone()), Some(ComputedResult(float(3.0))));
}

#[test]
fn test_evaluate_expressions_with_variables() {
    let var_name = String::from("phi");
    let expr = ESub(
        Box::new(EAdd(
            Box::new(num("20")),
            Box::new(EAdd(Box::new(num("30")), Box::new(EVar(var_name.clone())))),
        )),
        Box::new(num("10")),
    );
    let mut env = Environment::new();
    env.add(var_name.clone(), ComputedResult(float(20.0)));
    assert_eq!(eval(&mut env, expr).unwrap(), 60.0);
}

#[test]
fn test_evaluate_simple_return_statements() {
    let expr = EReturn(Box::new(EMul(Box::new(num("3")), Box::new(num("2")))));
    let mut env = Environment::new();
    assert_eq!(eval(&mut env, expr).unwrap(), 6.0);
}

#[test]
fn test_evaluate_return_statements_that_use_environment() {
    let var_name = String::from("phi");
    let expr = EReturn(Box::new(EMul(Box::new(num("3")), Box::new(EVar(var_name.clone())))));
    let mut env = Environment::new();
    env.add(var_name.clone(), ComputedResult(float(2.0)));
    assert_eq!(eval(&mut env, expr).unwrap(), 6.0);
}

#[test]
fn test_evaluate_function_definitions() {
    let lambda = Lambda {
        params: vec![String::from("n")],
        body: vec![EReturn(Box::new(EMul(
            Box::new(EVar(String::from("n"))),
            Box::new(EVar(String::from("n"))),
        )))],
    };
    let expr = EDefun(String::from("square"), lambda.clone());
    let mut env = Environment::new();
    let result = eval(&mut env, expr).unwrap();
    assert_eq!(env.get(String::from("square")), Some(LambdaRef(lambda.clone())));
    assert_eq!(result, 0.0);
}

#[test]
fn test_evaluate_function_application() {
    let fun_name = String::from("multiply");
    let lambda = Lambda {
        params: vec![String::from("m"), String::from("n")],
        body: vec![
            ELet(
                String::from("result"),
                Box::new(EMul(
                    Box::new(EVar(String::from("m"))),
                    Box::new(EVar(String::from("n"))),
                )),
            ),
            EReturn(Box::new(EVar(String::from("result")))),
        ],
    };

    let mut env = Environment::new();
    env.add(fun_name.clone(), LambdaRef(lambda));

    let first_arg_expr = EMul(Box::new(num("2")), Box::new(num("3")));
    let fun_call_expr = EFunCall(fun_name.clone(), vec![first_arg_expr, num("4")]);

    assert_eq!(eval(&mut env, fun_call_expr).unwrap(), 24.0);
}

#[test]
fn test_evaluate_native_function_calls() {
    let fun_call_expr = EFunCall(
        String::from("sqrt"),
        vec![EMul(Box::new(num("3")), Box::new(num("3")))],
    );
    let mut env = Environment::new();

    assert_eq!(eval(&mut env, fun_call_expr).unwrap(), 3.0);
}

#[test]
fn test_evaluate_simple_if_statements_when_condition_is_true() {
    let if_expr = EIf(
        vec![IfExpr {
            condition: (EVar(String::from("n")), num("1")),
            body: vec![EReturn(Box::new(num("1")))],
        }],
        vec![EReturn(Box::new(num("2")))],
    );
    let mut env = Environment::new();
    env.add(String::from("n"), ComputedResult(float(1.0)));

    assert_eq!(eval(&mut env, if_expr).unwrap(), 1.0);
}

#[test]
fn test_evaluate_simple_if_statements_when_condition_is_false() {
    let if_expr = EIf(
        vec![IfExpr {
            condition: (EVar(String::from("n")), num("2")),
            body: vec![EReturn(Box::new(num("1")))],
        }],
        vec![EReturn(Box::new(num("2")))],
    );
    let mut env = Environment::new();
    env.add(String::from("n"), ComputedResult(float(1.0)));

    assert_eq!(eval(&mut env, if_expr).unwrap(), 2.0);
}

#[test]
fn test_evaluate_simple_if_else_if_statements_when_if_condition_is_false() {
    let if_statement = IfExpr {
        condition: (EVar(String::from("n")), num("1")),
        body: vec![EReturn(Box::new(num("1")))],
    };
    let first_else_if = IfExpr {
        condition: (EVar(String::from("n")), num("2")),
        body: vec![
            ELet(String::from("x"), Box::new(num("3"))),
            EReturn(Box::new(EVar(String::from("x")))),
        ],
    };
    let second_else_if = IfExpr {
        condition: (EVar(String::from("n")), num("3")),
        body: vec![
            ELet(String::from("y"), Box::new(num("4"))),
            EReturn(Box::new(EMul(
                Box::new(EVar(String::from("y"))),
                Box::new(EVar(String::from("y"))),
            ))),
        ],
    };
    let if_expr = EIf(
        vec![if_statement, first_else_if, second_else_if],
        vec![EReturn(Box::new(num("2")))],
    );
    let mut env = Environment::new();
    env.add(String::from("n"), ComputedResult(float(3.0)));

    assert_eq!(eval(&mut env, if_expr).unwrap(), 16.0);
}

#[test]
fn test_evaluate_recursive_function_calls() {
    let fun_name = String::from("fibrecursive");
    let recursive_function = Lambda {
        params: vec![String::from("n")],
        body: vec![EIf(
            vec![
                IfExpr {
                    condition: (EVar(String::from("n")), num("1")),
                    body: vec![EReturn(Box::new(num("1")))],
                },
                IfExpr {
                    condition: (EVar(String::from("n")), num("2")),
                    body: vec![EReturn(Box::new(num("1")))],
                },
            ],
            vec![EReturn(Box::new(EAdd(
                Box::new(EFunCall(
                    fun_name.clone(),
                    vec![ESub(Box::new(EVar(String::from("n"))), Box::new(num("1")))],
                )),
                Box::new(EFunCall(
                    fun_name.clone(),
                    vec![ESub(Box::new(EVar(String::from("n"))), Box::new(num("2")))],
                )),
            )))],
        )],
    };
    let mut env = Environment::new();
    env.add(fun_name.clone(), LambdaRef(recursive_function));

    let fun_call_expr = EFunCall(fun_name.clone(), vec![num("4")]);

    assert_eq!(eval(&mut env, fun_call_expr).unwrap(), 3.0);
}

#[test]
fn it_evaluates_add_expression() {
    let expr = EAdd(Box::new(num("1")), Box::new(num("2")));
    assert_eq!(eval(&mut Environment::new(), expr).unwrap(), 3.0);
}

#[test]
fn it_evaluates_subtraction_expression() {
    let expr = ESub(Box::new(num("3")), Box::new(num("2")));
    assert_eq!(eval(&mut Environment::new(), expr).unwrap(), 1.0);
}

#[test]
fn it_evaluates_multiplication_expression() {
    let expr = EMul(Box::new(num("3")), Box::new(num("2")));
    assert_eq!(eval(&mut Environment::new(), expr).unwrap(), 6.0);
}

#[test]
fn it_evaluates_division_expression() {
    let expr = EDiv(Box::new(num("3")), Box::new(num("2")));
    assert_eq!(eval(&mut Environment::new(), expr).unwrap(), 1.5);
}
