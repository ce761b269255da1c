use bcalc::parser::{expr, parse};
use bcalc::types::Expr;
use bcalc::types::Expr::{EAdd, EDefun, EDiv, EExp, EFunCall, EIf, ELet, EMul, EReturn, ESub, EVar};
use bcalc::types::{IfExpr, Lambda};

fn num(digits: &str) -> Expr {
    Expr::ENum(String::from(digits))
}

#[test]
fn test_parse_add_statement() {
    let parsed = parse("1 + 2").unwrap();
    assert_eq!(parsed, EAdd(Box::new(num("1")), Box::new(num("2"))));
}

#[test]
fn test_parse_subtraction_statement() {
    let parsed = parse("1 - 2").unwrap();
    assert_eq!(parsed, ESub(Box::new(num("1")), Box::new(num("2"))));
}

#[test]
fn test_parse_multiplication_statement() {
    let parsed = parse("1 * 2").unwrap();
    assert_eq!(parsed, EMul(Box::new(num("1")), Box::new(num("2"))));
}

#[test]
fn test_parse_multi_level_expression() {
    let parsed = parse("1 * 2 + 3 / 4 ^ 6").unwrap();
    let expected = EAdd(
        Box::new(EMul(Box::new(num("1")), Box::new(num("2")))),
        Box::new(EDiv(
            Box::new(num("3")),
            Box::new(EExp(Box::new(num("4")), Box::new(num("6")))),
        )),
    );
    assert_eq!(parsed, expected);
}

#[test]
fn test_parse_expression_with_parantheses() {
    let parsed = parse("(1 + 2) * 3").unwrap();
    let expected = EMul(
        Box::new(EAdd(Box::new(num("1")), Box::new(num("2")))),
        Box::new(num("3")),
    );
    assert_eq!(parsed, expected);
}

#[test]
fn test_parse_division_statement() {
    let parsed = parse("1 / 2").unwrap();
    assert_eq!(parsed, EDiv(Box::new(num("1")), Box::new(num("2"))));
}

#[test]
fn test_parse_let_statement() {
    let parsed = parse("let phi = (20 + 30) - 10").unwrap();
    assert_eq!(
        parsed,
        ELet(
            String::from("phi"),
            Box::new(ESub(
                Box::new(EAdd(Box::new(num("20")), Box::new(num("30")))),
                Box::new(num("10")),
            )),
        )
    );
}

#[test]
fn test_parse_variables_in_expressions() {
    let parsed = parse("20 + (30 + phi) - 10").unwrap();
    assert_eq!(
        parsed,
        ESub(
            Box::new(EAdd(
                Box::new(num("20")),
                Box::new(EAdd(Box::new(num("30")), Box::new(EVar(String::from("phi"))))),
            )),
            Box::new(num("10")),
        )
    );
}

#[test]
fn test_parse_return_statements() {
    let parsed = parse("return n * n").unwrap();
    assert_eq!(
        parsed,
        EReturn(Box::new(EMul(
            Box::new(EVar(String::from("n"))),
            Box::new(EVar(String::from("n"))),
        )))
    );
}

#[test]
fn test_parse_simple_function_definitions_with_single_argument() {
    let function_definiton = "define square(n) { return n * n; }";
    let parsed = parse(function_definiton).unwrap();
    assert_eq!(
        parsed,
        EDefun(
            String::from("square"),
            Lambda {
                params: vec![String::from("n")],
                body: vec![EReturn(Box::new(EMul(
                    Box::new(EVar(String::from("n"))),
                    Box::new(EVar(String::from("n"))),
                )))],
            },
        )
    );
}

#[test]
fn test_parse_function_definitions() {
    let function_definiton = "define multiply(m, n) {
            let result = m * n;
            return result;
            }";
    let parsed = parse(function_definiton).unwrap();
    assert_eq!(
        parsed,
        EDefun(
            String::from("multiply"),
            Lambda {
                params: vec![String::from("m"), String::from("n")],
                body: vec![
                    ELet(
                        String::from("result"),
                        Box::new(EMul(
                            Box::new(EVar(String::from("m"))),
                            Box::new(EVar(String::from("n"))),
                        )),
                    ),
                    EReturn(Box::new(EVar(String::from("result")))),
                ],
            },
        )
    )
}

#[test]
fn test_parse_function_application() {
    let function_call = "multiply(5, 6)";
    let parsed = parse(function_call).unwrap();
    assert_eq!(
        parsed,
        EFunCall(String::from("multiply"), vec![num("5"), num("6")])
    );
}

#[test]
fn test_parses_simple_if_else_statement() {
    let if_definition = "if (n == 1) {
             return 1;
            } else {
             return 2;
            }";
    let parsed = parse(if_definition).unwrap();
    assert_eq!(
        parsed,
        EIf(
            vec![IfExpr {
                condition: (EVar(String::from("n")), num("1")),
                body: vec![EReturn(Box::new(num("1")))],
            }],
            vec![EReturn(Box::new(num("2")))],
        )
    );
}

#[test]
fn test_parses_if_else_if_statement() {
    let if_definition = "if (n == 1) {
             return 1;
            } else if(n == 2) {
             let x = 3;
             return x;
            } else if(n==3) {
             let y = 4;
             return y * y;
            } else {
             return 2;
            }";
    let parsed = parse(if_definition).unwrap();
    assert_eq!(
        parsed,
        EIf(
            vec![
                IfExpr {
                    condition: (EVar(String::from("n")), num("1")),
                    body: vec![EReturn(Box::new(num("1")))],
                },
                IfExpr {
                    condition: (EVar(String::from("n")), num("2")),
                    body: vec![
                        ELet(String::from("x"), Box::new(num("3"))),
                        EReturn(Box::new(EVar(String::from("x")))),
                    ],
                },
                IfExpr {
                    condition: (EVar(String::from("n")), num("3")),
                    body: vec![
                        ELet(String::from("y"), Box::new(num("4"))),
                        EReturn(Box::new(EMul(
                            Box::new(EVar(String::from("y"))),
                            Box::new(EVar(String::from("y"))),
                        ))),
                    ],
                },
            ],
            vec![EReturn(Box::new(num("2")))],
        )
    );
}

#[test]
fn test_parses_recursive_function_definitions() {
    let recursive_function = "define fibrecursive(n) {
            if (n == 1) {
              return 1;
            } else if (n == 2) {
              return 1;
            } else {
              return fibrecursive(n - 1) + fibrecursive(n);
            };
          }";
    let parsed = parse(recursive_function).unwrap();
    let fun_name = String::from("fibrecursive");
    assert_eq!(
        parsed,
        EDefun(
            fun_name.clone(),
            Lambda {
                params: vec![String::from("n")],
                body: vec![EIf(
                    vec![
                        IfExpr {
                            condition: (EVar(String::from("n")), num("1")),
                            body: vec![EReturn(Box::new(num("1")))],
                        },
                        IfExpr {
                            condition: (EVar(String::from("n")), num("2")),
                            body: vec![EReturn(Box::new(num("1")))],
                        },
                    ],
                    vec![EReturn(Box::new(EAdd(
                        Box::new(EFunCall(
                            fun_name.clone(),
                            vec![ESub(Box::new(EVar(String::from("n"))), Box::new(num("1")))],
                        )),
                        Box::new(EFunCall(fun_name.clone(), vec![EVar(String::from("n"))])),
                    )))],
                )],
            },
        )
    );
}

#[test]
fn it_parses_add_statements() {
    let (_rem, parsed) = expr("1 + 2").unwrap();
    assert_eq!(parsed, EAdd(Box::new(num("1")), Box::new(num("2"))));
}

#[test]
fn it_parses_subtraction_statements() {
    let (_rem, parsed) = expr("1 - 2").unwrap();
    assert_eq!(parsed, ESub(Box::new(num("1")), Box::new(num("2"))));
}

#[test]
fn it_parses_multiplication_statements() {
    let (_rem, parsed) = expr("1 * 2").unwrap();
    assert_eq!(parsed, EMul(Box::new(num("1")), Box::new(num("2"))));
}

#[test]
fn it_parses_division_statements() {
    let (_rem, parsed) = expr("1 / 2").unwrap();
    assert_eq!(parsed, EDiv(Box::new(num("1")), Box::new(num("2"))));
}
