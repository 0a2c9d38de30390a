use kaleido::ast::expressions::{parse_binary_operation, parse_expression};
use kaleido::ast::functions::{
    parse_extern, parse_function, parse_prototype, parse_top_level_expression,
};
use kaleido::ast::{
    BinaryExpr, CallExpr, Expression, FunctionExpr, ParseError, ProtoTypeExpr, TokenCursor,
};

fn var(name: &str) -> Expression {
    Expression::Variable(name.to_string())
}

fn num(text: &str) -> Expression {
    Expression::Number(text.to_string())
}

fn bin(op: char, lhs: Expression, rhs: Expression) -> Expression {
    Expression::Binary(Box::new(BinaryExpr { op, lhs, rhs }))
}

fn expr_of(src: &str) -> Result<Expression, ParseError> {
    let mut tokens = TokenCursor::new(src);
    parse_expression(&mut tokens)
}

#[test]
fn test_parse_binary_operation() {
    let mut tokens = TokenCursor::new("+b");
    let initial_expression = var("a");

    let expression = parse_binary_operation(&mut tokens, initial_expression, 0);

    assert_eq!(expression, Ok(bin('+', var("a"), var("b"))));
}

#[test]
fn test_parse_expression() {
    let expression = expr_of("x+y");

    assert_eq!(expression, Ok(bin('+', var("x"), var("y"))));
}

#[test]
fn test_parse_expression_number() {
    let expression = expr_of("4.0");

    assert_eq!(expression, Ok(num("4.0")));
}

#[test]
fn test_parse_extern() {
    let mut tokens = TokenCursor::new("extern sin(arg)");

    let expression = parse_extern(&mut tokens);

    assert_eq!(
        expression,
        Ok(Expression::ProtoType(Box::new(ProtoTypeExpr {
            name: "sin".to_string(),
            args: vec!["arg".to_string()],
        })))
    );
}

#[test]
fn test_parse_function_simple() {
    let mut tokens = TokenCursor::new("def constant() 4.0");

    let expression = parse_function(&mut tokens);

    assert_eq!(
        expression,
        Ok(Expression::Function(Box::new(FunctionExpr {
            proto: ProtoTypeExpr { name: "constant".to_string(), args: vec![] },
            body: num("4.0"),
        })))
    );
}

#[test]
fn test_top_level_number() {
    let mut tokens = TokenCursor::new("4.0");

    let expression = parse_top_level_expression(&mut tokens);

    assert_eq!(
        expression,
        Ok(Expression::Function(Box::new(FunctionExpr {
            proto: ProtoTypeExpr { name: "".to_string(), args: vec![] },
            body: num("4.0"),
        })))
    );
}

#[test]
fn test_precedence_binds_tighter() {
    assert_eq!(
        expr_of("a+b*c"),
        Ok(bin('+', var("a"), bin('*', var("b"), var("c"))))
    );
}

#[test]
fn test_equal_precedence_folds_left() {
    assert_eq!(
        expr_of("a+b+c"),
        Ok(bin('+', bin('+', var("a"), var("b")), var("c")))
    );
    assert_eq!(
        expr_of("a*b+c"),
        Ok(bin('+', bin('*', var("a"), var("b")), var("c")))
    );
}

#[test]
fn test_lower_precedence_first_operator_folds_right() {
    // `+` binds tighter than `-` in this grammar's operator table
    assert_eq!(
        expr_of("a-b+c"),
        Ok(bin('-', var("a"), bin('+', var("b"), var("c"))))
    );
}

#[test]
fn test_parens_are_transparent() {
    assert_eq!(expr_of("(x+y)"), expr_of("x+y"));
    assert_eq!(expr_of("((4.0))"), Ok(num("4.0")));
    assert_eq!(
        expr_of("(a+b)*c"),
        Ok(bin('*', bin('+', var("a"), var("b")), var("c")))
    );
}

#[test]
fn test_call_arguments_in_order() {
    assert_eq!(
        expr_of("getdata(a, b+c)"),
        Ok(Expression::Call(Box::new(CallExpr {
            callee: "getdata".to_string(),
            args: vec![var("a"), bin('+', var("b"), var("c"))],
        })))
    );
}

#[test]
fn test_call_without_arguments() {
    assert_eq!(
        expr_of("f()"),
        Ok(Expression::Call(Box::new(CallExpr { callee: "f".to_string(), args: vec![] })))
    );
}

#[test]
fn test_missing_close_paren() {
    match expr_of("(a+b") {
        Err(e) => assert_eq!(e.message(), "Expected ')'"),
        Ok(_) => panic!("a missing ')' must not parse"),
    }
}

#[test]
fn test_bad_argument_separator() {
    match expr_of("f(a b)") {
        Err(e) => assert_eq!(e.message(), "Expected ',' or ')'"),
        Ok(_) => panic!("a stray separator must not parse"),
    }
}

#[test]
fn test_expression_cannot_start_with_operator() {
    match expr_of("+") {
        Err(e) => assert_eq!(e.message(), "Unknown token when expecting an expression"),
        Ok(_) => panic!("a bare operator must not parse"),
    }
}

#[test]
fn test_prototype_needs_name() {
    let mut tokens = TokenCursor::new("def 1.0(x) 2.0");
    match parse_function(&mut tokens) {
        Err(e) => assert_eq!(e.message(), "Expected function name in prototype"),
        Ok(_) => panic!("a number is no function name"),
    }
}

#[test]
fn test_prototype_needs_open_paren() {
    let mut tokens = TokenCursor::new("def f x");
    match parse_function(&mut tokens) {
        Err(e) => assert_eq!(e.message(), "Expected '(' in prototype"),
        Ok(_) => panic!("a prototype without '(' must not parse"),
    }
}

#[test]
fn test_prototype_rejects_comma() {
    // parameter names stand side by side, without separators
    let mut tokens = TokenCursor::new("def f(x, y) 1.0");
    match parse_function(&mut tokens) {
        Err(e) => assert_eq!(e.message(), "Expected ')' in prototype"),
        Ok(_) => panic!("a comma between parameters must not parse"),
    }
}

#[test]
fn test_prototype_parameters_without_separators() {
    let mut tokens = TokenCursor::new("add(x y)");
    let proto = parse_prototype(&mut tokens);
    assert_eq!(
        proto,
        Ok(ProtoTypeExpr {
            name: "add".to_string(),
            args: vec!["x".to_string(), "y".to_string()],
        })
    );
}

#[test]
fn test_function_with_parameters_and_body() {
    let mut tokens = TokenCursor::new("def add(x y) x+y");
    assert_eq!(
        parse_function(&mut tokens),
        Ok(Expression::Function(Box::new(FunctionExpr {
            proto: ProtoTypeExpr {
                name: "add".to_string(),
                args: vec!["x".to_string(), "y".to_string()],
            },
            body: bin('+', var("x"), var("y")),
        })))
    );
}

#[test]
fn test_expression_with_comment_and_whitespace() {
    assert_eq!(expr_of("  a +\tb # trailing words"), expr_of("a+b"));
}

#[test]
fn test_nested_call_in_expression() {
    assert_eq!(
        expr_of("a + (b * getmean(x))"),
        Ok(bin(
            '+',
            var("a"),
            bin(
                '*',
                var("b"),
                Expression::Call(Box::new(CallExpr {
                    callee: "getmean".to_string(),
                    args: vec![var("x")],
                }))
            )
        ))
    );
}
