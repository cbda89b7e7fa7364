use tinylanguage::lexer::{lex, Token};
use tinylanguage::parser::token_text;
use tinylanguage::{eval, parse_expr, type_of, BinOp, Expr, Type, Value};

fn run(source: &str) -> (Type, Value) {
    let expr = parse_expr(source).expect("parse");
    let ty = type_of(&expr).expect("type");
    let value = eval(&expr).expect("eval");
    (ty, value)
}

fn parse_error(source: &str) -> String {
    parse_expr(source).unwrap_err().message
}

fn type_error(source: &str) -> String {
    type_of(&parse_expr(source).expect("parse")).unwrap_err().message
}

fn eval_error(source: &str) -> String {
    eval(&parse_expr(source).expect("parse")).unwrap_err().message
}

#[test]
fn parse_type_eval_simple() {
    let expr = parse_expr("let x = 2 in if true then x + 3 else 0").unwrap();
    let ty = type_of(&expr).unwrap();
    assert_eq!(ty, Type::Int);
    let value = eval(&expr).unwrap();
    assert_eq!(value, Value::Int(5));
}

#[test]
fn arithmetic_roundtrip() {
    let samples = [-500i64, -499, -17, -1, 0, 1, 2, 42, 250, 499];
    for a in samples {
        for b in samples {
            let source = format!("{a} + {b} * 2");
            let expr = parse_expr(&source).expect("parse");
            let ty = type_of(&expr).expect("type");
            assert_eq!(ty, Type::Int);
            let value = eval(&expr).expect("eval");
            assert_eq!(value, Value::Int(a + b * 2));
        }
    }
}

#[test]
fn if_expression_is_typed() {
    let samples = [-100i64, -99, -3, 0, 7, 99];
    for flag in [true, false] {
        for a in samples {
            for b in samples {
                let flag_str = if flag { "true" } else { "false" };
                let source = format!("if {flag_str} then {a} else {b}");
                let expr = parse_expr(&source).expect("parse");
                let ty = type_of(&expr).expect("type");
                assert_eq!(ty, Type::Int);
                let value = eval(&expr).expect("eval");
                let expected = if flag { a } else { b };
                assert_eq!(value, Value::Int(expected));
            }
        }
    }
}

#[test]
fn let_lambda_application() {
    let samples = [-50i64, -49, -8, 0, 5, 49];
    for a in samples {
        for b in samples {
            let source = format!(
                "let x = {a} in let f = \\\n             y: Int -> x + y in f {b}"
            );
            let expr = parse_expr(&source).expect("parse");
            let ty = type_of(&expr).expect("type");
            assert_eq!(ty, Type::Int);
            let value = eval(&expr).expect("eval");
            assert_eq!(value, Value::Int(a + b));
            assert!(matches!(value, Value::Int(_)));
        }
    }
}

#[test]
fn readme_example() {
    let (ty, value) = run("let add = \\x: Int -> \\y: Int -> x + y in add 2 3");
    assert_eq!(ty, Type::Int);
    assert_eq!(value, Value::Int(5));
}

#[test]
fn lexes_all_tokens() {
    let tokens = lex("let in if then else true false \\ : -> ( ) + - * == < = foo_1 42").unwrap();
    assert_eq!(
        tokens,
        vec![
            Token::Let,
            Token::In,
            Token::If,
            Token::Then,
            Token::Else,
            Token::Bool(true),
            Token::Bool(false),
            Token::Lambda,
            Token::Colon,
            Token::Arrow,
            Token::LParen,
            Token::RParen,
            Token::Plus,
            Token::Minus,
            Token::Star,
            Token::EqEq,
            Token::Lt,
            Token::Assign,
            Token::Ident("foo_1".to_string()),
            Token::Int(42),
        ]
    );
}

#[test]
fn lexes_negative_literals_only_where_no_operand_precedes() {
    assert_eq!(lex("-3").unwrap(), vec![Token::Int(-3)]);
    assert_eq!(lex("f -3").unwrap(), vec![Token::Ident("f".to_string()), Token::Int(-3)]);
    assert_eq!(
        lex("x-3").unwrap(),
        vec![Token::Ident("x".to_string()), Token::Minus, Token::Int(3)]
    );
    assert_eq!(
        lex("x - 3").unwrap(),
        vec![Token::Ident("x".to_string()), Token::Minus, Token::Int(3)]
    );
    assert_eq!(
        lex("(1)-2").unwrap(),
        vec![Token::LParen, Token::Int(1), Token::RParen, Token::Minus, Token::Int(2)]
    );
    assert_eq!(lex("(-2)").unwrap(), vec![Token::LParen, Token::Int(-2), Token::RParen]);
    assert_eq!(lex("1 -3").unwrap(), vec![Token::Int(1), Token::Minus, Token::Int(3)]);
    assert_eq!(
        lex("(1) \n -3").unwrap(),
        vec![Token::LParen, Token::Int(1), Token::RParen, Token::Minus, Token::Int(3)]
    );
    assert_eq!(lex("true -3").unwrap(), vec![Token::Bool(true), Token::Minus, Token::Int(3)]);
    assert_eq!(lex("then -3").unwrap(), vec![Token::Then, Token::Int(-3)]);
    assert_eq!(lex("= -3").unwrap(), vec![Token::Assign, Token::Int(-3)]);
}

#[test]
fn lexes_integer_limits() {
    assert_eq!(lex("9223372036854775807").unwrap(), vec![Token::Int(i64::MAX)]);
    assert_eq!(lex("-9223372036854775808").unwrap(), vec![Token::Int(i64::MIN)]);
    assert_eq!(lex("007").unwrap(), vec![Token::Int(7)]);
    assert_eq!(
        lex("9223372036854775808").unwrap_err().message,
        "invalid integer literal: number too large to fit in target type"
    );
    assert_eq!(
        lex("-9223372036854775809").unwrap_err().message,
        "invalid integer literal: number too small to fit in target type"
    );
    assert_eq!(
        lex("123456789012345678901234567890").unwrap_err().message,
        "invalid integer literal: number too large to fit in target type"
    );
}

#[test]
fn lex_rejects_unexpected_characters() {
    assert_eq!(lex("1 # 2").unwrap_err().message, "unexpected character '#'");
    assert_eq!(lex("a & b").unwrap_err().message, "unexpected character '&'");
    assert_eq!(lex("é").unwrap_err().message, "unexpected character 'é'");
    assert_eq!(lex("").unwrap(), vec![]);
    assert_eq!(lex(" \n\t\r ").unwrap(), vec![]);
}

#[test]
fn precedence_and_associativity() {
    let expr = parse_expr("1 + 2 * 3").unwrap();
    assert_eq!(
        expr,
        Expr::BinOp(
            BinOp::Add,
            Box::new(Expr::Int(1)),
            Box::new(Expr::BinOp(BinOp::Mul, Box::new(Expr::Int(2)), Box::new(Expr::Int(3))))
        )
    );
    let expr = parse_expr("10 - 3 - 2").unwrap();
    assert_eq!(
        expr,
        Expr::BinOp(
            BinOp::Sub,
            Box::new(Expr::BinOp(BinOp::Sub, Box::new(Expr::Int(10)), Box::new(Expr::Int(3)))),
            Box::new(Expr::Int(2))
        )
    );
    assert_eq!(run("10 - 3 - 2").1, Value::Int(5));
    assert_eq!(run("let x = 0 in 1 - 2 + 3 - 4 + x").1, Value::Int(-2));
    assert_eq!(run("let x = 2 in let y = 3 in let z = -7 in x * y + z").1, Value::Int(-1));
    assert_eq!(run("1 + 2 < 4 == true").1, Value::Bool(true));
    assert_eq!(run("(1 + 2) * 3").1, Value::Int(9));
    let expr = parse_expr("f x y").unwrap();
    assert_eq!(
        expr,
        Expr::App(
            Box::new(Expr::App(
                Box::new(Expr::Var("f".to_string())),
                Box::new(Expr::Var("x".to_string()))
            )),
            Box::new(Expr::Var("y".to_string()))
        )
    );
}

#[test]
fn lambda_with_function_parameter() {
    let (ty, value) = run("let twice = \\f: Int -> Int -> \\x: Int -> f (f x) in twice (\\n: Int -> n * 3) 2");
    assert_eq!(ty, Type::Int);
    assert_eq!(value, Value::Int(18));
    let (ty, _) = run("\\f: (Int -> Bool) -> f 1");
    assert_eq!(
        ty,
        Type::Func(
            Box::new(Type::Func(Box::new(Type::Int), Box::new(Type::Bool))),
            Box::new(Type::Bool)
        )
    );
}

#[test]
fn parse_errors() {
    assert_eq!(parse_error("1 2 )"), "unexpected tokens after expression");
    assert_eq!(parse_error("let = 1 in 2"), "expected identifier");
    assert_eq!(parse_error("let x 1 in 2"), "expected token Assign");
    assert_eq!(parse_error("let x = 1 2"), "expected token In");
    assert_eq!(parse_error("let x = 1 then 2"), "expected token In");
    assert_eq!(parse_error("if true 1 else 2"), "expected token Then");
    assert_eq!(parse_error("if true then 1"), "expected token Else");
    assert_eq!(parse_error("\\x Int -> x"), "expected token Colon");
    assert_eq!(parse_error("\\x: Foo -> x"), "expected type");
    assert_eq!(parse_error("\\x: Int x"), "expected token Arrow");
    assert_eq!(parse_error("(1 + 2"), "expected token RParen");
    assert_eq!(parse_error(""), "expected expression");
    assert_eq!(parse_error("1 +"), "expected expression");
    assert_eq!(parse_error("1 $ 2"), "unexpected character '$'");
}

#[test]
fn type_errors() {
    assert_eq!(type_error("x"), "unbound variable x");
    assert_eq!(type_error("if 1 then 2 else 3"), "condition must be Bool");
    assert_eq!(type_error("if true then 2 else false"), "branches must have the same type");
    assert_eq!(type_error("(\\x: Int -> x) true"), "function expected Int but argument was Bool");
    assert_eq!(
        type_error("(\\f: Int -> Int -> f 1) (\\b: Bool -> b)"),
        "function expected (Int -> Int) but argument was (Bool -> Bool)"
    );
    assert_eq!(type_error("1 2"), "attempted to call a non-function");
    assert_eq!(type_error("1 + true"), "arithmetic expects Int");
    assert_eq!(type_error("1 == true"), "equality expects matching types");
    assert_eq!(type_error("true < false"), "comparison expects Int");
    assert_eq!(type_of(&parse_expr("1 == 1").unwrap()).unwrap(), Type::Bool);
    assert_eq!(type_of(&parse_expr("true == false").unwrap()).unwrap(), Type::Bool);
}

#[test]
fn unused_bindings_do_not_change_types() {
    assert_eq!(type_of(&parse_expr("let unused = true in 1 + 2").unwrap()).unwrap(), Type::Int);
    assert_eq!(
        type_error("let unused = true in 1 + false"),
        type_error("1 + false")
    );
}

#[test]
fn scoping_restores_outer_bindings() {
    assert_eq!(run("let x = 1 in (let x = true in x) == true").1, Value::Bool(true));
    assert_eq!(run("let x = 1 in let y = (let x = 5 in x) in x + y").1, Value::Int(6));
    assert_eq!(type_error("(let y = 1 in y) + y"), "unbound variable y");
    assert_eq!(type_error("(\\z: Int -> z) 1 + z"), "unbound variable z");
}

#[test]
fn closures_capture_their_environment() {
    let (_, value) = run("let x = 10 in let f = \\y: Int -> x + y in let x = 100 in f 1");
    assert_eq!(value, Value::Int(11));
    let (ty, value) = run("\\y: Int -> y");
    assert_eq!(ty, Type::Func(Box::new(Type::Int), Box::new(Type::Int)));
    match value {
        Value::Closure { param, body, .. } => {
            assert_eq!(param, "y");
            assert_eq!(*body, Expr::Var("y".to_string()));
        }
        _ => panic!("expected a closure"),
    }
}

#[test]
fn closures_over_the_same_bindings_are_equal() {
    let a = eval(&parse_expr("let x = 1 in let y = 2 in \\z: Int -> z").unwrap()).unwrap();
    let b = eval(&parse_expr("let y = 2 in let x = 1 in \\z: Int -> z").unwrap()).unwrap();
    let c = eval(&parse_expr("let x = 5 in let y = 2 in let x = 1 in \\z: Int -> z").unwrap())
        .unwrap();
    let d = eval(&parse_expr("let x = 2 in let y = 2 in \\z: Int -> z").unwrap()).unwrap();
    assert_eq!(a, b);
    assert_eq!(a, c);
    assert_ne!(a, d);
}

#[test]
fn eval_errors() {
    assert_eq!(eval_error("x"), "unbound variable x");
    assert_eq!(eval_error("if 1 then 2 else 3"), "condition must be Bool");
    assert_eq!(eval_error("1 2"), "attempted to call a non-function");
    assert_eq!(eval_error("1 + true"), "invalid operands");
}

#[test]
fn functions_compare_by_structure() {
    assert_eq!(run("(\\x: Int -> x) == (\\x: Int -> x)"), (Type::Bool, Value::Bool(true)));
    assert_eq!(run("(\\x: Int -> x) == (\\y: Int -> y)").1, Value::Bool(false));
    assert_eq!(run("(\\x: Int -> x) == (\\x: Int -> x + 0)").1, Value::Bool(false));
    assert_eq!(run("let f = \\x: Int -> x in f == f").1, Value::Bool(true));
    assert_eq!(
        run("let a = 1 in let f = \\x: Int -> x + a in let a = 2 in let g = \\x: Int -> x + a in f == g").1,
        Value::Bool(false)
    );
    assert_eq!(
        run("(let a = 1 in \\x: Int -> x + a) == (let a = 1 in \\x: Int -> x + a)").1,
        Value::Bool(true)
    );
    assert_eq!(
        run("(let a = 1 in let b = 2 in \\x: Int -> x) == (let b = 2 in let a = 1 in \\x: Int -> x)").1,
        Value::Bool(true)
    );
    assert_eq!(
        run("(let a = 1 in \\x: Int -> x) == (let a = 2 in \\x: Int -> x)").1,
        Value::Bool(false)
    );
    assert_eq!(
        run("let f = \\x: Int -> x in let g = \\x: Int -> x in f == g").1,
        Value::Bool(false)
    );
    assert_eq!(
        type_error("(\\x: Int -> x) == (\\x: Bool -> x)"),
        "equality expects matching types"
    );
    assert_eq!(run("let f = \\x: Int -> x in f 1 == f 1").1, Value::Bool(true));
}

#[test]
fn negative_literal_spacing() {
    assert_eq!(run("7 - 3").1, Value::Int(4));
    assert_eq!(run("7-3").1, Value::Int(4));
    assert_eq!(run("1 -3").1, Value::Int(-2));
    assert_eq!(run("(1) -3").1, Value::Int(-2));
    assert_eq!(run("(1)-3").1, Value::Int(-2));
    assert_eq!(type_error("true -1"), "arithmetic expects Int");
    assert_eq!(run("let f = \\x: Int -> x * 2 in f -8").1, Value::Int(-16));
    assert_eq!(run("if true then -3 else -4").1, Value::Int(-3));
    let expr = parse_expr("x -3").unwrap();
    assert_eq!(
        expr,
        Expr::App(Box::new(Expr::Var("x".to_string())), Box::new(Expr::Int(-3)))
    );
}

#[test]
fn arithmetic_at_the_edges() {
    assert_eq!(run("9223372036854775807 - 1").1, Value::Int(i64::MAX - 1));
    assert_eq!(run("-9223372036854775808 + 1").1, Value::Int(i64::MIN + 1));
    assert_eq!(run("3 * -4").1, Value::Int(-12));
    assert_eq!(run("2 < 3").1, Value::Bool(true));
    assert_eq!(run("3 < 2").1, Value::Bool(false));
    assert_eq!(run("4 == 4").1, Value::Bool(true));
}

#[test]
fn clones_are_equal() {
    let expr = parse_expr("let f = \\x: Int -> x in f").unwrap();
    assert_eq!(expr.clone(), expr);
    let value = eval(&expr).unwrap();
    assert_eq!(value.clone(), value);
    let ty = Type::Func(Box::new(Type::Int), Box::new(Type::Bool));
    assert_eq!(ty.clone(), ty);
}

#[test]
fn tokens_in_messages() {
    let tokens = vec![
        Token::Int(0),
        Token::Int(7),
        Token::Int(10),
        Token::Int(-45),
        Token::Int(1234567890),
        Token::Int(i64::MAX),
        Token::Int(i64::MIN),
        Token::Bool(true),
        Token::Bool(false),
        Token::Ident("x".to_string()),
        Token::Ident("a\"b\\c\n".to_string()),
        Token::Let,
        Token::Arrow,
        Token::RParen,
        Token::EqEq,
        Token::Assign,
    ];
    for t in tokens {
        assert_eq!(token_text(&t), format!("{:?}", t));
    }
    assert_eq!(token_text(&Token::Int(-45)), "Int(-45)");
    assert_eq!(token_text(&Token::Int(i64::MIN)), "Int(-9223372036854775808)");
    assert_eq!(token_text(&Token::Ident("x".to_string())), "Ident(\"x\")");
    assert_eq!(token_text(&Token::Ident("a\"b".to_string())), "Ident(\"a\\\"b\")");
}

fn joined_tokens(a: &str, b: &str) -> Vec<Token> {
    let mut tokens = lex(a).unwrap();
    tokens.extend(lex(b).unwrap());
    tokens
}

#[test]
fn lexing_joined_texts() {
    let pairs = [
        ("1", "+ x"),
        ("let x =", "-5 in x"),
        ("f", "-8"),
        ("if", "true then 1 else 2"),
        ("(a)", "b"),
        ("", "x"),
        ("x", ""),
        ("\\y: Int", "-> y"),
    ];
    for (a, b) in pairs {
        assert_eq!(lex(&format!("{a} {b}")).unwrap(), joined_tokens(a, b));
    }
    assert_eq!(lex("x #").unwrap_err().message, lex("#").unwrap_err().message);
    assert_eq!(lex("# x").unwrap_err().message, lex("#").unwrap_err().message);
    assert_ne!(lex("1 -3").unwrap(), joined_tokens("1", "-3"));
    assert_ne!(lex("(a) -3").unwrap(), joined_tokens("(a)", "-3"));
}
