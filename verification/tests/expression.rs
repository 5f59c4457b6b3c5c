use minilisp::context::Context;
use minilisp::expression::Expression;
use minilisp::failure::Failure;
use minilisp::tokenizer::Token;
use minilisp::value::Value;

fn run(text: &str) -> Result<Value, Failure> {
    Expression::from(text).unwrap().eval(&mut Context::new())
}

fn product_3_5() -> Expression {
    Expression::Expression(
        Token::Symbol("*".to_string()),
        vec![
            Expression::Value(Value::Integer(3)),
            Expression::Value(Value::Integer(5)),
        ],
    )
}

#[test]
fn expression_test_int() {
    assert_eq!(
        Expression::from_tokens(vec![Token::Integer(3)].as_slice()),
        Ok(Expression::Value(Value::Integer(3)))
    );
    assert_eq!(Expression::from("6"), Ok(Expression::Value(Value::Integer(6))));
    assert_eq!(
        Expression::from("5").unwrap().eval(&mut Context::new()),
        Ok(Value::Integer(5))
    );
}

#[test]
fn expression_test_simple_add() {
    assert_eq!(
        Expression::from("(+ 1 2)"),
        Ok(Expression::Expression(
            Token::Symbol("+".to_string()),
            vec![
                Expression::Value(Value::Integer(1)),
                Expression::Value(Value::Integer(2))
            ]
        ))
    );
}

#[test]
fn expression_test_nil() {
    assert_eq!(Expression::from("nil"), Ok(Expression::Value(Value::Nil)));
    assert_eq!(
        Expression::from("nil").unwrap().eval(&mut Context::new()),
        Ok(Value::Nil)
    );
}

#[test]
fn expression_test_math_expr() {
    assert_eq!(
        Expression::from("(+ 4 (* 3 5))"),
        Ok(Expression::Expression(
            Token::Symbol("+".to_string()),
            vec![Expression::Value(Value::Integer(4)), product_3_5()]
        ))
    );
}

#[test]
fn test_math_expr2() {
    assert_eq!(
        Expression::from("(+ 4 (* 3 5) (* 4 6))"),
        Ok(Expression::Expression(
            Token::Symbol("+".to_string()),
            vec![
                Expression::Value(Value::Integer(4)),
                Expression::Expression(
                    Token::Symbol("*".to_string()),
                    vec![
                        Expression::Value(Value::Integer(3)),
                        Expression::Value(Value::Integer(5))
                    ]
                ),
                Expression::Expression(
                    Token::Symbol("*".to_string()),
                    vec![
                        Expression::Value(Value::Integer(4)),
                        Expression::Value(Value::Integer(6))
                    ]
                )
            ]
        ))
    );
}

#[test]
fn test_math_expr3() {
    assert_eq!(
        Expression::from("(+ 4 (* 3 5) (* 4 (* 3 5)))"),
        Ok(Expression::Expression(
            Token::Symbol("+".to_string()),
            vec![
                Expression::Value(Value::Integer(4)),
                Expression::Expression(
                    Token::Symbol("*".to_string()),
                    vec![
                        Expression::Value(Value::Integer(3)),
                        Expression::Value(Value::Integer(5))
                    ]
                ),
                Expression::Expression(
                    Token::Symbol("*".to_string()),
                    vec![
                        Expression::Value(Value::Integer(4)),
                        Expression::Expression(
                            Token::Symbol("*".to_string()),
                            vec![
                                Expression::Value(Value::Integer(3)),
                                Expression::Value(Value::Integer(5))
                            ]
                        )
                    ]
                )
            ]
        ))
    );
}

#[test]
fn expression_test_bool() {
    assert_eq!(
        Expression::from("true").unwrap().eval(&mut Context::new()),
        Ok(Value::Bool(true))
    );

    assert_eq!(
        Expression::from("false").unwrap().eval(&mut Context::new()),
        Ok(Value::Bool(false))
    );
}

#[test]
fn test_add() {
    assert_eq!(
        Expression::from("(+ 4 5)").unwrap().eval(&mut Context::new()),
        Ok(Value::Integer(9))
    );
}

#[test]
fn test_mul() {
    assert_eq!(
        Expression::from("(* 4 5)").unwrap().eval(&mut Context::new()),
        Ok(Value::Integer(20))
    );
}

#[test]
fn test_sub() {
    assert_eq!(
        Expression::from("(- 4 5)").unwrap().eval(&mut Context::new()),
        Ok(Value::Integer(-1))
    );
}

#[test]
fn test_div() {
    assert_eq!(
        Expression::from("(/ 63 10)").unwrap().eval(&mut Context::new()),
        Ok(Value::Integer(6))
    );
}

#[test]
fn test_mod() {
    assert_eq!(
        Expression::from("(% 63 100)").unwrap().eval(&mut Context::new()),
        Ok(Value::Integer(63))
    );

    assert_eq!(
        Expression::from("(% 101 2)").unwrap().eval(&mut Context::new()),
        Ok(Value::Integer(1))
    );
}

#[test]
fn test_eq() {
    assert_eq!(
        Expression::from("(= 63 10)").unwrap().eval(&mut Context::new()),
        Ok(Value::Bool(false))
    );
    assert_eq!(
        Expression::from("(= 63 63)").unwrap().eval(&mut Context::new()),
        Ok(Value::Bool(true))
    );

    assert_eq!(
        Expression::from("(= true true)").unwrap().eval(&mut Context::new()),
        Ok(Value::Bool(true))
    );
    assert_eq!(
        Expression::from("(= true false)").unwrap().eval(&mut Context::new()),
        Ok(Value::Bool(false))
    );

    assert_eq!(
        Expression::from("(= nil nil)").unwrap().eval(&mut Context::new()),
        Ok(Value::Bool(true))
    );
}

#[test]
fn test_lt() {
    assert_eq!(
        Expression::from("(< 63 63)").unwrap().eval(&mut Context::new()),
        Ok(Value::Bool(false))
    );
    assert_eq!(
        Expression::from("(< 5 63)").unwrap().eval(&mut Context::new()),
        Ok(Value::Bool(true))
    );
    assert_eq!(
        Expression::from("(< 7 3)").unwrap().eval(&mut Context::new()),
        Ok(Value::Bool(false))
    );
}

#[test]
fn test_gt() {
    assert_eq!(
        Expression::from("(> 63 63)").unwrap().eval(&mut Context::new()),
        Ok(Value::Bool(false))
    );
    assert_eq!(
        Expression::from("(> 5 63)").unwrap().eval(&mut Context::new()),
        Ok(Value::Bool(false))
    );
    assert_eq!(
        Expression::from("(> 7 3)").unwrap().eval(&mut Context::new()),
        Ok(Value::Bool(true))
    );
}

#[test]
fn test_and() {
    assert_eq!(
        Expression::from("(and true true)").unwrap().eval(&mut Context::new()),
        Ok(Value::Bool(true))
    );
    assert_eq!(
        Expression::from("(and true false)").unwrap().eval(&mut Context::new()),
        Ok(Value::Bool(false))
    );
    assert_eq!(
        Expression::from("(and false true)").unwrap().eval(&mut Context::new()),
        Ok(Value::Bool(false))
    );
    assert_eq!(
        Expression::from("(and false false)").unwrap().eval(&mut Context::new()),
        Ok(Value::Bool(false))
    );
}

#[test]
fn test_or() {
    assert_eq!(
        Expression::from("(or true true)").unwrap().eval(&mut Context::new()),
        Ok(Value::Bool(true))
    );
    assert_eq!(
        Expression::from("(or true false)").unwrap().eval(&mut Context::new()),
        Ok(Value::Bool(true))
    );
    assert_eq!(
        Expression::from("(or false true)").unwrap().eval(&mut Context::new()),
        Ok(Value::Bool(true))
    );
    assert_eq!(
        Expression::from("(or false false)").unwrap().eval(&mut Context::new()),
        Ok(Value::Bool(false))
    );
}

#[test]
fn test_not() {
    assert_eq!(
        Expression::from("(not true)").unwrap().eval(&mut Context::new()),
        Ok(Value::Bool(false))
    );
    assert_eq!(
        Expression::from("(not false)").unwrap().eval(&mut Context::new()),
        Ok(Value::Bool(true))
    );
}

#[test]
fn test_math() {
    assert_eq!(
        Expression::from("(+ 4 (* 3 5) (* 4 6))").unwrap().eval(&mut Context::new()),
        Ok(Value::Integer(43))
    );
}

#[test]
fn test_print_int() {
    assert_eq!(
        Expression::from("(print 5)").unwrap().eval(&mut Context::new()),
        Ok(Value::Nil)
    );
}

#[test]
fn test_print_nil() {
    assert_eq!(
        Expression::from("(print nil)").unwrap().eval(&mut Context::new()),
        Ok(Value::Nil)
    );
}

#[test]
fn test_if() {
    assert_eq!(
        Expression::from("(if true 4 nil)").unwrap().eval(&mut Context::new()),
        Ok(Value::Integer(4))
    );

    assert_eq!(
        Expression::from("(if false 4 nil)").unwrap().eval(&mut Context::new()),
        Ok(Value::Nil)
    );
}

#[test]
fn test_if_else() {
    assert_eq!(
        Expression::from("(if true 4 nil)").unwrap().eval(&mut Context::new()),
        Ok(Value::Integer(4))
    );

    assert_eq!(
        Expression::from("(if false 4 nil)").unwrap().eval(&mut Context::new()),
        Ok(Value::Nil)
    );

    assert_eq!(
        Expression::from("(if true nil 4)").unwrap().eval(&mut Context::new()),
        Ok(Value::Nil)
    );

    assert_eq!(
        Expression::from("(if false 4 4)").unwrap().eval(&mut Context::new()),
        Ok(Value::Integer(4))
    );
}

#[test]
fn test_while() {
    assert_eq!(
        Expression::from(
            "(block (global i 0) (while (< i 10) (block (print i) (global i (+ i 1)))) i)"
        )
        .unwrap()
        .eval(&mut Context::new()),
        Ok(Value::Integer(10))
    );
}

#[test]
fn test_block() {
    assert_eq!(
        Expression::from("(block)").unwrap().eval(&mut Context::new()),
        Ok(Value::Nil)
    );

    assert_eq!(
        Expression::from("(block 5)").unwrap().eval(&mut Context::new()),
        Ok(Value::Integer(5))
    );

    assert_eq!(
        Expression::from("(block 5 7)").unwrap().eval(&mut Context::new()),
        Ok(Value::Integer(7))
    );

    assert_eq!(
        Expression::from("(block (+ 5 2) 5 1 true)").unwrap().eval(&mut Context::new()),
        Ok(Value::Bool(true))
    );
}

#[test]
fn test_global() {
    let mut context = Context::new();
    assert_eq!(
        Expression::from("(global abc 4)").unwrap().eval(&mut context),
        Ok(Value::Nil)
    );
    assert_eq!(context.globals.get("abc"), Option::Some(&Value::Integer(4)));
}

#[test]
fn test_global_multi() {
    let mut context = Context::new();
    assert_eq!(
        Expression::from("(block (global abc 4) (global a 1) (global abc 7) a)")
            .unwrap()
            .eval(&mut context),
        Ok(Value::Integer(1))
    );
    assert_eq!(context.globals.get("abc"), Option::Some(&Value::Integer(7)));
}

#[test]
fn helper_runs_in_a_fresh_context() {
    assert_eq!(run("(+ 1 (* 2 3))"), Ok(Value::Integer(7)));
}

#[test]
fn expressions_compare_by_structure() {
    let parse = |text: &str| Expression::from(text).unwrap();
    assert_eq!(parse("(+ 1 (* 2 3))"), parse(" ( +  1 ( * 2 3 ) ) "));
    assert_ne!(parse("(+ 1 2)"), parse("(+ 1 3)"));
    assert_ne!(parse("(+ 1 2)"), parse("(* 1 2)"));
    assert_ne!(parse("(+ 1 2)"), parse("(+ 1 2 3)"));
    assert_ne!(parse("(+ 1 2 3)"), parse("(+ 1 2)"));
    assert_ne!(parse("(+ 1 (+ 2 3))"), parse("(+ 1 (+ 2 4))"));
    assert_ne!(parse("x"), parse("y"));
    assert_ne!(parse("x"), parse("1"));
    assert_ne!(parse("(x)"), parse("x"));
    assert_ne!(
        Expression::Value(Value::String("1".to_string())),
        Expression::Value(Value::Integer(1))
    );
    assert_ne!(
        Expression::Expression(Token::Integer(1), vec![]),
        Expression::Expression(Token::Symbol("1".to_string()), vec![])
    );
}

#[test]
fn tokens_that_spell_an_expression_parse_as_it() {
    let tokens = vec![
        Token::LParen,
        Token::Symbol("if".to_string()),
        Token::Bool(true),
        Token::LParen,
        Token::Symbol("f".to_string()),
        Token::RParen,
        Token::Nil,
        Token::RParen,
    ];
    assert_eq!(
        Expression::from_tokens(&tokens),
        Ok(Expression::Expression(
            Token::Symbol("if".to_string()),
            vec![
                Expression::Value(Value::Bool(true)),
                Expression::Expression(Token::Symbol("f".to_string()), vec![]),
                Expression::Value(Value::Nil)
            ]
        ))
    );
    assert_eq!(Expression::from_tokens(&tokens[..7]), Err(Failure::Syntax));
    assert_eq!(Expression::from_tokens(&tokens[1..]), Err(Failure::Syntax));
}
