use minilisp::tokenizer::{split_syntax, tokenize, Token};

#[test]
fn tokenizer_test_empty() {
    assert_eq!(split_syntax(""), Vec::<String>::new());
    assert_eq!(tokenize(""), vec![]);
}

#[test]
fn test_just_whitespace() {
    assert_eq!(split_syntax("  \t"), Vec::<String>::new());
}

#[test]
fn test_just_newline() {
    assert_eq!(split_syntax("\n"), Vec::<String>::new());
}

#[test]
fn tokenizer_test_int() {
    assert_eq!(split_syntax("5"), vec!["5"]);
}

#[test]
fn test_int_with_whitespace() {
    assert_eq!(split_syntax("\t\t5  "), vec!["5"]);
}

#[test]
fn test_neg_int_with_whitespace() {
    assert_eq!(split_syntax("-8  "), vec!["-8"]);
}

#[test]
fn tokenizer_test_math_operators() {
    assert_eq!(split_syntax("\t\t +\t- * /     "), vec!["+", "-", "*", "/"]);
    assert_eq!(Token::from("+"), Token::Symbol("+".to_string()));
    assert_eq!(Token::from("-"), Token::Symbol("-".to_string()));
    assert_eq!(Token::from("*"), Token::Symbol("*".to_string()));
    assert_eq!(Token::from("/"), Token::Symbol("/".to_string()));
}

#[test]
fn test_basic_math_symbols() {
    assert_eq!(
        split_syntax("3 * 2 / / + 881     \t-3  -\t"),
        vec!["3", "*", "2", "/", "/", "+", "881", "-3", "-"]
    );
}

#[test]
fn test_l_paren() {
    assert_eq!(split_syntax("  \t("), vec!["("]);
}

#[test]
fn test_r_paren() {
    assert_eq!(split_syntax("  \t)\t\t"), vec![")"]);
}

#[test]
fn test_multiple_parens() {
    assert_eq!(split_syntax("(( \n)( "), vec!["(", "(", ")", "("]);
}

#[test]
fn test_mixed_with_parens() {
    assert_eq!(
        split_syntax("7(3)(+))"),
        vec!["7", "(", "3", ")", "(", "+", ")", ")"]
    );
}

#[test]
fn tokenizer_test_math_expr() {
    assert_eq!(
        split_syntax("(+ 4 (* 3 5))"),
        vec!["(", "+", "4", "(", "*", "3", "5", ")", ")"]
    );
    assert_eq!(
        tokenize("(+ 4 (* 3 5))"),
        vec![
            Token::LParen,
            Token::Symbol("+".to_string()),
            Token::Integer(4),
            Token::LParen,
            Token::Symbol("*".to_string()),
            Token::Integer(3),
            Token::Integer(5),
            Token::RParen,
            Token::RParen
        ]
    );
}

#[test]
fn test_lparen() {
    assert_eq!(Token::from("("), Token::LParen);
}

#[test]
fn test_rparen() {
    assert_eq!(Token::from("("), Token::LParen);
}

#[test]
fn tokenizer_test_nil() {
    assert_eq!(Token::from("nil"), Token::Nil);
}

#[test]
fn tokenizer_test_bool() {
    assert_eq!(Token::from("true"), Token::Bool(true));
    assert_eq!(Token::from("false"), Token::Bool(false));
}

#[test]
fn test_integer() {
    assert_eq!(Token::from("123"), Token::Integer(123));
}

#[test]
fn test_neg_integer() {
    assert_eq!(Token::from("-88"), Token::Integer(-88));
}

#[test]
fn test_arbitrary_symbol() {
    assert_eq!(Token::from("432af"), Token::Symbol("432af".to_string()));
}

#[test]
fn right_paren_word_is_a_right_paren() {
    assert_eq!(Token::from(")"), Token::RParen);
}

#[test]
fn integer_literals_at_the_edge_of_the_range() {
    assert_eq!(Token::from("2147483647"), Token::Integer(i32::MAX));
    assert_eq!(Token::from("-2147483648"), Token::Integer(i32::MIN));
    assert_eq!(Token::from("2147483648"), Token::Symbol("2147483648".to_string()));
    assert_eq!(Token::from("-2147483649"), Token::Symbol("-2147483649".to_string()));
    assert_eq!(
        Token::from("99999999999999999999999999"),
        Token::Symbol("99999999999999999999999999".to_string())
    );
    assert_eq!(Token::from("007"), Token::Integer(7));
    assert_eq!(Token::from("-0"), Token::Integer(0));
}

#[test]
fn words_that_only_resemble_integers_are_symbols() {
    assert_eq!(Token::from("-"), Token::Symbol("-".to_string()));
    assert_eq!(Token::from("+5"), Token::Symbol("+5".to_string()));
    assert_eq!(Token::from("--5"), Token::Symbol("--5".to_string()));
    assert_eq!(Token::from("5-"), Token::Symbol("5-".to_string()));
    assert_eq!(Token::from("1_000"), Token::Symbol("1_000".to_string()));
    assert_eq!(Token::from("٣"), Token::Symbol("٣".to_string()));
    assert_eq!(Token::from("True"), Token::Symbol("True".to_string()));
}

#[test]
fn every_kind_of_whitespace_separates_words() {
    assert_eq!(split_syntax("a\u{a0}b\u{2003}c\r\nd\u{b}e"), vec!["a", "b", "c", "d", "e"]);
    assert_eq!(split_syntax("a\u{200b}b"), vec!["a\u{200b}b"]);
}

#[test]
fn whitespace_test_is_not_the_identity() {
    assert_eq!(split_syntax("x y"), vec!["x", "y"]);
    assert_eq!(split_syntax("xy"), vec!["xy"]);
}

#[test]
fn tokenize_classifies_each_word() {
    assert_eq!(
        tokenize("(if true nil -12 x)"),
        vec![
            Token::LParen,
            Token::Symbol("if".to_string()),
            Token::Bool(true),
            Token::Nil,
            Token::Integer(-12),
            Token::Symbol("x".to_string()),
            Token::RParen
        ]
    );
}

#[test]
fn token_clone_is_equal() {
    let token = Token::Symbol("while".to_string());
    assert_eq!(token.clone(), token);
    assert_eq!(Token::Integer(3).clone(), Token::Integer(3));
}

#[test]
fn words_joined_are_the_text_without_whitespace() {
    for text in ["", "  ", "(+ 4 (* 3 5))", "7(3)(+))", " a\tb\nc ", "x(y)z", "\u{3000}好 (的)"] {
        let joined: String = split_syntax(text).concat();
        let visible: String = text.chars().filter(|c| !c.is_whitespace()).collect();
        assert_eq!(joined, visible, "{:?}", text);
    }
}

#[test]
fn every_word_is_a_parenthesis_or_free_of_them() {
    for word in split_syntax("(ab(c  d))e)(  f") {
        assert!(!word.is_empty());
        assert!(word == "(" || word == ")" || !word.contains(|c: char| c == '(' || c == ')' || c.is_whitespace()));
    }
}

#[test]
fn tokens_compare_by_kind_and_payload() {
    assert_ne!(Token::LParen, Token::RParen);
    assert_ne!(Token::Nil, Token::Bool(false));
    assert_ne!(Token::Integer(1), Token::Symbol("1".to_string()));
    assert_ne!(Token::Integer(1), Token::Integer(2));
    assert_ne!(Token::Symbol("a".to_string()), Token::Symbol("b".to_string()));
    assert_eq!(Token::Bool(true), Token::Bool(true));
}
