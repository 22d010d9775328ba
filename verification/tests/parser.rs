use argus::lexer::{lexer, Span, Token};

#[test]
fn simple_test() {
    let cases = [
        ("true", vec![(Token::Bool(true), Span::new(0, 4))]),
        ("false", vec![(Token::Bool(false), Span::new(0, 5))]),
        (
            "F a",
            vec![(Token::Eventually, Span::new(0, 1)), (Token::Ident("a".to_owned()), Span::new(2, 3))],
        ),
        (
            "a U b",
            vec![
                (Token::Ident("a".to_owned()), Span::new(0, 1)),
                (Token::Until, Span::new(2, 3)),
                (Token::Ident("b".to_owned()), Span::new(4, 5)),
            ],
        ),
    ];

    for (input, expected) in cases {
        let (actual, errors) = lexer(input);
        assert!(errors.is_empty());
        assert_eq!(actual, expected);
    }
}
