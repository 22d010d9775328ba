use argus::bound::Bound;
use argus::expr::{Always, BoolExpr, BoolVar, Eventually, Expr, Or, Oracle, Until};
use argus::interval::Interval;
use argus::lexer::{lexer, Span, Token};
use argus::parse::parse_str;
use argus::error::Error;
use argus::syntax::{num_expr_parser, BinaryOps, Expr as SyntaxExpr, ParseErrorKind};

const SECOND: u64 = 1_000_000_000;

fn var(name: &str) -> BoolExpr {
    BoolExpr::BoolVar(BoolVar { name: name.to_owned() })
}

#[test]
fn parse_always_implies_eventually() {
    let Ok(Expr::Bool(spec)) = parse_str("G(a -> F[0,2] b)") else {
        panic!("should be bool expr")
    };
    let BoolExpr::Always(Always { arg, interval }) = spec else {
        panic!("should be an always")
    };
    assert_eq!(interval, Interval { start: Bound::Included(0), end: Bound::Unbounded });
    let BoolExpr::Or(Or { args }) = *arg else {
        panic!("an implication is a disjunction")
    };
    assert_eq!(args.len(), 2);
    assert!(matches!(&args[0], BoolExpr::Not(n) if *n.arg == var("a")));
    match &args[1] {
        BoolExpr::Eventually(Eventually { arg, interval }) => {
            assert_eq!(**arg, var("b"));
            assert_eq!(
                *interval,
                Interval { start: Bound::Included(0), end: Bound::Included(2 * SECOND) }
            );
        }
        other => panic!("{:?}", other),
    }
}

#[test]
fn parse_until_and_fractions() {
    let Ok(Expr::Bool(spec)) = parse_str("a U[0.5, 1.25] b") else {
        panic!("should be bool expr")
    };
    assert_eq!(
        spec,
        BoolExpr::Until(Until {
            lhs: Box::new(var("a")),
            rhs: Box::new(var("b")),
            interval: Interval {
                start: Bound::Included(SECOND / 2),
                end: Bound::Included(SECOND + SECOND / 4),
            },
        })
    );
}

#[test]
fn parse_oracle_and_numbers() {
    let Ok(Expr::Bool(spec)) = parse_str("X[0,3] a") else {
        panic!("should be bool expr")
    };
    assert!(matches!(spec, BoolExpr::Oracle(Oracle { steps: 3, .. })));

    let Ok(Expr::Bool(cmp)) = parse_str("x + 1 > 2") else {
        panic!("should be bool expr")
    };
    assert!(matches!(cmp, BoolExpr::Cmp(_)));

    // A numeric expression alone is no specification.
    assert!(parse_str("x - 2 * y").is_err());
    let (tokens, errors) = lexer("x - 2 * y");
    assert!(errors.is_empty());
    let (sum, span) = num_expr_parser(&tokens).unwrap();
    assert_eq!(span, Span::new(0, 9));
    assert!(matches!(sum, SyntaxExpr::Binary { op: BinaryOps::Sub, .. }));
}

#[test]
fn parse_errors() {
    // A character that no token starts with.
    let errs = parse_str("a $ b").unwrap_err();
    assert_eq!(errs[0].kind, ParseErrorKind::InvalidToken);
    assert_eq!(errs[0].span, Span::new(2, 3));
    // An operator without its operand.
    assert!(parse_str("x +").is_err());
    assert!(parse_str("").is_err());
    // `!` takes no interval.
    let errs = parse_str("![0,1] a").unwrap_err();
    assert_eq!(errs.len(), 1);
    assert_eq!(errs[0].kind, ParseErrorKind::NotWithInterval);
    // An oracle needs a bounded interval.
    let errs = parse_str("X[0..] a").unwrap_err();
    assert_eq!(errs[0].kind, ParseErrorKind::UnboundedOracle);
    // A boolean does not start a sum.
    let errs = parse_str("true + 1 > 0").unwrap_err();
    assert_eq!(errs[0].kind, ParseErrorKind::UnexpectedToken);
    // A name is used as a boolean and as a number.
    let errs = parse_str("a & a > 1").unwrap_err();
    assert_eq!(errs[0].kind, ParseErrorKind::Build(Error::IdentifierRedeclaration));
}

#[test]
fn lexer_keeps_spans_and_errors() {
    let (tokens, errors) = lexer("G[1,2] (x <= 10)");
    assert!(errors.is_empty());
    assert_eq!(tokens[0], (Token::Always, Span::new(0, 1)));
    assert_eq!(tokens.last().unwrap().1, Span::new(15, 16));

    let (_, errors) = lexer("a @ b");
    assert_eq!(errors, vec![Span::new(2, 3)]);
}

#[test]
fn parse_error_positions() {
    // The conjunction lacks its right operand: the `&` is left over.
    let errs = parse_str("a &").unwrap_err();
    assert_eq!(errs.len(), 1);
    assert_eq!(errs[0].kind, ParseErrorKind::UnexpectedToken);
    assert_eq!(errs[0].span, Span::new(2, 3));
    // An unclosed parenthesis ends too early, at the end of the last token.
    let errs = parse_str("(a").unwrap_err();
    assert_eq!(errs[0].kind, ParseErrorKind::UnexpectedEnd);
    assert_eq!(errs[0].span, Span::new(2, 2));
    // A variable used as a number and as a boolean is reported at its second use.
    let errs = parse_str("x > 1 & x").unwrap_err();
    assert_eq!(errs[0].kind, ParseErrorKind::Build(Error::IdentifierRedeclaration));
    assert_eq!(errs[0].span, Span::new(8, 9));
    // Every lexer error is reported, then the error of parsing what was lexed.
    let errs = parse_str("a $ b @").unwrap_err();
    assert_eq!(errs.len(), 3);
    assert_eq!(errs[1].span, Span::new(6, 7));
    assert!(errs[..2].iter().all(|e| e.kind == ParseErrorKind::InvalidToken));
    assert_eq!(errs[2].kind, ParseErrorKind::UnexpectedToken);
    assert_eq!(errs[2].span, Span::new(4, 5));
    // A lexer error alone fails the reading, though the rest parses.
    let errs = parse_str("a & $ b").unwrap_err();
    assert_eq!(errs.len(), 1);
    assert_eq!(errs[0].kind, ParseErrorKind::InvalidToken);
}
