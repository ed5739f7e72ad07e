use feox::ast::{BinOp, Expr, LogicalOp, UnaryOp};
use feox::lexer::ParseError;
use feox::lexer::lex;
use feox::parser::{parse, parse_stmts, Outcome};

fn num(n: i64) -> Expr {
    Expr::Number(n)
}

fn ident(s: &str) -> Expr {
    Expr::Ident(s.to_string())
}

fn bin(op: BinOp, l: Expr, r: Expr) -> Expr {
    Expr::BinOp { left: Box::new(l), right: Box::new(r), op }
}

fn one(src: &str) -> Expr {
    let mut es = parse(src).expect("parses");
    assert_eq!(es.len(), 1, "one statement in {:?}", src);
    es.pop().unwrap()
}

#[test]
fn number_literals() {
    assert_eq!(one("42"), num(42));
    assert_eq!(one("2e9"), num(2_000_000_000));
    assert_eq!(one("1e9"), num(1_000_000_000));
}

#[test]
fn number_too_large() {
    assert_eq!(parse("9223372036854775808"), Err(ParseError::NumberTooLarge(0)));
    assert_eq!(parse("x + 1e19"), Err(ParseError::NumberTooLarge(4)));
    assert_eq!(parse("9223372036854775807"), Ok(vec![num(i64::MAX)]));
    assert_eq!(parse("0e30"), Err(ParseError::NumberTooLarge(0)));
    assert_eq!(parse("9e18"), Ok(vec![num(9_000_000_000_000_000_000)]));
}

#[test]
fn precedence() {
    assert_eq!(one("1 + 2 * 3"), bin(BinOp::Add, num(1), bin(BinOp::Mul, num(2), num(3))));
    assert_eq!(one("(1 + 2) * 3"), bin(BinOp::Mul, bin(BinOp::Add, num(1), num(2)), num(3)));
    assert_eq!(one("10 - 3 - 2"), bin(BinOp::Sub, bin(BinOp::Sub, num(10), num(3)), num(2)));
    assert_eq!(one("2 ** 3 ** 2"), bin(BinOp::Pow, bin(BinOp::Pow, num(2), num(3)), num(2)));
    assert_eq!(
        one("1 < 2 == 3 >= 4"),
        bin(BinOp::Ge, bin(BinOp::Eq, bin(BinOp::Lt, num(1), num(2)), num(3)), num(4))
    );
    assert_eq!(one("1 | 2 ^ 3 & 4"), bin(BinOp::Or, num(1), bin(BinOp::Xor, num(2), bin(BinOp::And, num(3), num(4)))));
    assert_eq!(one("1 << 3 + 1"), bin(BinOp::Shl, num(1), bin(BinOp::Add, num(3), num(1))));
    assert_eq!(
        one("a || b && c"),
        Expr::LogicalOp {
            left: Box::new(ident("a")),
            right: Box::new(Expr::LogicalOp {
                left: Box::new(ident("b")),
                right: Box::new(ident("c")),
                op: LogicalOp::And,
            }),
            op: LogicalOp::Or,
        }
    );
}

#[test]
fn unary_operators() {
    assert_eq!(one("-5"), Expr::UnaryOp { op: UnaryOp::Neg, expr: Box::new(num(5)) });
    assert_eq!(
        one("!-x"),
        Expr::UnaryOp {
            op: UnaryOp::Not,
            expr: Box::new(Expr::UnaryOp { op: UnaryOp::Neg, expr: Box::new(ident("x")) }),
        }
    );
    assert_eq!(one("2 ** -1"), bin(BinOp::Pow, num(2), Expr::UnaryOp { op: UnaryOp::Neg, expr: Box::new(num(1)) }));
}

#[test]
fn method_call_is_a_call() {
    assert_eq!(parse("x.m(1, 2)"), parse("m(x, 1, 2)"));
    assert_eq!(
        one("arr.into_iter()"),
        Expr::Call { func: Box::new(ident("into_iter")), args: vec![ident("arr")] }
    );
    assert_eq!(
        one("[1, 2].len()"),
        Expr::Call { func: Box::new(ident("len")), args: vec![Expr::Array(vec![num(1), num(2)])] }
    );
}

#[test]
fn ranges() {
    assert_eq!(
        one("(1..=10)"),
        Expr::Range { start: Box::new(num(1)), end: Box::new(num(10)), inclusive: true }
    );
    assert_eq!(
        one("1..10"),
        Expr::Range { start: Box::new(num(1)), end: Box::new(num(10)), inclusive: false }
    );
}

#[test]
fn lambdas() {
    assert_eq!(
        one("|x| x * 2"),
        Expr::Lambda { args: vec!["x".to_string()], body: Box::new(bin(BinOp::Mul, ident("x"), num(2))) }
    );
    assert_eq!(one("|| 2"), Expr::Lambda { args: vec![], body: Box::new(num(2)) });
    assert_eq!(one("| | 2"), Expr::Lambda { args: vec![], body: Box::new(num(2)) });
    assert_eq!(
        one("|a, b| a + b"),
        Expr::Lambda {
            args: vec!["a".to_string(), "b".to_string()],
            body: Box::new(bin(BinOp::Add, ident("a"), ident("b"))),
        }
    );
}

#[test]
fn string_and_char_literals() {
    assert_eq!(one("\"a\\nb\\t\\\"\\\\\""), Expr::String("a\nb\t\"\\".to_string()));
    assert_eq!(one("'a'"), Expr::Char('a'));
    assert_eq!(one("'\\n'"), Expr::Char('\n'));
    assert_eq!(one("'\\''"), Expr::Char('\''));
}

#[test]
fn lexical_errors() {
    assert_eq!(parse("1 # 2"), Err(ParseError::UnexpectedChar(2)));
    assert_eq!(parse("\"abc"), Err(ParseError::UnterminatedString(0)));
    assert_eq!(parse("x = \"a\\qb\""), Err(ParseError::BadEscape(6)));
    assert_eq!(parse("'ab'"), Err(ParseError::BadChar(0)));
    assert_eq!(parse("'\\q'"), Err(ParseError::BadChar(0)));
}

#[test]
fn syntax_errors() {
    assert_eq!(parse("1 2"), Err(ParseError::UnexpectedToken(2)));
    assert_eq!(parse("let = 3"), Err(ParseError::UnexpectedToken(0)));
    assert_eq!(parse("(1 + 2"), Err(ParseError::UnexpectedToken(0)));
    assert_eq!(parse("1 +"), Err(ParseError::UnexpectedToken(2)));
}

#[test]
fn statements() {
    assert_eq!(parse(""), Ok(vec![]));
    assert_eq!(parse("1; 2;"), Ok(vec![num(1), num(2)]));
    assert_eq!(parse(";;1;;"), Ok(vec![num(1)]));
    assert_eq!(parse("1 // one\n; 2 // two"), Ok(vec![num(1), num(2)]));
    assert_eq!(
        one("let x = 5"),
        Expr::Declare { name: "x".to_string(), value: Box::new(num(5)) }
    );
    assert_eq!(
        one("c[1][0] = 2"),
        Expr::Assign { name: "c".to_string(), indices: vec![num(1), num(0)], value: Box::new(num(2)) }
    );
    assert_eq!(one("c[1] == 2"), bin(BinOp::Eq, Expr::Index { object: Box::new(ident("c")), index: Box::new(num(1)) }, num(2)));
}

#[test]
fn control_flow() {
    assert_eq!(
        one("if a > 0 { 1 } else { -1 }"),
        Expr::If {
            cond: Box::new(bin(BinOp::Gt, ident("a"), num(0))),
            then: Box::new(Expr::Block(vec![num(1)])),
            else_: Some(Box::new(Expr::Block(vec![Expr::UnaryOp { op: UnaryOp::Neg, expr: Box::new(num(1)) }]))),
        }
    );
    assert_eq!(
        one("while a { a = a - 1; }"),
        Expr::While {
            cond: Box::new(ident("a")),
            body: Box::new(Expr::Block(vec![Expr::Assign {
                name: "a".to_string(),
                indices: vec![],
                value: Box::new(bin(BinOp::Sub, ident("a"), num(1))),
            }])),
        }
    );
    assert_eq!(
        one("for x in it { print(x) }"),
        Expr::For {
            var: "x".to_string(),
            iter: Box::new(ident("it")),
            body: Box::new(Expr::Block(vec![Expr::Print(Box::new(ident("x")))])),
        }
    );
    assert_eq!(
        one("mod 10 { 7 }"),
        Expr::Mod { modulus: Box::new(num(10)), body: Box::new(Expr::Block(vec![num(7)])) }
    );
    assert_eq!(parse("return; return 1; break; continue"), Ok(vec![
        Expr::Return(None),
        Expr::Return(Some(Box::new(num(1)))),
        Expr::Break,
        Expr::Continue,
    ]));
}

#[test]
fn builtin_forms() {
    assert_eq!(one("len(a)"), Expr::Len(Box::new(ident("a"))));
    assert_eq!(one("print(1)"), Expr::Print(Box::new(num(1))));
    assert_eq!(one("input()"), Expr::Input);
    assert_eq!(one("push(a, 1)"), Expr::Push(Box::new(ident("a")), Box::new(num(1))));
    assert_eq!(
        one("len(a, b)"),
        Expr::Call { func: Box::new(ident("len")), args: vec![ident("a"), ident("b")] }
    );
    assert_eq!(one("[true, false, nil]"), Expr::Array(vec![Expr::Bool(true), Expr::Bool(false), Expr::Nil]));
}

#[test]
fn nesting_budget() {
    let deep = format!("{}1{}", "(".repeat(200), ")".repeat(200));
    assert_eq!(parse(&deep), Ok(vec![num(1)]));
}

#[test]
fn budget_only_decides_depth() {
    let chars: Vec<char> = "(1 + 2) * 3; x".chars().collect();
    let (ts, starts) = lex(&chars).expect("lexes");
    assert_eq!(starts, vec![0, 1, 3, 5, 6, 8, 10, 11, 13]);
    assert!(matches!(parse_stmts(&ts, 0, 3), Outcome::Deep));
    match (parse_stmts(&ts, 0, 100), parse_stmts(&ts, 0, 10_000)) {
        (Outcome::Done(a, p), Outcome::Done(b, q)) => {
            assert_eq!(a, b);
            assert_eq!(p, q);
            assert_eq!(p, ts.len());
            assert_eq!(a.len(), 2);
        }
        other => panic!("{:?}", other),
    }
}

#[test]
fn deep_nesting_fits_the_budget() {
    let depth = 40;
    let src = format!("{}1{}", "(".repeat(depth), ")".repeat(depth));
    assert_eq!(one(&src), num(1));
    let src = format!("{}1{}", "[".repeat(depth), "]".repeat(depth));
    assert!(parse(&src).is_ok());
    let src = format!("{}1{}", "{ ".repeat(depth), " }".repeat(depth));
    assert!(parse(&src).is_ok());
    assert!(!matches!(parse("-!-!-!-!-!-!-!-!-!-!1"), Err(ParseError::TooDeep)));
}
