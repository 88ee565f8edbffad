use adapto::runtime::error::RuntimeError;
use adapto::runtime::lexer::{tokenize, Token};
use adapto::runtime::syntax::{BinOp, CompoundOp, Expr, Interpreter, ParseFailure, Stmt, SyntaxError};

fn lex(s: &str) -> Vec<Token> {
    tokenize(s).unwrap()
}

fn lex_err(s: &str) -> String {
    match tokenize(s) {
        Err(RuntimeError::Internal(m)) => m,
        other => panic!("expected a lexing error, got {:?}", other),
    }
}

#[test]
fn lexes_operators_and_keywords() {
    assert_eq!(
        lex("count += 1; if x >= 2 && !y { return }"),
        vec![
            Token::Ident("count".into()),
            Token::PlusAssign,
            Token::NumberLit("1".into()),
            Token::Semicolon,
            Token::If,
            Token::Ident("x".into()),
            Token::Ge,
            Token::NumberLit("2".into()),
            Token::And,
            Token::Not,
            Token::Ident("y".into()),
            Token::LBrace,
            Token::Return,
            Token::RBrace,
            Token::Eof,
        ]
    );
}

#[test]
fn lexes_literals_and_comments() {
    assert_eq!(
        lex("// note\nlet s = 'a\\'b\\n' // end\n true null None 3.25"),
        vec![
            Token::Let,
            Token::Ident("s".into()),
            Token::Assign,
            Token::StringLit("a'b\n".into()),
            Token::BoolLit(true),
            Token::Null,
            Token::Null,
            Token::NumberLit("3.25".into()),
            Token::Eof,
        ]
    );
    assert_eq!(lex(""), vec![Token::Eof]);
    assert_eq!(lex("// only a comment"), vec![Token::Eof]);
    assert_eq!(lex("\"x\\qy\""), vec![Token::StringLit("x\\y".into()), Token::Eof]);
}

#[test]
fn lexing_errors() {
    assert_eq!(lex_err("a & b"), "unexpected '&'");
    assert_eq!(lex_err("a | b"), "unexpected '|'");
    assert_eq!(lex_err("'open"), "unterminated string");
    assert_eq!(lex_err("1.2.3"), "invalid number: invalid float literal");
    assert_eq!(lex_err("a # b"), "unexpected char: '#'");
}

fn body(s: &str) -> Vec<Stmt> {
    Interpreter::parse_body(s).unwrap()
}

#[test]
fn parses_assignments() {
    let ss = body("count = 1; total += count * 2");
    assert_eq!(ss.len(), 2);
    assert!(matches!(&ss[0], Stmt::Assign { target: Expr::Ident(n), value: Expr::Number(v) } if n == "count" && v == "1"));
    match &ss[1] {
        Stmt::CompoundAssign { target: Expr::Ident(n), op: CompoundOp::Add, value: Expr::BinaryOp(l, BinOp::Mul, r) } => {
            assert_eq!(n, "total");
            assert!(matches!(&**l, Expr::Ident(x) if x == "count"));
            assert!(matches!(&**r, Expr::Number(x) if x == "2"));
        },
        other => panic!("unexpected {:?}", other),
    }
}

#[test]
fn precedence_and_left_association() {
    let ss = body("a - b - c * d");
    match &ss[0] {
        Stmt::Expr(Expr::BinaryOp(l, BinOp::Sub, r)) => {
            assert!(matches!(&**l, Expr::BinaryOp(_, BinOp::Sub, _)));
            assert!(matches!(&**r, Expr::BinaryOp(_, BinOp::Mul, _)));
        },
        other => panic!("unexpected {:?}", other),
    }
    let ss = body("x || y && z == 1");
    match &ss[0] {
        Stmt::Expr(Expr::BinaryOp(_, BinOp::Or, r)) => {
            assert!(matches!(&**r, Expr::BinaryOp(_, BinOp::And, _)));
        },
        other => panic!("unexpected {:?}", other),
    }
}

#[test]
fn parses_control_flow() {
    let ss = body("if a { x = 1 } else if b { x = 2 } else { x = 3 }\nfor item in items { total += item }");
    assert_eq!(ss.len(), 2);
    match &ss[0] {
        Stmt::If { then_body, else_body, .. } => {
            assert_eq!(then_body.len(), 1);
            assert_eq!(else_body.len(), 1);
            assert!(matches!(&else_body[0], Stmt::If { else_body: inner, .. } if inner.len() == 1));
        },
        other => panic!("unexpected {:?}", other),
    }
    assert!(matches!(&ss[1], Stmt::For { var, body, .. } if var == "item" && body.len() == 1));
}

#[test]
fn parses_postfix_and_literals() {
    let e = Interpreter::parse_expression("user.name.to_uppercase()").unwrap();
    assert!(matches!(e, Expr::MethodCall(_, ref m, ref a) if m == "to_uppercase" && a.is_empty()));
    let e = Interpreter::parse_expression("items[0]").unwrap();
    assert!(matches!(e, Expr::IndexAccess(_, _)));
    let e = Interpreter::parse_expression("[1, 2, 3]").unwrap();
    assert!(matches!(e, Expr::Array(ref xs) if xs.len() == 3));
    let e = Interpreter::parse_expression("{ name = 'x', age }").unwrap();
    match e {
        Expr::Object(ps) => {
            assert_eq!(ps.len(), 2);
            assert_eq!(ps[0].0, "name");
            assert!(matches!(&ps[1].1, Expr::Ident(n) if n == "age"));
        },
        other => panic!("unexpected {:?}", other),
    }
    let ss = body("let x = -(1 + 2); return");
    assert!(matches!(&ss[0], Stmt::Let { name, value: Expr::UnaryNeg(_) } if name == "x"));
    assert!(matches!(&ss[1], Stmt::Return(None)));
}

#[test]
fn syntax_errors() {
    match Interpreter::parse_body("let = 1") {
        Err(ParseFailure::Syntax(SyntaxError::NameAfterLet(Token::Assign))) => {},
        other => panic!("unexpected {:?}", other),
    }
    match Interpreter::parse_body("f(1") {
        Err(ParseFailure::Syntax(SyntaxError::Expected { expected: Token::RParen, got: Token::Eof })) => {},
        other => panic!("unexpected {:?}", other),
    }
    match Interpreter::parse_body("x = )") {
        Err(ParseFailure::Syntax(SyntaxError::Unexpected(Token::RParen))) => {},
        other => panic!("unexpected {:?}", other),
    }
    match Interpreter::parse_body("a.1") {
        Err(ParseFailure::Syntax(SyntaxError::FieldName(Token::NumberLit(n)))) => assert_eq!(n, "1"),
        other => panic!("unexpected {:?}", other),
    }
    match Interpreter::parse_body("x = 'a") {
        Err(ParseFailure::Lex(RuntimeError::Internal(m))) => assert_eq!(m, "unterminated string"),
        other => panic!("unexpected {:?}", other),
    }
}

#[test]
fn empty_and_comment_bodies() {
    assert!(body("").is_empty());
    assert!(body("// nothing here\n").is_empty());
    assert!(matches!(
        Interpreter::parse_body(";"),
        Err(ParseFailure::Syntax(SyntaxError::Unexpected(Token::Semicolon)))
    ));
}

#[test]
fn colon_is_not_a_token() {
    assert_eq!(lex_err("{ name: 'x' }"), "unexpected char: ':'");
}
