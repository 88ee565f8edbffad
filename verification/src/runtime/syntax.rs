//! The syntax of the handler language: statements and expressions, parsed
//! from tokens by recursive descent. Operators bind, loosest first: `||`,
//! `&&`, `== !=`, `< <= > >=`, `+ -`, `* / %`, then the prefixes `!` and `-`,
//! then `.field`, `.method(args)`, `[index]` and `(args)` after a primary.

use vstd::prelude::*;
use crate::text::string_from;
use crate::runtime::lexer::{lex_from, tok, tokenize, toks, Tok, Token};
use crate::runtime::error::RuntimeError;

verus! {

#[derive(Debug, Clone, Copy, PartialEq, Eq, Structural)]
pub enum BinOp {
    Add,
    Sub,
    Mul,
    Div,
    Mod,
    Eq,
    Ne,
    Lt,
    Le,
    Gt,
    Ge,
    And,
    Or,
}

#[derive(Debug, Clone, Copy, PartialEq, Eq, Structural)]
pub enum CompoundOp {
    Add,
    Sub,
    Mul,
    Div,
}

/// An expression. A number literal keeps its text.
#[derive(Debug)]
pub enum Expr {
    Number(String),
    Str(String),
    Bool(bool),
    Null,
    Ident(String),
    DotAccess(Box<Expr>, String),
    IndexAccess(Box<Expr>, Box<Expr>),
    BinaryOp(Box<Expr>, BinOp, Box<Expr>),
    UnaryNot(Box<Expr>),
    UnaryNeg(Box<Expr>),
    Call(Box<Expr>, Vec<Expr>),
    MethodCall(Box<Expr>, String, Vec<Expr>),
    Array(Vec<Expr>),
    Object(Vec<(String, Expr)>),
}

#[derive(Debug)]
pub enum Stmt {
    Assign { target: Expr, value: Expr },
    CompoundAssign { target: Expr, op: CompoundOp, value: Expr },
    Let { name: String, value: Expr },
    If { condition: Expr, then_body: Vec<Stmt>, else_body: Vec<Stmt> },
    For { var: String, iterable: Expr, body: Vec<Stmt> },
    Expr(Expr),
    Return(Option<Expr>),
}

/// What went wrong, with the token found where something else was needed.
#[derive(Debug)]
pub enum SyntaxError {
    /// `expected` was needed.
    Expected { expected: Token, got: Token },
    /// A name was needed after `let`.
    NameAfterLet(Token),
    /// A name was needed after `for`.
    NameAfterFor(Token),
    /// A field name was needed after `.`.
    FieldName(Token),
    /// An object key (a name or a string) was needed.
    ObjectKey(Token),
    /// No expression starts with this token.
    Unexpected(Token),
    /// The parser would not have moved on (never happens on tokens from the
    /// lexer).
    Stuck,
}

// ---------------------------------------------------------------------------
// Models
// ---------------------------------------------------------------------------

pub enum EM {
    Number(Seq<char>),
    Str(Seq<char>),
    Bool(bool),
    Null,
    Ident(Seq<char>),
    Dot(Box<EM>, Seq<char>),
    Index(Box<EM>, Box<EM>),
    Bin(Box<EM>, BinOp, Box<EM>),
    Not(Box<EM>),
    Neg(Box<EM>),
    Call(Box<EM>, Seq<EM>),
    Method(Box<EM>, Seq<char>, Seq<EM>),
    Array(Seq<EM>),
    Object(Seq<(Seq<char>, EM)>),
}

pub enum SM {
    Assign(EM, EM),
    Compound(EM, CompoundOp, EM),
    Let(Seq<char>, EM),
    If(EM, Seq<SM>, Seq<SM>),
    For(Seq<char>, EM, Seq<SM>),
    Expr(EM),
    Return(Option<EM>),
}

pub enum PErr {
    Expected(Tok, Tok),
    NameAfterLet(Tok),
    NameAfterFor(Tok),
    FieldName(Tok),
    ObjectKey(Tok),
    Unexpected(Tok),
    Stuck,
}

pub open spec fn em(e: Expr) -> EM
    decreases e, 1int,
{
    match e {
        Expr::Number(s) => EM::Number(s@),
        Expr::Str(s) => EM::Str(s@),
        Expr::Bool(b) => EM::Bool(b),
        Expr::Null => EM::Null,
        Expr::Ident(s) => EM::Ident(s@),
        Expr::DotAccess(a, f) => EM::Dot(Box::new(em(*a)), f@),
        Expr::IndexAccess(a, b) => EM::Index(Box::new(em(*a)), Box::new(em(*b))),
        Expr::BinaryOp(a, op, b) => EM::Bin(Box::new(em(*a)), op, Box::new(em(*b))),
        Expr::UnaryNot(a) => EM::Not(Box::new(em(*a))),
        Expr::UnaryNeg(a) => EM::Neg(Box::new(em(*a))),
        Expr::Call(a, xs) => EM::Call(Box::new(em(*a)), ems(xs@)),
        Expr::MethodCall(a, m, xs) => EM::Method(Box::new(em(*a)), m@, ems(xs@)),
        Expr::Array(xs) => EM::Array(ems(xs@)),
        Expr::Object(ps) => EM::Object(pms(ps@)),
    }
}

pub open spec fn ems(xs: Seq<Expr>) -> Seq<EM>
    decreases xs, 0int,
{
    if xs.len() == 0 {
        seq![]
    } else {
        ems(xs.drop_last()).push(em(xs.last()))
    }
}

pub open spec fn pms(ps: Seq<(String, Expr)>) -> Seq<(Seq<char>, EM)>
    decreases ps, 0int,
{
    if ps.len() == 0 {
        seq![]
    } else {
        pms(ps.drop_last()).push((ps.last().0@, em(ps.last().1)))
    }
}

pub open spec fn sm(s: Stmt) -> SM
    decreases s, 1int,
{
    match s {
        Stmt::Assign { target, value } => SM::Assign(em(target), em(value)),
        Stmt::CompoundAssign { target, op, value } => SM::Compound(em(target), op, em(value)),
        Stmt::Let { name, value } => SM::Let(name@, em(value)),
        Stmt::If { condition, then_body, else_body } => SM::If(em(condition), sms(then_body@), sms(else_body@)),
        Stmt::For { var, iterable, body } => SM::For(var@, em(iterable), sms(body@)),
        Stmt::Expr(e) => SM::Expr(em(e)),
        Stmt::Return(e) => SM::Return(
            match e {
                Some(x) => Some(em(x)),
                None => None,
            },
        ),
    }
}

pub open spec fn sms(ss: Seq<Stmt>) -> Seq<SM>
    decreases ss, 0int,
{
    if ss.len() == 0 {
        seq![]
    } else {
        sms(ss.drop_last()).push(sm(ss.last()))
    }
}

pub open spec fn perr(e: SyntaxError) -> PErr {
    match e {
        SyntaxError::Expected { expected, got } => PErr::Expected(tok(expected), tok(got)),
        SyntaxError::NameAfterLet(t) => PErr::NameAfterLet(tok(t)),
        SyntaxError::NameAfterFor(t) => PErr::NameAfterFor(tok(t)),
        SyntaxError::FieldName(t) => PErr::FieldName(tok(t)),
        SyntaxError::ObjectKey(t) => PErr::ObjectKey(tok(t)),
        SyntaxError::Unexpected(t) => PErr::Unexpected(tok(t)),
        SyntaxError::Stuck => PErr::Stuck,
    }
}

pub open spec fn res_e(r: Result<(Expr, usize), SyntaxError>) -> Result<(EM, int), PErr> {
    match r {
        Ok((e, j)) => Ok((em(e), j as int)),
        Err(x) => Err(perr(x)),
    }
}

pub open spec fn res_s(r: Result<(Stmt, usize), SyntaxError>) -> Result<(SM, int), PErr> {
    match r {
        Ok((s, j)) => Ok((sm(s), j as int)),
        Err(x) => Err(perr(x)),
    }
}

pub open spec fn res_ss(r: Result<(Vec<Stmt>, usize), SyntaxError>) -> Result<(Seq<SM>, int), PErr> {
    match r {
        Ok((ss, j)) => Ok((sms(ss@), j as int)),
        Err(x) => Err(perr(x)),
    }
}

// ---------------------------------------------------------------------------
// The grammar, over the models of the tokens
// ---------------------------------------------------------------------------

/// The token at `i`; past the end, `Eof`.
pub open spec fn peek(ts: Seq<Tok>, i: int) -> Tok {
    if 0 <= i < ts.len() {
        ts[i]
    } else {
        Tok::Plain(Token::Eof)
    }
}

pub open spec fn at(ts: Seq<Tok>, i: int, k: Token) -> bool {
    peek(ts, i) == Tok::Plain(k)
}

/// Whether a parse that started at `i` and stopped at `j` moved on and
/// stayed within the tokens.
pub open spec fn moved(ts: Seq<Tok>, i: int, j: int) -> bool {
    i < j <= ts.len()
}

/// Past the semicolons starting at `i`.
pub open spec fn skip_semis(ts: Seq<Tok>, i: int) -> int
    decreases ts.len() - i,
{
    if 0 <= i < ts.len() && ts[i] == Tok::Plain(Token::Semicolon) {
        skip_semis(ts, i + 1)
    } else {
        i
    }
}

pub proof fn lemma_skip_semis(ts: Seq<Tok>, i: int)
    requires
        0 <= i <= ts.len(),
    ensures
        i <= skip_semis(ts, i) <= ts.len(),
    decreases ts.len() - i,
{
    if i < ts.len() && ts[i] == Tok::Plain(Token::Semicolon) {
        lemma_skip_semis(ts, i + 1);
    }
}

/// Statements from `i` up to the end (or, in a block, up to a `}`), each
/// followed by any number of semicolons.
pub open spec fn stmt_list(ts: Seq<Tok>, i: int, block: bool) -> Result<(Seq<SM>, int), PErr>
    decreases ts.len() - i, 30int,
{
    if i < 0 || i > ts.len() {
        Err(PErr::Stuck)
    } else if at(ts, i, Token::Eof) || (block && at(ts, i, Token::RBrace)) {
        Ok((seq![], i))
    } else {
        match stmt(ts, i) {
            Err(e) => Err(e),
            Ok((s, j)) => if !moved(ts, i, j) {
                Err(PErr::Stuck)
            } else {
                proof {
                    lemma_skip_semis(ts, j);
                }
                match stmt_list(ts, skip_semis(ts, j), block) {
                    Ok((ss, k)) => Ok((seq![s] + ss, k)),
                    Err(e) => Err(e),
                }
            },
        }
    }
}

pub open spec fn stmt(ts: Seq<Tok>, i: int) -> Result<(SM, int), PErr>
    decreases ts.len() - i, 29int,
{
    if i < 0 || i > ts.len() {
        Err(PErr::Stuck)
    } else if at(ts, i, Token::Let) {
        let_stmt(ts, i)
    } else if at(ts, i, Token::If) {
        if_stmt(ts, i)
    } else if at(ts, i, Token::For) {
        for_stmt(ts, i)
    } else if at(ts, i, Token::Return) {
        return_stmt(ts, i)
    } else {
        assign_or_expr(ts, i)
    }
}

pub open spec fn let_stmt(ts: Seq<Tok>, i: int) -> Result<(SM, int), PErr>
    decreases ts.len() - i, 28int,
{
    if i < 0 || i >= ts.len() {
        Err(PErr::Stuck)
    } else {
        match peek(ts, i + 1) {
            Tok::Ident(n) => if !at(ts, i + 2, Token::Assign) {
                Err(PErr::Expected(Tok::Plain(Token::Assign), peek(ts, i + 2)))
            } else {
                match expr(ts, i + 3) {
                    Ok((e, j)) => Ok((SM::Let(n, e), j)),
                    Err(x) => Err(x),
                }
            },
            other => Err(PErr::NameAfterLet(other)),
        }
    }
}

/// `if` from `i`: condition, block, and an optional `else` block or
/// `else if`.
pub open spec fn if_stmt(ts: Seq<Tok>, i: int) -> Result<(SM, int), PErr>
    decreases ts.len() - i, 28int,
{
    if i < 0 || i >= ts.len() {
        Err(PErr::Stuck)
    } else {
        match expr(ts, i + 1) {
            Err(x) => Err(x),
            Ok((c, j)) => if !moved(ts, i, j) {
                Err(PErr::Stuck)
            } else if !at(ts, j, Token::LBrace) {
                Err(PErr::Expected(Tok::Plain(Token::LBrace), peek(ts, j)))
            } else {
                match stmt_list(ts, j + 1, true) {
                    Err(x) => Err(x),
                    Ok((tb, k)) => if !moved(ts, i, k) {
                        Err(PErr::Stuck)
                    } else if !at(ts, k, Token::RBrace) {
                        Err(PErr::Expected(Tok::Plain(Token::RBrace), peek(ts, k)))
                    } else if !at(ts, k + 1, Token::Else) {
                        Ok((SM::If(c, tb, seq![]), k + 1))
                    } else if at(ts, k + 2, Token::If) {
                        match if_stmt(ts, k + 2) {
                            Ok((s, e)) => Ok((SM::If(c, tb, seq![s]), e)),
                            Err(x) => Err(x),
                        }
                    } else if !at(ts, k + 2, Token::LBrace) {
                        Err(PErr::Expected(Tok::Plain(Token::LBrace), peek(ts, k + 2)))
                    } else {
                        match stmt_list(ts, k + 3, true) {
                            Err(x) => Err(x),
                            Ok((eb, m)) => if !at(ts, m, Token::RBrace) {
                                Err(PErr::Expected(Tok::Plain(Token::RBrace), peek(ts, m)))
                            } else {
                                Ok((SM::If(c, tb, eb), m + 1))
                            },
                        }
                    },
                }
            },
        }
    }
}

pub open spec fn for_stmt(ts: Seq<Tok>, i: int) -> Result<(SM, int), PErr>
    decreases ts.len() - i, 28int,
{
    if i < 0 || i >= ts.len() {
        Err(PErr::Stuck)
    } else {
        match peek(ts, i + 1) {
            Tok::Ident(v) => if !at(ts, i + 2, Token::In) {
                Err(PErr::Expected(Tok::Plain(Token::In), peek(ts, i + 2)))
            } else {
                match expr(ts, i + 3) {
                    Err(x) => Err(x),
                    Ok((it, j)) => if !moved(ts, i, j) {
                        Err(PErr::Stuck)
                    } else if !at(ts, j, Token::LBrace) {
                        Err(PErr::Expected(Tok::Plain(Token::LBrace), peek(ts, j)))
                    } else {
                        match stmt_list(ts, j + 1, true) {
                            Err(x) => Err(x),
                            Ok((b, k)) => if !at(ts, k, Token::RBrace) {
                                Err(PErr::Expected(Tok::Plain(Token::RBrace), peek(ts, k)))
                            } else {
                                Ok((SM::For(v, it, b), k + 1))
                            },
                        }
                    },
                }
            },
            other => Err(PErr::NameAfterFor(other)),
        }
    }
}

pub open spec fn return_stmt(ts: Seq<Tok>, i: int) -> Result<(SM, int), PErr>
    decreases ts.len() - i, 28int,
{
    if i < 0 || i >= ts.len() {
        Err(PErr::Stuck)
    } else if at(ts, i + 1, Token::Semicolon) || at(ts, i + 1, Token::RBrace) || at(ts, i + 1, Token::Eof) {
        Ok((SM::Return(None), i + 1))
    } else {
        match expr(ts, i + 1) {
            Ok((e, j)) => Ok((SM::Return(Some(e)), j)),
            Err(x) => Err(x),
        }
    }
}

/// The compound assignment operator at `j`, if any.
pub open spec fn compound_at(ts: Seq<Tok>, j: int) -> Option<CompoundOp> {
    if at(ts, j, Token::PlusAssign) {
        Some(CompoundOp::Add)
    } else if at(ts, j, Token::MinusAssign) {
        Some(CompoundOp::Sub)
    } else if at(ts, j, Token::MulAssign) {
        Some(CompoundOp::Mul)
    } else if at(ts, j, Token::DivAssign) {
        Some(CompoundOp::Div)
    } else {
        None
    }
}

pub open spec fn assign_or_expr(ts: Seq<Tok>, i: int) -> Result<(SM, int), PErr>
    decreases ts.len() - i, 28int,
{
    if i < 0 || i > ts.len() {
        Err(PErr::Stuck)
    } else {
        match expr(ts, i) {
            Err(x) => Err(x),
            Ok((e, j)) => if !moved(ts, i, j) {
                Err(PErr::Stuck)
            } else if at(ts, j, Token::Assign) {
                match expr(ts, j + 1) {
                    Ok((v, k)) => Ok((SM::Assign(e, v), k)),
                    Err(x) => Err(x),
                }
            } else {
                match compound_at(ts, j) {
                    Some(op) => match expr(ts, j + 1) {
                        Ok((v, k)) => Ok((SM::Compound(e, op, v), k)),
                        Err(x) => Err(x),
                    },
                    None => Ok((SM::Expr(e), j)),
                }
            },
        }
    }
}

/// The binary operator of precedence level `level` at `j`, if any
/// (0: `||`, 1: `&&`, 2: equality, 3: comparison, 4: additive,
/// 5: multiplicative).
pub open spec fn op_at(ts: Seq<Tok>, j: int, level: int) -> Option<BinOp> {
    if level == 0 {
        if at(ts, j, Token::Or) { Some(BinOp::Or) } else { None }
    } else if level == 1 {
        if at(ts, j, Token::And) { Some(BinOp::And) } else { None }
    } else if level == 2 {
        if at(ts, j, Token::Eq) {
            Some(BinOp::Eq)
        } else if at(ts, j, Token::Ne) {
            Some(BinOp::Ne)
        } else {
            None
        }
    } else if level == 3 {
        if at(ts, j, Token::Lt) {
            Some(BinOp::Lt)
        } else if at(ts, j, Token::Le) {
            Some(BinOp::Le)
        } else if at(ts, j, Token::Gt) {
            Some(BinOp::Gt)
        } else if at(ts, j, Token::Ge) {
            Some(BinOp::Ge)
        } else {
            None
        }
    } else if level == 4 {
        if at(ts, j, Token::Plus) {
            Some(BinOp::Add)
        } else if at(ts, j, Token::Minus) {
            Some(BinOp::Sub)
        } else {
            None
        }
    } else {
        if at(ts, j, Token::Star) {
            Some(BinOp::Mul)
        } else if at(ts, j, Token::Slash) {
            Some(BinOp::Div)
        } else if at(ts, j, Token::Percent) {
            Some(BinOp::Mod)
        } else {
            None
        }
    }
}

/// The termination rank of a precedence level: falls from `top` by two
/// per level.
pub open spec fn rank_of(level: int, top: int) -> int {
    top - 2 * (if 0 <= level <= 5 { level } else { 5 })
}

pub open spec fn expr(ts: Seq<Tok>, i: int) -> Result<(EM, int), PErr>
    decreases ts.len() - i, 23int,
{
    binary(ts, i, 0)
}

/// Operands of level `level` joined left to right by its operators; the
/// operands are of the next level (or unary ones after the last).
pub open spec fn binary(ts: Seq<Tok>, i: int, level: int) -> Result<(EM, int), PErr>
    decreases ts.len() - i, rank_of(level, 22),
{
    if i < 0 || i > ts.len() || level < 0 || level > 5 {
        Err(PErr::Stuck)
    } else {
        match operand(ts, i, level) {
            Err(x) => Err(x),
            Ok((l, j)) => if !moved(ts, i, j) {
                Err(PErr::Stuck)
            } else {
                binary_rest(ts, j, level, l)
            },
        }
    }
}

pub open spec fn operand(ts: Seq<Tok>, i: int, level: int) -> Result<(EM, int), PErr>
    decreases ts.len() - i, rank_of(level, 21),
{
    if i < 0 || i > ts.len() || level < 0 || level > 5 {
        Err(PErr::Stuck)
    } else if level == 5 {
        unary(ts, i)
    } else {
        binary(ts, i, level + 1)
    }
}

pub open spec fn binary_rest(ts: Seq<Tok>, j: int, level: int, left: EM) -> Result<(EM, int), PErr>
    decreases ts.len() - j, rank_of(level, 22),
{
    if j < 0 || j > ts.len() || level < 0 || level > 5 {
        Err(PErr::Stuck)
    } else {
        match op_at(ts, j, level) {
            None => Ok((left, j)),
            Some(op) => match operand(ts, j + 1, level) {
                Err(x) => Err(x),
                Ok((r, k)) => if !moved(ts, j, k) {
                    Err(PErr::Stuck)
                } else {
                    binary_rest(ts, k, level, EM::Bin(Box::new(left), op, Box::new(r)))
                },
            },
        }
    }
}

pub open spec fn unary(ts: Seq<Tok>, i: int) -> Result<(EM, int), PErr>
    decreases ts.len() - i, 10int,
{
    if i < 0 || i > ts.len() {
        Err(PErr::Stuck)
    } else if at(ts, i, Token::Not) {
        match unary(ts, i + 1) {
            Ok((e, j)) => Ok((EM::Not(Box::new(e)), j)),
            Err(x) => Err(x),
        }
    } else if at(ts, i, Token::Minus) {
        match unary(ts, i + 1) {
            Ok((e, j)) => Ok((EM::Neg(Box::new(e)), j)),
            Err(x) => Err(x),
        }
    } else {
        match primary(ts, i) {
            Err(x) => Err(x),
            Ok((e, j)) => if !moved(ts, i, j) {
                Err(PErr::Stuck)
            } else {
                postfix_rest(ts, j, e)
            },
        }
    }
}

/// Field accesses, method calls, indexing and calls after `e`, from `j`.
pub open spec fn postfix_rest(ts: Seq<Tok>, j: int, e: EM) -> Result<(EM, int), PErr>
    decreases ts.len() - j, 9int,
{
    if j < 0 || j > ts.len() {
        Err(PErr::Stuck)
    } else if at(ts, j, Token::Dot) {
        match peek(ts, j + 1) {
            Tok::Ident(f) => if at(ts, j + 2, Token::LParen) {
                match list(ts, j + 3, 2, seq![], seq![]) {
                    Err(x) => Err(x),
                    Ok((args, _, k)) => if !(j + 3 <= k <= ts.len()) {
                        Err(PErr::Stuck)
                    } else if !at(ts, k, Token::RParen) {
                        Err(PErr::Expected(Tok::Plain(Token::RParen), peek(ts, k)))
                    } else {
                        postfix_rest(ts, k + 1, EM::Method(Box::new(e), f, args))
                    },
                }
            } else {
                postfix_rest(ts, j + 2, EM::Dot(Box::new(e), f))
            },
            other => Err(PErr::FieldName(other)),
        }
    } else if at(ts, j, Token::LBracket) {
        match expr(ts, j + 1) {
            Err(x) => Err(x),
            Ok((x, k)) => if !moved(ts, j, k) {
                Err(PErr::Stuck)
            } else if !at(ts, k, Token::RBracket) {
                Err(PErr::Expected(Tok::Plain(Token::RBracket), peek(ts, k)))
            } else {
                postfix_rest(ts, k + 1, EM::Index(Box::new(e), Box::new(x)))
            },
        }
    } else if at(ts, j, Token::LParen) {
        match list(ts, j + 1, 2, seq![], seq![]) {
            Err(x) => Err(x),
            Ok((args, _, k)) => if !(j + 1 <= k <= ts.len()) {
                Err(PErr::Stuck)
            } else if !at(ts, k, Token::RParen) {
                Err(PErr::Expected(Tok::Plain(Token::RParen), peek(ts, k)))
            } else {
                postfix_rest(ts, k + 1, EM::Call(Box::new(e), args))
            },
        }
    } else {
        Ok((e, j))
    }
}

/// The token that closes a list of kind `kind` (0: array items, 1: object
/// pairs, 2: call arguments).
pub open spec fn closer(kind: int) -> Token {
    if kind == 0 {
        Token::RBracket
    } else if kind == 1 {
        Token::RBrace
    } else {
        Token::RParen
    }
}

/// The items of a list from `i`, up to its closer or the end, each followed
/// by an optional comma. Object pairs are `key` (shorthand for `key: key`)
/// or `key <sep> value`, the key a name or a string. Gives the expressions
/// (items and arguments) or the pairs, and where the list stopped.
pub open spec fn list(ts: Seq<Tok>, i: int, kind: int, xs: Seq<EM>, ps: Seq<(Seq<char>, EM)>) -> Result<
    (Seq<EM>, Seq<(Seq<char>, EM)>, int),
    PErr,
>
    decreases ts.len() - i, 31int,
{
    if i < 0 || i > ts.len() {
        Err(PErr::Stuck)
    } else if at(ts, i, closer(kind)) || at(ts, i, Token::Eof) {
        Ok((xs, ps, i))
    } else if kind != 1 {
        match expr(ts, i) {
            Err(x) => Err(x),
            Ok((e, j)) => if !moved(ts, i, j) {
                Err(PErr::Stuck)
            } else {
                list(ts, if at(ts, j, Token::Comma) { j + 1 } else { j }, kind, xs.push(e), ps)
            },
        }
    } else {
        let key = match peek(ts, i) {
            Tok::Ident(k) => Some(k),
            Tok::StringLit(k) => Some(k),
            _ => None,
        };
        match key {
            None => Err(PErr::ObjectKey(peek(ts, i))),
            Some(k) => if at(ts, i + 1, Token::Comma) || at(ts, i + 1, Token::RBrace) {
                list(ts, if at(ts, i + 1, Token::Comma) { i + 2 } else { i + 1 }, kind, xs, ps.push((k, EM::Ident(k))))
            } else if i + 2 > ts.len() {
                Err(PErr::Unexpected(Tok::Plain(Token::Eof)))
            } else {
                match expr(ts, i + 2) {
                    Err(x) => Err(x),
                    Ok((v, j)) => if !moved(ts, i, j) {
                        Err(PErr::Stuck)
                    } else {
                        list(ts, if at(ts, j, Token::Comma) { j + 1 } else { j }, kind, xs, ps.push((k, v)))
                    },
                }
            },
        }
    }
}

pub open spec fn primary(ts: Seq<Tok>, i: int) -> Result<(EM, int), PErr>
    decreases ts.len() - i, 8int,
{
    if i < 0 || i > ts.len() {
        Err(PErr::Stuck)
    } else {
        match peek(ts, i) {
            Tok::NumberLit(n) => Ok((EM::Number(n), i + 1)),
            Tok::StringLit(s) => Ok((EM::Str(s), i + 1)),
            Tok::BoolLit(b) => Ok((EM::Bool(b), i + 1)),
            Tok::Ident(n) => Ok((EM::Ident(n), i + 1)),
            Tok::Plain(t) => if t == Token::Null {
                Ok((EM::Null, i + 1))
            } else if t == Token::LParen {
                match expr(ts, i + 1) {
                    Err(x) => Err(x),
                    Ok((e, j)) => if !moved(ts, i, j) {
                        Err(PErr::Stuck)
                    } else if !at(ts, j, Token::RParen) {
                        Err(PErr::Expected(Tok::Plain(Token::RParen), peek(ts, j)))
                    } else {
                        Ok((e, j + 1))
                    },
                }
            } else if t == Token::LBracket || t == Token::LBrace {
                let kind = if t == Token::LBracket { 0int } else { 1int };
                match list(ts, i + 1, kind, seq![], seq![]) {
                    Err(x) => Err(x),
                    Ok((xs, ps, j)) => if !at(ts, j, closer(kind)) {
                        Err(PErr::Expected(Tok::Plain(closer(kind)), peek(ts, j)))
                    } else if kind == 0 {
                        Ok((EM::Array(xs), j + 1))
                    } else {
                        Ok((EM::Object(ps), j + 1))
                    },
                }
            } else {
                Err(PErr::Unexpected(Tok::Plain(t)))
            },
        }
    }
}

/// The statements of a whole program.
pub open spec fn program(ts: Seq<Tok>) -> Result<Seq<SM>, PErr> {
    match stmt_list(ts, 0, false) {
        Ok((ss, _)) => Ok(ss),
        Err(x) => Err(x),
    }
}


// ---------------------------------------------------------------------------
// Progress: a parse that succeeds has consumed tokens, and none stalls
// ---------------------------------------------------------------------------

/// `r` is no stall, and on success it ends between `lo` and the end.
pub open spec fn progress<X>(ts: Seq<Tok>, r: Result<(X, int), PErr>, lo: int) -> bool {
    &&& !(r matches Err(PErr::Stuck))
    &&& (r matches Ok((_, j)) ==> lo <= j <= ts.len())
}

pub proof fn lemma_stmt_list(ts: Seq<Tok>, i: int, block: bool)
    requires
        0 <= i <= ts.len(),
    ensures
        progress(ts, stmt_list(ts, i, block), i),
    decreases ts.len() - i, 30int,
{
    if !(at(ts, i, Token::Eof) || (block && at(ts, i, Token::RBrace))) {
        lemma_stmt(ts, i);
        if let Ok((s, j)) = stmt(ts, i) {
            lemma_skip_semis(ts, j);
            lemma_stmt_list(ts, skip_semis(ts, j), block);
        }
    }
}

pub proof fn lemma_stmt(ts: Seq<Tok>, i: int)
    requires
        0 <= i <= ts.len(),
    ensures
        progress(ts, stmt(ts, i), i + 1),
    decreases ts.len() - i, 29int,
{
    if at(ts, i, Token::Let) {
        lemma_let(ts, i);
    } else if at(ts, i, Token::If) {
        lemma_if(ts, i);
    } else if at(ts, i, Token::For) {
        lemma_for(ts, i);
    } else if at(ts, i, Token::Return) {
        lemma_return(ts, i);
    } else {
        lemma_assign(ts, i);
    }
}

pub proof fn lemma_let(ts: Seq<Tok>, i: int)
    requires
        0 <= i < ts.len(),
    ensures
        progress(ts, let_stmt(ts, i), i + 1),
    decreases ts.len() - i, 28int,
{
    if peek(ts, i + 1) is Ident && at(ts, i + 2, Token::Assign) {
        lemma_expr(ts, i + 3);
    }
}

pub proof fn lemma_if(ts: Seq<Tok>, i: int)
    requires
        0 <= i < ts.len(),
    ensures
        progress(ts, if_stmt(ts, i), i + 1),
    decreases ts.len() - i, 28int,
{
    lemma_expr(ts, i + 1);
    if let Ok((c, j)) = expr(ts, i + 1) {
        if at(ts, j, Token::LBrace) {
            lemma_stmt_list(ts, j + 1, true);
            if let Ok((tb, k)) = stmt_list(ts, j + 1, true) {
                if at(ts, k, Token::RBrace) && at(ts, k + 1, Token::Else) {
                    if at(ts, k + 2, Token::If) {
                        lemma_if(ts, k + 2);
                    } else if at(ts, k + 2, Token::LBrace) {
                        lemma_stmt_list(ts, k + 3, true);
                    }
                }
            }
        }
    }
}

pub proof fn lemma_for(ts: Seq<Tok>, i: int)
    requires
        0 <= i < ts.len(),
    ensures
        progress(ts, for_stmt(ts, i), i + 1),
    decreases ts.len() - i, 28int,
{
    if peek(ts, i + 1) is Ident && at(ts, i + 2, Token::In) {
        lemma_expr(ts, i + 3);
        if let Ok((it, j)) = expr(ts, i + 3) {
            if at(ts, j, Token::LBrace) {
                lemma_stmt_list(ts, j + 1, true);
            }
        }
    }
}

pub proof fn lemma_return(ts: Seq<Tok>, i: int)
    requires
        0 <= i < ts.len(),
    ensures
        progress(ts, return_stmt(ts, i), i + 1),
    decreases ts.len() - i, 28int,
{
    if !(at(ts, i + 1, Token::Semicolon) || at(ts, i + 1, Token::RBrace) || at(ts, i + 1, Token::Eof)) {
        lemma_expr(ts, i + 1);
    }
}

pub proof fn lemma_assign(ts: Seq<Tok>, i: int)
    requires
        0 <= i <= ts.len(),
    ensures
        progress(ts, assign_or_expr(ts, i), i + 1),
    decreases ts.len() - i, 28int,
{
    lemma_expr(ts, i);
    if let Ok((e, j)) = expr(ts, i) {
        if at(ts, j, Token::Assign) || compound_at(ts, j) is Some {
            lemma_expr(ts, j + 1);
        }
    }
}

pub proof fn lemma_expr(ts: Seq<Tok>, i: int)
    requires
        0 <= i <= ts.len(),
    ensures
        progress(ts, expr(ts, i), i + 1),
    decreases ts.len() - i, 23int,
{
    lemma_binary(ts, i, 0);
}

pub proof fn lemma_binary(ts: Seq<Tok>, i: int, level: int)
    requires
        0 <= i <= ts.len(),
        0 <= level <= 5,
    ensures
        progress(ts, binary(ts, i, level), i + 1),
    decreases ts.len() - i, rank_of(level, 22),
{
    lemma_operand(ts, i, level);
    if let Ok((l, j)) = operand(ts, i, level) {
        lemma_binary_rest(ts, j, level, l);
    }
}

pub proof fn lemma_operand(ts: Seq<Tok>, i: int, level: int)
    requires
        0 <= i <= ts.len(),
        0 <= level <= 5,
    ensures
        progress(ts, operand(ts, i, level), i + 1),
    decreases ts.len() - i, rank_of(level, 21),
{
    if level == 5 {
        lemma_unary(ts, i);
    } else {
        lemma_binary(ts, i, level + 1);
    }
}

pub proof fn lemma_binary_rest(ts: Seq<Tok>, j: int, level: int, left: EM)
    requires
        0 <= j <= ts.len(),
        0 <= level <= 5,
    ensures
        progress(ts, binary_rest(ts, j, level, left), j),
    decreases ts.len() - j, rank_of(level, 22),
{
    if let Some(op) = op_at(ts, j, level) {
        lemma_operand(ts, j + 1, level);
        if let Ok((r, k)) = operand(ts, j + 1, level) {
            lemma_binary_rest(ts, k, level, EM::Bin(Box::new(left), op, Box::new(r)));
        }
    }
}

pub proof fn lemma_unary(ts: Seq<Tok>, i: int)
    requires
        0 <= i <= ts.len(),
    ensures
        progress(ts, unary(ts, i), i + 1),
    decreases ts.len() - i, 10int,
{
    if at(ts, i, Token::Not) || at(ts, i, Token::Minus) {
        lemma_unary(ts, i + 1);
    } else {
        lemma_primary(ts, i);
        if let Ok((e, j)) = primary(ts, i) {
            lemma_postfix_rest(ts, j, e);
        }
    }
}

pub proof fn lemma_postfix_rest(ts: Seq<Tok>, j: int, e: EM)
    requires
        0 <= j <= ts.len(),
    ensures
        progress(ts, postfix_rest(ts, j, e), j),
    decreases ts.len() - j, 9int,
{
    if at(ts, j, Token::Dot) {
        if let Tok::Ident(f) = peek(ts, j + 1) {
            if at(ts, j + 2, Token::LParen) {
                lemma_list(ts, j + 3, 2, seq![], seq![]);
                if let Ok((args, _, k)) = list(ts, j + 3, 2, seq![], seq![]) {
                    if at(ts, k, Token::RParen) {
                        lemma_postfix_rest(ts, k + 1, EM::Method(Box::new(e), f, args));
                    }
                }
            } else {
                lemma_postfix_rest(ts, j + 2, EM::Dot(Box::new(e), f));
            }
        }
    } else if at(ts, j, Token::LBracket) {
        lemma_expr(ts, j + 1);
        if let Ok((x, k)) = expr(ts, j + 1) {
            if at(ts, k, Token::RBracket) {
                lemma_postfix_rest(ts, k + 1, EM::Index(Box::new(e), Box::new(x)));
            }
        }
    } else if at(ts, j, Token::LParen) {
        lemma_list(ts, j + 1, 2, seq![], seq![]);
        if let Ok((args, _, k)) = list(ts, j + 1, 2, seq![], seq![]) {
            if at(ts, k, Token::RParen) {
                lemma_postfix_rest(ts, k + 1, EM::Call(Box::new(e), args));
            }
        }
    }
}

pub proof fn lemma_list(ts: Seq<Tok>, i: int, kind: int, xs: Seq<EM>, ps: Seq<(Seq<char>, EM)>)
    requires
        0 <= i <= ts.len(),
    ensures
        !(list(ts, i, kind, xs, ps) matches Err(PErr::Stuck)),
        list(ts, i, kind, xs, ps) matches Ok((_, _, j)) ==> i <= j <= ts.len(),
    decreases ts.len() - i, 31int,
{
    if !(at(ts, i, closer(kind)) || at(ts, i, Token::Eof)) {
        if kind != 1 {
            lemma_expr(ts, i);
            if let Ok((e, j)) = expr(ts, i) {
                lemma_list(ts, if at(ts, j, Token::Comma) { j + 1 } else { j }, kind, xs.push(e), ps);
            }
        } else {
            let key = match peek(ts, i) {
                Tok::Ident(k) => Some(k),
                Tok::StringLit(k) => Some(k),
                _ => None,
            };
            if let Some(k) = key {
                if at(ts, i + 1, Token::Comma) || at(ts, i + 1, Token::RBrace) {
                    lemma_list(ts, if at(ts, i + 1, Token::Comma) { i + 2 } else { i + 1 }, kind, xs, ps.push((k, EM::Ident(k))));
                } else if i + 2 <= ts.len() {
                    lemma_expr(ts, i + 2);
                    if let Ok((v, j)) = expr(ts, i + 2) {
                        lemma_list(ts, if at(ts, j, Token::Comma) { j + 1 } else { j }, kind, xs, ps.push((k, v)));
                    }
                }
            }
        }
    }
}

pub proof fn lemma_primary(ts: Seq<Tok>, i: int)
    requires
        0 <= i <= ts.len(),
    ensures
        progress(ts, primary(ts, i), i + 1),
    decreases ts.len() - i, 8int,
{
    if at(ts, i, Token::LParen) {
        lemma_expr(ts, i + 1);
    } else if at(ts, i, Token::LBracket) {
        lemma_list(ts, i + 1, 0, seq![], seq![]);
    } else if at(ts, i, Token::LBrace) {
        lemma_list(ts, i + 1, 1, seq![], seq![]);
    }
}

/// Parsing never stalls: on any tokens, a program either parses or fails
/// with a token that does not fit, never with `Stuck`.
pub proof fn law_parse_never_stalls(ts: Seq<Tok>)
    ensures
        !(program(ts) matches Err(PErr::Stuck)),
        !(expr(ts, 0) matches Err(PErr::Stuck)),
{
    lemma_stmt_list(ts, 0, false);
    lemma_expr(ts, 0);
}

// ---------------------------------------------------------------------------
// The parser
// ---------------------------------------------------------------------------

pub proof fn lemma_ems(xs: Seq<Expr>)
    ensures
        ems(xs).len() == xs.len(),
        forall|k: int| 0 <= k < xs.len() ==> #[trigger] ems(xs)[k] == em(xs[k]),
    decreases xs.len(),
{
    if xs.len() > 0 {
        lemma_ems(xs.drop_last());
        assert forall|k: int| 0 <= k < xs.len() implies #[trigger] ems(xs)[k] == em(xs[k]) by {
            if k < xs.len() - 1 {
                assert(xs.drop_last()[k] == xs[k]);
            }
        }
    }
}

pub proof fn lemma_pms(ps: Seq<(String, Expr)>)
    ensures
        pms(ps).len() == ps.len(),
        forall|k: int| 0 <= k < ps.len() ==> #[trigger] pms(ps)[k] == (ps[k].0@, em(ps[k].1)),
    decreases ps.len(),
{
    if ps.len() > 0 {
        lemma_pms(ps.drop_last());
        assert forall|k: int| 0 <= k < ps.len() implies #[trigger] pms(ps)[k] == (ps[k].0@, em(ps[k].1)) by {
            if k < ps.len() - 1 {
                assert(ps.drop_last()[k] == ps[k]);
            }
        }
    }
}

pub proof fn lemma_sms(ss: Seq<Stmt>)
    ensures
        sms(ss).len() == ss.len(),
        forall|k: int| 0 <= k < ss.len() ==> #[trigger] sms(ss)[k] == sm(ss[k]),
    decreases ss.len(),
{
    if ss.len() > 0 {
        lemma_sms(ss.drop_last());
        assert forall|k: int| 0 <= k < ss.len() implies #[trigger] sms(ss)[k] == sm(ss[k]) by {
            if k < ss.len() - 1 {
                assert(ss.drop_last()[k] == ss[k]);
            }
        }
    }
}

/// A number for each kind of token; two tokens without payload are equal
/// exactly when their numbers are.
pub open spec fn code(t: Token) -> u8 {
    match t {
        Token::Ident(_) => 0,
        Token::StringLit(_) => 1,
        Token::NumberLit(_) => 2,
        Token::BoolLit(_) => 3,
        Token::Null => 4,
        Token::Assign => 5,
        Token::PlusAssign => 6,
        Token::MinusAssign => 7,
        Token::MulAssign => 8,
        Token::DivAssign => 9,
        Token::Plus => 10,
        Token::Minus => 11,
        Token::Star => 12,
        Token::Slash => 13,
        Token::Percent => 14,
        Token::Eq => 15,
        Token::Ne => 16,
        Token::Lt => 17,
        Token::Le => 18,
        Token::Gt => 19,
        Token::Ge => 20,
        Token::And => 21,
        Token::Or => 22,
        Token::Not => 23,
        Token::Dot => 24,
        Token::Comma => 25,
        Token::Semicolon => 26,
        Token::LParen => 27,
        Token::RParen => 28,
        Token::LBracket => 29,
        Token::RBracket => 30,
        Token::LBrace => 31,
        Token::RBrace => 32,
        Token::If => 33,
        Token::Else => 34,
        Token::For => 35,
        Token::In => 36,
        Token::Let => 37,
        Token::Return => 38,
        Token::Await => 39,
        Token::Eof => 40,
    }
}

/// `code(t)`.
fn code_of(t: &Token) -> (r: u8)
    ensures
        r == code(*t),
{
    match t {
        Token::Ident(_) => 0,
        Token::StringLit(_) => 1,
        Token::NumberLit(_) => 2,
        Token::BoolLit(_) => 3,
        Token::Null => 4,
        Token::Assign => 5,
        Token::PlusAssign => 6,
        Token::MinusAssign => 7,
        Token::MulAssign => 8,
        Token::DivAssign => 9,
        Token::Plus => 10,
        Token::Minus => 11,
        Token::Star => 12,
        Token::Slash => 13,
        Token::Percent => 14,
        Token::Eq => 15,
        Token::Ne => 16,
        Token::Lt => 17,
        Token::Le => 18,
        Token::Gt => 19,
        Token::Ge => 20,
        Token::And => 21,
        Token::Or => 22,
        Token::Not => 23,
        Token::Dot => 24,
        Token::Comma => 25,
        Token::Semicolon => 26,
        Token::LParen => 27,
        Token::RParen => 28,
        Token::LBracket => 29,
        Token::RBracket => 30,
        Token::LBrace => 31,
        Token::RBrace => 32,
        Token::If => 33,
        Token::Else => 34,
        Token::For => 35,
        Token::In => 36,
        Token::Let => 37,
        Token::Return => 38,
        Token::Await => 39,
        Token::Eof => 40,
    }
}

/// A token without payload, given by its code.
pub open spec fn plain(c: u8) -> bool {
    4 <= c <= 40
}

pub proof fn lemma_code(t: Token, k: Token)
    requires
        plain(code(k)),
    ensures
        (tok(t) == Tok::Plain(k)) <==> code(t) == code(k),
{
}

/// The code of the token at `i` (past the end, that of `Eof`).
fn code_at(ts: &Vec<Token>, i: usize) -> (r: u8)
    ensures
        r == (if i < ts@.len() {
            code(ts@[i as int])
        } else {
            40u8
        }),
        forall|k: Token| plain(code(k)) ==> (#[trigger] at(toks(ts@), i as int, k) <==> r == code(k)),
{
    if i < ts.len() {
        let r = code_of(&ts[i]);
        proof {
            assert forall|k: Token| plain(code(k)) implies (#[trigger] at(toks(ts@), i as int, k) <==> r == code(k)) by {
                lemma_code(ts@[i as int], k);
            }
        }
        r
    } else {
        proof {
            assert forall|k: Token| plain(code(k)) implies (#[trigger] at(toks(ts@), i as int, k) <==> 40u8 == code(k)) by {
                lemma_code(Token::Eof, k);
            }
        }
        40
    }
}

/// A copy of a token.
pub fn copy_token(t: &Token) -> (r: Token)
    ensures
        tok(r) == tok(*t),
{
    match t {
        Token::Ident(s) => Token::Ident(s.clone()),
        Token::StringLit(s) => Token::StringLit(s.clone()),
        Token::NumberLit(s) => Token::NumberLit(s.clone()),
        Token::BoolLit(b) => Token::BoolLit(*b),
        Token::Null => Token::Null,
        Token::Assign => Token::Assign,
        Token::PlusAssign => Token::PlusAssign,
        Token::MinusAssign => Token::MinusAssign,
        Token::MulAssign => Token::MulAssign,
        Token::DivAssign => Token::DivAssign,
        Token::Plus => Token::Plus,
        Token::Minus => Token::Minus,
        Token::Star => Token::Star,
        Token::Slash => Token::Slash,
        Token::Percent => Token::Percent,
        Token::Eq => Token::Eq,
        Token::Ne => Token::Ne,
        Token::Lt => Token::Lt,
        Token::Le => Token::Le,
        Token::Gt => Token::Gt,
        Token::Ge => Token::Ge,
        Token::And => Token::And,
        Token::Or => Token::Or,
        Token::Not => Token::Not,
        Token::Dot => Token::Dot,
        Token::Comma => Token::Comma,
        Token::Semicolon => Token::Semicolon,
        Token::LParen => Token::LParen,
        Token::RParen => Token::RParen,
        Token::LBracket => Token::LBracket,
        Token::RBracket => Token::RBracket,
        Token::LBrace => Token::LBrace,
        Token::RBrace => Token::RBrace,
        Token::If => Token::If,
        Token::Else => Token::Else,
        Token::For => Token::For,
        Token::In => Token::In,
        Token::Let => Token::Let,
        Token::Return => Token::Return,
        Token::Await => Token::Await,
        Token::Eof => Token::Eof,
    }
}

/// A copy of the token at `i` (past the end, `Eof`).
fn token_at(ts: &Vec<Token>, i: usize) -> (r: Token)
    ensures
        tok(r) == peek(toks(ts@), i as int),
{
    if i < ts.len() {
        copy_token(&ts[i])
    } else {
        Token::Eof
    }
}

fn expected(k: Token, ts: &Vec<Token>, i: usize) -> (r: SyntaxError)
    requires
        plain(code(k)),
    ensures
        perr(r) == PErr::Expected(Tok::Plain(k), peek(toks(ts@), i as int)),
{
    SyntaxError::Expected { expected: k, got: token_at(ts, i) }
}


fn skip_semis_e(ts: &Vec<Token>, i: usize) -> (r: usize)
    requires
        i <= ts@.len(),
    ensures
        r == skip_semis(toks(ts@), i as int),
        i <= r <= ts@.len(),
{
    proof {
        lemma_skip_semis(toks(ts@), i as int);
    }
    let mut k = i;
    while k < ts.len() && code_at(ts, k) == 26
        invariant
            i <= k <= ts@.len(),
            skip_semis(toks(ts@), k as int) == skip_semis(toks(ts@), i as int),
        decreases ts@.len() - k,
    {
        proof {
            assert(at(toks(ts@), k as int, Token::Semicolon));
        }
        k += 1;
    }
    proof {
        if k < ts@.len() {
            assert(!at(toks(ts@), k as int, Token::Semicolon));
        }
    }
    k
}

/// `stmt_list`.
fn stmt_list_e(ts: &Vec<Token>, i: usize, block: bool) -> (r: Result<(Vec<Stmt>, usize), SyntaxError>)
    ensures
        res_ss(r) == stmt_list(toks(ts@), i as int, block),
    decreases ts@.len() - i, 30int,
{
    if i > ts.len() {
        return Err(SyntaxError::Stuck);
    }
    let c = code_at(ts, i);
    if c == 40 || (block && c == 32) {
        let none: Vec<Stmt> = Vec::new();
        proof {
            assert(sms(none@) =~= Seq::<SM>::empty());
        }
        return Ok((none, i));
    }
    match stmt_e(ts, i) {
        Err(e) => Err(e),
        Ok((st, j)) => {
            if !(i < j && j <= ts.len()) {
                return Err(SyntaxError::Stuck);
            }
            let k = skip_semis_e(ts, j);
            match stmt_list_e(ts, k, block) {
                Ok((mut ss, m)) => {
                    let ghost rest = ss@;
                    ss.insert(0, st);
                    proof {
                        lemma_sms(rest);
                        lemma_sms(ss@);
                        assert(sms(ss@) =~= seq![sm(st)] + sms(rest));
                    }
                    Ok((ss, m))
                },
                Err(e) => Err(e),
            }
        },
    }
}

/// `stmt`.
fn stmt_e(ts: &Vec<Token>, i: usize) -> (r: Result<(Stmt, usize), SyntaxError>)
    ensures
        res_s(r) == stmt(toks(ts@), i as int),
    decreases ts@.len() - i, 29int,
{
    if i > ts.len() {
        return Err(SyntaxError::Stuck);
    }
    let c = code_at(ts, i);
    if c == 37 {
        let_e(ts, i)
    } else if c == 33 {
        if_e(ts, i)
    } else if c == 35 {
        for_e(ts, i)
    } else if c == 38 {
        return_e(ts, i)
    } else {
        assign_or_expr_e(ts, i)
    }
}

fn let_e(ts: &Vec<Token>, i: usize) -> (r: Result<(Stmt, usize), SyntaxError>)
    ensures
        res_s(r) == let_stmt(toks(ts@), i as int),
    decreases ts@.len() - i, 28int,
{
    let n = ts.len();
    if i >= n {
        return Err(SyntaxError::Stuck);
    }
    if i + 1 < n {
        match &ts[i + 1] {
            Token::Ident(name) => {
                if code_at(ts, i + 2) != 5 {
                    return Err(expected(Token::Assign, ts, i + 2));
                }
                return match expr_e(ts, i + 3) {
                    Ok((e, j)) => Ok((Stmt::Let { name: name.clone(), value: e }, j)),
                    Err(x) => Err(x),
                };
            },
            _ => {},
        }
    }
    Err(SyntaxError::NameAfterLet(token_at(ts, i + 1)))
}

fn if_e(ts: &Vec<Token>, i: usize) -> (r: Result<(Stmt, usize), SyntaxError>)
    ensures
        res_s(r) == if_stmt(toks(ts@), i as int),
    decreases ts@.len() - i, 28int,
{
    let n = ts.len();
    if i >= n {
        return Err(SyntaxError::Stuck);
    }
    let (c, j) = match expr_e(ts, i + 1) {
        Err(x) => {
            return Err(x);
        },
        Ok(p) => p,
    };
    if !(i < j && j <= n) {
        return Err(SyntaxError::Stuck);
    }
    if code_at(ts, j) != 31 {
        return Err(expected(Token::LBrace, ts, j));
    }
    let (tb, k) = match stmt_list_e(ts, j + 1, true) {
        Err(x) => {
            return Err(x);
        },
        Ok(p) => p,
    };
    if !(i < k && k <= n) {
        return Err(SyntaxError::Stuck);
    }
    if code_at(ts, k) != 32 {
        return Err(expected(Token::RBrace, ts, k));
    }
    if code_at(ts, k + 1) != 34 {
        let none: Vec<Stmt> = Vec::new();
        proof {
            assert(sms(none@) =~= Seq::<SM>::empty());
        }
        return Ok((Stmt::If { condition: c, then_body: tb, else_body: none }, k + 1));
    }
    if code_at(ts, k + 2) == 33 {
        return match if_e(ts, k + 2) {
            Ok((st, e)) => {
                let mut eb: Vec<Stmt> = Vec::new();
                eb.push(st);
                proof {
                    lemma_sms(eb@);
                    assert(sms(eb@) =~= seq![sm(st)]);
                }
                Ok((Stmt::If { condition: c, then_body: tb, else_body: eb }, e))
            },
            Err(x) => Err(x),
        };
    }
    if code_at(ts, k + 2) != 31 {
        return Err(expected(Token::LBrace, ts, k + 2));
    }
    match stmt_list_e(ts, k + 3, true) {
        Err(x) => Err(x),
        Ok((eb, m)) => {
            if code_at(ts, m) != 32 {
                return Err(expected(Token::RBrace, ts, m));
            }
            Ok((Stmt::If { condition: c, then_body: tb, else_body: eb }, m + 1))
        },
    }
}

fn for_e(ts: &Vec<Token>, i: usize) -> (r: Result<(Stmt, usize), SyntaxError>)
    ensures
        res_s(r) == for_stmt(toks(ts@), i as int),
    decreases ts@.len() - i, 28int,
{
    let n = ts.len();
    if i >= n {
        return Err(SyntaxError::Stuck);
    }
    if i + 1 < n {
        match &ts[i + 1] {
            Token::Ident(v) => {
                if code_at(ts, i + 2) != 36 {
                    return Err(expected(Token::In, ts, i + 2));
                }
                let (it, j) = match expr_e(ts, i + 3) {
                    Err(x) => {
                        return Err(x);
                    },
                    Ok(p) => p,
                };
                if !(i < j && j <= n) {
                    return Err(SyntaxError::Stuck);
                }
                if code_at(ts, j) != 31 {
                    return Err(expected(Token::LBrace, ts, j));
                }
                return match stmt_list_e(ts, j + 1, true) {
                    Err(x) => Err(x),
                    Ok((b, k)) => {
                        if code_at(ts, k) != 32 {
                            return Err(expected(Token::RBrace, ts, k));
                        }
                        Ok((Stmt::For { var: v.clone(), iterable: it, body: b }, k + 1))
                    },
                };
            },
            _ => {},
        }
    }
    Err(SyntaxError::NameAfterFor(token_at(ts, i + 1)))
}

fn return_e(ts: &Vec<Token>, i: usize) -> (r: Result<(Stmt, usize), SyntaxError>)
    ensures
        res_s(r) == return_stmt(toks(ts@), i as int),
    decreases ts@.len() - i, 28int,
{
    let n = ts.len();
    if i >= n {
        return Err(SyntaxError::Stuck);
    }
    let c = code_at(ts, i + 1);
    if c == 26 || c == 32 || c == 40 {
        return Ok((Stmt::Return(None), i + 1));
    }
    match expr_e(ts, i + 1) {
        Ok((e, j)) => Ok((Stmt::Return(Some(e)), j)),
        Err(x) => Err(x),
    }
}

fn assign_or_expr_e(ts: &Vec<Token>, i: usize) -> (r: Result<(Stmt, usize), SyntaxError>)
    ensures
        res_s(r) == assign_or_expr(toks(ts@), i as int),
    decreases ts@.len() - i, 28int,
{
    let n = ts.len();
    if i > n {
        return Err(SyntaxError::Stuck);
    }
    let (e, j) = match expr_e(ts, i) {
        Err(x) => {
            return Err(x);
        },
        Ok(p) => p,
    };
    if !(i < j && j <= n) {
        return Err(SyntaxError::Stuck);
    }
    let c = code_at(ts, j);
    let op = if c == 5 {
        None
    } else if c == 6 {
        Some(CompoundOp::Add)
    } else if c == 7 {
        Some(CompoundOp::Sub)
    } else if c == 8 {
        Some(CompoundOp::Mul)
    } else if c == 9 {
        Some(CompoundOp::Div)
    } else {
        return Ok((Stmt::Expr(e), j));
    };
    match expr_e(ts, j + 1) {
        Ok((v, k)) => match op {
            None => Ok((Stmt::Assign { target: e, value: v }, k)),
            Some(o) => Ok((Stmt::CompoundAssign { target: e, op: o, value: v }, k)),
        },
        Err(x) => Err(x),
    }
}

/// `expr`.
pub fn expr_e(ts: &Vec<Token>, i: usize) -> (r: Result<(Expr, usize), SyntaxError>)
    ensures
        res_e(r) == expr(toks(ts@), i as int),
    decreases ts@.len() - i, 23int,
{
    binary_e(ts, i, 0)
}

fn binary_e(ts: &Vec<Token>, i: usize, level: u8) -> (r: Result<(Expr, usize), SyntaxError>)
    ensures
        res_e(r) == binary(toks(ts@), i as int, level as int),
    decreases ts@.len() - i, rank_of(level as int, 22),
{
    let n = ts.len();
    if i > n || level > 5 {
        return Err(SyntaxError::Stuck);
    }
    match operand_e(ts, i, level) {
        Err(x) => Err(x),
        Ok((l, j)) => {
            if !(i < j && j <= n) {
                return Err(SyntaxError::Stuck);
            }
            binary_rest_e(ts, j, level, l)
        },
    }
}

fn operand_e(ts: &Vec<Token>, i: usize, level: u8) -> (r: Result<(Expr, usize), SyntaxError>)
    ensures
        res_e(r) == operand(toks(ts@), i as int, level as int),
    decreases ts@.len() - i, rank_of(level as int, 21),
{
    let n = ts.len();
    if i > n || level > 5 {
        return Err(SyntaxError::Stuck);
    }
    if level == 5 {
        unary_e(ts, i)
    } else {
        binary_e(ts, i, level + 1)
    }
}

fn op_at_e(ts: &Vec<Token>, j: usize, level: u8) -> (r: Option<BinOp>)
    ensures
        r == op_at(toks(ts@), j as int, level as int),
{
    let c = code_at(ts, j);
    if level == 0 {
        if c == 22 { Some(BinOp::Or) } else { None }
    } else if level == 1 {
        if c == 21 { Some(BinOp::And) } else { None }
    } else if level == 2 {
        if c == 15 {
            Some(BinOp::Eq)
        } else if c == 16 {
            Some(BinOp::Ne)
        } else {
            None
        }
    } else if level == 3 {
        if c == 17 {
            Some(BinOp::Lt)
        } else if c == 18 {
            Some(BinOp::Le)
        } else if c == 19 {
            Some(BinOp::Gt)
        } else if c == 20 {
            Some(BinOp::Ge)
        } else {
            None
        }
    } else if level == 4 {
        if c == 10 {
            Some(BinOp::Add)
        } else if c == 11 {
            Some(BinOp::Sub)
        } else {
            None
        }
    } else {
        if c == 12 {
            Some(BinOp::Mul)
        } else if c == 13 {
            Some(BinOp::Div)
        } else if c == 14 {
            Some(BinOp::Mod)
        } else {
            None
        }
    }
}

fn binary_rest_e(ts: &Vec<Token>, j: usize, level: u8, left: Expr) -> (r: Result<(Expr, usize), SyntaxError>)
    ensures
        res_e(r) == binary_rest(toks(ts@), j as int, level as int, em(left)),
    decreases ts@.len() - j, rank_of(level as int, 22),
{
    let n = ts.len();
    if j > n || level > 5 {
        return Err(SyntaxError::Stuck);
    }
    match op_at_e(ts, j, level) {
        None => Ok((left, j)),
        Some(op) => match operand_e(ts, j + 1, level) {
            Err(x) => Err(x),
            Ok((r, k)) => {
                if !(j < k && k <= n) {
                    return Err(SyntaxError::Stuck);
                }
                binary_rest_e(ts, k, level, Expr::BinaryOp(Box::new(left), op, Box::new(r)))
            },
        },
    }
}

fn unary_e(ts: &Vec<Token>, i: usize) -> (r: Result<(Expr, usize), SyntaxError>)
    ensures
        res_e(r) == unary(toks(ts@), i as int),
    decreases ts@.len() - i, 10int,
{
    let n = ts.len();
    if i > n {
        return Err(SyntaxError::Stuck);
    }
    let c = code_at(ts, i);
    if c == 23 {
        match unary_e(ts, i + 1) {
            Ok((e, j)) => Ok((Expr::UnaryNot(Box::new(e)), j)),
            Err(x) => Err(x),
        }
    } else if c == 11 {
        match unary_e(ts, i + 1) {
            Ok((e, j)) => Ok((Expr::UnaryNeg(Box::new(e)), j)),
            Err(x) => Err(x),
        }
    } else {
        match primary_e(ts, i) {
            Err(x) => Err(x),
            Ok((e, j)) => {
                if !(i < j && j <= n) {
                    return Err(SyntaxError::Stuck);
                }
                postfix_rest_e(ts, j, e)
            },
        }
    }
}

fn postfix_rest_e(ts: &Vec<Token>, j: usize, e: Expr) -> (r: Result<(Expr, usize), SyntaxError>)
    ensures
        res_e(r) == postfix_rest(toks(ts@), j as int, em(e)),
    decreases ts@.len() - j, 9int,
{
    let n = ts.len();
    if j > n {
        return Err(SyntaxError::Stuck);
    }
    let c = code_at(ts, j);
    if c == 24 {
        if j + 1 < n {
            match &ts[j + 1] {
                Token::Ident(f) => {
                    if code_at(ts, j + 2) == 27 {
                        let xs0: Vec<Expr> = Vec::new();
                        let ps0: Vec<(String, Expr)> = Vec::new();
                        proof {
                            assert(ems(xs0@) =~= Seq::<EM>::empty());
                            assert(pms(ps0@) =~= Seq::<(Seq<char>, EM)>::empty());
                        }
                        let (args, _, k) = match list_e(ts, j + 3, 2, xs0, ps0) {
                            Err(x) => {
                                return Err(x);
                            },
                            Ok(p) => p,
                        };
                        if !(j + 3 <= k && k <= n) {
                            return Err(SyntaxError::Stuck);
                        }
                        if code_at(ts, k) != 28 {
                            return Err(expected(Token::RParen, ts, k));
                        }
                        return postfix_rest_e(ts, k + 1, Expr::MethodCall(Box::new(e), f.clone(), args));
                    } else {
                        return postfix_rest_e(ts, j + 2, Expr::DotAccess(Box::new(e), f.clone()));
                    }
                },
                _ => {},
            }
        }
        Err(SyntaxError::FieldName(token_at(ts, j + 1)))
    } else if c == 29 {
        let (x, k) = match expr_e(ts, j + 1) {
            Err(x) => {
                return Err(x);
            },
            Ok(p) => p,
        };
        if !(j < k && k <= n) {
            return Err(SyntaxError::Stuck);
        }
        if code_at(ts, k) != 30 {
            return Err(expected(Token::RBracket, ts, k));
        }
        postfix_rest_e(ts, k + 1, Expr::IndexAccess(Box::new(e), Box::new(x)))
    } else if c == 27 {
        let xs0: Vec<Expr> = Vec::new();
        let ps0: Vec<(String, Expr)> = Vec::new();
        proof {
            assert(ems(xs0@) =~= Seq::<EM>::empty());
            assert(pms(ps0@) =~= Seq::<(Seq<char>, EM)>::empty());
        }
        let (args, _, k) = match list_e(ts, j + 1, 2, xs0, ps0) {
            Err(x) => {
                return Err(x);
            },
            Ok(p) => p,
        };
        if !(j + 1 <= k && k <= n) {
            return Err(SyntaxError::Stuck);
        }
        if code_at(ts, k) != 28 {
            return Err(expected(Token::RParen, ts, k));
        }
        postfix_rest_e(ts, k + 1, Expr::Call(Box::new(e), args))
    } else {
        Ok((e, j))
    }
}

pub open spec fn res_l(r: Result<(Vec<Expr>, Vec<(String, Expr)>, usize), SyntaxError>) -> Result<
    (Seq<EM>, Seq<(Seq<char>, EM)>, int),
    PErr,
> {
    match r {
        Ok((xs, ps, j)) => Ok((ems(xs@), pms(ps@), j as int)),
        Err(x) => Err(perr(x)),
    }
}

fn list_e(ts: &Vec<Token>, i: usize, kind: u8, xs: Vec<Expr>, ps: Vec<(String, Expr)>) -> (r: Result<
    (Vec<Expr>, Vec<(String, Expr)>, usize),
    SyntaxError,
>)
    ensures
        res_l(r) == list(toks(ts@), i as int, kind as int, ems(xs@), pms(ps@)),
    decreases ts@.len() - i, 31int,
{
    let n = ts.len();
    if i > n {
        return Err(SyntaxError::Stuck);
    }
    let c = code_at(ts, i);
    let close: u8 = if kind == 0 {
        30
    } else if kind == 1 {
        32
    } else {
        28
    };
    proof {
        assert(code(closer(kind as int)) == close);
    }
    if c == close || c == 40 {
        return Ok((xs, ps, i));
    }
    if kind != 1 {
        let (e, j) = match expr_e(ts, i) {
            Err(x) => {
                return Err(x);
            },
            Ok(p) => p,
        };
        if !(i < j && j <= n) {
            return Err(SyntaxError::Stuck);
        }
        let next = if code_at(ts, j) == 25 {
            j + 1
        } else {
            j
        };
        let mut xs = xs;
        let ghost before = xs@;
        xs.push(e);
        proof {
            assert(xs@.drop_last() =~= before);
        }
        return list_e(ts, next, kind, xs, ps);
    }
    let key: Option<String> = if i < n {
        match &ts[i] {
            Token::Ident(k) => Some(k.clone()),
            Token::StringLit(k) => Some(k.clone()),
            _ => None,
        }
    } else {
        None
    };
    let k = match key {
        None => {
            return Err(SyntaxError::ObjectKey(token_at(ts, i)));
        },
        Some(k) => k,
    };
    let c1 = code_at(ts, i + 1);
    if c1 == 25 || c1 == 32 {
        let next = if c1 == 25 {
            i + 2
        } else {
            i + 1
        };
        let mut ps = ps;
        let ghost before = ps@;
        let kv = k.clone();
        let ghost kk = k@;
        proof {
            assert(kv@ == kk);
        }
        ps.push((k, Expr::Ident(kv)));
        proof {
            assert(ps@.drop_last() =~= before);
            assert(ps@.last().0@ == kk);
            assert(em(ps@.last().1) == EM::Ident(kk));
            assert(pms(ps@) == pms(before).push((kk, EM::Ident(kk))));
            assert(peek(toks(ts@), i as int) == Tok::Ident(kk) || peek(toks(ts@), i as int) == Tok::StringLit(kk));
        }
        return list_e(ts, next, kind, xs, ps);
    }
    if i + 1 >= n {
        return Err(SyntaxError::Unexpected(Token::Eof));
    }
    let (v, j) = match expr_e(ts, i + 2) {
        Err(x) => {
            return Err(x);
        },
        Ok(p) => p,
    };
    if !(i < j && j <= n) {
        return Err(SyntaxError::Stuck);
    }
    let next = if code_at(ts, j) == 25 {
        j + 1
    } else {
        j
    };
    let mut ps = ps;
    let ghost before = ps@;
    ps.push((k, v));
    proof {
        assert(ps@.drop_last() =~= before);
    }
    list_e(ts, next, kind, xs, ps)
}

fn primary_e(ts: &Vec<Token>, i: usize) -> (r: Result<(Expr, usize), SyntaxError>)
    ensures
        res_e(r) == primary(toks(ts@), i as int),
    decreases ts@.len() - i, 8int,
{
    let n = ts.len();
    if i > n {
        return Err(SyntaxError::Stuck);
    }
    if i == n {
        return Err(SyntaxError::Unexpected(Token::Eof));
    }
    match &ts[i] {
        Token::NumberLit(s) => Ok((Expr::Number(s.clone()), i + 1)),
        Token::StringLit(s) => Ok((Expr::Str(s.clone()), i + 1)),
        Token::BoolLit(b) => Ok((Expr::Bool(*b), i + 1)),
        Token::Ident(s) => Ok((Expr::Ident(s.clone()), i + 1)),
        Token::Null => Ok((Expr::Null, i + 1)),
        Token::LParen => {
            let (e, j) = match expr_e(ts, i + 1) {
                Err(x) => {
                    return Err(x);
                },
                Ok(p) => p,
            };
            if !(i < j && j <= n) {
                return Err(SyntaxError::Stuck);
            }
            if code_at(ts, j) != 28 {
                return Err(expected(Token::RParen, ts, j));
            }
            Ok((e, j + 1))
        },
        Token::LBracket => {
            let xs0: Vec<Expr> = Vec::new();
            let ps0: Vec<(String, Expr)> = Vec::new();
            proof {
                assert(ems(xs0@) =~= Seq::<EM>::empty());
                assert(pms(ps0@) =~= Seq::<(Seq<char>, EM)>::empty());
            }
            let (xs, _, j) = match list_e(ts, i + 1, 0, xs0, ps0) {
                Err(x) => {
                    return Err(x);
                },
                Ok(p) => p,
            };
            if code_at(ts, j) != 30 {
                return Err(expected(Token::RBracket, ts, j));
            }
            Ok((Expr::Array(xs), j + 1))
        },
        Token::LBrace => {
            let xs0: Vec<Expr> = Vec::new();
            let ps0: Vec<(String, Expr)> = Vec::new();
            proof {
                assert(ems(xs0@) =~= Seq::<EM>::empty());
                assert(pms(ps0@) =~= Seq::<(Seq<char>, EM)>::empty());
            }
            let (_, ps, j) = match list_e(ts, i + 1, 1, xs0, ps0) {
                Err(x) => {
                    return Err(x);
                },
                Ok(p) => p,
            };
            if code_at(ts, j) != 32 {
                return Err(expected(Token::RBrace, ts, j));
            }
            Ok((Expr::Object(ps), j + 1))
        },
        t => Err(SyntaxError::Unexpected(copy_token(t))),
    }
}

/// The statements of a program (`program`).
pub fn parse_program(ts: &Vec<Token>) -> (r: Result<Vec<Stmt>, SyntaxError>)
    ensures
        match program(toks(ts@)) {
            Ok(ss) => r matches Ok(v) && sms(v@) == ss,
            Err(x) => r matches Err(e) && perr(e) == x,
        },
{
    match stmt_list_e(ts, 0, false) {
        Ok((ss, _)) => Ok(ss),
        Err(e) => Err(e),
    }
}

/// One expression from the start of `ts` (`expr`), and where it ends.
pub fn parse_expr(ts: &Vec<Token>) -> (r: Result<(Expr, usize), SyntaxError>)
    ensures
        res_e(r) == expr(toks(ts@), 0),
{
    expr_e(ts, 0)
}


/// Why an action body could not be read: its text does not lex, or its
/// tokens do not parse.
#[derive(Debug)]
pub enum ParseFailure {
    Lex(RuntimeError),
    Syntax(SyntaxError),
}

/// Reads action bodies and expressions of the handler language; running
/// them is left to an evaluator.
pub struct Interpreter;

impl Interpreter {
    /// The statements of `body`: its tokens (`lex_from`), then `program`.
    pub fn parse_body(body: &str) -> (r: Result<Vec<Stmt>, ParseFailure>)
        ensures
            match lex_from(body@, 0) {
                Err(m) => r matches Err(ParseFailure::Lex(RuntimeError::Internal(s))) && s@ == m,
                Ok(ts) => match program(ts) {
                    Ok(ss) => r matches Ok(v) && sms(v@) == ss,
                    Err(x) => r matches Err(ParseFailure::Syntax(e)) && perr(e) == x,
                },
            },
    {
        match tokenize(body) {
            Err(e) => Err(ParseFailure::Lex(e)),
            Ok(ts) => match parse_program(&ts) {
                Ok(ss) => Ok(ss),
                Err(e) => Err(ParseFailure::Syntax(e)),
            },
        }
    }

    /// The expression at the start of `text` (what follows it is ignored).
    pub fn parse_expression(text: &str) -> (r: Result<Expr, ParseFailure>)
        ensures
            match lex_from(text@, 0) {
                Err(m) => r matches Err(ParseFailure::Lex(RuntimeError::Internal(s))) && s@ == m,
                Ok(ts) => match expr(ts, 0) {
                    Ok((e, _)) => r matches Ok(v) && em(v) == e,
                    Err(x) => r matches Err(ParseFailure::Syntax(e)) && perr(e) == x,
                },
            },
    {
        match tokenize(text) {
            Err(e) => Err(ParseFailure::Lex(e)),
            Ok(ts) => match parse_expr(&ts) {
                Ok((e, _)) => Ok(e),
                Err(e) => Err(ParseFailure::Syntax(e)),
            },
        }
    }
}

} // verus!
