//! The tokens of the handler language that action bodies are written in.
//! Numbers are kept as their text; whitespace and `//` comments separate
//! tokens.

use vstd::prelude::*;
use crate::text::{chars_of, char_is_alnum, char_is_ws, is_alnum, is_ws, push_char, string_from};
use crate::runtime::error::RuntimeError;

verus! {

#[derive(Debug, Clone, PartialEq, Eq)]
pub enum Token {
    Ident(String),
    StringLit(String),
    /// A number literal: digits and at most one `.`, starting with a digit.
    NumberLit(String),
    BoolLit(bool),
    Null,
    Assign,
    PlusAssign,
    MinusAssign,
    MulAssign,
    DivAssign,
    Plus,
    Minus,
    Star,
    Slash,
    Percent,
    Eq,
    Ne,
    Lt,
    Le,
    Gt,
    Ge,
    And,
    Or,
    Not,
    Dot,
    Comma,
    Semicolon,
    LParen,
    RParen,
    LBracket,
    RBracket,
    LBrace,
    RBrace,
    If,
    Else,
    For,
    In,
    Let,
    Return,
    Await,
    Eof,
}

/// A token with its texts as character sequences.
pub enum Tok {
    Ident(Seq<char>),
    StringLit(Seq<char>),
    NumberLit(Seq<char>),
    BoolLit(bool),
    /// Any token without a payload, by its variant.
    Plain(Token),
}

pub open spec fn tok(t: Token) -> Tok {
    match t {
        Token::Ident(s) => Tok::Ident(s@),
        Token::StringLit(s) => Tok::StringLit(s@),
        Token::NumberLit(s) => Tok::NumberLit(s@),
        Token::BoolLit(b) => Tok::BoolLit(b),
        _ => Tok::Plain(t),
    }
}

pub open spec fn toks(ts: Seq<Token>) -> Seq<Tok> {
    Seq::new(ts.len(), |i: int| tok(ts[i]))
}

/// Where the next token starts at or after `i`: whitespace and `//` comments
/// (through their newline) are skipped.
pub open spec fn skip_space(cs: Seq<char>, i: int) -> int
    decreases cs.len() - i, 1int,
{
    if i < 0 || i >= cs.len() {
        i
    } else if is_ws(cs[i]) {
        skip_space(cs, i + 1)
    } else if cs[i] == '/' && i + 1 < cs.len() && cs[i + 1] == '/' {
        proof {
            lemma_end_of_comment(cs, i + 2);
        }
        skip_space(cs, end_of_comment(cs, i + 2))
    } else {
        i
    }
}

/// Just past the first newline at or after `i`, or the end.
pub open spec fn end_of_comment(cs: Seq<char>, i: int) -> int
    decreases cs.len() - i,
{
    if i < 0 || i >= cs.len() {
        if i < cs.len() { cs.len() as int } else { i }
    } else if cs[i] == '\n' {
        i + 1
    } else {
        end_of_comment(cs, i + 1)
    }
}

pub proof fn lemma_end_of_comment(cs: Seq<char>, i: int)
    requires
        0 <= i <= cs.len(),
    ensures
        i < end_of_comment(cs, i) <= cs.len() || (i == cs.len() && end_of_comment(cs, i) == i),
    decreases cs.len() - i,
{
    if i < cs.len() && cs[i] != '\n' {
        lemma_end_of_comment(cs, i + 1);
    }
}

pub proof fn lemma_skip_space(cs: Seq<char>, i: int)
    requires
        0 <= i <= cs.len(),
    ensures
        i <= skip_space(cs, i) <= cs.len(),
    decreases cs.len() - i,
{
    if i < cs.len() {
        if is_ws(cs[i]) {
            lemma_skip_space(cs, i + 1);
        } else if cs[i] == '/' && i + 1 < cs.len() && cs[i + 1] == '/' {
            lemma_end_of_comment(cs, i + 2);
            lemma_skip_space(cs, end_of_comment(cs, i + 2));
        }
    }
}

/// The rest of a quoted string opened by `quote`, from `i`: its text and
/// where it ends, or `unterminated string`. `\n`, `\t`, `\\` and an escaped
/// quote stand for that character; any other escape stands for a backslash
/// and drops the character after it.
pub open spec fn string_body(cs: Seq<char>, i: int, quote: char) -> Result<(Seq<char>, int), Seq<char>>
    decreases cs.len() - i,
{
    if i < 0 || i >= cs.len() {
        Err("unterminated string"@)
    } else if cs[i] == quote {
        Ok((seq![], i + 1))
    } else if cs[i] == '\\' {
        let (c, next) = if i + 1 >= cs.len() {
            ('\\', i + 1)
        } else if cs[i + 1] == 'n' {
            ('\n', i + 2)
        } else if cs[i + 1] == 't' {
            ('\t', i + 2)
        } else if cs[i + 1] == '\\' {
            ('\\', i + 2)
        } else if cs[i + 1] == quote {
            (quote, i + 2)
        } else {
            ('\\', i + 2)
        };
        match string_body(cs, next, quote) {
            Ok((s, e)) => Ok((seq![c] + s, e)),
            Err(m) => Err(m),
        }
    } else {
        match string_body(cs, i + 1, quote) {
            Ok((s, e)) => Ok((seq![cs[i]] + s, e)),
            Err(m) => Err(m),
        }
    }
}

/// The end of the run of digits and dots starting at `i`.
pub open spec fn number_end(cs: Seq<char>, i: int) -> int
    decreases cs.len() - i,
{
    if i < 0 || i >= cs.len() {
        i
    } else if ('0' <= cs[i] && cs[i] <= '9') || cs[i] == '.' {
        number_end(cs, i + 1)
    } else {
        i
    }
}

/// The end of the run of alphanumerics and underscores starting at `i`.
pub open spec fn word_end(cs: Seq<char>, i: int) -> int
    decreases cs.len() - i,
{
    if i < 0 || i >= cs.len() {
        i
    } else if is_alnum(cs[i]) || cs[i] == '_' {
        word_end(cs, i + 1)
    } else {
        i
    }
}

pub proof fn lemma_runs(cs: Seq<char>, i: int)
    requires
        0 <= i <= cs.len(),
    ensures
        i <= number_end(cs, i) <= cs.len(),
        i <= word_end(cs, i) <= cs.len(),
    decreases cs.len() - i,
{
    if i < cs.len() {
        lemma_runs(cs, i + 1);
    }
}

pub open spec fn dots(s: Seq<char>) -> nat
    decreases s.len(),
{
    if s.len() == 0 {
        0
    } else {
        dots(s.drop_last()) + if s.last() == '.' {
            1nat
        } else {
            0nat
        }
    }
}

/// The token a word stands for: a keyword, a boolean, null, or a name.
pub open spec fn word_token(w: Seq<char>) -> Tok {
    if w == "if"@ {
        Tok::Plain(Token::If)
    } else if w == "else"@ {
        Tok::Plain(Token::Else)
    } else if w == "for"@ {
        Tok::Plain(Token::For)
    } else if w == "in"@ {
        Tok::Plain(Token::In)
    } else if w == "let"@ {
        Tok::Plain(Token::Let)
    } else if w == "return"@ {
        Tok::Plain(Token::Return)
    } else if w == "await"@ {
        Tok::Plain(Token::Await)
    } else if w == "true"@ {
        Tok::BoolLit(true)
    } else if w == "false"@ {
        Tok::BoolLit(false)
    } else if w == "null"@ || w == "None"@ {
        Tok::Plain(Token::Null)
    } else {
        Tok::Ident(w)
    }
}

/// A one- or two-character operator at `i`: the first character, and the
/// token when `=` follows or not.
pub open spec fn with_eq(cs: Seq<char>, i: int, one: Token, two: Token) -> (Tok, int) {
    if i + 1 < cs.len() && cs[i + 1] == '=' {
        (Tok::Plain(two), i + 2)
    } else {
        (Tok::Plain(one), i + 1)
    }
}

/// The token starting at `i` (not whitespace) and where it ends, or the
/// error message.
pub open spec fn token_at(cs: Seq<char>, i: int) -> Result<(Tok, int), Seq<char>> {
    let c = cs[i];
    if c == '(' {
        Ok((Tok::Plain(Token::LParen), i + 1))
    } else if c == ')' {
        Ok((Tok::Plain(Token::RParen), i + 1))
    } else if c == '[' {
        Ok((Tok::Plain(Token::LBracket), i + 1))
    } else if c == ']' {
        Ok((Tok::Plain(Token::RBracket), i + 1))
    } else if c == '{' {
        Ok((Tok::Plain(Token::LBrace), i + 1))
    } else if c == '}' {
        Ok((Tok::Plain(Token::RBrace), i + 1))
    } else if c == ',' {
        Ok((Tok::Plain(Token::Comma), i + 1))
    } else if c == ';' {
        Ok((Tok::Plain(Token::Semicolon), i + 1))
    } else if c == '.' {
        Ok((Tok::Plain(Token::Dot), i + 1))
    } else if c == '%' {
        Ok((Tok::Plain(Token::Percent), i + 1))
    } else if c == '+' {
        Ok(with_eq(cs, i, Token::Plus, Token::PlusAssign))
    } else if c == '-' {
        Ok(with_eq(cs, i, Token::Minus, Token::MinusAssign))
    } else if c == '*' {
        Ok(with_eq(cs, i, Token::Star, Token::MulAssign))
    } else if c == '/' {
        Ok(with_eq(cs, i, Token::Slash, Token::DivAssign))
    } else if c == '=' {
        Ok(with_eq(cs, i, Token::Assign, Token::Eq))
    } else if c == '!' {
        Ok(with_eq(cs, i, Token::Not, Token::Ne))
    } else if c == '<' {
        Ok(with_eq(cs, i, Token::Lt, Token::Le))
    } else if c == '>' {
        Ok(with_eq(cs, i, Token::Gt, Token::Ge))
    } else if c == '&' {
        if i + 1 < cs.len() && cs[i + 1] == '&' {
            Ok((Tok::Plain(Token::And), i + 2))
        } else {
            Err("unexpected '&'"@)
        }
    } else if c == '|' {
        if i + 1 < cs.len() && cs[i + 1] == '|' {
            Ok((Tok::Plain(Token::Or), i + 2))
        } else {
            Err("unexpected '|'"@)
        }
    } else if c == '"' || c == '\'' {
        match string_body(cs, i + 1, c) {
            Ok((s, e)) => Ok((Tok::StringLit(s), e)),
            Err(m) => Err(m),
        }
    } else if '0' <= c && c <= '9' {
        let e = number_end(cs, i);
        let text = cs.subrange(i, e);
        if dots(text) <= 1 {
            Ok((Tok::NumberLit(text), e))
        } else {
            Err("invalid number: invalid float literal"@)
        }
    } else if is_alnum(c) || c == '_' {
        let e = word_end(cs, i);
        Ok((word_token(cs.subrange(i, e)), e))
    } else {
        Err("unexpected char: '"@ + seq![c] + "'"@)
    }
}

pub proof fn lemma_string_body(cs: Seq<char>, i: int, quote: char)
    requires
        0 <= i,
    ensures
        string_body(cs, i, quote) matches Ok((_, e)) ==> i < e <= cs.len(),
    decreases cs.len() - i,
{
    if 0 <= i < cs.len() && cs[i] != quote {
        if cs[i] == '\\' {
            let next = if i + 1 >= cs.len() { i + 1 } else { i + 2 };
            lemma_string_body(cs, next, quote);
        } else {
            lemma_string_body(cs, i + 1, quote);
        }
    }
}

pub proof fn lemma_token_at(cs: Seq<char>, i: int)
    requires
        0 <= i < cs.len(),
    ensures
        token_at(cs, i) matches Ok((_, e)) ==> i < e <= cs.len(),
{
    lemma_string_body(cs, i + 1, cs[i]);
    lemma_runs(cs, i);
    lemma_runs(cs, i + 1);
}

/// The tokens of `cs` from `i` on, ending with `Eof`, or the message of the
/// first error.
pub open spec fn lex_from(cs: Seq<char>, i: int) -> Result<Seq<Tok>, Seq<char>>
    decreases cs.len() - i,
{
    let j = skip_space(cs, i);
    if i < 0 || j < i || j >= cs.len() {
        Ok(seq![Tok::Plain(Token::Eof)])
    } else {
        match token_at(cs, j) {
            Err(m) => Err(m),
            Ok((t, e)) => if e <= j || e > cs.len() {
                Ok(seq![Tok::Plain(Token::Eof)])
            } else {
                match lex_from(cs, e) {
                    Ok(ts) => Ok(seq![t] + ts),
                    Err(m) => Err(m),
                }
            },
        }
    }
}

/// Lexing that succeeds ends with `Eof`, and `Eof` nowhere else.
pub proof fn law_tokens_end_with_eof(cs: Seq<char>, i: int)
    ensures
        lex_from(cs, i) matches Ok(ts) ==> ts.len() >= 1 && ts.last() == Tok::Plain(Token::Eof) && forall|k: int|
            0 <= k < ts.len() - 1 ==> ts[k] != Tok::Plain(Token::Eof),
    decreases cs.len() - i,
{
    let j = skip_space(cs, i);
    if !(i < 0 || j < i || j >= cs.len()) {
        if let Ok((t, e)) = token_at(cs, j) {
            if !(e <= j || e > cs.len()) {
                law_tokens_end_with_eof(cs, e);
                if let Ok(ts) = lex_from(cs, e) {
                    let all = seq![t] + ts;
                    assert(t != Tok::Plain(Token::Eof)) by {
                        lemma_token_not_eof(cs, j);
                    }
                    assert forall|k: int| 0 <= k < all.len() - 1 implies all[k] != Tok::Plain(Token::Eof) by {
                        if k > 0 {
                            assert(all[k] == ts[k - 1]);
                        }
                    }
                    assert(all.last() == ts.last());
                }
            }
        }
    }
}

/// No character lexes as `Eof`.
pub proof fn lemma_token_not_eof(cs: Seq<char>, j: int)
    requires
        0 <= j < cs.len(),
    ensures
        token_at(cs, j) matches Ok((t, _)) ==> t != Tok::Plain(Token::Eof),
{
    let c = cs[j];
    if is_alnum(c) || c == '_' {
        let w = cs.subrange(j, word_end(cs, j));
        assert(word_token(w) != Tok::Plain(Token::Eof));
    }
}

/// `ts` put before the tokens of a result.
pub open spec fn prepend(ts: Seq<Tok>, r: Result<Seq<Tok>, Seq<char>>) -> Result<Seq<Tok>, Seq<char>> {
    match r {
        Ok(rest) => Ok(ts + rest),
        Err(m) => Err(m),
    }
}

fn skip_space_exec(cs: &Vec<char>, i: usize) -> (r: usize)
    requires
        i <= cs@.len(),
    ensures
        r == skip_space(cs@, i as int),
        i <= r <= cs@.len(),
{
    let mut j = i;
    proof {
        lemma_skip_space(cs@, i as int);
    }
    while j < cs.len()
        invariant
            i <= j <= cs@.len(),
            skip_space(cs@, j as int) == skip_space(cs@, i as int),
        decreases cs@.len() - j,
    {
        let c = cs[j];
        if char_is_ws(c) {
            j += 1;
        } else if c == '/' && j + 1 < cs.len() && cs[j + 1] == '/' {
            let mut k = j + 2;
            proof {
                lemma_end_of_comment(cs@, k as int);
            }
            while k < cs.len() && cs[k] != '\n'
                invariant
                    j + 2 <= k <= cs@.len(),
                    end_of_comment(cs@, k as int) == end_of_comment(cs@, j + 2),
                decreases cs@.len() - k,
            {
                k += 1;
            }
            if k < cs.len() {
                k += 1;
            }
            j = k;
        } else {
            return j;
        }
    }
    j
}

#[verifier::spinoff_prover]
fn string_exec(cs: &Vec<char>, i: usize, quote: char) -> (r: Result<(String, usize), String>)
    requires
        i <= cs@.len(),
    ensures
        match string_body(cs@, i as int, quote) {
            Ok((s, e)) => r matches Ok((t, f)) && t@ == s && f == e,
            Err(m) => r matches Err(t) && t@ == m,
        },
{
    let mut out = String::new();
    let mut j = i;
    while j < cs.len()
        invariant
            i <= j <= cs@.len(),
            string_body(cs@, i as int, quote) == match string_body(cs@, j as int, quote) {
                Ok((s, e)) => Ok((out@ + s, e)),
                Err(m) => Err(m),
            },
        decreases cs@.len() - j,
    {
        let c = cs[j];
        if c == quote {
            proof {
                assert(out@ + Seq::<char>::empty() =~= out@);
            }
            return Ok((out, j + 1));
        }
        let ghost before = out@;
        let ghost j0 = j;
        if c == '\\' {
            if j + 1 >= cs.len() {
                push_char(&mut out, '\\');
                j += 1;
            } else {
                let d = cs[j + 1];
                if d == 'n' {
                    push_char(&mut out, '\n');
                } else if d == 't' {
                    push_char(&mut out, '\t');
                } else if d == '\\' {
                    push_char(&mut out, '\\');
                } else if d == quote {
                    push_char(&mut out, quote);
                } else {
                    push_char(&mut out, '\\');
                }
                j += 2;
            }
        } else {
            push_char(&mut out, c);
            j += 1;
        }
        proof {
            assert(string_body(cs@, j0 as int, quote) == match string_body(cs@, j as int, quote) {
                Ok((s, e)) => Ok((seq![out@.last()] + s, e)),
                Err(m) => Err(m),
            });
            assert forall|s: Seq<char>| #[trigger] (before + (seq![out@.last()] + s)) == out@ + s by {
                assert(out@ =~= before.push(out@.last()));
                assert(before + (seq![out@.last()] + s) =~= out@ + s);
            }
        }
    }
    Err(string_from("unterminated string"))
}

fn count_dots(cs: &Vec<char>, lo: usize, hi: usize) -> (r: usize)
    requires
        lo <= hi <= cs@.len(),
    ensures
        r == dots(cs@.subrange(lo as int, hi as int)),
{
    let mut n: usize = 0;
    let mut k = lo;
    while k < hi
        invariant
            lo <= k <= hi <= cs@.len(),
            n == dots(cs@.subrange(lo as int, k as int)),
            n <= k - lo,
        decreases hi - k,
    {
        proof {
            assert(cs@.subrange(lo as int, k + 1).drop_last() =~= cs@.subrange(lo as int, k as int));
        }
        if cs[k] == '.' {
            n += 1;
        }
        k += 1;
    }
    n
}

fn word_token_exec(cs: &Vec<char>, lo: usize, hi: usize) -> (r: Token)
    requires
        lo <= hi <= cs@.len(),
    ensures
        tok(r) == word_token(cs@.subrange(lo as int, hi as int)),
{
    let w = crate::text::slice_of(cs, lo, hi);
    proof {
        reveal_strlit("if");
        reveal_strlit("else");
        reveal_strlit("for");
        reveal_strlit("in");
        reveal_strlit("let");
        reveal_strlit("return");
        reveal_strlit("await");
        reveal_strlit("true");
        reveal_strlit("false");
        reveal_strlit("null");
        reveal_strlit("None");
    }
    if crate::text::eq_lit(&w, "if") {
        Token::If
    } else if crate::text::eq_lit(&w, "else") {
        Token::Else
    } else if crate::text::eq_lit(&w, "for") {
        Token::For
    } else if crate::text::eq_lit(&w, "in") {
        Token::In
    } else if crate::text::eq_lit(&w, "let") {
        Token::Let
    } else if crate::text::eq_lit(&w, "return") {
        Token::Return
    } else if crate::text::eq_lit(&w, "await") {
        Token::Await
    } else if crate::text::eq_lit(&w, "true") {
        Token::BoolLit(true)
    } else if crate::text::eq_lit(&w, "false") {
        Token::BoolLit(false)
    } else if crate::text::eq_lit(&w, "null") || crate::text::eq_lit(&w, "None") {
        Token::Null
    } else {
        Token::Ident(crate::text::string_of(cs, lo, hi))
    }
}

fn with_eq_exec(cs: &Vec<char>, i: usize, one: Token, two: Token) -> (r: (Token, usize))
    requires
        i < cs@.len(),
        tok(one) == Tok::Plain(one),
        tok(two) == Tok::Plain(two),
    ensures
        (tok(r.0), r.1 as int) == with_eq(cs@, i as int, one, two),
{
    let n = cs.len();
    if i + 1 < cs.len() && cs[i + 1] == '=' {
        (two, i + 2)
    } else {
        (one, i + 1)
    }
}

fn token_exec(cs: &Vec<char>, i: usize) -> (r: Result<(Token, usize), String>)
    requires
        i < cs@.len(),
    ensures
        match token_at(cs@, i as int) {
            Ok((t, e)) => r matches Ok((u, f)) && tok(u) == t && f == e,
            Err(m) => r matches Err(s) && s@ == m,
        },
{
    proof {
        lemma_token_at(cs@, i as int);
    }
    let n = cs.len();
    let c = cs[i];
    if c == '(' {
        Ok((Token::LParen, i + 1))
    } else if c == ')' {
        Ok((Token::RParen, i + 1))
    } else if c == '[' {
        Ok((Token::LBracket, i + 1))
    } else if c == ']' {
        Ok((Token::RBracket, i + 1))
    } else if c == '{' {
        Ok((Token::LBrace, i + 1))
    } else if c == '}' {
        Ok((Token::RBrace, i + 1))
    } else if c == ',' {
        Ok((Token::Comma, i + 1))
    } else if c == ';' {
        Ok((Token::Semicolon, i + 1))
    } else if c == '.' {
        Ok((Token::Dot, i + 1))
    } else if c == '%' {
        Ok((Token::Percent, i + 1))
    } else if c == '+' {
        Ok(with_eq_exec(cs, i, Token::Plus, Token::PlusAssign))
    } else if c == '-' {
        Ok(with_eq_exec(cs, i, Token::Minus, Token::MinusAssign))
    } else if c == '*' {
        Ok(with_eq_exec(cs, i, Token::Star, Token::MulAssign))
    } else if c == '/' {
        Ok(with_eq_exec(cs, i, Token::Slash, Token::DivAssign))
    } else if c == '=' {
        Ok(with_eq_exec(cs, i, Token::Assign, Token::Eq))
    } else if c == '!' {
        Ok(with_eq_exec(cs, i, Token::Not, Token::Ne))
    } else if c == '<' {
        Ok(with_eq_exec(cs, i, Token::Lt, Token::Le))
    } else if c == '>' {
        Ok(with_eq_exec(cs, i, Token::Gt, Token::Ge))
    } else if c == '&' {
        if i + 1 < cs.len() && cs[i + 1] == '&' {
            Ok((Token::And, i + 2))
        } else {
            Err(string_from("unexpected '&'"))
        }
    } else if c == '|' {
        if i + 1 < cs.len() && cs[i + 1] == '|' {
            Ok((Token::Or, i + 2))
        } else {
            Err(string_from("unexpected '|'"))
        }
    } else if c == '"' || c == '\'' {
        match string_exec(cs, i + 1, c) {
            Ok((s, e)) => Ok((Token::StringLit(s), e)),
            Err(m) => Err(m),
        }
    } else if '0' <= c && c <= '9' {
        let mut e = i;
        while e < cs.len() && (('0' <= cs[e] && cs[e] <= '9') || cs[e] == '.')
            invariant
                i <= e <= cs@.len(),
                number_end(cs@, e as int) == number_end(cs@, i as int),
            decreases cs@.len() - e,
        {
            e += 1;
        }
        if count_dots(cs, i, e) <= 1 {
            Ok((Token::NumberLit(crate::text::string_of(cs, i, e)), e))
        } else {
            Err(string_from("invalid number: invalid float literal"))
        }
    } else if char_is_alnum(c) || c == '_' {
        let mut e = i;
        while e < cs.len() && (char_is_alnum(cs[e]) || cs[e] == '_')
            invariant
                i <= e <= cs@.len(),
                word_end(cs@, e as int) == word_end(cs@, i as int),
            decreases cs@.len() - e,
        {
            e += 1;
        }
        Ok((word_token_exec(cs, i, e), e))
    } else {
        let mut m = string_from("unexpected char: '");
        push_char(&mut m, c);
        crate::text::append_str(&mut m, "'");
        Err(m)
    }
}

/// The tokens of `input`, ending with `Eof`, or `Internal` with the message
/// of the first error (`lex_from`).
pub fn tokenize(input: &str) -> (r: Result<Vec<Token>, RuntimeError>)
    ensures
        match lex_from(input@, 0) {
            Ok(ts) => r matches Ok(v) && toks(v@) == ts,
            Err(m) => r matches Err(RuntimeError::Internal(s)) && s@ == m,
        },
{
    let cs = chars_of(input);
    let mut out: Vec<Token> = Vec::new();
    let mut pos: usize = 0;
    loop
        invariant
            cs@ == input@,
            pos <= cs@.len(),
            lex_from(cs@, 0) == prepend(toks(out@), lex_from(cs@, pos as int)),
        decreases cs@.len() - pos,
    {
        let j = skip_space_exec(&cs, pos);
        if j >= cs.len() {
            let ghost before = out@;
            out.push(Token::Eof);
            proof {
                assert(toks(out@) =~= toks(before) + seq![Tok::Plain(Token::Eof)]);
            }
            return Ok(out);
        }
        match token_exec(&cs, j) {
            Err(m) => {
                return Err(RuntimeError::Internal(m));
            },
            Ok((t, e)) => {
                proof {
                    lemma_token_at(cs@, j as int);
                }
                proof {
                    assert(lex_from(cs@, pos as int) == prepend(seq![tok(t)], lex_from(cs@, e as int)));
                }
                let ghost before = out@;
                out.push(t);
                proof {
                    assert(toks(out@) =~= toks(before) + seq![tok(t)]);
                    assert forall|r: Result<Seq<Tok>, Seq<char>>| prepend(toks(before), #[trigger] prepend(seq![tok(t)], r)) == prepend(toks(out@), r) by {
                        match r {
                            Ok(rest) => {
                                assert(toks(before) + (seq![tok(t)] + rest) =~= toks(out@) + rest);
                            },
                            Err(_) => {},
                        }
                    }
                }
                pos = e;
            },
        }
    }
}

} // verus!
