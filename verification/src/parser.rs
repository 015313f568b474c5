//! Syntactic analysis: recursive descent over the token sequence with one
//! token of lookahead and no backtracking. Precedence, low to high:
//! comparison, additive, multiplicative, primary. Assignment and calls are
//! recognized at primary position after a bare identifier. Any mismatch
//! between the expected and the actual token fails the whole parse.
use vstd::prelude::*;
use crate::ast::{BinOp, Expr, Stmt, Program, ExprV, StmtV, expr_view, exprs_view, stmt_view, stmts_view, strings_view, program_view};
use crate::lexer::{Token, TokenV, tokens_view};
use crate::num::Num;

verus! {

/// A syntax fault.
pub enum ParseError {
    /// A specific token was required; the pair holds it and what stood there.
    Expected(Token, Token),
    ExpectedIdent,
    ExpectedFuncName,
    Unexpected(Token),
}

/// Mathematical image of a syntax fault.
pub enum PErrV {
    Expected(TokenV, TokenV),
    ExpectedIdent,
    ExpectedFuncName,
    Unexpected(TokenV),
}

impl View for ParseError {
    type V = PErrV;

    open spec fn view(&self) -> PErrV {
        match self {
            ParseError::Expected(w, g) => PErrV::Expected(w@, g@),
            ParseError::ExpectedIdent => PErrV::ExpectedIdent,
            ParseError::ExpectedFuncName => PErrV::ExpectedFuncName,
            ParseError::Unexpected(t) => PErrV::Unexpected(t@),
        }
    }
}

/// The token at position `p`; past the end it reads as end-of-input.
pub open spec fn cur(t: Seq<TokenV>, p: int) -> TokenV {
    if 0 <= p < t.len() {
        t[p]
    } else {
        TokenV::Eof
    }
}

/// The continuation position after a sub-parse: the reported position where
/// it moved forward and stayed in bounds, the next position otherwise. Every
/// sub-parse moves forward, so the fallback never describes a real parse; it
/// keeps the descent well founded.
pub open spec fn bump(from: int, to: int, len: int) -> int {
    if from < to <= len {
        to
    } else if from + 1 <= len {
        from + 1
    } else {
        len
    }
}

/// Requiring token `want` at `p`: the position after it, or the fault naming
/// the expected and actual pair.
pub open spec fn sp_expect(t: Seq<TokenV>, p: int, want: TokenV) -> Result<int, PErrV> {
    if cur(t, p) == want {
        Ok(p + 1)
    } else {
        Err(PErrV::Expected(want, cur(t, p)))
    }
}

pub open spec fn sp_expression(t: Seq<TokenV>, p: int) -> Result<(ExprV, int), PErrV>
    decreases t.len() + 1 - p, 6int,
{
    sp_comparison(t, p)
}

pub open spec fn sp_comparison(t: Seq<TokenV>, p: int) -> Result<(ExprV, int), PErrV>
    decreases t.len() + 1 - p, 5int,
{
    if p > t.len() {
        Err(PErrV::Unexpected(TokenV::Eof))
    } else {
        match sp_term(t, p) {
            Err(e) => Err(e),
            Ok((left, p1)) => sp_comparison_more(t, left, bump(p, p1, t.len() as int)),
        }
    }
}

pub open spec fn comparison_op(tok: TokenV) -> Option<BinOp> {
    match tok {
        TokenV::Eq => Some(BinOp::Eq),
        TokenV::Ne => Some(BinOp::Ne),
        TokenV::Gt => Some(BinOp::Gt),
        TokenV::Lt => Some(BinOp::Lt),
        TokenV::Ge => Some(BinOp::Ge),
        TokenV::Le => Some(BinOp::Le),
        _ => None,
    }
}

pub open spec fn sp_comparison_more(t: Seq<TokenV>, left: ExprV, p: int) -> Result<
    (ExprV, int),
    PErrV,
>
    decreases t.len() + 1 - p, 4int,
{
    match comparison_op(cur(t, p)) {
        None => Ok((left, p)),
        Some(op) => match sp_term(t, p + 1) {
            Err(e) => Err(e),
            Ok((right, p1)) => sp_comparison_more(
                t,
                ExprV::Bin { op, left: Box::new(left), right: Box::new(right) },
                bump(p, p1, t.len() as int),
            ),
        },
    }
}

pub open spec fn sp_term(t: Seq<TokenV>, p: int) -> Result<(ExprV, int), PErrV>
    decreases t.len() + 1 - p, 3int,
{
    if p > t.len() {
        Err(PErrV::Unexpected(TokenV::Eof))
    } else {
        match sp_factor(t, p) {
            Err(e) => Err(e),
            Ok((left, p1)) => sp_term_more(t, left, bump(p, p1, t.len() as int)),
        }
    }
}

pub open spec fn term_op(tok: TokenV) -> Option<BinOp> {
    match tok {
        TokenV::Plus => Some(BinOp::Add),
        TokenV::Minus => Some(BinOp::Sub),
        _ => None,
    }
}

pub open spec fn sp_term_more(t: Seq<TokenV>, left: ExprV, p: int) -> Result<(ExprV, int), PErrV>
    decreases t.len() + 1 - p, 2int,
{
    match term_op(cur(t, p)) {
        None => Ok((left, p)),
        Some(op) => match sp_factor(t, p + 1) {
            Err(e) => Err(e),
            Ok((right, p1)) => sp_term_more(
                t,
                ExprV::Bin { op, left: Box::new(left), right: Box::new(right) },
                bump(p, p1, t.len() as int),
            ),
        },
    }
}

pub open spec fn sp_factor(t: Seq<TokenV>, p: int) -> Result<(ExprV, int), PErrV>
    decreases t.len() + 1 - p, 1int,
{
    if p > t.len() {
        Err(PErrV::Unexpected(TokenV::Eof))
    } else {
        match sp_primary(t, p) {
            Err(e) => Err(e),
            Ok((left, p1)) => sp_factor_more(t, left, bump(p, p1, t.len() as int)),
        }
    }
}

pub open spec fn factor_op(tok: TokenV) -> Option<BinOp> {
    match tok {
        TokenV::Star => Some(BinOp::Mul),
        TokenV::Slash => Some(BinOp::Div),
        _ => None,
    }
}

pub open spec fn sp_factor_more(t: Seq<TokenV>, left: ExprV, p: int) -> Result<
    (ExprV, int),
    PErrV,
>
    decreases t.len() + 1 - p, 0int,
{
    match factor_op(cur(t, p)) {
        None => Ok((left, p)),
        Some(op) => match sp_primary(t, p + 1) {
            Err(e) => Err(e),
            Ok((right, p1)) => sp_factor_more(
                t,
                ExprV::Bin { op, left: Box::new(left), right: Box::new(right) },
                bump(p, p1, t.len() as int),
            ),
        },
    }
}

pub open spec fn sp_primary(t: Seq<TokenV>, p: int) -> Result<(ExprV, int), PErrV>
    decreases t.len() + 1 - p, 0int,
{
    match cur(t, p) {
        TokenV::Number(n) => Ok((ExprV::Number(n), p + 1)),
        TokenV::StrLit(s) => Ok((ExprV::StrLit(s), p + 1)),
        TokenV::True => Ok((ExprV::Bool(true), p + 1)),
        TokenV::False => Ok((ExprV::Bool(false), p + 1)),
        TokenV::Ident(name) => {
            if cur(t, p + 1) is LParen {
                match sp_args(t, p + 2) {
                    Err(e) => Err(e),
                    Ok((args, pa)) => match sp_expect(t, pa, TokenV::RParen) {
                        Err(e) => Err(e),
                        Ok(pb) => Ok((ExprV::Call { name, args }, pb)),
                    },
                }
            } else if cur(t, p + 1) is Assign {
                match sp_expression(t, p + 2) {
                    Err(e) => Err(e),
                    Ok((value, pv)) => Ok(
                        (ExprV::Assign { name, value: Box::new(value) }, pv),
                    ),
                }
            } else {
                Ok((ExprV::Ident(name), p + 1))
            }
        },
        TokenV::LParen => match sp_expression(t, p + 1) {
            Err(e) => Err(e),
            Ok((e, p1)) => match sp_expect(t, p1, TokenV::RParen) {
                Err(x) => Err(x),
                Ok(p2) => Ok((e, p2)),
            },
        },
        tok => Err(PErrV::Unexpected(tok)),
    }
}

/// Comma separated arguments up to the closing parenthesis, which is left in
/// place. A missing comma does not end the list: the next argument follows at
/// once, as the descent has it.
pub open spec fn sp_args(t: Seq<TokenV>, p: int) -> Result<(Seq<ExprV>, int), PErrV>
    decreases t.len() + 1 - p, 7int,
{
    if cur(t, p) is RParen {
        Ok((Seq::empty(), p))
    } else if p >= t.len() {
        Err(PErrV::Unexpected(TokenV::Eof))
    } else {
        match sp_expression(t, p) {
            Err(e) => Err(e),
            Ok((e, p1)) => {
                let p2 = if cur(t, p1) is Comma {
                    p1 + 1
                } else {
                    p1
                };
                match sp_args(t, bump(p, p2, t.len() as int)) {
                    Err(x) => Err(x),
                    Ok((rest, p3)) => Ok((seq![e] + rest, p3)),
                }
            },
        }
    }
}

/// Parameter names up to the first token that is not an identifier.
pub open spec fn sp_params(t: Seq<TokenV>, p: int) -> (Seq<Seq<char>>, int)
    decreases t.len() + 1 - p,
{
    if 0 <= p < t.len() {
        match cur(t, p) {
            TokenV::Ident(name) => {
                let p2 = if cur(t, p + 1) is Comma {
                    p + 2
                } else {
                    p + 1
                };
                let (rest, p3) = sp_params(t, p2);
                (seq![name] + rest, p3)
            },
            _ => (Seq::empty(), p),
        }
    } else {
        (Seq::empty(), p)
    }
}

pub open spec fn sp_statement(t: Seq<TokenV>, p: int) -> Result<(StmtV, int), PErrV>
    decreases t.len() + 1 - p, 11int,
{
    match cur(t, p) {
        TokenV::Let => sp_let(t, p),
        TokenV::If => sp_if(t, p),
        TokenV::While => sp_while(t, p),
        TokenV::Func => sp_func(t, p),
        TokenV::Return => sp_return(t, p),
        _ => match sp_expression(t, p) {
            Err(e) => Err(e),
            Ok((e, p1)) => match sp_expect(t, p1, TokenV::Semicolon) {
                Err(x) => Err(x),
                Ok(p2) => Ok((StmtV::Expr(e), p2)),
            },
        },
    }
}

pub open spec fn sp_let(t: Seq<TokenV>, p: int) -> Result<(StmtV, int), PErrV>
    decreases t.len() + 1 - p, 9int,
{
    match cur(t, p + 1) {
        TokenV::Ident(name) => match sp_expect(t, p + 2, TokenV::Assign) {
            Err(e) => Err(e),
            Ok(p3) => match sp_expression(t, p3) {
                Err(e) => Err(e),
                Ok((init, p4)) => match sp_expect(t, p4, TokenV::Semicolon) {
                    Err(e) => Err(e),
                    Ok(p5) => Ok((StmtV::Let { name, init }, p5)),
                },
            },
        },
        _ => Err(PErrV::ExpectedIdent),
    }
}

pub open spec fn sp_return(t: Seq<TokenV>, p: int) -> Result<(StmtV, int), PErrV>
    decreases t.len() + 1 - p, 9int,
{
    match sp_expression(t, p + 1) {
        Err(e) => Err(e),
        Ok((e, p1)) => match sp_expect(t, p1, TokenV::Semicolon) {
            Err(x) => Err(x),
            Ok(p2) => Ok((StmtV::Return(e), p2)),
        },
    }
}

/// Statements of a brace block, up to the closing brace, which is left in
/// place.
pub open spec fn sp_block(t: Seq<TokenV>, p: int) -> Result<(Seq<StmtV>, int), PErrV>
    decreases t.len() + 1 - p, 12int,
{
    if cur(t, p) is RBrace {
        Ok((Seq::empty(), p))
    } else if p >= t.len() {
        Err(PErrV::Unexpected(TokenV::Eof))
    } else {
        match sp_statement(t, p) {
            Err(e) => Err(e),
            Ok((s, p1)) => match sp_block(t, bump(p, p1, t.len() as int)) {
                Err(x) => Err(x),
                Ok((rest, p2)) => Ok((seq![s] + rest, p2)),
            },
        }
    }
}

/// The head and body shared by the branching and loop statements: a
/// parenthesized condition and a brace block, the keyword already seen.
pub open spec fn sp_guarded_block(t: Seq<TokenV>, p: int) -> Result<
    ((ExprV, Seq<StmtV>), int),
    PErrV,
>
    decreases t.len() + 1 - p, 8int,
{
    match sp_expect(t, p + 1, TokenV::LParen) {
        Err(e) => Err(e),
        Ok(p1) => match sp_expression(t, p1) {
            Err(e) => Err(e),
            Ok((cond, p2)) => match sp_expect(t, p2, TokenV::RParen) {
                Err(e) => Err(e),
                Ok(p3) => match sp_expect(t, p3, TokenV::LBrace) {
                    Err(e) => Err(e),
                    Ok(p4) => match sp_block(t, bump(p, p4, t.len() as int)) {
                        Err(e) => Err(e),
                        Ok((ss, p5)) => match sp_expect(t, p5, TokenV::RBrace) {
                            Err(e) => Err(e),
                            Ok(p6) => Ok(((cond, ss), p6)),
                        },
                    },
                },
            },
        },
    }
}

/// The alternative branch: its brace block, the `else` keyword already seen
/// at `p`.
pub open spec fn sp_else_block(t: Seq<TokenV>, p: int) -> Result<(Seq<StmtV>, int), PErrV>
    decreases t.len() + 1 - p, 8int,
{
    match sp_expect(t, p + 1, TokenV::LBrace) {
        Err(e) => Err(e),
        Ok(p1) => match sp_block(t, bump(p, p1, t.len() as int)) {
            Err(e) => Err(e),
            Ok((ss, p2)) => match sp_expect(t, p2, TokenV::RBrace) {
                Err(e) => Err(e),
                Ok(p3) => Ok((ss, p3)),
            },
        },
    }
}

pub open spec fn sp_if(t: Seq<TokenV>, p: int) -> Result<(StmtV, int), PErrV>
    decreases t.len() + 1 - p, 10int,
{
    if p > t.len() {
        Err(PErrV::Unexpected(TokenV::Eof))
    } else {
        match sp_guarded_block(t, p) {
        Err(e) => Err(e),
        Ok(((cond, then_branch), p6)) => {
            if cur(t, p6) is Else {
                match sp_else_block(t, bump(p, p6, t.len() as int)) {
                    Err(e) => Err(e),
                    Ok((else_branch, p9)) => Ok(
                        (StmtV::If { cond, then_branch, else_branch: Some(else_branch) }, p9),
                    ),
                }
            } else {
                Ok((StmtV::If { cond, then_branch, else_branch: None }, p6))
            }
        },
        }
    }
}

pub open spec fn sp_while(t: Seq<TokenV>, p: int) -> Result<(StmtV, int), PErrV>
    decreases t.len() + 1 - p, 10int,
{
    match sp_guarded_block(t, p) {
        Err(e) => Err(e),
        Ok(((cond, body), p6)) => Ok((StmtV::While { cond, body }, p6)),
    }
}

/// The parameter list's closing parenthesis and the body block of a function
/// declaration; `p` is the keyword's position and `q` where the parameter
/// names ended.
pub open spec fn sp_func_body(t: Seq<TokenV>, p: int, q: int) -> Result<(Seq<StmtV>, int), PErrV>
    decreases t.len() + 1 - p, 8int,
{
    match sp_expect(t, bump(p, q, t.len() as int), TokenV::RParen) {
        Err(e) => Err(e),
        Ok(p3) => match sp_expect(t, p3, TokenV::LBrace) {
            Err(e) => Err(e),
            Ok(p4) => match sp_block(t, bump(p, p4, t.len() as int)) {
                Err(e) => Err(e),
                Ok((body, p5)) => match sp_expect(t, p5, TokenV::RBrace) {
                    Err(e) => Err(e),
                    Ok(p6) => Ok((body, p6)),
                },
            },
        },
    }
}

pub open spec fn sp_func(t: Seq<TokenV>, p: int) -> Result<(StmtV, int), PErrV>
    decreases t.len() + 1 - p, 10int,
{
    match cur(t, p + 1) {
        TokenV::Ident(name) => match sp_expect(t, p + 2, TokenV::LParen) {
            Err(e) => Err(e),
            Ok(p1) => {
                let (params, p2) = sp_params(t, p1);
                match sp_func_body(t, p, p2) {
                    Err(e) => Err(e),
                    Ok((body, p6)) => Ok((StmtV::FuncDecl { name, params, body }, p6)),
                }
            },
        },
        _ => Err(PErrV::ExpectedFuncName),
    }
}

/// Top-level statements up to the end-of-input token.
pub open spec fn sp_program(t: Seq<TokenV>, p: int) -> Result<(Seq<StmtV>, int), PErrV>
    decreases t.len() + 1 - p, 13int,
{
    if cur(t, p) is Eof {
        Ok((Seq::empty(), p))
    } else {
        match sp_statement(t, p) {
            Err(e) => Err(e),
            Ok((s, p1)) => match sp_program(t, bump(p, p1, t.len() as int)) {
                Err(x) => Err(x),
                Ok((rest, p2)) => Ok((seq![s] + rest, p2)),
            },
        }
    }
}

/// The whole parse: the program's statements, or the first syntax fault.
pub open spec fn spec_parse(t: Seq<TokenV>) -> Result<Seq<StmtV>, PErrV> {
    match sp_program(t, 0) {
        Ok((ss, _)) => Ok(ss),
        Err(e) => Err(e),
    }
}


pub open spec fn cat_args(pre: Seq<ExprV>, r: Result<(Seq<ExprV>, int), PErrV>) -> Result<
    (Seq<ExprV>, int),
    PErrV,
> {
    match r {
        Err(e) => Err(e),
        Ok((rest, p)) => Ok((pre + rest, p)),
    }
}

pub open spec fn cat_stmts(pre: Seq<StmtV>, r: Result<(Seq<StmtV>, int), PErrV>) -> Result<
    (Seq<StmtV>, int),
    PErrV,
> {
    match r {
        Err(e) => Err(e),
        Ok((rest, p)) => Ok((pre + rest, p)),
    }
}

impl Clone for Token {
    /// A copy with the same image.
    fn clone(&self) -> (r: Token)
        ensures
            r@ == self@,
    {
        match self {
            Token::Let => Token::Let,
            Token::Func => Token::Func,
            Token::If => Token::If,
            Token::Else => Token::Else,
            Token::While => Token::While,
            Token::Return => Token::Return,
            Token::True => Token::True,
            Token::False => Token::False,
            Token::Ident(s) => Token::Ident(s.clone()),
            Token::Number(n) => Token::Number(*n),
            Token::StrLit(s) => Token::StrLit(s.clone()),
            Token::Plus => Token::Plus,
            Token::Minus => Token::Minus,
            Token::Star => Token::Star,
            Token::Slash => Token::Slash,
            Token::Assign => Token::Assign,
            Token::Eq => Token::Eq,
            Token::Ne => Token::Ne,
            Token::Gt => Token::Gt,
            Token::Lt => Token::Lt,
            Token::Ge => Token::Ge,
            Token::Le => Token::Le,
            Token::LParen => Token::LParen,
            Token::RParen => Token::RParen,
            Token::LBrace => Token::LBrace,
            Token::RBrace => Token::RBrace,
            Token::Comma => Token::Comma,
            Token::Semicolon => Token::Semicolon,
            Token::Eof => Token::Eof,
        }
    }
}

fn token_eq(a: &Token, b: &Token) -> (r: bool)
    ensures
        r == (a@ == b@),
{
    match (a, b) {
        (Token::Let, Token::Let) => true,
        (Token::Func, Token::Func) => true,
        (Token::If, Token::If) => true,
        (Token::Else, Token::Else) => true,
        (Token::While, Token::While) => true,
        (Token::Return, Token::Return) => true,
        (Token::True, Token::True) => true,
        (Token::False, Token::False) => true,
        (Token::Ident(x), Token::Ident(y)) => *x == *y,
        (Token::Number(x), Token::Number(y)) => x.eq_val(*y),
        (Token::StrLit(x), Token::StrLit(y)) => *x == *y,
        (Token::Plus, Token::Plus) => true,
        (Token::Minus, Token::Minus) => true,
        (Token::Star, Token::Star) => true,
        (Token::Slash, Token::Slash) => true,
        (Token::Assign, Token::Assign) => true,
        (Token::Eq, Token::Eq) => true,
        (Token::Ne, Token::Ne) => true,
        (Token::Gt, Token::Gt) => true,
        (Token::Lt, Token::Lt) => true,
        (Token::Ge, Token::Ge) => true,
        (Token::Le, Token::Le) => true,
        (Token::LParen, Token::LParen) => true,
        (Token::RParen, Token::RParen) => true,
        (Token::LBrace, Token::LBrace) => true,
        (Token::RBrace, Token::RBrace) => true,
        (Token::Comma, Token::Comma) => true,
        (Token::Semicolon, Token::Semicolon) => true,
        (Token::Eof, Token::Eof) => true,
        _ => false,
    }
}

fn comparison_op_of(tok: &Token) -> (r: Option<BinOp>)
    ensures
        r == comparison_op(tok@),
{
    match tok {
        Token::Eq => Some(BinOp::Eq),
        Token::Ne => Some(BinOp::Ne),
        Token::Gt => Some(BinOp::Gt),
        Token::Lt => Some(BinOp::Lt),
        Token::Ge => Some(BinOp::Ge),
        Token::Le => Some(BinOp::Le),
        _ => None,
    }
}

fn term_op_of(tok: &Token) -> (r: Option<BinOp>)
    ensures
        r == term_op(tok@),
{
    match tok {
        Token::Plus => Some(BinOp::Add),
        Token::Minus => Some(BinOp::Sub),
        _ => None,
    }
}

fn factor_op_of(tok: &Token) -> (r: Option<BinOp>)
    ensures
        r == factor_op(tok@),
{
    match tok {
        Token::Star => Some(BinOp::Mul),
        Token::Slash => Some(BinOp::Div),
        _ => None,
    }
}

/// The parser: a token cursor over the whole token sequence.
pub struct Parser {
    pub tokens: Vec<Token>,
    pub position: usize,
}

impl Parser {
    pub fn new(tokens: Vec<Token>) -> (r: Self)
        ensures
            r.tokens@ == tokens@,
            r.position == 0,
    {
        Parser { tokens, position: 0 }
    }

    fn current_token(&self) -> (r: &Token)
        ensures
            r@ == cur(tokens_view(self.tokens@), self.position as int),
    {
        if self.position < self.tokens.len() {
            &self.tokens[self.position]
        } else {
            &Token::Eof
        }
    }

    fn advance(&mut self)
        requires
            old(self).position < old(self).tokens@.len(),
        ensures
            final(self).tokens@ == old(self).tokens@,
            final(self).position == old(self).position + 1,
    {
        // The length read bounds the view's length, so the increment fits.
        let n: usize = self.tokens.len();
        self.position = self.position + 1;
    }

    fn expect(&mut self, want: Token) -> (r: Result<(), ParseError>)
        requires
            old(self).position <= old(self).tokens@.len(),
            !(want@ is Eof),
        ensures
            final(self).tokens@ == old(self).tokens@,
            final(self).position <= final(self).tokens@.len(),
            match sp_expect(tokens_view(old(self).tokens@), old(self).position as int, want@) {
                Ok(q) => r is Ok && final(self).position == q,
                Err(e) => r matches Err(x) && x@ == e && final(self).position == old(self).position,
            },
    {
        let same = token_eq(self.current_token(), &want);
        if same {
            self.advance();
            Ok(())
        } else {
            let got = self.current_token().clone();
            Err(ParseError::Expected(want, got))
        }
    }

    fn parse_expression(&mut self) -> (r: Result<Expr, ParseError>)
        requires
            old(self).position <= old(self).tokens@.len(),
        ensures
            final(self).tokens@ == old(self).tokens@,
            final(self).position <= final(self).tokens@.len(),
            match sp_expression(tokens_view(old(self).tokens@), old(self).position as int) {
                Ok((ev, q)) => r matches Ok(e) && expr_view(e) == ev && final(self).position == q
                    && old(self).position < final(self).position,
                Err(pe) => r matches Err(x) && x@ == pe,
            },
        decreases self.tokens@.len() + 1 - self.position, 6int,
    {
        self.parse_comparison()
    }

    fn parse_comparison(&mut self) -> (r: Result<Expr, ParseError>)
        requires
            old(self).position <= old(self).tokens@.len(),
        ensures
            final(self).tokens@ == old(self).tokens@,
            final(self).position <= final(self).tokens@.len(),
            match sp_comparison(tokens_view(old(self).tokens@), old(self).position as int) {
                Ok((ev, q)) => r matches Ok(e) && expr_view(e) == ev && final(self).position == q
                    && old(self).position < final(self).position,
                Err(pe) => r matches Err(x) && x@ == pe,
            },
        decreases self.tokens@.len() + 1 - self.position, 5int,
    {
        let ghost t = tokens_view(self.tokens@);
        let ghost p0 = self.position as int;
        let mut left = match self.parse_term() {
            Ok(e) => e,
            Err(x) => {
                return Err(x);
            },
        };
        loop
            invariant
                self.tokens@ == old(self).tokens@,
                t == tokens_view(self.tokens@),
                p0 == old(self).position as int,
                p0 < self.position <= t.len(),
                sp_comparison(t, p0) == sp_comparison_more(
                    t,
                    expr_view(left),
                    self.position as int,
                ),
            ensures
                self.tokens@ == old(self).tokens@,
                t == tokens_view(self.tokens@),
                p0 < self.position <= t.len(),
                comparison_op(cur(t, self.position as int)) is None,
                sp_comparison(t, p0) == sp_comparison_more(
                    t,
                    expr_view(left),
                    self.position as int,
                ),
            decreases t.len() - self.position,
        {
            let opo = comparison_op_of(self.current_token());
            if let Some(op) = opo {
                let ghost pb = self.position as int;
                self.advance();
                let right = match self.parse_term() {
                    Ok(e) => e,
                    Err(x) => {
                        return Err(x);
                    },
                };
                proof {
                    assert(bump(pb, self.position as int, t.len() as int)
                        == self.position as int);
                }
                left = Expr::Bin { op, left: Box::new(left), right: Box::new(right) };
            } else {
                break;
            }
        }
        Ok(left)
    }

    fn parse_term(&mut self) -> (r: Result<Expr, ParseError>)
        requires
            old(self).position <= old(self).tokens@.len(),
        ensures
            final(self).tokens@ == old(self).tokens@,
            final(self).position <= final(self).tokens@.len(),
            match sp_term(tokens_view(old(self).tokens@), old(self).position as int) {
                Ok((ev, q)) => r matches Ok(e) && expr_view(e) == ev && final(self).position == q
                    && old(self).position < final(self).position,
                Err(pe) => r matches Err(x) && x@ == pe,
            },
        decreases self.tokens@.len() + 1 - self.position, 3int,
    {
        let ghost t = tokens_view(self.tokens@);
        let ghost p0 = self.position as int;
        let mut left = match self.parse_factor() {
            Ok(e) => e,
            Err(x) => {
                return Err(x);
            },
        };
        loop
            invariant
                self.tokens@ == old(self).tokens@,
                t == tokens_view(self.tokens@),
                p0 == old(self).position as int,
                p0 < self.position <= t.len(),
                sp_term(t, p0) == sp_term_more(t, expr_view(left), self.position as int),
            ensures
                self.tokens@ == old(self).tokens@,
                t == tokens_view(self.tokens@),
                p0 < self.position <= t.len(),
                term_op(cur(t, self.position as int)) is None,
                sp_term(t, p0) == sp_term_more(t, expr_view(left), self.position as int),
            decreases t.len() - self.position,
        {
            let opo = term_op_of(self.current_token());
            if let Some(op) = opo {
                let ghost pb = self.position as int;
                self.advance();
                let right = match self.parse_factor() {
                    Ok(e) => e,
                    Err(x) => {
                        return Err(x);
                    },
                };
                proof {
                    assert(bump(pb, self.position as int, t.len() as int)
                        == self.position as int);
                }
                left = Expr::Bin { op, left: Box::new(left), right: Box::new(right) };
            } else {
                break;
            }
        }
        Ok(left)
    }

    fn parse_factor(&mut self) -> (r: Result<Expr, ParseError>)
        requires
            old(self).position <= old(self).tokens@.len(),
        ensures
            final(self).tokens@ == old(self).tokens@,
            final(self).position <= final(self).tokens@.len(),
            match sp_factor(tokens_view(old(self).tokens@), old(self).position as int) {
                Ok((ev, q)) => r matches Ok(e) && expr_view(e) == ev && final(self).position == q
                    && old(self).position < final(self).position,
                Err(pe) => r matches Err(x) && x@ == pe,
            },
        decreases self.tokens@.len() + 1 - self.position, 1int,
    {
        let ghost t = tokens_view(self.tokens@);
        let ghost p0 = self.position as int;
        let mut left = match self.parse_primary() {
            Ok(e) => e,
            Err(x) => {
                return Err(x);
            },
        };
        loop
            invariant
                self.tokens@ == old(self).tokens@,
                t == tokens_view(self.tokens@),
                p0 == old(self).position as int,
                p0 < self.position <= t.len(),
                sp_factor(t, p0) == sp_factor_more(t, expr_view(left), self.position as int),
            ensures
                self.tokens@ == old(self).tokens@,
                t == tokens_view(self.tokens@),
                p0 < self.position <= t.len(),
                factor_op(cur(t, self.position as int)) is None,
                sp_factor(t, p0) == sp_factor_more(t, expr_view(left), self.position as int),
            decreases t.len() - self.position,
        {
            let opo = factor_op_of(self.current_token());
            if let Some(op) = opo {
                let ghost pb = self.position as int;
                self.advance();
                let right = match self.parse_primary() {
                    Ok(e) => e,
                    Err(x) => {
                        return Err(x);
                    },
                };
                proof {
                    assert(bump(pb, self.position as int, t.len() as int)
                        == self.position as int);
                }
                left = Expr::Bin { op, left: Box::new(left), right: Box::new(right) };
            } else {
                break;
            }
        }
        Ok(left)
    }

    fn parse_primary(&mut self) -> (r: Result<Expr, ParseError>)
        requires
            old(self).position <= old(self).tokens@.len(),
        ensures
            final(self).tokens@ == old(self).tokens@,
            final(self).position <= final(self).tokens@.len(),
            match sp_primary(tokens_view(old(self).tokens@), old(self).position as int) {
                Ok((ev, q)) => r matches Ok(e) && expr_view(e) == ev && final(self).position == q
                    && old(self).position < final(self).position,
                Err(pe) => r matches Err(x) && x@ == pe,
            },
        decreases self.tokens@.len() + 1 - self.position, 0int,
    {
        let ghost t = tokens_view(self.tokens@);
        let ghost p0 = self.position as int;
        if self.position >= self.tokens.len() {
            return Err(ParseError::Unexpected(Token::Eof));
        }
        let kind: u8 = match &self.tokens[self.position] {
            Token::Number(_) => 0,
            Token::StrLit(_) => 1,
            Token::True => 2,
            Token::False => 3,
            Token::Ident(_) => 4,
            Token::LParen => 5,
            _ => 6,
        };
        if kind == 0 {
            let num = match &self.tokens[self.position] {
                Token::Number(n) => *n,
                _ => {
                    proof {
                        assert(false);
                    }
                    Num { neg: false, mag: 0 }
                },
            };
            self.advance();
            return Ok(Expr::Number(num));
        }
        if kind == 1 {
            let sc = match &self.tokens[self.position] {
                Token::StrLit(s) => s.clone(),
                _ => {
                    proof {
                        assert(false);
                    }
                    String::new()
                },
            };
            self.advance();
            return Ok(Expr::StrLit(sc));
        }
        if kind == 2 {
            self.advance();
            return Ok(Expr::Bool(true));
        }
        if kind == 3 {
            self.advance();
            return Ok(Expr::Bool(false));
        }
        if kind == 4 {
            let name = match &self.tokens[self.position] {
                Token::Ident(s) => s.clone(),
                _ => {
                    proof {
                        assert(false);
                    }
                    String::new()
                },
            };
            self.advance();
            let after = self.current_token();
            if matches!(after, Token::LParen) {
                self.advance();
                let ghost a0 = self.position as int;
                let mut args: Vec<Expr> = Vec::new();
                proof {
                    assert(exprs_view(args@) =~= Seq::<ExprV>::empty());
                    assert(cat_args(Seq::empty(), sp_args(t, a0)) == sp_args(t, a0)) by {
                        match sp_args(t, a0) {
                            Err(_) => {},
                            Ok((rest, _)) => {
                                assert(Seq::<ExprV>::empty() + rest =~= rest);
                            },
                        }
                    }
                }
                loop
                    invariant
                        self.tokens@ == old(self).tokens@,
                        t == tokens_view(self.tokens@),
                        p0 == old(self).position as int,
                        a0 == p0 + 2,
                        cur(t, p0) == TokenV::Ident(name@),
                        cur(t, p0 + 1) is LParen,
                        a0 <= self.position <= t.len(),
                        cat_args(exprs_view(args@), sp_args(t, self.position as int))
                            == sp_args(t, a0),
                    ensures
                        self.tokens@ == old(self).tokens@,
                        t == tokens_view(self.tokens@),
                        p0 == old(self).position as int,
                        a0 == p0 + 2,
                        cur(t, p0) == TokenV::Ident(name@),
                        cur(t, p0 + 1) is LParen,
                        a0 <= self.position <= t.len(),
                        cur(t, self.position as int) is RParen,
                        cat_args(exprs_view(args@), sp_args(t, self.position as int))
                            == sp_args(t, a0),
                    decreases t.len() - self.position,
                {
                    if matches!(self.current_token(), Token::RParen) {
                        break;
                    }
                    if self.position >= self.tokens.len() {
                        return Err(ParseError::Unexpected(Token::Eof));
                    }
                    let ghost pb = self.position as int;
                    let e = match self.parse_expression() {
                        Ok(e) => e,
                        Err(x) => {
                            return Err(x);
                        },
                    };
                    let ghost ev = expr_view(e);
                    let ghost pe = self.position as int;
                    let ghost prev = args@;
                    args.push(e);
                    if matches!(self.current_token(), Token::Comma) {
                        self.advance();
                    }
                    proof {
                        assert(args@.drop_last() =~= prev);
                        assert(exprs_view(args@) == exprs_view(prev).push(ev));
                        if cur(t, pe) is Comma {
                            assert(self.position as int == pe + 1);
                        } else {
                            assert(self.position as int == pe);
                        }
                        assert(bump(pb, self.position as int, t.len() as int)
                            == self.position as int);
                        match sp_args(t, self.position as int) {
                            Err(_) => {},
                            Ok((rest, _)) => {
                                assert(exprs_view(prev) + (seq![ev] + rest) =~= (exprs_view(
                                    prev,
                                ).push(ev)) + rest);
                            },
                        }
                        assert(cat_args(exprs_view(args@), sp_args(t, self.position as int))
                            == sp_args(t, a0));
                    }
                }
                match self.expect(Token::RParen) {
                    Ok(_) => {},
                    Err(x) => {
                        return Err(x);
                    },
                }
                return Ok(Expr::Call { name, args });
            }
            if matches!(after, Token::Assign) {
                self.advance();
                let value = match self.parse_expression() {
                    Ok(e) => e,
                    Err(x) => {
                        return Err(x);
                    },
                };
                return Ok(Expr::Assign { name, value: Box::new(value) });
            }
            return Ok(Expr::Ident(name));
        }
        if kind == 5 {
            self.advance();
            let e = match self.parse_expression() {
                Ok(e) => e,
                Err(x) => {
                    return Err(x);
                },
            };
            match self.expect(Token::RParen) {
                Ok(_) => {},
                Err(x) => {
                    return Err(x);
                },
            }
            return Ok(e);
        }
        let got = self.tokens[self.position].clone();
        Err(ParseError::Unexpected(got))
    }
}


impl Parser {
    fn parse_block(&mut self) -> (r: Result<Vec<Stmt>, ParseError>)
        requires
            old(self).position <= old(self).tokens@.len(),
        ensures
            final(self).tokens@ == old(self).tokens@,
            final(self).position <= final(self).tokens@.len(),
            match sp_block(tokens_view(old(self).tokens@), old(self).position as int) {
                Ok((ssv, q)) => r matches Ok(ss) && stmts_view(ss@) == ssv && final(self).position == q
                    && old(self).position <= final(self).position,
                Err(pe) => r matches Err(x) && x@ == pe,
            },
        decreases self.tokens@.len() + 1 - self.position, 12int,
    {
        let ghost t = tokens_view(self.tokens@);
        let ghost p0 = self.position as int;
        let mut stmts: Vec<Stmt> = Vec::new();
        proof {
            assert(stmts_view(stmts@) =~= Seq::<StmtV>::empty());
            match sp_block(t, p0) {
                Err(_) => {},
                Ok((rest, _)) => {
                    assert(Seq::<StmtV>::empty() + rest =~= rest);
                },
            }
        }
        loop
            invariant
                self.tokens@ == old(self).tokens@,
                t == tokens_view(self.tokens@),
                p0 == old(self).position as int,
                p0 <= self.position <= t.len(),
                cat_stmts(stmts_view(stmts@), sp_block(t, self.position as int)) == sp_block(
                    t,
                    p0,
                ),
            ensures
                self.tokens@ == old(self).tokens@,
                t == tokens_view(self.tokens@),
                p0 == old(self).position as int,
                p0 <= self.position <= t.len(),
                cur(t, self.position as int) is RBrace,
                cat_stmts(stmts_view(stmts@), sp_block(t, self.position as int)) == sp_block(
                    t,
                    p0,
                ),
            decreases t.len() - self.position,
        {
            if matches!(self.current_token(), Token::RBrace) {
                break;
            }
            if self.position >= self.tokens.len() {
                return Err(ParseError::Unexpected(Token::Eof));
            }
            let ghost pb = self.position as int;
            let s = match self.parse_statement() {
                Ok(s) => s,
                Err(x) => {
                    return Err(x);
                },
            };
            let ghost sv = stmt_view(s);
            let ghost prev = stmts@;
            stmts.push(s);
            proof {
                assert(stmts@.drop_last() =~= prev);
                assert(stmts_view(stmts@) == stmts_view(prev).push(sv));
                assert(bump(pb, self.position as int, t.len() as int) == self.position as int);
                match sp_block(t, self.position as int) {
                    Err(_) => {},
                    Ok((rest, _)) => {
                        assert(stmts_view(prev) + (seq![sv] + rest) =~= (stmts_view(prev).push(
                            sv,
                        )) + rest);
                    },
                }
            }
        }
        Ok(stmts)
    }

    /// The condition and block shared by the branching and loop statements;
    /// the cursor stands on the keyword.
    fn parse_guarded_block(&mut self) -> (r: Result<(Expr, Vec<Stmt>), ParseError>)
        requires
            old(self).position < old(self).tokens@.len(),
        ensures
            final(self).tokens@ == old(self).tokens@,
            final(self).position <= final(self).tokens@.len(),
            match sp_guarded_block(tokens_view(old(self).tokens@), old(self).position as int) {
                Ok(((cv, bv), q)) => r matches Ok((c, b)) && expr_view(c) == cv && stmts_view(
                    b@,
                ) == bv && final(self).position == q && old(self).position < final(self).position,
                Err(pe) => r matches Err(x) && x@ == pe,
            },
        decreases self.tokens@.len() + 1 - self.position, 8int,
    {
        let ghost t = tokens_view(self.tokens@);
        let ghost p0 = self.position as int;
        self.advance();
        match self.expect(Token::LParen) {
            Ok(_) => {},
            Err(x) => {
                return Err(x);
            },
        }
        let cond = match self.parse_expression() {
            Ok(e) => e,
            Err(x) => {
                return Err(x);
            },
        };
        match self.expect(Token::RParen) {
            Ok(_) => {},
            Err(x) => {
                return Err(x);
            },
        }
        match self.expect(Token::LBrace) {
            Ok(_) => {},
            Err(x) => {
                return Err(x);
            },
        }
        proof {
            assert(bump(p0, self.position as int, t.len() as int) == self.position as int);
        }
        let body = match self.parse_block() {
            Ok(b) => b,
            Err(x) => {
                return Err(x);
            },
        };
        match self.expect(Token::RBrace) {
            Ok(_) => {},
            Err(x) => {
                return Err(x);
            },
        }
        Ok((cond, body))
    }

    /// The alternative branch's block; the cursor stands on the `else`
    /// keyword.
    fn parse_else_block(&mut self) -> (r: Result<Vec<Stmt>, ParseError>)
        requires
            old(self).position < old(self).tokens@.len(),
        ensures
            final(self).tokens@ == old(self).tokens@,
            final(self).position <= final(self).tokens@.len(),
            match sp_else_block(tokens_view(old(self).tokens@), old(self).position as int) {
                Ok((bv, q)) => r matches Ok(b) && stmts_view(b@) == bv && final(self).position
                    == q && old(self).position < final(self).position,
                Err(pe) => r matches Err(x) && x@ == pe,
            },
        decreases self.tokens@.len() + 1 - self.position, 8int,
    {
        let ghost t = tokens_view(self.tokens@);
        let ghost p0 = self.position as int;
        self.advance();
        match self.expect(Token::LBrace) {
            Ok(_) => {},
            Err(x) => {
                return Err(x);
            },
        }
        proof {
            assert(bump(p0, self.position as int, t.len() as int) == self.position as int);
        }
        let body = match self.parse_block() {
            Ok(b) => b,
            Err(x) => {
                return Err(x);
            },
        };
        match self.expect(Token::RBrace) {
            Ok(_) => {},
            Err(x) => {
                return Err(x);
            },
        }
        Ok(body)
    }

    fn parse_variable_declaration(&mut self) -> (r: Result<Stmt, ParseError>)
        requires
            old(self).position < old(self).tokens@.len(),
            cur(tokens_view(old(self).tokens@), old(self).position as int) is Let,
        ensures
            final(self).tokens@ == old(self).tokens@,
            final(self).position <= final(self).tokens@.len(),
            match sp_let(tokens_view(old(self).tokens@), old(self).position as int) {
                Ok((sv, q)) => r matches Ok(s) && stmt_view(s) == sv && final(self).position == q
                    && old(self).position < final(self).position,
                Err(pe) => r matches Err(x) && x@ == pe,
            },
        decreases self.tokens@.len() + 1 - self.position, 9int,
    {
        let ghost t = tokens_view(self.tokens@);
        let ghost p0 = self.position as int;
        self.advance();
        if self.position >= self.tokens.len() {
            return Err(ParseError::ExpectedIdent);
        }
        let name = match &self.tokens[self.position] {
            Token::Ident(s) => s.clone(),
            _ => {
                return Err(ParseError::ExpectedIdent);
            },
        };
        self.advance();
        match self.expect(Token::Assign) {
            Ok(_) => {},
            Err(x) => {
                return Err(x);
            },
        }
        let init = match self.parse_expression() {
            Ok(e) => e,
            Err(x) => {
                return Err(x);
            },
        };
        match self.expect(Token::Semicolon) {
            Ok(_) => {},
            Err(x) => {
                return Err(x);
            },
        }
        Ok(Stmt::Let { name, init })
    }

    fn parse_return_statement(&mut self) -> (r: Result<Stmt, ParseError>)
        requires
            old(self).position < old(self).tokens@.len(),
            cur(tokens_view(old(self).tokens@), old(self).position as int) is Return,
        ensures
            final(self).tokens@ == old(self).tokens@,
            final(self).position <= final(self).tokens@.len(),
            match sp_return(tokens_view(old(self).tokens@), old(self).position as int) {
                Ok((sv, q)) => r matches Ok(s) && stmt_view(s) == sv && final(self).position == q
                    && old(self).position < final(self).position,
                Err(pe) => r matches Err(x) && x@ == pe,
            },
        decreases self.tokens@.len() + 1 - self.position, 9int,
    {
        self.advance();
        let e = match self.parse_expression() {
            Ok(e) => e,
            Err(x) => {
                return Err(x);
            },
        };
        match self.expect(Token::Semicolon) {
            Ok(_) => {},
            Err(x) => {
                return Err(x);
            },
        }
        Ok(Stmt::Return(e))
    }

    fn parse_if_statement(&mut self) -> (r: Result<Stmt, ParseError>)
        requires
            old(self).position < old(self).tokens@.len(),
            cur(tokens_view(old(self).tokens@), old(self).position as int) is If,
        ensures
            final(self).tokens@ == old(self).tokens@,
            final(self).position <= final(self).tokens@.len(),
            match sp_if(tokens_view(old(self).tokens@), old(self).position as int) {
                Ok((sv, q)) => r matches Ok(s) && stmt_view(s) == sv && final(self).position == q
                    && old(self).position < final(self).position,
                Err(pe) => r matches Err(x) && x@ == pe,
            },
        decreases self.tokens@.len() + 1 - self.position, 10int,
    {
        let ghost t = tokens_view(self.tokens@);
        let ghost p0 = self.position as int;
        let (cond, then_branch) = match self.parse_guarded_block() {
            Ok(cb) => cb,
            Err(x) => {
                return Err(x);
            },
        };
        if matches!(self.current_token(), Token::Else) {
            proof {
                assert(bump(p0, self.position as int, t.len() as int) == self.position as int);
            }
            let else_branch = match self.parse_else_block() {
                Ok(b) => b,
                Err(x) => {
                    return Err(x);
                },
            };
            Ok(Stmt::If { cond, then_branch, else_branch: Some(else_branch) })
        } else {
            Ok(Stmt::If { cond, then_branch, else_branch: None })
        }
    }

    fn parse_while_statement(&mut self) -> (r: Result<Stmt, ParseError>)
        requires
            old(self).position < old(self).tokens@.len(),
            cur(tokens_view(old(self).tokens@), old(self).position as int) is While,
        ensures
            final(self).tokens@ == old(self).tokens@,
            final(self).position <= final(self).tokens@.len(),
            match sp_while(tokens_view(old(self).tokens@), old(self).position as int) {
                Ok((sv, q)) => r matches Ok(s) && stmt_view(s) == sv && final(self).position == q
                    && old(self).position < final(self).position,
                Err(pe) => r matches Err(x) && x@ == pe,
            },
        decreases self.tokens@.len() + 1 - self.position, 10int,
    {
        let (cond, body) = match self.parse_guarded_block() {
            Ok(cb) => cb,
            Err(x) => {
                return Err(x);
            },
        };
        Ok(Stmt::While { cond, body })
    }

    fn parse_function_declaration(&mut self) -> (r: Result<Stmt, ParseError>)
        requires
            old(self).position < old(self).tokens@.len(),
            cur(tokens_view(old(self).tokens@), old(self).position as int) is Func,
        ensures
            final(self).tokens@ == old(self).tokens@,
            final(self).position <= final(self).tokens@.len(),
            match sp_func(tokens_view(old(self).tokens@), old(self).position as int) {
                Ok((sv, q)) => r matches Ok(s) && stmt_view(s) == sv && final(self).position == q
                    && old(self).position < final(self).position,
                Err(pe) => r matches Err(x) && x@ == pe,
            },
        decreases self.tokens@.len() + 1 - self.position, 10int,
    {
        let ghost t = tokens_view(self.tokens@);
        let ghost p0 = self.position as int;
        self.advance();
        if self.position >= self.tokens.len() {
            return Err(ParseError::ExpectedFuncName);
        }
        let name = match &self.tokens[self.position] {
            Token::Ident(s) => s.clone(),
            _ => {
                return Err(ParseError::ExpectedFuncName);
            },
        };
        self.advance();
        match self.expect(Token::LParen) {
            Ok(_) => {},
            Err(x) => {
                return Err(x);
            },
        }
        let ghost a0 = self.position as int;
        let mut params: Vec<String> = Vec::new();
        proof {
            assert(strings_view(params@) =~= Seq::<Seq<char>>::empty());
            assert(Seq::<Seq<char>>::empty() + sp_params(t, a0).0 =~= sp_params(t, a0).0);
        }
        loop
            invariant
                self.tokens@ == old(self).tokens@,
                t == tokens_view(self.tokens@),
                p0 == old(self).position as int,
                a0 == p0 + 3,
                a0 <= self.position <= t.len(),
                sp_params(t, a0).0 == strings_view(params@) + sp_params(
                    t,
                    self.position as int,
                ).0,
                sp_params(t, a0).1 == sp_params(t, self.position as int).1,
            ensures
                self.tokens@ == old(self).tokens@,
                t == tokens_view(self.tokens@),
                p0 == old(self).position as int,
                a0 == p0 + 3,
                a0 <= self.position <= t.len(),
                !(cur(t, self.position as int) is Ident),
                sp_params(t, a0).0 == strings_view(params@),
                sp_params(t, a0).1 == self.position as int,
            decreases t.len() - self.position,
        {
            if self.position >= self.tokens.len() {
                proof {
                    assert(strings_view(params@) + sp_params(t, self.position as int).0
                        =~= strings_view(params@));
                }
                break;
            }
            let pname = match &self.tokens[self.position] {
                Token::Ident(s) => s.clone(),
                _ => {
                    proof {
                        assert(strings_view(params@) + sp_params(t, self.position as int).0
                            =~= strings_view(params@));
                    }
                    break;
                },
            };
            let ghost pnv = pname@;
            let ghost prev = params@;
            params.push(pname);
            self.advance();
            if matches!(self.current_token(), Token::Comma) {
                self.advance();
            }
            proof {
                assert(params@.drop_last() =~= prev);
                assert(strings_view(params@) =~= strings_view(prev).push(pnv));
                assert(strings_view(prev) + (seq![pnv] + sp_params(t, self.position as int).0)
                    =~= strings_view(params@) + sp_params(t, self.position as int).0);
            }
        }
        match self.expect(Token::RParen) {
            Ok(_) => {},
            Err(x) => {
                return Err(x);
            },
        }
        match self.expect(Token::LBrace) {
            Ok(_) => {},
            Err(x) => {
                return Err(x);
            },
        }
        proof {
            assert(bump(p0, self.position as int, t.len() as int) == self.position as int);
        }
        let body = match self.parse_block() {
            Ok(b) => b,
            Err(x) => {
                return Err(x);
            },
        };
        match self.expect(Token::RBrace) {
            Ok(_) => {},
            Err(x) => {
                return Err(x);
            },
        }
        Ok(Stmt::FuncDecl { name, params, body })
    }

    fn parse_statement(&mut self) -> (r: Result<Stmt, ParseError>)
        requires
            old(self).position <= old(self).tokens@.len(),
        ensures
            final(self).tokens@ == old(self).tokens@,
            final(self).position <= final(self).tokens@.len(),
            match sp_statement(tokens_view(old(self).tokens@), old(self).position as int) {
                Ok((sv, q)) => r matches Ok(s) && stmt_view(s) == sv && final(self).position == q
                    && old(self).position < final(self).position,
                Err(pe) => r matches Err(x) && x@ == pe,
            },
        decreases self.tokens@.len() + 1 - self.position, 11int,
    {
        let kind: u8 = match self.current_token() {
            Token::Let => 0,
            Token::If => 1,
            Token::While => 2,
            Token::Func => 3,
            Token::Return => 4,
            _ => 5,
        };
        if kind == 0 {
            return self.parse_variable_declaration();
        }
        if kind == 1 {
            return self.parse_if_statement();
        }
        if kind == 2 {
            return self.parse_while_statement();
        }
        if kind == 3 {
            return self.parse_function_declaration();
        }
        if kind == 4 {
            return self.parse_return_statement();
        }
        let e = match self.parse_expression() {
            Ok(e) => e,
            Err(x) => {
                return Err(x);
            },
        };
        match self.expect(Token::Semicolon) {
            Ok(_) => {},
            Err(x) => {
                return Err(x);
            },
        }
        Ok(Stmt::Expr(e))
    }

    /// Parses the whole token sequence into a program, or reports the first
    /// syntax fault.
    pub fn parse(&mut self) -> (r: Result<Program, ParseError>)
        requires
            old(self).position <= old(self).tokens@.len(),
        ensures
            final(self).tokens@ == old(self).tokens@,
            match sp_program(tokens_view(old(self).tokens@), old(self).position as int) {
                Ok((ssv, _)) => r matches Ok(prog) && program_view(prog) == ssv,
                Err(pe) => r matches Err(x) && x@ == pe,
            },
        decreases self.tokens@.len() + 1 - self.position, 13int,
    {
        let ghost t = tokens_view(self.tokens@);
        let ghost p0 = self.position as int;
        let mut stmts: Vec<Stmt> = Vec::new();
        proof {
            assert(stmts_view(stmts@) =~= Seq::<StmtV>::empty());
            match sp_program(t, p0) {
                Err(_) => {},
                Ok((rest, _)) => {
                    assert(Seq::<StmtV>::empty() + rest =~= rest);
                },
            }
        }
        loop
            invariant
                self.tokens@ == old(self).tokens@,
                t == tokens_view(self.tokens@),
                p0 == old(self).position as int,
                p0 <= self.position <= t.len(),
                cat_stmts(stmts_view(stmts@), sp_program(t, self.position as int))
                    == sp_program(t, p0),
            ensures
                self.tokens@ == old(self).tokens@,
                t == tokens_view(self.tokens@),
                p0 <= self.position <= t.len(),
                cur(t, self.position as int) is Eof,
                cat_stmts(stmts_view(stmts@), sp_program(t, self.position as int))
                    == sp_program(t, p0),
            decreases t.len() - self.position,
        {
            if matches!(self.current_token(), Token::Eof) {
                break;
            }
            let ghost pb = self.position as int;
            let s = match self.parse_statement() {
                Ok(s) => s,
                Err(x) => {
                    return Err(x);
                },
            };
            let ghost sv = stmt_view(s);
            let ghost prev = stmts@;
            stmts.push(s);
            proof {
                assert(stmts@.drop_last() =~= prev);
                assert(stmts_view(stmts@) == stmts_view(prev).push(sv));
                assert(bump(pb, self.position as int, t.len() as int) == self.position as int);
                match sp_program(t, self.position as int) {
                    Err(_) => {},
                    Ok((rest, _)) => {
                        assert(stmts_view(prev) + (seq![sv] + rest) =~= (stmts_view(prev).push(
                            sv,
                        )) + rest);
                    },
                }
            }
        }
        Ok(Program { statements: stmts })
    }
}


/// The readable spelling of a token inside a diagnostic.
pub open spec fn token_text_s(t: TokenV) -> Seq<char> {
    match t {
        TokenV::Let => "пусть"@,
        TokenV::Func => "функция"@,
        TokenV::If => "если"@,
        TokenV::Else => "иначе"@,
        TokenV::While => "пока"@,
        TokenV::Return => "вернуть"@,
        TokenV::True => "истина"@,
        TokenV::False => "ложь"@,
        TokenV::Ident(s) => s,
        TokenV::Number(m) => crate::text::num_text(m),
        TokenV::StrLit(s) => "\""@ + s + "\""@,
        TokenV::Plus => "+"@,
        TokenV::Minus => "-"@,
        TokenV::Star => "*"@,
        TokenV::Slash => "/"@,
        TokenV::Assign => "="@,
        TokenV::Eq => "=="@,
        TokenV::Ne => "!="@,
        TokenV::Gt => ">"@,
        TokenV::Lt => "<"@,
        TokenV::Ge => ">="@,
        TokenV::Le => "<="@,
        TokenV::LParen => "("@,
        TokenV::RParen => ")"@,
        TokenV::LBrace => "{"@,
        TokenV::RBrace => "}"@,
        TokenV::Comma => ","@,
        TokenV::Semicolon => ";"@,
        TokenV::Eof => "конец файла"@,
    }
}

/// The readable diagnostic for a syntax fault: a mismatch names the expected
/// and actual pair.
pub open spec fn perr_msg(e: PErrV) -> Seq<char> {
    match e {
        PErrV::Expected(w, g) => "Ожидался "@ + token_text_s(w) + ", получен "@ + token_text_s(
            g,
        ),
        PErrV::ExpectedIdent => "Ожидался идентификатор"@,
        PErrV::ExpectedFuncName => "Ожидалось имя функции"@,
        PErrV::Unexpected(t) => "Неожиданный токен: "@ + token_text_s(t),
    }
}

fn token_text(t: &Token) -> (r: String)
    ensures
        r@ == token_text_s(t@),
{
    match t {
        Token::Let => String::from_str("пусть"),
        Token::Func => String::from_str("функция"),
        Token::If => String::from_str("если"),
        Token::Else => String::from_str("иначе"),
        Token::While => String::from_str("пока"),
        Token::Return => String::from_str("вернуть"),
        Token::True => String::from_str("истина"),
        Token::False => String::from_str("ложь"),
        Token::Ident(s) => s.clone(),
        Token::Number(n) => n.to_text(),
        Token::StrLit(s) => {
            let mut r = String::from_str("\"");
            r.append(s.as_str());
            r.append("\"");
            proof {
                assert(r@ =~= token_text_s(t@));
            }
            r
        },
        Token::Plus => String::from_str("+"),
        Token::Minus => String::from_str("-"),
        Token::Star => String::from_str("*"),
        Token::Slash => String::from_str("/"),
        Token::Assign => String::from_str("="),
        Token::Eq => String::from_str("=="),
        Token::Ne => String::from_str("!="),
        Token::Gt => String::from_str(">"),
        Token::Lt => String::from_str("<"),
        Token::Ge => String::from_str(">="),
        Token::Le => String::from_str("<="),
        Token::LParen => String::from_str("("),
        Token::RParen => String::from_str(")"),
        Token::LBrace => String::from_str("{"),
        Token::RBrace => String::from_str("}"),
        Token::Comma => String::from_str(","),
        Token::Semicolon => String::from_str(";"),
        Token::Eof => String::from_str("конец файла"),
    }
}

impl ParseError {
    /// The fault's readable diagnostic.
    pub fn message(&self) -> (r: String)
        ensures
            r@ == perr_msg(self@),
    {
        match self {
            ParseError::Expected(w, g) => {
                let mut r = String::from_str("Ожидался ");
                let wt = token_text(w);
                r.append(wt.as_str());
                r.append(", получен ");
                let gt = token_text(g);
                r.append(gt.as_str());
                proof {
                    assert(r@ =~= perr_msg(self@));
                }
                r
            },
            ParseError::ExpectedIdent => String::from_str("Ожидался идентификатор"),
            ParseError::ExpectedFuncName => String::from_str("Ожидалось имя функции"),
            ParseError::Unexpected(t) => {
                let mut r = String::from_str("Неожиданный токен: ");
                let tt = token_text(t);
                r.append(tt.as_str());
                proof {
                    assert(r@ =~= perr_msg(self@));
                }
                r
            },
        }
    }
}

} // verus!
