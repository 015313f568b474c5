//! Lexical analysis: source text to an ordered token sequence, ending with one
//! end-of-input token. Whitespace and comments are insignificant; an
//! unrecognized character, or `!` not followed by `=`, fails the whole scan.
use vstd::prelude::*;
use crate::num::Num;
use crate::text::{is_digit, is_digit_exec, parse_numeral, parse_numeral_run, push_char};
use vstd::string::StringExecFns;
use vstd::std_specs::iter::IteratorSpec;

verus! {

/// One lexical token.
pub enum Token {
    /// Keyword introducing a variable declaration.
    Let,
    /// Keyword introducing a function declaration (either spelling).
    Func,
    If,
    Else,
    While,
    Return,
    True,
    False,
    Ident(String),
    Number(Num),
    StrLit(String),
    Plus,
    Minus,
    Star,
    Slash,
    Assign,
    Eq,
    Ne,
    Gt,
    Lt,
    Ge,
    Le,
    LParen,
    RParen,
    LBrace,
    RBrace,
    Comma,
    Semicolon,
    Eof,
}

/// Mathematical image of a token: texts as character sequences, numbers as
/// scaled counts.
pub enum TokenV {
    Let,
    Func,
    If,
    Else,
    While,
    Return,
    True,
    False,
    Ident(Seq<char>),
    Number(int),
    StrLit(Seq<char>),
    Plus,
    Minus,
    Star,
    Slash,
    Assign,
    Eq,
    Ne,
    Gt,
    Lt,
    Ge,
    Le,
    LParen,
    RParen,
    LBrace,
    RBrace,
    Comma,
    Semicolon,
    Eof,
}

impl View for Token {
    type V = TokenV;

    open spec fn view(&self) -> TokenV {
        match self {
            Token::Let => TokenV::Let,
            Token::Func => TokenV::Func,
            Token::If => TokenV::If,
            Token::Else => TokenV::Else,
            Token::While => TokenV::While,
            Token::Return => TokenV::Return,
            Token::True => TokenV::True,
            Token::False => TokenV::False,
            Token::Ident(s) => TokenV::Ident(s@),
            Token::Number(n) => TokenV::Number(n@),
            Token::StrLit(s) => TokenV::StrLit(s@),
            Token::Plus => TokenV::Plus,
            Token::Minus => TokenV::Minus,
            Token::Star => TokenV::Star,
            Token::Slash => TokenV::Slash,
            Token::Assign => TokenV::Assign,
            Token::Eq => TokenV::Eq,
            Token::Ne => TokenV::Ne,
            Token::Gt => TokenV::Gt,
            Token::Lt => TokenV::Lt,
            Token::Ge => TokenV::Ge,
            Token::Le => TokenV::Le,
            Token::LParen => TokenV::LParen,
            Token::RParen => TokenV::RParen,
            Token::LBrace => TokenV::LBrace,
            Token::RBrace => TokenV::RBrace,
            Token::Comma => TokenV::Comma,
            Token::Semicolon => TokenV::Semicolon,
            Token::Eof => TokenV::Eof,
        }
    }
}

pub open spec fn tokens_view(ts: Seq<Token>) -> Seq<TokenV> {
    Seq::new(ts.len(), |i: int| ts[i]@)
}

pub open spec fn is_space(c: char) -> bool {
    c == ' ' || c == '\t' || c == '\n' || c == '\r'
}

pub open spec fn is_cyr(c: char) -> bool {
    0x400 <= c as u32 && c as u32 <= 0x4FF
}

pub open spec fn is_letter(c: char) -> bool {
    (97 <= c as u32 && c as u32 <= 122) || (65 <= c as u32 && c as u32 <= 90)
}

/// A character that may start an identifier.
pub open spec fn is_ident_start(c: char) -> bool {
    is_letter(c) || is_cyr(c) || c == '_'
}

/// A character that may continue an identifier.
pub open spec fn is_ident_char(c: char) -> bool {
    is_letter(c) || is_digit(c) || is_cyr(c) || c == '_'
}

/// Whether `ch` is a Cyrillic letter.
pub fn is_cyrillic(ch: char) -> (r: bool)
    ensures
        r == is_cyr(ch),
{
    let u = ch as u32;
    0x400 <= u && u <= 0x4FF
}

fn is_space_exec(c: char) -> (r: bool)
    ensures
        r == is_space(c),
{
    c == ' ' || c == '\t' || c == '\n' || c == '\r'
}

fn is_ident_start_exec(c: char) -> (r: bool)
    ensures
        r == is_ident_start(c),
{
    let u = c as u32;
    (97 <= u && u <= 122) || (65 <= u && u <= 90) || is_cyrillic(c) || c == '_'
}

fn is_ident_char_exec(c: char) -> (r: bool)
    ensures
        r == is_ident_char(c),
{
    is_ident_start_exec(c) || is_digit_exec(c)
}

/// First index at or after `i` holding a non-space character, or the length.
pub open spec fn skip_spaces(s: Seq<char>, i: int) -> int
    decreases s.len() - i,
{
    if 0 <= i < s.len() && is_space(s[i]) {
        skip_spaces(s, i + 1)
    } else {
        i
    }
}

/// First index at or after `i` holding a line break, or the length.
pub open spec fn line_end(s: Seq<char>, i: int) -> int
    decreases s.len() - i,
{
    if 0 <= i < s.len() && s[i] != '\n' {
        line_end(s, i + 1)
    } else {
        i
    }
}

/// Index just past the first `*/` at or after `i`, or the length when the
/// block comment never closes.
pub open spec fn block_end(s: Seq<char>, i: int) -> int
    decreases s.len() - i,
{
    if 0 <= i < s.len() {
        if s[i] == '*' && i + 1 < s.len() && s[i + 1] == '/' {
            i + 2
        } else {
            block_end(s, i + 1)
        }
    } else {
        i
    }
}

proof fn lemma_skip_spaces(s: Seq<char>, i: int)
    requires
        0 <= i <= s.len(),
    ensures
        i <= skip_spaces(s, i) <= s.len(),
        skip_spaces(s, i) < s.len() ==> !is_space(s[skip_spaces(s, i)]),
    decreases s.len() - i,
{
    if i < s.len() && is_space(s[i]) {
        lemma_skip_spaces(s, i + 1);
    }
}

proof fn lemma_line_end(s: Seq<char>, i: int)
    requires
        0 <= i <= s.len(),
    ensures
        i <= line_end(s, i) <= s.len(),
    decreases s.len() - i,
{
    if i < s.len() && s[i] != '\n' {
        lemma_line_end(s, i + 1);
    }
}

proof fn lemma_block_end(s: Seq<char>, i: int)
    requires
        0 <= i <= s.len(),
    ensures
        i <= block_end(s, i) <= s.len(),
    decreases s.len() - i,
{
    if i < s.len() && !(s[i] == '*' && i + 1 < s.len() && s[i + 1] == '/') {
        lemma_block_end(s, i + 1);
    }
}

/// Whether a comment starts at `i`.
pub open spec fn comment_at(s: Seq<char>, i: int) -> bool {
    0 <= i && i + 1 < s.len() && s[i] == '/' && (s[i + 1] == '/' || s[i + 1] == '*')
}

/// Index just past one comment starting at `i`.
pub open spec fn comment_end(s: Seq<char>, i: int) -> int {
    if s[i + 1] == '/' {
        line_end(s, i)
    } else {
        block_end(s, i + 2)
    }
}

/// Index of the next significant character: spaces and comments are passed by.
pub open spec fn skip_all(s: Seq<char>, i: int) -> int
    decreases s.len() - i,
    via skip_all_decreases
{
    if 0 <= i <= s.len() {
        let j = skip_spaces(s, i);
        if comment_at(s, j) {
            skip_all(s, comment_end(s, j))
        } else {
            j
        }
    } else {
        i
    }
}

#[via_fn]
proof fn skip_all_decreases(s: Seq<char>, i: int) {
    if 0 <= i <= s.len() {
        lemma_skip_spaces(s, i);
        let j = skip_spaces(s, i);
        if comment_at(s, j) {
            if s[j + 1] == '/' {
                lemma_line_end(s, j + 1);
                assert(line_end(s, j) == line_end(s, j + 1));
            } else {
                lemma_block_end(s, j + 2);
            }
        }
    }
}

proof fn lemma_skip_all(s: Seq<char>, i: int)
    requires
        0 <= i <= s.len(),
    ensures
        i <= skip_all(s, i) <= s.len(),
        !comment_at(s, skip_all(s, i)),
        skip_all(s, i) < s.len() ==> !is_space(s[skip_all(s, i)]),
    decreases s.len() - i,
{
    lemma_skip_spaces(s, i);
    let j = skip_spaces(s, i);
    if comment_at(s, j) {
        if s[j + 1] == '/' {
            lemma_line_end(s, j + 1);
            assert(line_end(s, j) == line_end(s, j + 1));
        } else {
            lemma_block_end(s, j + 2);
        }
        lemma_skip_all(s, comment_end(s, j));
    }
}

/// First index at or after `i` past the run of numeral characters.
pub open spec fn number_end(s: Seq<char>, i: int) -> int
    decreases s.len() - i,
{
    if 0 <= i < s.len() && (is_digit(s[i]) || s[i] == '.') {
        number_end(s, i + 1)
    } else {
        i
    }
}

/// First index at or after `i` past the run of identifier characters.
pub open spec fn ident_end(s: Seq<char>, i: int) -> int
    decreases s.len() - i,
{
    if 0 <= i < s.len() && is_ident_char(s[i]) {
        ident_end(s, i + 1)
    } else {
        i
    }
}

/// First index at or after `i` holding a closing quote, or the length.
pub open spec fn string_end(s: Seq<char>, i: int) -> int
    decreases s.len() - i,
{
    if 0 <= i < s.len() && s[i] != '"' {
        string_end(s, i + 1)
    } else {
        i
    }
}

proof fn lemma_number_end(s: Seq<char>, i: int)
    requires
        0 <= i <= s.len(),
    ensures
        i <= number_end(s, i) <= s.len(),
    decreases s.len() - i,
{
    if i < s.len() && (is_digit(s[i]) || s[i] == '.') {
        lemma_number_end(s, i + 1);
    }
}

proof fn lemma_ident_end(s: Seq<char>, i: int)
    requires
        0 <= i <= s.len(),
    ensures
        i <= ident_end(s, i) <= s.len(),
    decreases s.len() - i,
{
    if i < s.len() && is_ident_char(s[i]) {
        lemma_ident_end(s, i + 1);
    }
}

proof fn lemma_string_end(s: Seq<char>, i: int)
    requires
        0 <= i <= s.len(),
    ensures
        i <= string_end(s, i) <= s.len(),
        string_end(s, i) < s.len() ==> s[string_end(s, i)] == '"',
    decreases s.len() - i,
{
    if i < s.len() && s[i] != '"' {
        lemma_string_end(s, i + 1);
    }
}

/// Reclassifies an identifier run that matches a fixed keyword spelling.
pub open spec fn classify(w: Seq<char>) -> TokenV {
    if w == "пусть"@ {
        TokenV::Let
    } else if w == "функция"@ || w == "фн"@ {
        TokenV::Func
    } else if w == "если"@ {
        TokenV::If
    } else if w == "иначе"@ {
        TokenV::Else
    } else if w == "пока"@ {
        TokenV::While
    } else if w == "вернуть"@ {
        TokenV::Return
    } else if w == "истина"@ {
        TokenV::True
    } else if w == "ложь"@ {
        TokenV::False
    } else {
        TokenV::Ident(w)
    }
}

/// One step of the scan at a significant position: a token and the index
/// after it, the end of input, or a lexical fault.
pub enum LexStep {
    Tok(TokenV, int),
    End(int),
    Fail(int),
}

/// The token starting at position `i`, which must already be significant.
pub open spec fn token_at(s: Seq<char>, i: int) -> LexStep {
    if i >= s.len() {
        LexStep::End(i)
    } else {
        let c = s[i];
        if is_digit(c) {
            let e = number_end(s, i);
            LexStep::Tok(TokenV::Number(parse_numeral(s.subrange(i, e))), e)
        } else if is_ident_start(c) {
            let e = ident_end(s, i);
            LexStep::Tok(classify(s.subrange(i, e)), e)
        } else if c == '"' {
            let e = string_end(s, i + 1);
            if e < s.len() {
                LexStep::Tok(TokenV::StrLit(s.subrange(i + 1, e)), e + 1)
            } else {
                LexStep::Tok(TokenV::StrLit(s.subrange(i + 1, s.len() as int)), s.len() as int)
            }
        } else if c == '+' {
            LexStep::Tok(TokenV::Plus, i + 1)
        } else if c == '-' {
            LexStep::Tok(TokenV::Minus, i + 1)
        } else if c == '*' {
            LexStep::Tok(TokenV::Star, i + 1)
        } else if c == '/' {
            LexStep::Tok(TokenV::Slash, i + 1)
        } else if c == '(' {
            LexStep::Tok(TokenV::LParen, i + 1)
        } else if c == ')' {
            LexStep::Tok(TokenV::RParen, i + 1)
        } else if c == '{' {
            LexStep::Tok(TokenV::LBrace, i + 1)
        } else if c == '}' {
            LexStep::Tok(TokenV::RBrace, i + 1)
        } else if c == ',' {
            LexStep::Tok(TokenV::Comma, i + 1)
        } else if c == ';' {
            LexStep::Tok(TokenV::Semicolon, i + 1)
        } else if c == '=' {
            if i + 1 < s.len() && s[i + 1] == '=' {
                LexStep::Tok(TokenV::Eq, i + 2)
            } else {
                LexStep::Tok(TokenV::Assign, i + 1)
            }
        } else if c == '!' {
            if i + 1 < s.len() && s[i + 1] == '=' {
                LexStep::Tok(TokenV::Ne, i + 2)
            } else {
                LexStep::Fail(i)
            }
        } else if c == '>' {
            if i + 1 < s.len() && s[i + 1] == '=' {
                LexStep::Tok(TokenV::Ge, i + 2)
            } else {
                LexStep::Tok(TokenV::Gt, i + 1)
            }
        } else if c == '<' {
            if i + 1 < s.len() && s[i + 1] == '=' {
                LexStep::Tok(TokenV::Le, i + 2)
            } else {
                LexStep::Tok(TokenV::Lt, i + 1)
            }
        } else {
            LexStep::Fail(i)
        }
    }
}

/// One scan step from any position: significant characters are reached first.
pub open spec fn lex_step(s: Seq<char>, i: int) -> LexStep {
    token_at(s, skip_all(s, i))
}

proof fn lemma_token_at(s: Seq<char>, i: int)
    requires
        0 <= i <= s.len(),
    ensures
        token_at(s, i) matches LexStep::Tok(tv, j) ==> i < j <= s.len() && !(tv is Eof),
{
    if i < s.len() {
        let c = s[i];
        if is_digit(c) {
            lemma_number_end(s, i + 1);
            assert(number_end(s, i) == number_end(s, i + 1));
        } else if is_ident_start(c) {
            lemma_ident_end(s, i + 1);
            assert(ident_end(s, i) == ident_end(s, i + 1));
        } else if c == '"' {
            lemma_string_end(s, i + 1);
        }
    }
}

/// The token sequence from position `i` on, or nothing on a lexical fault.
pub open spec fn lex_all(s: Seq<char>, i: int) -> Option<Seq<TokenV>>
    decreases s.len() - i,
    via lex_all_decreases
{
    if 0 <= i <= s.len() {
        match lex_step(s, i) {
            LexStep::End(_) => Some(seq![TokenV::Eof]),
            LexStep::Fail(_) => None,
            LexStep::Tok(t, j) => match lex_all(s, j) {
                None => None,
                Some(rest) => Some(seq![t] + rest),
            },
        }
    } else {
        None
    }
}

#[via_fn]
proof fn lex_all_decreases(s: Seq<char>, i: int) {
    if 0 <= i <= s.len() {
        lemma_skip_all(s, i);
        lemma_token_at(s, skip_all(s, i));
    }
}

/// The whole scan: every token of the text, ending with the end-of-input
/// token, or nothing when the text holds a lexical fault.
pub open spec fn spec_tokenize(s: Seq<char>) -> Option<Seq<TokenV>> {
    lex_all(s, 0)
}


/// A lexical fault: an unrecognized character, or `!` without `=`.
#[derive(Debug)]
pub struct LexError;

spec fn opt_concat(pre: Seq<TokenV>, rest: Option<Seq<TokenV>>) -> Option<Seq<TokenV>> {
    match rest {
        None => None,
        Some(r) => Some(pre + r),
    }
}

proof fn lemma_opt_concat_empty(o: Option<Seq<TokenV>>)
    ensures
        opt_concat(Seq::empty(), o) == o,
{
    match o {
        None => {},
        Some(r) => {
            assert(Seq::empty() + r =~= r);
        },
    }
}

fn chars_of(s: &str) -> (v: Vec<char>)
    ensures
        v@ == s@,
{
    broadcast use vstd::string::next_postcondition;

    let mut it = s.chars();
    let mut v: Vec<char> = Vec::new();
    proof {
        vstd::string::axiom_spec_iter(s);
    }
    loop
        invariant
            it.obeys_prophetic_iter_laws(),
            it.decrease() is Some,
            v@ + it.remaining() == s@,
        decreases it.decrease()->0,
    {
        let ghost pre = it;
        match it.next() {
            Some(c) => {
                v.push(c);
                proof {
                    assert(v@ + it.remaining() =~= s@);
                }
            },
            None => {
                proof {
                    assert(v@ =~= s@);
                }
                return v;
            },
        }
    }
}

/// The tokenizer: a character cursor over the whole source text.
pub struct Lexer {
    pub input: Vec<char>,
    pub position: usize,
}

impl Lexer {
    pub fn new(input: String) -> (r: Self)
        ensures
            r.input@ == input@,
            r.position == 0,
    {
        Lexer { input: chars_of(input.as_str()), position: 0 }
    }

    fn advance(&mut self)
        requires
            old(self).position < old(self).input@.len(),
        ensures
            final(self).input@ == old(self).input@,
            final(self).position == old(self).position + 1,
    {
        // The length read bounds the view's length, so the increment fits.
        let n: usize = self.input.len();
        self.position = self.position + 1;
    }

    fn skip_whitespace(&mut self)
        requires
            old(self).position <= old(self).input@.len(),
        ensures
            final(self).input@ == old(self).input@,
            final(self).position == skip_spaces(old(self).input@, old(self).position as int),
            final(self).position <= final(self).input@.len(),
    {
        let ghost s = self.input@;
        while self.position < self.input.len() && is_space_exec(self.input[self.position])
            invariant
                self.input@ == s,
                s == old(self).input@,
                self.position <= s.len(),
                skip_spaces(s, self.position as int) == skip_spaces(s, old(self).position as int),
            decreases s.len() - self.position,
        {
            self.position = self.position + 1;
        }
    }

    fn skip_comment(&mut self)
        requires
            comment_at(old(self).input@, old(self).position as int),
        ensures
            final(self).input@ == old(self).input@,
            final(self).position == comment_end(old(self).input@, old(self).position as int),
            old(self).position < final(self).position <= final(self).input@.len(),
    {
        // The length read bounds the view's length for the position moves.
        let n: usize = self.input.len();
        let ghost s = self.input@;
        let ghost p0 = self.position as int;
        if self.input[self.position + 1] == '/' {
            proof {
                lemma_line_end(s, p0);
            }
            while self.position < self.input.len() && self.input[self.position] != '\n'
                invariant
                    self.input@ == s,
                    s == old(self).input@,
                    p0 == old(self).position as int,
                    p0 <= self.position <= s.len(),
                    line_end(s, self.position as int) == line_end(s, p0),
                decreases s.len() - self.position,
            {
                self.position = self.position + 1;
            }
        } else {
            self.position = self.position + 2;
            proof {
                lemma_block_end(s, p0 + 2);
            }
            while self.position < self.input.len() && !(self.input[self.position] == '*'
                && self.position + 1 < self.input.len() && self.input[self.position + 1] == '/')
                invariant
                    self.input@ == s,
                    s == old(self).input@,
                    p0 == old(self).position as int,
                    comment_at(s, p0),
                    p0 + 2 <= self.position <= s.len(),
                    block_end(s, self.position as int) == block_end(s, p0 + 2),
                decreases s.len() - self.position,
            {
                self.position = self.position + 1;
            }
            if self.position < self.input.len() {
                self.position = self.position + 2;
            }
        }
    }

    fn read_number(&mut self) -> (r: Num)
        requires
            old(self).position <= old(self).input@.len(),
        ensures
            final(self).input@ == old(self).input@,
            final(self).position == number_end(old(self).input@, old(self).position as int),
            final(self).position <= final(self).input@.len(),
            r@ == parse_numeral(
                old(self).input@.subrange(
                    old(self).position as int,
                    number_end(old(self).input@, old(self).position as int),
                ),
            ),
    {
        let ghost s = self.input@;
        let start = self.position;
        while self.position < self.input.len() && (is_digit_exec(self.input[self.position])
            || self.input[self.position] == '.')
            invariant
                self.input@ == s,
                s == old(self).input@,
                start == old(self).position,
                start <= self.position <= s.len(),
                number_end(s, self.position as int) == number_end(s, start as int),
            decreases s.len() - self.position,
        {
            self.position = self.position + 1;
        }
        parse_numeral_run(&self.input, start, self.position)
    }

    fn read_identifier(&mut self) -> (r: String)
        requires
            old(self).position <= old(self).input@.len(),
        ensures
            final(self).input@ == old(self).input@,
            final(self).position == ident_end(old(self).input@, old(self).position as int),
            final(self).position <= final(self).input@.len(),
            r@ == old(self).input@.subrange(
                old(self).position as int,
                ident_end(old(self).input@, old(self).position as int),
            ),
    {
        let ghost s = self.input@;
        let ghost p0 = self.position as int;
        let mut id = String::new();
        while self.position < self.input.len() && is_ident_char_exec(self.input[self.position])
            invariant
                self.input@ == s,
                s == old(self).input@,
                p0 == old(self).position as int,
                p0 <= self.position <= s.len(),
                ident_end(s, self.position as int) == ident_end(s, p0),
                id@ == s.subrange(p0, self.position as int),
            decreases s.len() - self.position,
        {
            push_char(&mut id, self.input[self.position]);
            proof {
                assert(s.subrange(p0, self.position + 1) =~= s.subrange(
                    p0,
                    self.position as int,
                ).push(s[self.position as int]));
            }
            self.position = self.position + 1;
        }
        id
    }

    fn read_string(&mut self) -> (r: String)
        requires
            old(self).position < old(self).input@.len(),
            old(self).input@[old(self).position as int] == '"',
        ensures
            final(self).input@ == old(self).input@,
            final(self).position <= final(self).input@.len(),
            ({
                let s = old(self).input@;
                let e = string_end(s, old(self).position + 1);
                &&& r@ == s.subrange(old(self).position + 1, e)
                &&& final(self).position == if e < s.len() {
                    e + 1
                } else {
                    s.len() as int
                }
            }),
    {
        // The length read bounds the view's length for the position moves.
        let n: usize = self.input.len();
        let ghost s = self.input@;
        let ghost p0 = self.position as int;
        proof {
            lemma_string_end(s, p0 + 1);
        }
        self.position = self.position + 1;
        let mut out = String::new();
        while self.position < self.input.len() && self.input[self.position] != '"'
            invariant
                self.input@ == s,
                s == old(self).input@,
                p0 == old(self).position as int,
                0 <= p0,
                p0 + 1 <= self.position <= s.len(),
                string_end(s, self.position as int) == string_end(s, p0 + 1),
                out@ == s.subrange(p0 + 1, self.position as int),
            decreases s.len() - self.position,
        {
            push_char(&mut out, self.input[self.position]);
            proof {
                assert(s.subrange(p0 + 1, self.position + 1) =~= s.subrange(
                    p0 + 1,
                    self.position as int,
                ).push(s[self.position as int]));
            }
            self.position = self.position + 1;
        }
        if self.position < self.input.len() {
            self.position = self.position + 1;
        }
        out
    }
}

fn classify_run(id: String) -> (r: Token)
    ensures
        r@ == classify(id@),
{
    if id == String::from_str("пусть") {
        Token::Let
    } else if id == String::from_str("функция") || id == String::from_str("фн") {
        Token::Func
    } else if id == String::from_str("если") {
        Token::If
    } else if id == String::from_str("иначе") {
        Token::Else
    } else if id == String::from_str("пока") {
        Token::While
    } else if id == String::from_str("вернуть") {
        Token::Return
    } else if id == String::from_str("истина") {
        Token::True
    } else if id == String::from_str("ложь") {
        Token::False
    } else {
        Token::Ident(id)
    }
}

impl Lexer {
    fn scan_token(&mut self) -> (r: Result<Token, LexError>)
        requires
            old(self).position <= old(self).input@.len(),
        ensures
            final(self).input@ == old(self).input@,
            final(self).position <= final(self).input@.len(),
            old(self).position <= final(self).position,
            match token_at(old(self).input@, old(self).position as int) {
                LexStep::Tok(tv, j) => r matches Ok(t) && t@ == tv && final(self).position == j,
                LexStep::End(_) => r matches Ok(t) && t@ == TokenV::Eof && final(self).position
                    == old(self).position,
                LexStep::Fail(_) => r is Err,
            },
    {
        let ghost s = self.input@;
        if self.position >= self.input.len() {
            return Ok(Token::Eof);
        }
        let c = self.input[self.position];
        if is_digit_exec(c) {
            proof {
                lemma_number_end(s, self.position as int);
            }
            return Ok(Token::Number(self.read_number()));
        }
        if is_ident_start_exec(c) {
            proof {
                lemma_ident_end(s, self.position as int);
            }
            let id = self.read_identifier();
            return Ok(classify_run(id));
        }
        if c == '"' {
            proof {
                lemma_string_end(s, self.position + 1);
            }
            return Ok(Token::StrLit(self.read_string()));
        }
        if c == '+' {
            self.advance();
            return Ok(Token::Plus);
        }
        if c == '-' {
            self.advance();
            return Ok(Token::Minus);
        }
        if c == '*' {
            self.advance();
            return Ok(Token::Star);
        }
        if c == '/' {
            self.advance();
            return Ok(Token::Slash);
        }
        if c == '(' {
            self.advance();
            return Ok(Token::LParen);
        }
        if c == ')' {
            self.advance();
            return Ok(Token::RParen);
        }
        if c == '{' {
            self.advance();
            return Ok(Token::LBrace);
        }
        if c == '}' {
            self.advance();
            return Ok(Token::RBrace);
        }
        if c == ',' {
            self.advance();
            return Ok(Token::Comma);
        }
        if c == ';' {
            self.advance();
            return Ok(Token::Semicolon);
        }
        if c == '=' {
            self.advance();
            if self.position < self.input.len() && self.input[self.position] == '=' {
                self.advance();
                return Ok(Token::Eq);
            }
            return Ok(Token::Assign);
        }
        if c == '!' {
            self.advance();
            if self.position < self.input.len() && self.input[self.position] == '=' {
                self.advance();
                return Ok(Token::Ne);
            }
            return Err(LexError);
        }
        if c == '>' {
            self.advance();
            if self.position < self.input.len() && self.input[self.position] == '=' {
                self.advance();
                return Ok(Token::Ge);
            }
            return Ok(Token::Gt);
        }
        if c == '<' {
            self.advance();
            if self.position < self.input.len() && self.input[self.position] == '=' {
                self.advance();
                return Ok(Token::Le);
            }
            return Ok(Token::Lt);
        }
        Err(LexError)
    }

    /// Scans one token, passing spaces and comments by.
    pub fn next_token(&mut self) -> (r: Result<Token, LexError>)
        requires
            old(self).position <= old(self).input@.len(),
        ensures
            final(self).input@ == old(self).input@,
            final(self).position <= final(self).input@.len(),
            old(self).position <= final(self).position,
            match lex_step(old(self).input@, old(self).position as int) {
                LexStep::Tok(tv, j) => r matches Ok(t) && t@ == tv && final(self).position == j
                    && old(self).position < final(self).position && !(tv is Eof),
                LexStep::End(_) => r matches Ok(t) && t@ == TokenV::Eof,
                LexStep::Fail(_) => r is Err,
            },
    {
        let ghost s = self.input@;
        let ghost p0 = self.position as int;
        proof {
            lemma_skip_all(s, p0);
        }
        self.skip_whitespace();
        proof {
            lemma_skip_spaces(s, p0);
        }
        while self.position < self.input.len() && self.input[self.position] == '/'
            && self.position + 1 < self.input.len() && (self.input[self.position + 1] == '/'
            || self.input[self.position + 1] == '*')
            invariant
                self.input@ == s,
                s == old(self).input@,
                p0 == old(self).position as int,
                p0 <= self.position <= s.len(),
                skip_spaces(s, self.position as int) == self.position as int,
                skip_all(s, self.position as int) == skip_all(s, p0),
            decreases s.len() - self.position,
        {
            let ghost pb = self.position as int;
            proof {
                assert(comment_at(s, pb));
                assert(skip_spaces(s, pb) == pb);
                assert(skip_all(s, pb) == skip_all(s, comment_end(s, pb)));
            }
            self.skip_comment();
            let ghost pc = self.position as int;
            self.skip_whitespace();
            proof {
                lemma_skip_spaces(s, pc);
                let pd = self.position as int;
                assert(skip_spaces(s, pd) == pd);
                assert(skip_spaces(s, pc) == pd);
                assert(skip_all(s, pc) == skip_all(s, pd));
            }
        }
        proof {
            assert(skip_all(s, self.position as int) == self.position as int);
            lemma_token_at(s, self.position as int);
        }
        self.scan_token()
    }

    /// Scans the whole text: every token, ending with exactly one end-of-input
    /// token; a lexical fault gives the fault instead.
    pub fn tokenize(&mut self) -> (r: Result<Vec<Token>, LexError>)
        requires
            old(self).position <= old(self).input@.len(),
        ensures
            match lex_all(old(self).input@, old(self).position as int) {
                Some(tvs) => r matches Ok(ts) && tokens_view(ts@) == tvs,
                None => r is Err,
            },
    {
        let ghost s = self.input@;
        let ghost p0 = self.position as int;
        let mut tokens: Vec<Token> = Vec::new();
        proof {
            lemma_opt_concat_empty(lex_all(s, p0));
            assert(tokens_view(tokens@) =~= Seq::<TokenV>::empty());
        }
        let mut done = false;
        while !done
            invariant
                self.input@ == s,
                s == old(self).input@,
                p0 == old(self).position as int,
                self.position <= s.len(),
                !done ==> opt_concat(tokens_view(tokens@), lex_all(s, self.position as int))
                    == lex_all(s, p0),
                done ==> lex_all(s, p0) == Some(tokens_view(tokens@)),
            decreases s.len() - self.position, (if done { 0int } else { 1int }),
        {
            let ghost pc = self.position as int;
            match self.next_token() {
                Err(e) => {
                    proof {
                        assert(lex_all(s, pc) is None);
                    }
                    return Err(e);
                },
                Ok(t) => {
                    let is_eof = matches!(t, Token::Eof);
                    let ghost tv = t@;
                    proof {
                        assert(is_eof == (tv is Eof));
                    }
                    tokens.push(t);
                    proof {
                        assert(tokens_view(tokens@) =~= tokens_view(tokens@.drop_last()).push(
                            tv,
                        ));
                    }
                    if is_eof {
                        done = true;
                        proof {
                            match lex_step(s, pc) {
                                LexStep::End(_) => {
                                    assert(lex_all(s, pc) == Some(seq![TokenV::Eof]));
                                    assert(tokens_view(tokens@.drop_last()) + seq![TokenV::Eof]
                                        =~= tokens_view(tokens@));
                                },
                                LexStep::Tok(tvx, j) => {
                                    assert(false);
                                },
                                LexStep::Fail(_) => {},
                            }
                        }
                    } else {
                        proof {
                            match lex_step(s, pc) {
                                LexStep::Tok(tvx, j) => {
                                    match lex_all(s, j) {
                                        None => {},
                                        Some(rest) => {
                                            assert(tokens_view(tokens@.drop_last()) + (seq![tvx]
                                                + rest) =~= tokens_view(tokens@) + rest);
                                        },
                                    }
                                },
                                LexStep::End(_) => {
                                    assert(false);
                                },
                                LexStep::Fail(_) => {},
                            }
                        }
                    }
                },
            }
        }
        Ok(tokens)
    }
}


/// The scan is total on fault-free text and ends with exactly one
/// end-of-input token: it stands last, and nowhere else.
pub proof fn lemma_tokenize_ends_with_eof(s: Seq<char>)
    ensures
        spec_tokenize(s) matches Some(tvs) ==> tvs.len() >= 1 && tvs.last() == TokenV::Eof
            && forall|i: int| 0 <= i < tvs.len() - 1 ==> !((#[trigger] tvs[i]) is Eof),
{
    lemma_lex_all_eof(s, 0);
}

proof fn lemma_lex_all_eof(s: Seq<char>, p: int)
    ensures
        lex_all(s, p) matches Some(tvs) ==> tvs.len() >= 1 && tvs.last() == TokenV::Eof
            && forall|i: int| 0 <= i < tvs.len() - 1 ==> !((#[trigger] tvs[i]) is Eof),
    decreases s.len() - p,
{
    if 0 <= p <= s.len() {
        lemma_skip_all(s, p);
        lemma_token_at(s, skip_all(s, p));
        match lex_step(s, p) {
            LexStep::End(_) => {},
            LexStep::Fail(_) => {},
            LexStep::Tok(t, j) => {
                lemma_lex_all_eof(s, j);
                match lex_all(s, j) {
                    None => {},
                    Some(rest) => {
                        let tvs = seq![t] + rest;
                        assert(tvs.last() == rest.last());
                        assert forall|i: int| 0 <= i < tvs.len() - 1 implies !((
                        #[trigger] tvs[i]) is Eof) by {
                            if i > 0 {
                                assert(tvs[i] == rest[i - 1]);
                            }
                        }
                    },
                }
            },
        }
    }
}

} // verus!
