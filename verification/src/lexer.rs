//! The lexer: turns source text into a vector of span-tagged tokens, or the
//! full list of lexical errors found in one scan. Its result is proved equal
//! to the mathematical model in `lex_model`, so lexing is a function of the
//! input text alone.

use vstd::prelude::*;

use vstd::string::StrSliceExecFns;
use vstd::string::StringExecFns;
use vstd::utf8::{char_is_scalar, encode_scalar};

use crate::ast::RealText;
use crate::intern::{intern_str, intern_text};
use crate::lex_model::{
    byte_at, byte_len, classify_model, digits_val, escape_char, has_real_marker, ident_end,
    is_digit_char, is_ident_char, is_ident_start_char, is_real_marker, is_ws_char, keyword_token,
    lemma_byte_at_mono, lemma_byte_at_step, lemma_digits_val_prefix, lemma_num_end_bounds,
    lemma_lex_step_bounds, lemma_skip_ws_bounds, lex_all, lex_from, lex_step, num_end,
    quote_resync, scan_char_lit, scan_number, skip_ws, ErrModel, TokModel,
};
use crate::span::{SourceId, Span, Spanned};

verus! {

// ---------------------------------------------------------------------------
// Tokens and lexical errors
// ---------------------------------------------------------------------------
/// The terminal alphabet: reserved words, punctuation, literal carriers, an
/// interned identifier, and the single end-of-input sentinel.
#[derive(Debug, Clone, Copy, PartialEq)]
pub enum Token {
    KwFun,
    KwInt,
    KwBool,
    KwReal,
    KwChar,
    KwUnit,
    KwVal,
    KwLet,
    KwIn,
    KwEnd,
    KwIf,
    KwThen,
    KwElse,
    KwNot,
    KwMut,
    KwWhile,
    KwDo,
    KwMod,
    KwDiv,
    Comma,
    Cons,
    Eq,
    NotEq,
    Colon,
    ColonEq,
    LParen,
    RParen,
    Gt,
    GtEq,
    Less,
    LessEq,
    AndAnd,
    Or,
    And,
    Tilde,
    Plus,
    Minus,
    Star,
    Real(RealText),
    Int(usize),
    Bool(bool),
    Char(char),
    Ident(internment::Intern<String>),
    Eof,
}

/// The model value a token stands for: the same token with interned payloads
/// replaced by their texts.
pub open spec fn tok_model(t: Token) -> TokModel {
    match t {
        Token::KwFun => TokModel::KwFun,
        Token::KwInt => TokModel::KwInt,
        Token::KwBool => TokModel::KwBool,
        Token::KwReal => TokModel::KwReal,
        Token::KwChar => TokModel::KwChar,
        Token::KwUnit => TokModel::KwUnit,
        Token::KwVal => TokModel::KwVal,
        Token::KwLet => TokModel::KwLet,
        Token::KwIn => TokModel::KwIn,
        Token::KwEnd => TokModel::KwEnd,
        Token::KwIf => TokModel::KwIf,
        Token::KwThen => TokModel::KwThen,
        Token::KwElse => TokModel::KwElse,
        Token::KwNot => TokModel::KwNot,
        Token::KwMut => TokModel::KwMut,
        Token::KwWhile => TokModel::KwWhile,
        Token::KwDo => TokModel::KwDo,
        Token::KwMod => TokModel::KwMod,
        Token::KwDiv => TokModel::KwDiv,
        Token::Comma => TokModel::Comma,
        Token::Cons => TokModel::Cons,
        Token::Eq => TokModel::Eq,
        Token::NotEq => TokModel::NotEq,
        Token::Colon => TokModel::Colon,
        Token::ColonEq => TokModel::ColonEq,
        Token::LParen => TokModel::LParen,
        Token::RParen => TokModel::RParen,
        Token::Gt => TokModel::Gt,
        Token::GtEq => TokModel::GtEq,
        Token::Less => TokModel::Less,
        Token::LessEq => TokModel::LessEq,
        Token::AndAnd => TokModel::AndAnd,
        Token::Or => TokModel::Or,
        Token::And => TokModel::And,
        Token::Tilde => TokModel::Tilde,
        Token::Plus => TokModel::Plus,
        Token::Minus => TokModel::Minus,
        Token::Star => TokModel::Star,
        Token::Real(r) => TokModel::Real(r@),
        Token::Int(n) => TokModel::Int(n),
        Token::Bool(b) => TokModel::Bool(b),
        Token::Char(c) => TokModel::Char(c),
        Token::Ident(i) => TokModel::Ident(intern_text(i)),
        Token::Eof => TokModel::Eof,
    }
}

/// A lexical error. `InvalidInt` and `InvalidFloat` carry the offending
/// lexeme.
#[derive(Debug, Clone, PartialEq)]
pub enum LexError {
    InvalidInt(String),
    InvalidFloat(String),
    EmptyChar,
    MultiChar,
    UnknownEscape(char),
    UnterminatedChar,
    InvalidNumberChar,
    InvalidToken,
}

impl Default for LexError {
    fn default() -> (e: Self)
        ensures
            e == LexError::InvalidToken,
    {
        LexError::InvalidToken
    }
}

impl LexError {
    pub open spec fn code_spec(&self) -> Seq<char> {
        match self {
            LexError::InvalidInt(_) => "lex::invalid_int"@,
            LexError::InvalidFloat(_) => "lex::invalid_float"@,
            LexError::EmptyChar => "lex::empty_char"@,
            LexError::MultiChar => "lex::multi_char"@,
            LexError::UnknownEscape(_) => "lex::unknown_escape"@,
            LexError::UnterminatedChar => "lex::unterminated_char"@,
            LexError::InvalidNumberChar => "lex::invalid_number_char"@,
            LexError::InvalidToken => "lex::invalid_token"@,
        }
    }

    /// The short machine code that diagnostics expose for this error.
    pub fn code(&self) -> (s: &'static str)
        ensures
            s@ == self.code_spec(),
    {
        match self {
            LexError::InvalidInt(_) => "lex::invalid_int",
            LexError::InvalidFloat(_) => "lex::invalid_float",
            LexError::EmptyChar => "lex::empty_char",
            LexError::MultiChar => "lex::multi_char",
            LexError::UnknownEscape(_) => "lex::unknown_escape",
            LexError::UnterminatedChar => "lex::unterminated_char",
            LexError::InvalidNumberChar => "lex::invalid_number_char",
            LexError::InvalidToken => "lex::invalid_token",
        }
    }
}

/// The model value an error stands for.
pub open spec fn err_model(e: LexError) -> ErrModel {
    match e {
        LexError::InvalidInt(s) => ErrModel::InvalidInt(s@),
        LexError::InvalidFloat(s) => ErrModel::InvalidFloat(s@),
        LexError::EmptyChar => ErrModel::EmptyChar,
        LexError::MultiChar => ErrModel::MultiChar,
        LexError::UnknownEscape(c) => ErrModel::UnknownEscape(c),
        LexError::UnterminatedChar => ErrModel::UnterminatedChar,
        LexError::InvalidNumberChar => ErrModel::InvalidNumberChar,
        LexError::InvalidToken => ErrModel::InvalidToken,
    }
}

/// The model of one step's outcome.
pub open spec fn res_model(r: Result<Token, LexError>) -> Result<TokModel, ErrModel> {
    match r {
        Ok(t) => Ok(tok_model(t)),
        Err(e) => Err(err_model(e)),
    }
}

// ---------------------------------------------------------------------------
// Character helpers
// ---------------------------------------------------------------------------
fn is_ws(c: char) -> (b: bool)
    ensures
        b == is_ws_char(c),
{
    c == ' ' || c == '\t' || c == '\n' || c == '\u{000C}'
}

fn is_digit(c: char) -> (b: bool)
    ensures
        b == is_digit_char(c),
{
    let u = c as u32;
    48 <= u && u <= 57
}

fn is_ident_start(c: char) -> (b: bool)
    ensures
        b == is_ident_start_char(c),
{
    let u = c as u32;
    (97 <= u && u <= 122) || (65 <= u && u <= 90) || c == '_'
}

fn is_ident_cont(c: char) -> (b: bool)
    ensures
        b == is_ident_char(c),
{
    is_ident_start(c) || is_digit(c)
}

/// Number of bytes the UTF-8 encoding of `c` takes.
fn utf8_len(c: char) -> (n: usize)
    ensures
        n == encode_scalar(c as u32).len(),
{
    proof {
        char_is_scalar(c);
    }
    let u = c as u32;
    if u < 0x80 {
        1
    } else if u < 0x800 {
        2
    } else if u < 0x10000 {
        3
    } else {
        4
    }
}

/// The characters of a string, in order.
fn chars_of(s: &str) -> (v: Vec<char>)
    ensures
        v@ == s@,
{
    let n = s.unicode_len();
    let mut v: Vec<char> = Vec::new();
    let mut i: usize = 0;
    while i < n
        invariant
            i <= n,
            n == s@.len(),
            v@ =~= s@.take(i as int),
        decreases n - i,
    {
        v.push(s.get_char(i));
        i = i + 1;
        proof {
            assert(v@ =~= s@.take(i as int));
        }
    }
    proof {
        assert(s@.take(n as int) =~= s@);
    }
    v
}

/// Compares a character range against a literal.
fn slice_eq_str(v: &Vec<char>, lo: usize, hi: usize, lit: &str) -> (r: bool)
    requires
        lo <= hi <= v@.len(),
    ensures
        r == (v@.subrange(lo as int, hi as int) == lit@),
{
    let n = lit.unicode_len();
    if hi - lo != n {
        proof {
            assert(v@.subrange(lo as int, hi as int).len() != lit@.len());
        }
        return false;
    }
    let mut k: usize = 0;
    while k < n
        invariant
            k <= n,
            n == lit@.len(),
            n == hi - lo,
            lo <= hi <= v@.len(),
            forall|m: int| 0 <= m < k ==> v@[lo + m] == lit@[m],
        decreases n - k,
    {
        if v[lo + k] != lit.get_char(k) {
            proof {
                assert(v@.subrange(lo as int, hi as int)[k as int] != lit@[k as int]);
            }
            return false;
        }
        k = k + 1;
    }
    proof {
        assert(v@.subrange(lo as int, hi as int) =~= lit@);
    }
    true
}

// ---------------------------------------------------------------------------
// The lexer
// ---------------------------------------------------------------------------
/// Lexer state: the source text, the cursor as a character index, and the
/// cursor's byte offset, kept in step with it.
pub struct Lexer {
    src_id: SourceId,
    src: String,
    chars: Vec<char>,
    idx: usize,
    pos: usize,
    byte_len: usize,
}

impl Lexer {
    /// The input as a character sequence.
    pub closed spec fn input(&self) -> Seq<char> {
        self.chars@
    }

    /// The source the input came from.
    pub closed spec fn source(&self) -> SourceId {
        self.src_id
    }

    /// The cursor, as a character index into the input.
    pub closed spec fn cursor(&self) -> int {
        self.idx as int
    }

    /// Internal consistency: the stored string, character vector, byte
    /// offset and byte length all describe the same text.
    pub closed spec fn wf(&self) -> bool {
        &&& self.chars@ == self.src@
        &&& self.idx <= self.chars@.len()
        &&& self.pos == byte_at(self.chars@, self.idx as int)
        &&& self.byte_len == byte_len(self.chars@)
    }

    /// A freshly built lexer: consistent and at the start of the input.
    pub open spec fn ready(&self) -> bool {
        self.wf() && self.cursor() == 0
    }

    pub fn new(src_id: SourceId, input: &str) -> (lx: Lexer)
        ensures
            lx.ready(),
            lx.input() == input@,
            lx.source() == src_id,
    {
        let src = String::from_str(input);
        let chars = chars_of(input);
        let bytes = input.as_bytes();
        let byte_len = bytes.len();
        proof {
            vstd::slice::axiom_spec_len(bytes);
            assert(chars@.take(0) =~= Seq::<char>::empty());
            assert(byte_at(chars@, 0) == 0);
        }
        Lexer { src_id, src, chars, idx: 0, pos: 0, byte_len }
    }

    /// The current character and its byte offset, without consuming it.
    fn peek(&self) -> (r: Option<(usize, char)>)
        requires
            self.wf(),
        ensures
            self.cursor() < self.input().len() ==> r == Some(
                (byte_at(self.input(), self.cursor()) as usize, self.input()[self.cursor()]),
            ),
            self.cursor() >= self.input().len() ==> r is None,
    {
        if self.idx < self.chars.len() {
            Some((self.pos, self.chars[self.idx]))
        } else {
            None
        }
    }

    /// The current character, without consuming it.
    fn peek_char(&self) -> (r: Option<char>)
        requires
            self.wf(),
        ensures
            self.cursor() < self.input().len() ==> r == Some(self.input()[self.cursor()]),
            self.cursor() >= self.input().len() ==> r is None,
    {
        if self.idx < self.chars.len() {
            Some(self.chars[self.idx])
        } else {
            None
        }
    }

    /// Consumes the current character, returning it with its byte offset.
    fn next_char(&mut self) -> (r: Option<(usize, char)>)
        requires
            old(self).wf(),
        ensures
            final(self).wf(),
            final(self).input() == old(self).input(),
            final(self).source() == old(self).source(),
            old(self).cursor() < old(self).input().len() ==> {
                &&& r == Some(
                    (
                        byte_at(old(self).input(), old(self).cursor()) as usize,
                        old(self).input()[old(self).cursor()],
                    ),
                )
                &&& final(self).cursor() == old(self).cursor() + 1
            },
            old(self).cursor() >= old(self).input().len() ==> r is None && final(self).cursor()
                == old(self).cursor(),
    {
        if self.idx < self.chars.len() {
            let c = self.chars[self.idx];
            let p = self.pos;
            let step = utf8_len(c);
            proof {
                lemma_byte_at_step(self.chars@, self.idx as int);
                lemma_byte_at_mono(self.chars@, self.idx as int + 1, self.chars@.len() as int);
            }
            self.pos = self.pos + step;
            self.idx = self.idx + 1;
            Some((p, c))
        } else {
            None
        }
    }

    /// Skips to the next non-whitespace character.
    fn skip_whitespace(&mut self)
        requires
            old(self).wf(),
        ensures
            final(self).wf(),
            final(self).input() == old(self).input(),
            final(self).source() == old(self).source(),
            final(self).cursor() == skip_ws(old(self).input(), old(self).cursor()),
    {
        loop
            invariant
                self.wf(),
                self.input() == old(self).input(),
                self.source() == old(self).source(),
                skip_ws(self.input(), self.cursor()) == skip_ws(
                    old(self).input(),
                    old(self).cursor(),
                ),
            decreases self.input().len() - self.cursor(),
        {
            if self.idx < self.chars.len() && is_ws(self.chars[self.idx]) {
                let _ = self.next_char();
            } else {
                return ;
            }
        }
    }

    /// Skips past the next closing quote, or to the next whitespace or the
    /// end of input, after a malformed character literal.
    fn resync_quote(&mut self)
        requires
            old(self).wf(),
        ensures
            final(self).wf(),
            final(self).input() == old(self).input(),
            final(self).source() == old(self).source(),
            final(self).cursor() == quote_resync(old(self).input(), old(self).cursor()),
    {
        loop
            invariant
                self.wf(),
                self.input() == old(self).input(),
                self.source() == old(self).source(),
                quote_resync(self.input(), self.cursor()) == quote_resync(
                    old(self).input(),
                    old(self).cursor(),
                ),
            decreases self.input().len() - self.cursor(),
        {
            if self.idx >= self.chars.len() {
                return ;
            }
            let c = self.chars[self.idx];
            if c == '\'' {
                let _ = self.next_char();
                return ;
            }
            if is_ws(c) {
                return ;
            }
            let _ = self.next_char();
        }
    }

    /// Lexes `:` and its two-character forms `::` and `:=`.
    fn lex_colon(&mut self) -> (r: Result<Token, LexError>)
        requires
            old(self).wf(),
            old(self).cursor() < old(self).input().len(),
            old(self).input()[old(self).cursor()] == ':',
        ensures
            final(self).wf(),
            final(self).input() == old(self).input(),
            final(self).source() == old(self).source(),
            (res_model(r), final(self).cursor()) == lex_step(old(self).input(), old(self).cursor()),
    {
        let _ = self.next_char();
        match self.peek_char() {
            Some(':') => {
                let _ = self.next_char();
                Ok(Token::Cons)
            },
            Some('=') => {
                let _ = self.next_char();
                Ok(Token::ColonEq)
            },
            _ => Ok(Token::Colon),
        }
    }

    /// Lexes `<`, `<>` and `<=`.
    fn lex_less(&mut self) -> (r: Result<Token, LexError>)
        requires
            old(self).wf(),
            old(self).cursor() < old(self).input().len(),
            old(self).input()[old(self).cursor()] == '<',
        ensures
            final(self).wf(),
            final(self).input() == old(self).input(),
            final(self).source() == old(self).source(),
            (res_model(r), final(self).cursor()) == lex_step(old(self).input(), old(self).cursor()),
    {
        let _ = self.next_char();
        match self.peek_char() {
            Some('>') => {
                let _ = self.next_char();
                Ok(Token::NotEq)
            },
            Some('=') => {
                let _ = self.next_char();
                Ok(Token::LessEq)
            },
            _ => Ok(Token::Less),
        }
    }

    /// Lexes `>` and `>=`.
    fn lex_gt(&mut self) -> (r: Result<Token, LexError>)
        requires
            old(self).wf(),
            old(self).cursor() < old(self).input().len(),
            old(self).input()[old(self).cursor()] == '>',
        ensures
            final(self).wf(),
            final(self).input() == old(self).input(),
            final(self).source() == old(self).source(),
            (res_model(r), final(self).cursor()) == lex_step(old(self).input(), old(self).cursor()),
    {
        let _ = self.next_char();
        match self.peek_char() {
            Some('=') => {
                let _ = self.next_char();
                Ok(Token::GtEq)
            },
            _ => Ok(Token::Gt),
        }
    }

    /// Lexes the borrow introducer `&` and the conjunction `&&`.
    fn lex_and(&mut self) -> (r: Result<Token, LexError>)
        requires
            old(self).wf(),
            old(self).cursor() < old(self).input().len(),
            old(self).input()[old(self).cursor()] == '&',
        ensures
            final(self).wf(),
            final(self).input() == old(self).input(),
            final(self).source() == old(self).source(),
            (res_model(r), final(self).cursor()) == lex_step(old(self).input(), old(self).cursor()),
    {
        let _ = self.next_char();
        match self.peek_char() {
            Some('&') => {
                let _ = self.next_char();
                Ok(Token::AndAnd)
            },
            _ => Ok(Token::And),
        }
    }

    /// Lexes `||`; a lone `|` is not a token.
    fn lex_or(&mut self) -> (r: Result<Token, LexError>)
        requires
            old(self).wf(),
            old(self).cursor() < old(self).input().len(),
            old(self).input()[old(self).cursor()] == '|',
        ensures
            final(self).wf(),
            final(self).input() == old(self).input(),
            final(self).source() == old(self).source(),
            (res_model(r), final(self).cursor()) == lex_step(old(self).input(), old(self).cursor()),
    {
        let _ = self.next_char();
        match self.peek_char() {
            Some('|') => {
                let _ = self.next_char();
                Ok(Token::Or)
            },
            _ => Err(LexError::InvalidToken),
        }
    }

    /// Lexes a character literal: one scalar or an escape between single
    /// quotes. A malformed literal resynchronizes past the next closing
    /// quote, or at the next whitespace or end of input.
    fn lex_char_literal(&mut self) -> (r: Result<Token, LexError>)
        requires
            old(self).wf(),
            old(self).cursor() < old(self).input().len(),
            old(self).input()[old(self).cursor()] == '\'',
        ensures
            final(self).wf(),
            final(self).input() == old(self).input(),
            final(self).source() == old(self).source(),
            (res_model(r), final(self).cursor()) == scan_char_lit(
                old(self).input(),
                old(self).cursor(),
            ),
    {
        let _ = self.next_char();
        let c = match self.next_char() {
            None => {
                return Err(LexError::UnterminatedChar);
            },
            Some((_, c)) => c,
        };
        if c == '\'' {
            return Err(LexError::EmptyChar);
        }
        let payload: char;
        if c == '\\' {
            let esc = match self.next_char() {
                None => {
                    return Err(LexError::UnterminatedChar);
                },
                Some((_, e)) => e,
            };
            payload = match esc {
                '\'' => '\'',
                '"' => '"',
                '\\' => '\\',
                'n' => '\n',
                'r' => '\r',
                't' => '\t',
                '0' => '\u{0000}',
                _ => {
                    self.resync_quote();
                    return Err(LexError::UnknownEscape(esc));
                },
            };
        } else {
            payload = c;
        }
        match self.peek_char() {
            None => Err(LexError::UnterminatedChar),
            Some(q) => {
                if q == '\'' {
                    let _ = self.next_char();
                    Ok(Token::Char(payload))
                } else {
                    self.resync_quote();
                    Err(LexError::MultiChar)
                }
            },
        }
    }

    /// Lexes a number: a maximal run of digits with at most one dot and one
    /// exponent part. A run with a dot or exponent is a real literal; a plain
    /// run is a natural number, with overflow reported as an error.
    fn lex_number(&mut self) -> (r: Result<Token, LexError>)
        requires
            old(self).wf(),
            old(self).cursor() < old(self).input().len(),
            is_digit_char(old(self).input()[old(self).cursor()]) || old(self).input()[old(
                self,
            ).cursor()] == '.',
        ensures
            final(self).wf(),
            final(self).input() == old(self).input(),
            final(self).source() == old(self).source(),
            (res_model(r), final(self).cursor()) == scan_number(
                old(self).input(),
                old(self).cursor(),
            ),
    {
        let ghost inp = self.input();
        let ghost i0 = self.cursor();
        let start_idx = self.idx;
        let mut has_dot = false;
        let mut has_exp = false;
        loop
            invariant
                self.wf(),
                self.input() == inp,
                self.source() == old(self).source(),
                i0 <= self.cursor() <= inp.len(),
                start_idx == i0,
                num_end(inp, self.cursor(), has_dot, has_exp) == num_end(inp, i0, false, false),
                (has_dot || has_exp) == exists|m: int|
                    i0 <= m < self.cursor() && is_real_marker(#[trigger] inp[m]),
                !(has_dot || has_exp) ==> forall|m: int|
                    i0 <= m < self.cursor() ==> is_digit_char(#[trigger] inp[m]),
            ensures
                num_end(inp, self.cursor(), has_dot, has_exp) == self.cursor(),
            decreases inp.len() - self.cursor(),
        {
            match self.peek_char() {
                None => {
                    break ;
                },
                Some(c) => {
                    if is_digit(c) {
                        let _ = self.next_char();
                    } else if c == '.' && !has_dot && !has_exp {
                        has_dot = true;
                        let _ = self.next_char();
                    } else if (c == 'e' || c == 'E') && !has_exp {
                        has_dot = true;
                        has_exp = true;
                        let _ = self.next_char();
                        match self.peek_char() {
                            Some(c2) => {
                                if c2 == '+' || c2 == '-' {
                                    let _ = self.next_char();
                                }
                            },
                            None => {},
                        }
                    } else {
                        break ;
                    }
                },
            }
        }
        let end_idx = self.idx;
        proof {
            if is_digit_char(inp[i0]) {
                lemma_num_end_bounds(inp, i0 + 1, false, false);
            } else {
                lemma_num_end_bounds(inp, i0 + 1, true, false);
            }
            assert(i0 < end_idx);
        }
        let ghost lx = inp.subrange(i0, end_idx as int);
        let text = self.src.as_str().substring_char(start_idx, end_idx);
        if has_dot || has_exp {
            proof {
                let m = choose|m: int| i0 <= m < end_idx && is_real_marker(#[trigger] inp[m]);
                assert(lx[m - i0] == inp[m]);
                assert(has_real_marker(lx));
                assert(lx.last() == inp[end_idx - 1]);
            }
            let lastc = self.chars[end_idx - 1];
            if lastc == 'e' || lastc == 'E' || lastc == '+' || lastc == '-' {
                Err(LexError::InvalidFloat(text.to_owned()))
            } else {
                Ok(Token::Real(RealText::new(text)))
            }
        } else {
            proof {
                assert(forall|m: int| 0 <= m < lx.len() ==> is_digit_char(#[trigger] lx[m]));
                if has_real_marker(lx) {
                    let m = choose|m: int| 0 <= m < lx.len() && is_real_marker(#[trigger] lx[m]);
                    assert(is_real_marker(inp[i0 + m]));
                }
            }
            match parse_digits(&self.chars, start_idx, end_idx) {
                Some(n) => Ok(Token::Int(n)),
                None => Err(LexError::InvalidInt(text.to_owned())),
            }
        }
    }

    /// Lexes an identifier and reclassifies reserved words through the
    /// keyword table.
    fn lex_ident(&mut self) -> (r: Result<Token, LexError>)
        requires
            old(self).wf(),
            old(self).cursor() < old(self).input().len(),
            is_ident_start_char(old(self).input()[old(self).cursor()]),
        ensures
            final(self).wf(),
            final(self).input() == old(self).input(),
            final(self).source() == old(self).source(),
            final(self).cursor() == ident_end(old(self).input(), old(self).cursor()),
            r == Ok::<Token, LexError>(r->Ok_0),
            tok_model(r->Ok_0) == classify_model(
                old(self).input().subrange(
                    old(self).cursor(),
                    ident_end(old(self).input(), old(self).cursor()),
                ),
            ),
    {
        let ghost inp = self.input();
        let ghost i0 = self.cursor();
        let start_idx = self.idx;
        loop
            invariant
                self.wf(),
                self.input() == inp,
                self.source() == old(self).source(),
                i0 <= self.cursor() <= inp.len(),
                ident_end(inp, self.cursor()) == ident_end(inp, i0),
            ensures
                ident_end(inp, self.cursor()) == self.cursor(),
            decreases inp.len() - self.cursor(),
        {
            match self.peek_char() {
                None => {
                    break ;
                },
                Some(c) => {
                    if is_ident_cont(c) {
                        let _ = self.next_char();
                    } else {
                        break ;
                    }
                },
            }
        }
        Ok(self.classify_ident(start_idx, self.idx))
    }

    /// Maps an identifier lexeme to its keyword token, a boolean literal, or
    /// an interned identifier.
    fn classify_ident(&self, lo: usize, hi: usize) -> (t: Token)
        requires
            self.wf(),
            lo <= hi <= self.input().len(),
        ensures
            tok_model(t) == classify_model(self.input().subrange(lo as int, hi as int)),
    {
        if slice_eq_str(&self.chars, lo, hi, "fun") {
            Token::KwFun
        } else if slice_eq_str(&self.chars, lo, hi, "int") {
            Token::KwInt
        } else if slice_eq_str(&self.chars, lo, hi, "bool") {
            Token::KwBool
        } else if slice_eq_str(&self.chars, lo, hi, "real") {
            Token::KwReal
        } else if slice_eq_str(&self.chars, lo, hi, "char") {
            Token::KwChar
        } else if slice_eq_str(&self.chars, lo, hi, "unit") {
            Token::KwUnit
        } else if slice_eq_str(&self.chars, lo, hi, "true") {
            Token::Bool(true)
        } else if slice_eq_str(&self.chars, lo, hi, "false") {
            Token::Bool(false)
        } else if slice_eq_str(&self.chars, lo, hi, "val") {
            Token::KwVal
        } else if slice_eq_str(&self.chars, lo, hi, "let") {
            Token::KwLet
        } else if slice_eq_str(&self.chars, lo, hi, "in") {
            Token::KwIn
        } else if slice_eq_str(&self.chars, lo, hi, "end") {
            Token::KwEnd
        } else if slice_eq_str(&self.chars, lo, hi, "if") {
            Token::KwIf
        } else if slice_eq_str(&self.chars, lo, hi, "then") {
            Token::KwThen
        } else if slice_eq_str(&self.chars, lo, hi, "else") {
            Token::KwElse
        } else if slice_eq_str(&self.chars, lo, hi, "not") {
            Token::KwNot
        } else if slice_eq_str(&self.chars, lo, hi, "mut") {
            Token::KwMut
        } else if slice_eq_str(&self.chars, lo, hi, "do") {
            Token::KwDo
        } else if slice_eq_str(&self.chars, lo, hi, "while") {
            Token::KwWhile
        } else if slice_eq_str(&self.chars, lo, hi, "mod") {
            Token::KwMod
        } else if slice_eq_str(&self.chars, lo, hi, "div") {
            Token::KwDiv
        } else {
            let text = self.src.as_str().substring_char(lo, hi);
            Token::Ident(intern_str(text))
        }
    }
}

/// The executable tokens stand for the model tokens entry by entry: same
/// token value, and a span with the model's byte offsets in the given source.
pub open spec fn toks_match(
    toks: Seq<(Token, Span)>,
    mtoks: Seq<(TokModel, int, int)>,
    src: SourceId,
) -> bool {
    &&& toks.len() == mtoks.len()
    &&& forall|k: int|
        0 <= k < toks.len() ==> {
            &&& tok_model((#[trigger] toks[k]).0) == mtoks[k].0
            &&& toks[k].1.src == src
            &&& toks[k].1.start == mtoks[k].1
            &&& toks[k].1.end == mtoks[k].2
        }
}

/// As `toks_match`, for the error list.
pub open spec fn errs_match(
    errs: Seq<(LexError, Span)>,
    merrs: Seq<(ErrModel, int, int)>,
    src: SourceId,
) -> bool {
    &&& errs.len() == merrs.len()
    &&& forall|k: int|
        0 <= k < errs.len() ==> {
            &&& err_model((#[trigger] errs[k]).0) == merrs[k].0
            &&& errs[k].1.src == src
            &&& errs[k].1.start == merrs[k].1
            &&& errs[k].1.end == merrs[k].2
        }
}

/// The lexer's whole contract: the run succeeded exactly when the model finds
/// no error, and the returned tokens (or errors) stand for the model's values
/// at the model's byte spans.
pub open spec fn lex_result_ok(
    input: Seq<char>,
    src: SourceId,
    r: Result<Vec<Spanned<Token>>, Vec<Spanned<LexError>>>,
) -> bool {
    let (mtoks, merrs) = lex_all(input);
    match r {
        Ok(toks) => merrs.len() == 0 && toks_match(toks@, mtoks, src),
        Err(errs) => merrs.len() > 0 && errs_match(errs@, merrs, src),
    }
}

/// Lexing is idempotent: any two results that meet the lexer's contract on
/// the same input agree — same outcome, and token for token (or error for
/// error) the same model value at the same span.
pub proof fn lemma_lex_idempotent(
    input: Seq<char>,
    src: SourceId,
    r1: Result<Vec<Spanned<Token>>, Vec<Spanned<LexError>>>,
    r2: Result<Vec<Spanned<Token>>, Vec<Spanned<LexError>>>,
)
    requires
        lex_result_ok(input, src, r1),
        lex_result_ok(input, src, r2),
    ensures
        r1 is Ok <==> r2 is Ok,
        r1 is Ok ==> {
            let t1 = r1->Ok_0@;
            let t2 = r2->Ok_0@;
            t1.len() == t2.len() && forall|k: int|
                0 <= k < t1.len() ==> tok_model((#[trigger] t1[k]).0) == tok_model(t2[k].0)
                    && t1[k].1 == t2[k].1
        },
        r1 is Err ==> {
            let e1 = r1->Err_0@;
            let e2 = r2->Err_0@;
            e1.len() == e2.len() && forall|k: int|
                0 <= k < e1.len() ==> err_model((#[trigger] e1[k]).0) == err_model(e2[k].0)
                    && e1[k].1 == e2[k].1
        },
{
}

impl Lexer {
    /// Scans the whole input. On success the tokens come in source order and
    /// end with the single `Eof` token; on failure every lexical error found
    /// in the scan is returned. Both outcomes are exactly what the model
    /// `lex_all` assigns to the input, so the result is a function of the
    /// input text alone.
    pub fn tokenize(self) -> (r: Result<Vec<Spanned<Token>>, Vec<Spanned<LexError>>>)
        requires
            self.ready(),
        ensures
            lex_result_ok(self.input(), self.source(), r),
    {
        let ghost inp = self.input();
        let ghost src = self.source();
        let mut lx = self;
        let mut tokens: Vec<(Token, Span)> = Vec::new();
        let mut errors: Vec<(LexError, Span)> = Vec::new();
        let ghost mut gtoks: Seq<(TokModel, int, int)> = Seq::empty();
        let ghost mut gerrs: Seq<(ErrModel, int, int)> = Seq::empty();
        proof {
            assert(gtoks + lex_from(inp, 0).0 =~= lex_from(inp, 0).0);
            assert(gerrs + lex_from(inp, 0).1 =~= lex_from(inp, 0).1);
        }
        loop
            invariant
                lx.wf(),
                lx.input() == inp,
                lx.source() == src,
                0 <= lx.cursor() <= inp.len(),
                toks_match(tokens@, gtoks, src),
                errs_match(errors@, gerrs, src),
                lex_all(inp).0 == gtoks + lex_from(inp, lx.cursor()).0,
                lex_all(inp).1 == gerrs + lex_from(inp, lx.cursor()).1,
            ensures
                lx.cursor() == inp.len(),
            decreases inp.len() - lx.cursor(),
        {
            let ghost i_before = lx.cursor();
            lx.skip_whitespace();
            let ghost j = lx.cursor();
            proof {
                lemma_skip_ws_bounds(inp, i_before);
                assert(lex_from(inp, i_before) == lex_from(inp, j));
            }
            if lx.idx >= lx.chars.len() {
                break ;
            }
            let start_pos = lx.pos;
            let c = lx.chars[lx.idx];
            let res: Result<Token, LexError> = if c == ',' {
                let _ = lx.next_char();
                Ok(Token::Comma)
            } else if c == '~' {
                let _ = lx.next_char();
                Ok(Token::Tilde)
            } else if c == '(' {
                let _ = lx.next_char();
                Ok(Token::LParen)
            } else if c == ')' {
                let _ = lx.next_char();
                Ok(Token::RParen)
            } else if c == '=' {
                let _ = lx.next_char();
                Ok(Token::Eq)
            } else if c == '+' {
                let _ = lx.next_char();
                Ok(Token::Plus)
            } else if c == '-' {
                let _ = lx.next_char();
                Ok(Token::Minus)
            } else if c == '*' {
                let _ = lx.next_char();
                Ok(Token::Star)
            } else if c == ':' {
                lx.lex_colon()
            } else if c == '<' {
                lx.lex_less()
            } else if c == '>' {
                lx.lex_gt()
            } else if c == '&' {
                lx.lex_and()
            } else if c == '|' {
                lx.lex_or()
            } else if c == '\'' {
                lx.lex_char_literal()
            } else if is_digit(c) {
                lx.lex_number()
            } else if c == '.' {
                if lx.idx + 1 < lx.chars.len() && is_digit(lx.chars[lx.idx + 1]) {
                    lx.lex_number()
                } else {
                    let _ = lx.next_char();
                    Err(LexError::InvalidToken)
                }
            } else if is_ident_start(c) {
                lx.lex_ident()
            } else {
                let _ = lx.next_char();
                Err(LexError::InvalidToken)
            };
            let ghost n = lx.cursor();
            proof {
                assert((res_model(res), n) == lex_step(inp, j));
                lemma_lex_step_bounds(inp, j);
            }
            let end_pos = lx.pos;
            let span = Span::new(lx.src_id, start_pos..end_pos);
            proof {
                let step = lex_step(inp, j);
                match step.0 {
                    Ok(t) => {
                        assert(lex_from(inp, j).0 =~= seq![(t, byte_at(inp, j), byte_at(inp, n))]
                            + lex_from(inp, n).0);
                        assert(lex_from(inp, j).1 == lex_from(inp, n).1);
                    },
                    Err(e) => {
                        assert(lex_from(inp, j).1 =~= seq![(e, byte_at(inp, j), byte_at(inp, n))]
                            + lex_from(inp, n).1);
                        assert(lex_from(inp, j).0 == lex_from(inp, n).0);
                    },
                }
            }
            match res {
                Ok(t) => {
                    tokens.push((t, span));
                    proof {
                        gtoks = gtoks + seq![
                            (tok_model(t), start_pos as int, end_pos as int),
                        ];
                        assert(lex_all(inp).0 =~= gtoks + lex_from(inp, n).0);
                    }
                },
                Err(e) => {
                    errors.push((e, span));
                    proof {
                        gerrs = gerrs + seq![
                            (err_model(e), start_pos as int, end_pos as int),
                        ];
                        assert(lex_all(inp).1 =~= gerrs + lex_from(inp, n).1);
                    }
                },
            }
        }
        // At the end of input: emit the single end-of-input token.
        proof {
            assert(inp.take(inp.len() as int) =~= inp);
            assert(byte_at(inp, lx.cursor()) == byte_len(inp));
        }
        let eof_pos = lx.pos;
        tokens.push((Token::Eof, Span::new(lx.src_id, eof_pos..eof_pos)));
        proof {
            gtoks = gtoks + seq![(TokModel::Eof, byte_len(inp), byte_len(inp))];
            assert(lex_all(inp).0 =~= gtoks);
            assert(lex_all(inp).1 =~= gerrs);
        }
        if errors.is_empty() {
            Ok(tokens)
        } else {
            Err(errors)
        }
    }
}

/// Parses a run of decimal digits as a natural number; `None` on overflow.
fn parse_digits(v: &Vec<char>, lo: usize, hi: usize) -> (r: Option<usize>)
    requires
        lo < hi <= v@.len(),
        forall|m: int| lo <= m < hi ==> is_digit_char(#[trigger] v@[m]),
    ensures
        match r {
            Some(n) => n == digits_val(v@.subrange(lo as int, hi as int)),
            None => digits_val(v@.subrange(lo as int, hi as int)) > usize::MAX,
        },
{
    let ghost s = v@.subrange(lo as int, hi as int);
    proof {
        assert(forall|m: int| 0 <= m < s.len() ==> is_digit_char(#[trigger] s[m]));
    }
    let mut acc: usize = 0;
    let mut k: usize = lo;
    while k < hi
        invariant
            lo <= k <= hi <= v@.len(),
            s == v@.subrange(lo as int, hi as int),
            forall|m: int| 0 <= m < s.len() ==> is_digit_char(#[trigger] s[m]),
            forall|m: int| lo <= m < hi ==> is_digit_char(#[trigger] v@[m]),
            acc == digits_val(s.take(k - lo)),
        decreases hi - k,
    {
        let d = ((v[k] as u32) - 48) as usize;
        let step = match acc.checked_mul(10) {
            Some(a) => a.checked_add(d),
            None => None,
        };
        proof {
            assert(s.take(k + 1 - lo).drop_last() =~= s.take(k - lo));
            assert(s.take(k + 1 - lo).last() == v@[k as int]);
        }
        match step {
            Some(a) => {
                acc = a;
            },
            None => {
                proof {
                    assert(digits_val(s.take(k + 1 - lo)) > usize::MAX);
                    lemma_digits_val_prefix(s, k + 1 - lo);
                    assert(s.take(s.len() as int) =~= s);
                }
                return None;
            },
        }
        k = k + 1;
    }
    proof {
        assert(s.take(s.len() as int) =~= s);
    }
    Some(acc)
}

} // verus!
