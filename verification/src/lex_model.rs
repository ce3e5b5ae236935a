//! The mathematical model of lexing: what token or error each stretch of
//! input denotes, and at which byte offsets. The executable lexer is proved
//! to return exactly this model's answer, so lexing is a function of the
//! input text alone.

use vstd::prelude::*;

use vstd::utf8::{encode_scalar, encode_utf8};

verus! {

// ---------------------------------------------------------------------------
// Character classes
// ---------------------------------------------------------------------------
/// Whitespace skipped between tokens: space, tab, newline and form feed.
pub open spec fn is_ws_char(c: char) -> bool {
    c == ' ' || c == '\t' || c == '\n' || c == '\u{000C}'
}

pub open spec fn is_digit_char(c: char) -> bool {
    48 <= c as u32 <= 57
}

/// An identifier may start with an ASCII letter of either case or an
/// underscore.
pub open spec fn is_ident_start_char(c: char) -> bool {
    (97 <= c as u32 <= 122) || (65 <= c as u32 <= 90) || c == '_'
}

pub open spec fn is_ident_char(c: char) -> bool {
    is_ident_start_char(c) || is_digit_char(c)
}

/// A character that makes a number literal a real rather than an integer.
pub open spec fn is_real_marker(c: char) -> bool {
    c == '.' || c == 'e' || c == 'E'
}

pub open spec fn has_real_marker(s: Seq<char>) -> bool {
    exists|j: int| 0 <= j < s.len() && is_real_marker(#[trigger] s[j])
}

// ---------------------------------------------------------------------------
// Byte offsets of character positions
// ---------------------------------------------------------------------------
/// Byte offset of the `i`-th character of `s` under UTF-8 encoding.
pub open spec fn byte_at(s: Seq<char>, i: int) -> int {
    encode_utf8(s.take(i)).len() as int
}

/// Total UTF-8 byte length of `s`.
pub open spec fn byte_len(s: Seq<char>) -> int {
    encode_utf8(s).len() as int
}

pub proof fn lemma_encode_utf8_concat(a: Seq<char>, b: Seq<char>)
    ensures
        encode_utf8(a + b) == encode_utf8(a) + encode_utf8(b),
    decreases a.len(),
{
    if a.len() == 0 {
        assert(a + b =~= b);
        assert(encode_utf8(a) + encode_utf8(b) =~= encode_utf8(b));
    } else {
        assert((a + b)[0] == a[0]);
        assert((a + b).drop_first() =~= a.drop_first() + b);
        lemma_encode_utf8_concat(a.drop_first(), b);
        assert(encode_utf8(a + b) =~= encode_utf8(a) + encode_utf8(b));
    }
}

pub proof fn lemma_scalar_len(c: char)
    ensures
        1 <= encode_scalar(c as u32).len() <= 4,
{
}

pub proof fn lemma_byte_at_step(s: Seq<char>, i: int)
    requires
        0 <= i < s.len(),
    ensures
        byte_at(s, i + 1) == byte_at(s, i) + encode_scalar(s[i] as u32).len(),
{
    assert(s.take(i + 1) =~= s.take(i) + seq![s[i]]);
    lemma_encode_utf8_concat(s.take(i), seq![s[i]]);
    assert(encode_utf8(seq![s[i]]) =~= encode_scalar(s[i] as u32) + encode_utf8(
        seq![s[i]].drop_first(),
    ));
    assert(seq![s[i]].drop_first() =~= Seq::<char>::empty());
    assert(encode_utf8(seq![s[i]]) =~= encode_scalar(s[i] as u32));
}

pub proof fn lemma_byte_at_mono(s: Seq<char>, i: int, j: int)
    requires
        0 <= i <= j <= s.len(),
    ensures
        byte_at(s, i) <= byte_at(s, j),
        byte_at(s, j) <= byte_len(s),
        i < j ==> byte_at(s, i) < byte_at(s, j),
    decreases j - i,
{
    assert(s.take(s.len() as int) =~= s);
    lemma_byte_at_mono_end(s, j);
    if i < j {
        lemma_byte_at_step(s, j - 1);
        lemma_scalar_len(s[j - 1]);
        lemma_byte_at_mono(s, i, j - 1);
    }
}

proof fn lemma_byte_at_mono_end(s: Seq<char>, j: int)
    requires
        0 <= j <= s.len(),
    ensures
        byte_at(s, j) <= byte_len(s),
    decreases s.len() - j,
{
    if j < s.len() {
        lemma_byte_at_step(s, j);
        lemma_scalar_len(s[j]);
        lemma_byte_at_mono_end(s, j + 1);
    } else {
        assert(s.take(s.len() as int) =~= s);
    }
}

// ---------------------------------------------------------------------------
// Token and error models
// ---------------------------------------------------------------------------
/// A token, with identifier and error payloads abstracted to the text they
/// carry. The executable token type maps onto this model.
pub enum TokModel {
    KwFun,
    KwInt,
    KwBool,
    KwReal,
    KwChar,
    KwUnit,
    KwVal,
    KwLet,
    KwIn,
    KwEnd,
    KwIf,
    KwThen,
    KwElse,
    KwNot,
    KwMut,
    KwWhile,
    KwDo,
    KwMod,
    KwDiv,
    Comma,
    Cons,
    Eq,
    NotEq,
    Colon,
    ColonEq,
    LParen,
    RParen,
    Gt,
    GtEq,
    Less,
    LessEq,
    AndAnd,
    Or,
    And,
    Tilde,
    Plus,
    Minus,
    Star,
    Real(Seq<char>),
    Int(usize),
    Bool(bool),
    Char(char),
    Ident(Seq<char>),
    Eof,
}

/// A lexical error, with its text payloads.
pub enum ErrModel {
    InvalidInt(Seq<char>),
    InvalidFloat(Seq<char>),
    EmptyChar,
    MultiChar,
    UnknownEscape(char),
    UnterminatedChar,
    InvalidNumberChar,
    InvalidToken,
}

// ---------------------------------------------------------------------------
// Scanning
// ---------------------------------------------------------------------------
/// First index at or after `i` holding a non-whitespace character.
pub open spec fn skip_ws(s: Seq<char>, i: int) -> int
    decreases s.len() - i when 0 <= i <= s.len()
{
    if i < s.len() && is_ws_char(s[i]) {
        skip_ws(s, i + 1)
    } else {
        i
    }
}

/// First index at or after `i` holding a non-identifier character.
pub open spec fn ident_end(s: Seq<char>, i: int) -> int
    decreases s.len() - i when 0 <= i <= s.len()
{
    if i < s.len() && is_ident_char(s[i]) {
        ident_end(s, i + 1)
    } else {
        i
    }
}

/// End of a maximal number run starting at `i`: digits, at most one dot, and
/// at most one exponent part `e`/`E` with an optional sign right after it.
pub open spec fn num_end(s: Seq<char>, i: int, has_dot: bool, has_exp: bool) -> int
    decreases s.len() - i when 0 <= i <= s.len()
{
    if i >= s.len() {
        i
    } else if is_digit_char(s[i]) {
        num_end(s, i + 1, has_dot, has_exp)
    } else if s[i] == '.' && !has_dot && !has_exp {
        num_end(s, i + 1, true, has_exp)
    } else if (s[i] == 'e' || s[i] == 'E') && !has_exp {
        if i + 1 < s.len() && (s[i + 1] == '+' || s[i + 1] == '-') {
            num_end(s, i + 2, true, true)
        } else {
            num_end(s, i + 1, true, true)
        }
    } else {
        i
    }
}

/// Value of a run of decimal digits, most significant first.
pub open spec fn digits_val(s: Seq<char>) -> int
    decreases s.len(),
{
    if s.len() == 0 {
        0
    } else {
        digits_val(s.drop_last()) * 10 + (s.last() as u32 - 48)
    }
}

pub proof fn lemma_digits_val_nonneg(s: Seq<char>)
    requires
        forall|m: int| 0 <= m < s.len() ==> is_digit_char(#[trigger] s[m]),
    ensures
        digits_val(s) >= 0,
    decreases s.len(),
{
    if s.len() > 0 {
        assert(forall|m: int|
            0 <= m < s.drop_last().len() ==> is_digit_char(#[trigger] s.drop_last()[m]));
        lemma_digits_val_nonneg(s.drop_last());
    }
}

/// The value of a digit run is at least the value of any of its prefixes.
pub proof fn lemma_digits_val_prefix(s: Seq<char>, k: int)
    requires
        0 <= k <= s.len(),
        forall|m: int| 0 <= m < s.len() ==> is_digit_char(#[trigger] s[m]),
    ensures
        digits_val(s.take(k)) <= digits_val(s),
    decreases s.len() - k,
{
    if k < s.len() {
        lemma_digits_val_prefix(s, k + 1);
        let t = s.take(k + 1);
        assert(t.drop_last() =~= s.take(k));
        assert(forall|m: int| 0 <= m < t.len() ==> is_digit_char(#[trigger] t[m]));
        assert(forall|m: int|
            0 <= m < s.take(k).len() ==> is_digit_char(#[trigger] s.take(k)[m]));
        lemma_digits_val_nonneg(s.take(k));
        assert(digits_val(t) == digits_val(s.take(k)) * 10 + (t.last() as u32 - 48));
        assert(digits_val(s.take(k)) * 10 >= digits_val(s.take(k)));
    } else {
        assert(s.take(k) =~= s);
    }
}

/// Resynchronization point after a malformed character literal: just past the
/// next closing quote, or at the next whitespace or the end of input.
pub open spec fn quote_resync(s: Seq<char>, i: int) -> int
    decreases s.len() - i when 0 <= i <= s.len()
{
    if i >= s.len() {
        i
    } else if s[i] == '\'' {
        i + 1
    } else if is_ws_char(s[i]) {
        i
    } else {
        quote_resync(s, i + 1)
    }
}

/// The character an escape letter denotes, if it is a known escape.
pub open spec fn escape_char(c: char) -> Option<char> {
    match c {
        '\'' => Some('\''),
        '"' => Some('"'),
        '\\' => Some('\\'),
        'n' => Some('\n'),
        'r' => Some('\r'),
        't' => Some('\t'),
        '0' => Some('\u{0000}'),
        _ => None,
    }
}

/// Scan a character literal whose opening quote sits at `i`. Returns the
/// token or error and the index scanning resumes at.
pub open spec fn scan_char_lit(s: Seq<char>, i: int) -> (Result<TokModel, ErrModel>, int)
    recommends
        0 <= i < s.len(),
        s[i] == '\'',
{
    let j = i + 1;
    if j >= s.len() {
        (Err(ErrModel::UnterminatedChar), s.len() as int)
    } else if s[j] == '\'' {
        (Err(ErrModel::EmptyChar), j + 1)
    } else {
        let (payload, after) = if s[j] == '\\' {
            if j + 1 >= s.len() {
                (Option::<char>::None, s.len() as int)
            } else {
                match escape_char(s[j + 1]) {
                    Some(p) => (Some(p), j + 2),
                    None => (None, j + 2),
                }
            }
        } else {
            (Some(s[j]), j + 1)
        };
        if s[j] == '\\' && j + 1 >= s.len() {
            (Err(ErrModel::UnterminatedChar), s.len() as int)
        } else if s[j] == '\\' && escape_char(s[j + 1]) is None {
            (Err(ErrModel::UnknownEscape(s[j + 1])), quote_resync(s, j + 2))
        } else if after >= s.len() {
            (Err(ErrModel::UnterminatedChar), s.len() as int)
        } else if s[after] == '\'' {
            (Ok(TokModel::Char(payload->Some_0)), after + 1)
        } else {
            (Err(ErrModel::MultiChar), quote_resync(s, after))
        }
    }
}

/// A scanned number run that contains a dot or an exponent is a well-formed
/// real literal unless it stops right after the exponent marker or its sign;
/// in every other shape the run matches the floating-point literal grammar
/// `digit+ (. digit*)? ([eE][+-]? digit+)?` or `. digit+ ([eE][+-]? digit+)?`.
pub open spec fn real_lexeme_valid(lx: Seq<char>) -> bool {
    lx.len() > 0 && !(lx.last() == 'e' || lx.last() == 'E' || lx.last() == '+' || lx.last() == '-')
}

/// Scan a number literal starting at `i` (a digit, or a dot followed by a
/// digit). A run containing a dot or an exponent is a real literal, whose
/// token carries the run's text; a malformed one is an error. A plain digit
/// run is a natural number, which overflows into an error rather than
/// saturating.
pub open spec fn scan_number(s: Seq<char>, i: int) -> (Result<TokModel, ErrModel>, int)
    recommends
        0 <= i < s.len(),
{
    let e = num_end(s, i, false, false);
    let lx = s.subrange(i, e);
    if has_real_marker(lx) {
        if real_lexeme_valid(lx) {
            (Ok(TokModel::Real(lx)), e)
        } else {
            (Err(ErrModel::InvalidFloat(lx)), e)
        }
    } else {
        if digits_val(lx) <= usize::MAX {
            (Ok(TokModel::Int(digits_val(lx) as usize)), e)
        } else {
            (Err(ErrModel::InvalidInt(lx)), e)
        }
    }
}

/// The token a keyword lexeme denotes, or `None` when the lexeme is not a
/// reserved word. `true` and `false` denote boolean literal tokens.
pub open spec fn keyword_token(lx: Seq<char>) -> Option<TokModel> {
    if lx == "fun"@ {
        Some(TokModel::KwFun)
    } else if lx == "int"@ {
        Some(TokModel::KwInt)
    } else if lx == "bool"@ {
        Some(TokModel::KwBool)
    } else if lx == "real"@ {
        Some(TokModel::KwReal)
    } else if lx == "char"@ {
        Some(TokModel::KwChar)
    } else if lx == "unit"@ {
        Some(TokModel::KwUnit)
    } else if lx == "true"@ {
        Some(TokModel::Bool(true))
    } else if lx == "false"@ {
        Some(TokModel::Bool(false))
    } else if lx == "val"@ {
        Some(TokModel::KwVal)
    } else if lx == "let"@ {
        Some(TokModel::KwLet)
    } else if lx == "in"@ {
        Some(TokModel::KwIn)
    } else if lx == "end"@ {
        Some(TokModel::KwEnd)
    } else if lx == "if"@ {
        Some(TokModel::KwIf)
    } else if lx == "then"@ {
        Some(TokModel::KwThen)
    } else if lx == "else"@ {
        Some(TokModel::KwElse)
    } else if lx == "not"@ {
        Some(TokModel::KwNot)
    } else if lx == "mut"@ {
        Some(TokModel::KwMut)
    } else if lx == "do"@ {
        Some(TokModel::KwDo)
    } else if lx == "while"@ {
        Some(TokModel::KwWhile)
    } else if lx == "mod"@ {
        Some(TokModel::KwMod)
    } else if lx == "div"@ {
        Some(TokModel::KwDiv)
    } else {
        None
    }
}

pub open spec fn is_keyword(lx: Seq<char>) -> bool {
    keyword_token(lx) is Some
}

/// What an identifier-shaped lexeme denotes: the keyword's token if it is
/// reserved, an identifier token carrying the lexeme otherwise.
pub open spec fn classify_model(lx: Seq<char>) -> TokModel {
    match keyword_token(lx) {
        Some(t) => t,
        None => TokModel::Ident(lx),
    }
}

/// One lexing step at a non-whitespace position `i`: the token or error that
/// starts there, and the index of the first character after it.
pub open spec fn lex_step(s: Seq<char>, i: int) -> (Result<TokModel, ErrModel>, int)
    recommends
        0 <= i < s.len(),
        !is_ws_char(s[i]),
{
    let c = s[i];
    if c == ',' {
        (Ok(TokModel::Comma), i + 1)
    } else if c == '~' {
        (Ok(TokModel::Tilde), i + 1)
    } else if c == '(' {
        (Ok(TokModel::LParen), i + 1)
    } else if c == ')' {
        (Ok(TokModel::RParen), i + 1)
    } else if c == '=' {
        (Ok(TokModel::Eq), i + 1)
    } else if c == '+' {
        (Ok(TokModel::Plus), i + 1)
    } else if c == '-' {
        (Ok(TokModel::Minus), i + 1)
    } else if c == '*' {
        (Ok(TokModel::Star), i + 1)
    } else if c == ':' {
        if i + 1 < s.len() && s[i + 1] == ':' {
            (Ok(TokModel::Cons), i + 2)
        } else if i + 1 < s.len() && s[i + 1] == '=' {
            (Ok(TokModel::ColonEq), i + 2)
        } else {
            (Ok(TokModel::Colon), i + 1)
        }
    } else if c == '<' {
        if i + 1 < s.len() && s[i + 1] == '>' {
            (Ok(TokModel::NotEq), i + 2)
        } else if i + 1 < s.len() && s[i + 1] == '=' {
            (Ok(TokModel::LessEq), i + 2)
        } else {
            (Ok(TokModel::Less), i + 1)
        }
    } else if c == '>' {
        if i + 1 < s.len() && s[i + 1] == '=' {
            (Ok(TokModel::GtEq), i + 2)
        } else {
            (Ok(TokModel::Gt), i + 1)
        }
    } else if c == '&' {
        if i + 1 < s.len() && s[i + 1] == '&' {
            (Ok(TokModel::AndAnd), i + 2)
        } else {
            (Ok(TokModel::And), i + 1)
        }
    } else if c == '|' {
        if i + 1 < s.len() && s[i + 1] == '|' {
            (Ok(TokModel::Or), i + 2)
        } else {
            (Err(ErrModel::InvalidToken), i + 1)
        }
    } else if c == '\'' {
        scan_char_lit(s, i)
    } else if is_digit_char(c) {
        scan_number(s, i)
    } else if c == '.' {
        if i + 1 < s.len() && is_digit_char(s[i + 1]) {
            scan_number(s, i)
        } else {
            (Err(ErrModel::InvalidToken), i + 1)
        }
    } else if is_ident_start_char(c) {
        (Ok(classify_model(s.subrange(i, ident_end(s, i)))), ident_end(s, i))
    } else {
        (Err(ErrModel::InvalidToken), i + 1)
    }
}

// ---------------------------------------------------------------------------
// Progress of scanning
// ---------------------------------------------------------------------------
pub proof fn lemma_skip_ws_bounds(s: Seq<char>, i: int)
    requires
        0 <= i <= s.len(),
    ensures
        i <= skip_ws(s, i) <= s.len(),
        skip_ws(s, i) < s.len() ==> !is_ws_char(s[skip_ws(s, i)]),
        skip_ws(s, skip_ws(s, i)) == skip_ws(s, i),
    decreases s.len() - i,
{
    if i < s.len() && is_ws_char(s[i]) {
        lemma_skip_ws_bounds(s, i + 1);
    }
}

pub proof fn lemma_ident_end_bounds(s: Seq<char>, i: int)
    requires
        0 <= i <= s.len(),
    ensures
        i <= ident_end(s, i) <= s.len(),
        i < s.len() && is_ident_char(s[i]) ==> i < ident_end(s, i),
    decreases s.len() - i,
{
    if i < s.len() && is_ident_char(s[i]) {
        lemma_ident_end_bounds(s, i + 1);
    }
}

pub proof fn lemma_num_end_bounds(s: Seq<char>, i: int, has_dot: bool, has_exp: bool)
    requires
        0 <= i <= s.len(),
    ensures
        i <= num_end(s, i, has_dot, has_exp) <= s.len(),
    decreases s.len() - i,
{
    if i < s.len() {
        if is_digit_char(s[i]) {
            lemma_num_end_bounds(s, i + 1, has_dot, has_exp);
        } else if s[i] == '.' && !has_dot && !has_exp {
            lemma_num_end_bounds(s, i + 1, true, has_exp);
        } else if (s[i] == 'e' || s[i] == 'E') && !has_exp {
            if i + 1 < s.len() && (s[i + 1] == '+' || s[i + 1] == '-') {
                lemma_num_end_bounds(s, i + 2, true, true);
            } else {
                lemma_num_end_bounds(s, i + 1, true, true);
            }
        }
    }
}

pub proof fn lemma_quote_resync_bounds(s: Seq<char>, i: int)
    requires
        0 <= i <= s.len(),
    ensures
        i <= quote_resync(s, i) <= s.len(),
    decreases s.len() - i,
{
    if i < s.len() && s[i] != '\'' && !is_ws_char(s[i]) {
        lemma_quote_resync_bounds(s, i + 1);
    }
}

/// Every lexing step consumes at least one character and stays within the
/// input.
pub proof fn lemma_lex_step_bounds(s: Seq<char>, i: int)
    requires
        0 <= i < s.len(),
    ensures
        i < lex_step(s, i).1 <= s.len(),
{
    let c = s[i];
    if c == '\'' {
        let j = i + 1;
        if j < s.len() && s[j] != '\'' {
            if s[j] == '\\' {
                if j + 1 < s.len() {
                    if escape_char(s[j + 1]) is None {
                        lemma_quote_resync_bounds(s, j + 2);
                    } else if j + 2 < s.len() && s[j + 2] != '\'' {
                        lemma_quote_resync_bounds(s, j + 2);
                    }
                }
            } else {
                if j + 1 < s.len() && s[j + 1] != '\'' {
                    lemma_quote_resync_bounds(s, j + 1);
                }
            }
        }
    } else if is_digit_char(c) {
        lemma_num_end_bounds(s, i + 1, false, false);
    } else if c == '.' && i + 1 < s.len() && is_digit_char(s[i + 1]) {
        lemma_num_end_bounds(s, i + 1, true, false);
    } else if is_ident_start_char(c) {
        lemma_ident_end_bounds(s, i);
    }
}

// ---------------------------------------------------------------------------
// The whole input
// ---------------------------------------------------------------------------
/// Lexing the input from character position `i` on: the remaining tokens
/// (ending with the single `Eof` token at the end of input) and the remaining
/// errors, all with byte spans.
pub open spec fn lex_from(s: Seq<char>, i: int) -> (Seq<(TokModel, int, int)>, Seq<
    (ErrModel, int, int),
>)
    decreases s.len() - i when 0 <= i <= s.len() via lex_from_decreases
{
    let j = skip_ws(s, i);
    if j >= s.len() {
        (seq![(TokModel::Eof, byte_len(s), byte_len(s))], Seq::empty())
    } else {
        let (r, n) = lex_step(s, j);
        let rest = lex_from(s, n);
        match r {
            Ok(t) => (seq![(t, byte_at(s, j), byte_at(s, n))] + rest.0, rest.1),
            Err(e) => (rest.0, seq![(e, byte_at(s, j), byte_at(s, n))] + rest.1),
        }
    }
}

#[via_fn]
proof fn lex_from_decreases(s: Seq<char>, i: int) {
    lemma_skip_ws_bounds(s, i);
    let j = skip_ws(s, i);
    if j < s.len() {
        lemma_lex_step_bounds(s, j);
    }
}

/// The tokens and errors of the whole input.
pub open spec fn lex_all(s: Seq<char>) -> (Seq<(TokModel, int, int)>, Seq<(ErrModel, int, int)>) {
    lex_from(s, 0)
}

// ---------------------------------------------------------------------------
// Laws of the model
// ---------------------------------------------------------------------------
/// A single step never produces the end-of-input token.
proof fn lemma_lex_step_not_eof(s: Seq<char>, i: int)
    requires
        0 <= i < s.len(),
    ensures
        lex_step(s, i).0 matches Ok(t) ==> !(t is Eof),
{
}

/// Token order: lexing from `i` gives at least the end-of-input token; that
/// token comes last, exactly once, spanning the empty range at the end; every
/// token's span is non-empty, lies within the input, and ends no later than
/// the next token starts.
pub proof fn lemma_lex_from_ordered(s: Seq<char>, i: int)
    requires
        0 <= i <= s.len(),
    ensures
        ({
            let (toks, errs) = lex_from(s, i);
            &&& toks.len() >= 1
            &&& toks[toks.len() - 1] == (TokModel::Eof, byte_len(s), byte_len(s))
            &&& forall|k: int| 0 <= k < toks.len() - 1 ==> !((#[trigger] toks[k]).0 is Eof)
            &&& forall|k: int|
                0 <= k < toks.len() ==> byte_at(s, i) <= (#[trigger] toks[k]).1 <= toks[k].2
                    <= byte_len(s)
            &&& forall|k: int| 0 <= k < toks.len() - 1 ==> (#[trigger] toks[k]).1 < toks[k].2
            &&& forall|k: int| 0 <= k < toks.len() - 1 ==> (#[trigger] toks[k]).2 <= toks[k + 1].1
        }),
    decreases s.len() - i,
{
    lemma_skip_ws_bounds(s, i);
    let j = skip_ws(s, i);
    lemma_byte_at_mono(s, i, j);
    assert(s.take(s.len() as int) =~= s);
    if j < s.len() {
        lemma_lex_step_bounds(s, j);
        let (r, n) = lex_step(s, j);
        lemma_lex_from_ordered(s, n);
        lemma_byte_at_mono(s, j, n);
        if r is Ok {
            lemma_lex_step_not_eof(s, j);
        }
    }
}

/// The whole input's tokens are ordered as `lemma_lex_from_ordered` says,
/// starting from the first byte.
pub proof fn lemma_lex_tokens_ordered(s: Seq<char>)
    ensures
        ({
            let (toks, errs) = lex_all(s);
            &&& toks.len() >= 1
            &&& toks[toks.len() - 1] == (TokModel::Eof, byte_len(s), byte_len(s))
            &&& forall|k: int| 0 <= k < toks.len() - 1 ==> !((#[trigger] toks[k]).0 is Eof)
            &&& forall|k: int|
                0 <= k < toks.len() ==> 0 <= (#[trigger] toks[k]).1 <= toks[k].2 <= byte_len(s)
            &&& forall|k: int| 0 <= k < toks.len() - 1 ==> (#[trigger] toks[k]).1 < toks[k].2
            &&& forall|k: int| 0 <= k < toks.len() - 1 ==> (#[trigger] toks[k]).2 <= toks[k + 1].1
        }),
{
    assert(s.take(0) =~= Seq::<char>::empty());
    lemma_lex_from_ordered(s, 0);
}

/// When the input holds any token at all, the first one starts at the byte
/// offset of the first non-whitespace character.
pub proof fn lemma_lex_first_token_start(s: Seq<char>)
    requires
        lex_all(s).0.len() >= 2,
        lex_all(s).1.len() == 0,
    ensures
        lex_all(s).0[0].1 == byte_at(s, skip_ws(s, 0)),
{
    lemma_skip_ws_bounds(s, 0);
}

/// Only whitespace follows the last real token: its span ends at the byte
/// offset of a position from which skipping whitespace reaches the end of
/// the input.
pub proof fn lemma_lex_tail_ws(s: Seq<char>, i: int)
    requires
        0 <= i <= s.len(),
        lex_from(s, i).0.len() >= 2,
        lex_from(s, i).1.len() == 0,
    ensures
        exists|w: int|
            0 <= w <= s.len() && #[trigger] byte_at(s, w) == lex_from(s, i).0[lex_from(
                s,
                i,
            ).0.len() - 2].2 && skip_ws(s, w) == s.len(),
    decreases s.len() - i,
{
    let j = skip_ws(s, i);
    lemma_skip_ws_bounds(s, i);
    lemma_lex_step_bounds(s, j);
    let (r, n) = lex_step(s, j);
    let rest = lex_from(s, n);
    match r {
        Ok(t) => {
            if rest.0.len() == 1 {
                lemma_skip_ws_bounds(s, n);
                let j2 = skip_ws(s, n);
                if j2 < s.len() {
                    lemma_lex_step_bounds(s, j2);
                    lemma_lex_from_ordered(s, lex_step(s, j2).1);
                    assert(false);
                }
                assert(skip_ws(s, n) == s.len());
                assert(byte_at(s, n) == lex_from(s, i).0[lex_from(s, i).0.len() - 2].2);
            } else {
                lemma_lex_tail_ws(s, n);
            }
        },
        Err(e) => {
            assert(false);
        },
    }
}

/// The characters a number run consumes: digits, the real markers, and a
/// sign directly after an exponent marker.
proof fn lemma_num_end_chars(s: Seq<char>, i: int, has_dot: bool, has_exp: bool)
    requires
        0 <= i <= s.len(),
    ensures
        forall|m: int|
            i <= m < num_end(s, i, has_dot, has_exp) ==> is_digit_char(#[trigger] s[m])
                || is_real_marker(s[m]) || ((s[m] == '+' || s[m] == '-') && m > i && (s[m - 1] == 'e'
                || s[m - 1] == 'E')),
    decreases s.len() - i,
{
    if i < s.len() {
        if is_digit_char(s[i]) {
            lemma_num_end_chars(s, i + 1, has_dot, has_exp);
        } else if s[i] == '.' && !has_dot && !has_exp {
            lemma_num_end_chars(s, i + 1, true, has_exp);
        } else if (s[i] == 'e' || s[i] == 'E') && !has_exp {
            if i + 1 < s.len() && (s[i + 1] == '+' || s[i + 1] == '-') {
                lemma_num_end_chars(s, i + 2, true, true);
            } else {
                lemma_num_end_chars(s, i + 1, true, true);
            }
        }
    }
}

/// The characters an identifier run consumes are identifier characters.
proof fn lemma_ident_end_chars(s: Seq<char>, i: int)
    requires
        0 <= i <= s.len(),
    ensures
        forall|m: int| i <= m < ident_end(s, i) ==> is_ident_char(#[trigger] s[m]),
    decreases s.len() - i,
{
    if i < s.len() && is_ident_char(s[i]) {
        lemma_ident_end_chars(s, i + 1);
    }
}

/// A character-literal lexeme denoting the character `c`: the character
/// itself, or one of the recognized escapes, between single quotes.
pub open spec fn char_lit_lexeme(c: char, lx: Seq<char>) -> bool {
    ||| (lx.len() == 3 && lx[0] == '\'' && lx[1] == c && lx[2] == '\'')
    ||| (lx.len() == 4 && lx[0] == '\'' && lx[1] == '\\' && escape_char(lx[2]) == Some(c) && lx[3]
        == '\'')
}

/// What a token says about the stretch of input it was read from: keywords
/// and punctuation spell their own text, literals carry the value or text
/// their lexeme denotes, and an identifier is a non-keyword word.
pub open spec fn token_matches_lexeme(t: TokModel, lx: Seq<char>) -> bool {
    match t {
        TokModel::KwFun => lx == "fun"@,
        TokModel::KwInt => lx == "int"@,
        TokModel::KwBool => lx == "bool"@,
        TokModel::KwReal => lx == "real"@,
        TokModel::KwChar => lx == "char"@,
        TokModel::KwUnit => lx == "unit"@,
        TokModel::KwVal => lx == "val"@,
        TokModel::KwLet => lx == "let"@,
        TokModel::KwIn => lx == "in"@,
        TokModel::KwEnd => lx == "end"@,
        TokModel::KwIf => lx == "if"@,
        TokModel::KwThen => lx == "then"@,
        TokModel::KwElse => lx == "else"@,
        TokModel::KwNot => lx == "not"@,
        TokModel::KwMut => lx == "mut"@,
        TokModel::KwWhile => lx == "while"@,
        TokModel::KwDo => lx == "do"@,
        TokModel::KwMod => lx == "mod"@,
        TokModel::KwDiv => lx == "div"@,
        TokModel::Comma => lx == ","@,
        TokModel::Cons => lx == "::"@,
        TokModel::Eq => lx == "="@,
        TokModel::NotEq => lx == "<>"@,
        TokModel::Colon => lx == ":"@,
        TokModel::ColonEq => lx == ":="@,
        TokModel::LParen => lx == "("@,
        TokModel::RParen => lx == ")"@,
        TokModel::Gt => lx == ">"@,
        TokModel::GtEq => lx == ">="@,
        TokModel::Less => lx == "<"@,
        TokModel::LessEq => lx == "<="@,
        TokModel::AndAnd => lx == "&&"@,
        TokModel::Or => lx == "||"@,
        TokModel::And => lx == "&"@,
        TokModel::Tilde => lx == "~"@,
        TokModel::Plus => lx == "+"@,
        TokModel::Minus => lx == "-"@,
        TokModel::Star => lx == "*"@,
        TokModel::Real(txt) => lx == txt && has_real_marker(lx) && real_lexeme_valid(lx),
        TokModel::Int(n) => lx.len() > 0 && digits_val(lx) == n && (forall|m: int|
            0 <= m < lx.len() ==> is_digit_char(#[trigger] lx[m])),
        TokModel::Bool(b) => lx == if b {
            "true"@
        } else {
            "false"@
        },
        TokModel::Char(c) => char_lit_lexeme(c, lx),
        TokModel::Ident(txt) => lx == txt && txt.len() > 0 && is_ident_start_char(txt[0])
            && keyword_token(txt) is None && (forall|m: int|
            0 <= m < txt.len() ==> is_ident_char(#[trigger] txt[m])),
        TokModel::Eof => lx.len() == 0,
    }
}

/// One step reads a token that matches the consumed stretch of input.
proof fn lemma_lex_step_sound(s: Seq<char>, i: int)
    requires
        0 <= i < s.len(),
    ensures
        ({
            let (r, n) = lex_step(s, i);
            r matches Ok(t) ==> token_matches_lexeme(t, s.subrange(i, n))
        }),
{
    reveal_strlit(",");
    reveal_strlit("~");
    reveal_strlit("(");
    reveal_strlit(")");
    reveal_strlit("=");
    reveal_strlit("+");
    reveal_strlit("-");
    reveal_strlit("*");
    reveal_strlit("::");
    reveal_strlit(":=");
    reveal_strlit(":");
    reveal_strlit("<>");
    reveal_strlit("<=");
    reveal_strlit("<");
    reveal_strlit(">=");
    reveal_strlit(">");
    reveal_strlit("&&");
    reveal_strlit("&");
    reveal_strlit("||");
    let c = s[i];
    let (r, n) = lex_step(s, i);
    if r is Ok {
        let t = r->Ok_0;
        let lx = s.subrange(i, n);
        if c == ',' {
            assert(lx =~= ","@);
        } else if c == '~' {
            assert(lx =~= "~"@);
        } else if c == '(' {
            assert(lx =~= "("@);
        } else if c == ')' {
            assert(lx =~= ")"@);
        } else if c == '=' {
            assert(lx =~= "="@);
        } else if c == '+' {
            assert(lx =~= "+"@);
        } else if c == '-' {
            assert(lx =~= "-"@);
        } else if c == '*' {
            assert(lx =~= "*"@);
        } else if c == ':' {
            if i + 1 < s.len() && s[i + 1] == ':' {
                assert(lx =~= "::"@);
            } else if i + 1 < s.len() && s[i + 1] == '=' {
                assert(lx =~= ":="@);
            } else {
                assert(lx =~= ":"@);
            }
        } else if c == '<' {
            if i + 1 < s.len() && s[i + 1] == '>' {
                assert(lx =~= "<>"@);
            } else if i + 1 < s.len() && s[i + 1] == '=' {
                assert(lx =~= "<="@);
            } else {
                assert(lx =~= "<"@);
            }
        } else if c == '>' {
            if i + 1 < s.len() && s[i + 1] == '=' {
                assert(lx =~= ">="@);
            } else {
                assert(lx =~= ">"@);
            }
        } else if c == '&' {
            if i + 1 < s.len() && s[i + 1] == '&' {
                assert(lx =~= "&&"@);
            } else {
                assert(lx =~= "&"@);
            }
        } else if c == '|' {
            if i + 1 < s.len() && s[i + 1] == '|' {
                assert(lx =~= "||"@);
            }
            assert(token_matches_lexeme(t, lx));
        } else if c == '\'' {
            let j = i + 1;
            if s[j] == '\\' {
                assert(lx =~= seq!['\'', '\\', s[i + 2], '\'']);
            } else {
                assert(lx =~= seq!['\'', s[j], '\'']);
            }
            assert(token_matches_lexeme(t, lx));
        } else if is_digit_char(c) || (c == '.' && i + 1 < s.len() && is_digit_char(s[i + 1])) {
            lemma_num_end_bounds(s, i, false, false);
            lemma_num_end_chars(s, i, false, false);
            if is_digit_char(s[i]) {
                lemma_num_end_bounds(s, i + 1, false, false);
            } else {
                lemma_num_end_bounds(s, i + 1, true, false);
            }
            assert(i < num_end(s, i, false, false));
            if !has_real_marker(lx) {
                assert forall|m: int| 0 <= m < lx.len() implies is_digit_char(#[trigger] lx[m]) by {
                    assert(lx[m] == s[i + m]);
                    if is_real_marker(s[i + m]) {
                        assert(false);
                    }
                    if (s[i + m] == '+' || s[i + m] == '-') && i + m > i {
                        assert(is_real_marker(s[i + m - 1]));
                        assert(lx[m - 1] == s[i + m - 1]);
                        assert(false);
                    }
                }
                assert(digits_val(lx) >= 0) by {
                    lemma_digits_val_nonneg(lx);
                }
            }
            assert(token_matches_lexeme(t, lx));
        } else if is_ident_start_char(c) {
            lemma_ident_end_bounds(s, i);
            lemma_ident_end_chars(s, i);
            assert forall|m: int| 0 <= m < lx.len() implies is_ident_char(#[trigger] lx[m]) by {
                assert(lx[m] == s[i + m]);
            }
            assert(lx[0] == s[i]);
            assert(token_matches_lexeme(t, lx));
        } else {
            // every remaining character produces an error, not a token
            assert(token_matches_lexeme(t, lx));
        }
    }
}

/// The claim `token_entry_sound`: the entry's byte offsets are those of a
/// stretch of input that its token matches.
pub open spec fn token_entry_sound(s: Seq<char>, lo: int, e: (TokModel, int, int)) -> bool {
    exists|ci: int, cj: int|
        lo <= ci < cj <= s.len() && e.1 == byte_at(s, ci) && e.2 == byte_at(s, cj)
            && token_matches_lexeme(e.0, #[trigger] s.subrange(ci, cj))
}

/// Every token the lexer emits matches the stretch of input its span names:
/// keywords and punctuation spell their own text, a number token carries the
/// run's value or text, a character token its denoted character, and an
/// identifier token a non-keyword word.
pub proof fn lemma_lex_from_lexemes(s: Seq<char>, i: int)
    requires
        0 <= i <= s.len(),
    ensures
        forall|k: int|
            0 <= k < lex_from(s, i).0.len() - 1 ==> token_entry_sound(
                s,
                i,
                #[trigger] lex_from(s, i).0[k],
            ),
    decreases s.len() - i,
{
    let j = skip_ws(s, i);
    lemma_skip_ws_bounds(s, i);
    if j < s.len() {
        lemma_lex_step_bounds(s, j);
        let (r, n) = lex_step(s, j);
        lemma_lex_from_lexemes(s, n);
        let toks = lex_from(s, i).0;
        let rest = lex_from(s, n).0;
        match r {
            Ok(t) => {
                lemma_lex_step_sound(s, j);
                assert(token_entry_sound(s, i, toks[0])) by {
                    assert(token_matches_lexeme(t, s.subrange(j, n)));
                }
                assert forall|k: int| 1 <= k < toks.len() - 1 implies token_entry_sound(
                    s,
                    i,
                    toks[k],
                ) by {
                    assert(toks[k] == rest[k - 1]);
                    assert(token_entry_sound(s, n, rest[k - 1]));
                    let (ci, cj) = choose|ci: int, cj: int|
                        n <= ci < cj <= s.len() && rest[k - 1].1 == byte_at(s, ci) && rest[k - 1].2
                            == byte_at(s, cj) && token_matches_lexeme(
                            rest[k - 1].0,
                            #[trigger] s.subrange(ci, cj),
                        );
                    assert(token_matches_lexeme(toks[k].0, s.subrange(ci, cj)));
                }
            },
            Err(e) => {
                assert forall|k: int| 0 <= k < toks.len() - 1 implies token_entry_sound(
                    s,
                    i,
                    toks[k],
                ) by {
                    assert(toks[k] == rest[k]);
                    assert(token_entry_sound(s, n, rest[k]));
                    let (ci, cj) = choose|ci: int, cj: int|
                        n <= ci < cj <= s.len() && rest[k].1 == byte_at(s, ci) && rest[k].2
                            == byte_at(s, cj) && token_matches_lexeme(
                            rest[k].0,
                            #[trigger] s.subrange(ci, cj),
                        );
                    assert(token_matches_lexeme(toks[k].0, s.subrange(ci, cj)));
                }
            },
        }
    }
}

/// Token and lexeme agreement over the whole input.
pub proof fn lemma_lex_lexemes(s: Seq<char>)
    ensures
        forall|k: int|
            0 <= k < lex_all(s).0.len() - 1 ==> token_entry_sound(
                s,
                0,
                #[trigger] lex_all(s).0[k],
            ),
{
    lemma_lex_from_lexemes(s, 0);
}

/// All characters from `i` on are identifier characters, so an identifier
/// run from `i` reaches the end of the input.
proof fn lemma_ident_end_all(s: Seq<char>, i: int)
    requires
        0 <= i <= s.len(),
        forall|m: int| i <= m < s.len() ==> is_ident_char(#[trigger] s[m]),
    ensures
        ident_end(s, i) == s.len(),
    decreases s.len() - i,
{
    if i < s.len() {
        lemma_ident_end_all(s, i + 1);
    }
}

/// An input that is one whole identifier-shaped word lexes to exactly the
/// word's classification followed by the end-of-input token.
pub proof fn lemma_word_lexes_whole(s: Seq<char>)
    requires
        s.len() > 0,
        is_ident_start_char(s[0]),
        forall|m: int| 0 <= m < s.len() ==> is_ident_char(#[trigger] s[m]),
    ensures
        lex_all(s).1.len() == 0,
        lex_all(s).0.len() == 2,
        lex_all(s).0[0] == (classify_model(s), 0int, byte_len(s)),
        lex_all(s).0[1].0 is Eof,
{
    assert(!is_ws_char(s[0]));
    assert(skip_ws(s, 0) == 0);
    lemma_ident_end_all(s, 0);
    assert(s.subrange(0, s.len() as int) =~= s);
    assert(s.take(0) =~= Seq::<char>::empty());
    assert(s.take(s.len() as int) =~= s);
    let step = lex_step(s, 0);
    assert(step == (Ok::<TokModel, ErrModel>(classify_model(s)), s.len() as int));
    assert(skip_ws(s, s.len() as int) == s.len() as int);
    assert(lex_from(s, s.len() as int) == (
        seq![(TokModel::Eof, byte_len(s), byte_len(s))],
        Seq::<(ErrModel, int, int)>::empty(),
    ));
    assert(lex_all(s).0 =~= seq![(classify_model(s), 0int, byte_len(s))] + seq![
        (TokModel::Eof, byte_len(s), byte_len(s)),
    ]);
}

/// Keyword and identifier tokens are disjoint: an input equal to a reserved
/// word tokenizes as that word's keyword token (or boolean literal), never as
/// an identifier.
pub proof fn lemma_keyword_never_ident(s: Seq<char>)
    requires
        is_keyword(s),
    ensures
        lex_all(s).1.len() == 0,
        lex_all(s).0.len() == 2,
        lex_all(s).0[0].0 == keyword_token(s)->Some_0,
        !(lex_all(s).0[0].0 is Ident),
        lex_all(s).0[1].0 is Eof,
{
    lemma_keyword_chars(s);
    lemma_word_lexes_whole(s);
}

/// Every reserved word is a non-empty run of identifier characters.
proof fn lemma_keyword_chars(s: Seq<char>)
    requires
        is_keyword(s),
    ensures
        s.len() > 0,
        is_ident_start_char(s[0]),
        forall|m: int| 0 <= m < s.len() ==> is_ident_char(#[trigger] s[m]),
{
    reveal_strlit("fun");
    reveal_strlit("int");
    reveal_strlit("bool");
    reveal_strlit("real");
    reveal_strlit("char");
    reveal_strlit("unit");
    reveal_strlit("true");
    reveal_strlit("false");
    reveal_strlit("val");
    reveal_strlit("let");
    reveal_strlit("in");
    reveal_strlit("end");
    reveal_strlit("if");
    reveal_strlit("then");
    reveal_strlit("else");
    reveal_strlit("not");
    reveal_strlit("mut");
    reveal_strlit("do");
    reveal_strlit("while");
    reveal_strlit("mod");
    reveal_strlit("div");
    assert forall|m: int| 0 <= m < s.len() implies is_ident_char(#[trigger] s[m]) by {
        lemma_keyword_char_at(s, m);
    }
    lemma_keyword_char_at(s, 0);
}

proof fn lemma_keyword_char_at(s: Seq<char>, m: int)
    requires
        is_keyword(s),
        0 <= m < s.len() || m == 0,
    ensures
        s.len() > 0,
        0 <= m < s.len() ==> is_ident_char(s[m]),
        is_ident_start_char(s[0]),
{
    reveal_strlit("fun");
    reveal_strlit("int");
    reveal_strlit("bool");
    reveal_strlit("real");
    reveal_strlit("char");
    reveal_strlit("unit");
    reveal_strlit("true");
    reveal_strlit("false");
    reveal_strlit("val");
    reveal_strlit("let");
    reveal_strlit("in");
    reveal_strlit("end");
    reveal_strlit("if");
    reveal_strlit("then");
    reveal_strlit("else");
    reveal_strlit("not");
    reveal_strlit("mut");
    reveal_strlit("do");
    reveal_strlit("while");
    reveal_strlit("mod");
    reveal_strlit("div");
}

} // verus!
