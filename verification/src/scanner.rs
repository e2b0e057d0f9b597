//! The scanner: one left-to-right pass over the source characters that
//! produces the token sequence, always terminated by a single end-of-input
//! token. `lex_from` is the mathematical description of that pass;
//! `scan_tokens` is proved to implement it.
use crate::errors::{ErrM, ErrorTypes, LErrM, LunalaErrors};
use crate::numbers::is_digit_char;
use crate::tokens::{keyword_of, lemma_keyword_table_lookup, ReservedKeywords, Token, TokenM, TokenType};
use vstd::prelude::*;
use vstd::string::*;

verus! {

/// Whether the character has the Unicode White_Space property.
pub uninterp spec fn char_whitespace(c: char) -> bool;

/// Whether the character has the Unicode Alphabetic property.
pub uninterp spec fn char_alphabetic(c: char) -> bool;

/// Whether the character is Unicode-alphanumeric: alphabetic or numeric.
pub uninterp spec fn char_alphanumeric(c: char) -> bool;

/// Relies on `char::is_whitespace`: whether the character has the Unicode
/// White_Space property, a function of the character alone.
#[verifier::external_body]
fn unicode_whitespace(c: char) -> (r: bool)
    ensures
        r == char_whitespace(c),
{
    c.is_whitespace()
}

/// Relies on `char::is_alphabetic`: whether the character has the Unicode
/// Alphabetic property, a function of the character alone.
#[verifier::external_body]
fn unicode_alphabetic(c: char) -> (r: bool)
    ensures
        r == char_alphabetic(c),
{
    c.is_alphabetic()
}

/// Relies on `char::is_alphanumeric`: whether the character is alphabetic or
/// numeric under Unicode, a function of the character alone.
#[verifier::external_body]
fn unicode_alphanumeric(c: char) -> (r: bool)
    ensures
        r == char_alphanumeric(c),
{
    c.is_alphanumeric()
}

/// Whether the scanner skips `c` as whitespace: the six ASCII whitespace
/// characters, and beyond ASCII every character with the Unicode White_Space
/// property.
pub open spec fn is_ws_char(c: char) -> bool {
    c == ' ' || c == '\t' || c == '\n' || (c as u32) == 11 || (c as u32) == 12 || c == '\r' || (
    (c as u32) >= 128 && char_whitespace(c))
}

/// Whether `c` may start an identifier: an ASCII letter, or beyond ASCII any
/// character with the Unicode Alphabetic property.
pub open spec fn is_alpha_char(c: char) -> bool {
    (65 <= (c as u32) <= 90) || (97 <= (c as u32) <= 122) || ((c as u32) >= 128
        && char_alphabetic(c))
}

/// Whether `c` may continue an identifier: a letter, an ASCII digit, or
/// beyond ASCII any Unicode-alphanumeric character.
pub open spec fn is_alnum_char(c: char) -> bool {
    is_alpha_char(c) || is_digit_char(c) || ((c as u32) >= 128 && char_alphanumeric(c))
}

/// The position just past the maximal run of digits starting at `i`.
pub open spec fn digit_run_end(s: Seq<char>, i: int) -> int
    decreases s.len() - i,
{
    if i < 0 || i >= s.len() {
        i
    } else if is_digit_char(s[i]) {
        digit_run_end(s, i + 1)
    } else {
        i
    }
}

/// The position just past the maximal run of letters and digits starting at
/// `i`.
pub open spec fn alnum_run_end(s: Seq<char>, i: int) -> int
    decreases s.len() - i,
{
    if i < 0 || i >= s.len() {
        i
    } else if is_alnum_char(s[i]) {
        alnum_run_end(s, i + 1)
    } else {
        i
    }
}

/// The position of the next newline at or after `i`, or the end of input.
pub open spec fn line_break_pos(s: Seq<char>, i: int) -> int
    decreases s.len() - i,
{
    if i < 0 || i >= s.len() {
        i
    } else if s[i] == '\n' {
        i
    } else {
        line_break_pos(s, i + 1)
    }
}

/// The position of the next double quote at or after `i`, or the end of
/// input.
pub open spec fn quote_pos(s: Seq<char>, i: int) -> int
    decreases s.len() - i,
{
    if i < 0 || i >= s.len() {
        i
    } else if s[i] == '"' {
        i
    } else {
        quote_pos(s, i + 1)
    }
}

/// How many newline characters `s` holds.
pub open spec fn newline_count(s: Seq<char>) -> nat
    decreases s.len(),
{
    if s.len() == 0 {
        0
    } else {
        newline_count(s.drop_last()) + if s.last() == '\n' {
            1nat
        } else {
            0nat
        }
    }
}

/// The position just past a numeric lexeme starting at the digit at `i`: a
/// maximal digit run, continued past a dot only when a digit follows it.
pub open spec fn num_lexeme_end(s: Seq<char>, i: int) -> int {
    let j = digit_run_end(s, i);
    if j < s.len() && s[j] == '.' && j + 1 < s.len() && is_digit_char(s[j + 1]) {
        digit_run_end(s, j + 1)
    } else {
        j
    }
}

pub proof fn lemma_digit_run_end(s: Seq<char>, i: int)
    requires
        0 <= i <= s.len(),
    ensures
        i <= digit_run_end(s, i) <= s.len(),
        forall|k: int| i <= k < digit_run_end(s, i) ==> is_digit_char(s[k]),
        digit_run_end(s, i) < s.len() ==> !is_digit_char(s[digit_run_end(s, i)]),
    decreases s.len() - i,
{
    if i < s.len() && is_digit_char(s[i]) {
        lemma_digit_run_end(s, i + 1);
    }
}

pub proof fn lemma_alnum_run_end(s: Seq<char>, i: int)
    requires
        0 <= i <= s.len(),
    ensures
        i <= alnum_run_end(s, i) <= s.len(),
        forall|k: int| i <= k < alnum_run_end(s, i) ==> is_alnum_char(s[k]),
        alnum_run_end(s, i) < s.len() ==> !is_alnum_char(s[alnum_run_end(s, i)]),
    decreases s.len() - i,
{
    if i < s.len() && is_alnum_char(s[i]) {
        lemma_alnum_run_end(s, i + 1);
    }
}

pub proof fn lemma_line_break_pos(s: Seq<char>, i: int)
    requires
        0 <= i <= s.len(),
    ensures
        i <= line_break_pos(s, i) <= s.len(),
        forall|k: int| i <= k < line_break_pos(s, i) ==> s[k] != '\n',
        line_break_pos(s, i) < s.len() ==> s[line_break_pos(s, i)] == '\n',
    decreases s.len() - i,
{
    if i < s.len() && s[i] != '\n' {
        lemma_line_break_pos(s, i + 1);
    }
}

pub proof fn lemma_quote_pos(s: Seq<char>, i: int)
    requires
        0 <= i <= s.len(),
    ensures
        i <= quote_pos(s, i) <= s.len(),
        forall|k: int| i <= k < quote_pos(s, i) ==> s[k] != '"',
        quote_pos(s, i) < s.len() ==> s[quote_pos(s, i)] == '"',
    decreases s.len() - i,
{
    if i < s.len() && s[i] != '"' {
        lemma_quote_pos(s, i + 1);
    }
}

/// The bounds of a numeric lexeme: it starts at its digit and ends by the
/// end of input.
pub proof fn lemma_num_lexeme_end(s: Seq<char>, i: int)
    requires
        0 <= i < s.len(),
        is_digit_char(s[i]),
    ensures
        i < num_lexeme_end(s, i) <= s.len(),
{
    lemma_digit_run_end(s, i);
    let j = digit_run_end(s, i);
    if j < s.len() && s[j] == '.' && j + 1 < s.len() && is_digit_char(s[j + 1]) {
        lemma_digit_run_end(s, j + 1);
    }
}

/// A token without lexeme text.
pub open spec fn bare_token(kind: TokenType, line: nat) -> TokenM {
    TokenM { kind, text: Option::None, line }
}

/// A token carrying lexeme text.
pub open spec fn text_token(kind: TokenType, text: Seq<char>, line: nat) -> TokenM {
    TokenM { kind, text: Option::Some(text), line }
}

/// The token sequence the scanner produces from position `i` on, reading on
/// line `line`, or the error that stops it. The sequence always ends with a
/// single end-of-input token.
pub open spec fn lex_from(s: Seq<char>, i: int, line: nat) -> Result<Seq<TokenM>, LErrM>
    decreases s.len() - i,
    via lex_from_decreases
{
    if i < 0 || i >= s.len() {
        Result::Ok(seq![bare_token(TokenType::EOF, line)])
    } else {
        let c = s[i];
        if is_ws_char(c) {
            lex_from(
                s,
                i + 1,
                if c == '\n' {
                    line + 1
                } else {
                    line
                },
            )
        } else if is_digit_char(c) {
            let j = num_lexeme_end(s, i);
            lex_cons(text_token(TokenType::Number, s.subrange(i, j), line), lex_from(s, j, line))
        } else if is_alpha_char(c) {
            let j = alnum_run_end(s, i);
            let word = s.subrange(i, j);
            let t = match keyword_of(word) {
                Option::Some(kind) => bare_token(kind, line),
                Option::None => text_token(TokenType::Identifier, word, line),
            };
            lex_cons(t, lex_from(s, j, line))
        } else if c == '/' {
            if i + 1 < s.len() && s[i + 1] == '/' {
                lex_cons(
                    bare_token(TokenType::Comment, line),
                    lex_from(s, line_break_pos(s, i + 2), line),
                )
            } else {
                lex_cons(bare_token(TokenType::Slash, line), lex_from(s, i + 1, line))
            }
        } else if c == '=' {
            if i + 1 < s.len() && s[i + 1] == '=' {
                lex_cons(bare_token(TokenType::DoubleEquals, line), lex_from(s, i + 2, line))
            } else {
                lex_cons(bare_token(TokenType::Equals, line), lex_from(s, i + 1, line))
            }
        } else if c == '<' {
            if i + 1 < s.len() && s[i + 1] == '=' {
                lex_cons(bare_token(TokenType::LessEquals, line), lex_from(s, i + 2, line))
            } else {
                lex_cons(bare_token(TokenType::LessThan, line), lex_from(s, i + 1, line))
            }
        } else if c == '>' {
            if i + 1 < s.len() && s[i + 1] == '=' {
                lex_cons(bare_token(TokenType::GreaterEquals, line), lex_from(s, i + 2, line))
            } else {
                lex_cons(bare_token(TokenType::GreaterThan, line), lex_from(s, i + 1, line))
            }
        } else if c == '!' {
            if i + 1 < s.len() && s[i + 1] == '=' {
                lex_cons(bare_token(TokenType::BangEquals, line), lex_from(s, i + 2, line))
            } else {
                lex_cons(bare_token(TokenType::Bang, line), lex_from(s, i + 1, line))
            }
        } else if c == '"' {
            let q = quote_pos(s, i + 1);
            if q >= s.len() {
                Result::Err(LErrM { kind: ErrM::UnterminatedString, line })
            } else {
                let content = s.subrange(i + 1, q);
                lex_cons(
                    text_token(TokenType::String, content, line),
                    lex_from(s, q + 1, line + newline_count(content)),
                )
            }
        } else {
            match single_char_kind(c) {
                Option::Some(kind) => lex_cons(bare_token(kind, line), lex_from(s, i + 1, line)),
                Option::None => Result::Err(
                    LErrM { kind: ErrM::InvalidToken(seq![c]), line },
                ),
            }
        }
    }
}

/// The token kind of a single-character token, if `c` spells one.
pub open spec fn single_char_kind(c: char) -> Option<TokenType> {
    if c == '*' {
        Option::Some(TokenType::Star)
    } else if c == ';' {
        Option::Some(TokenType::Semicolon)
    } else if c == '+' {
        Option::Some(TokenType::Plus)
    } else if c == '-' {
        Option::Some(TokenType::Minus)
    } else if c == '.' {
        Option::Some(TokenType::Dot)
    } else if c == '{' {
        Option::Some(TokenType::LeftCurlyBracket)
    } else if c == '}' {
        Option::Some(TokenType::RightCurlyBracket)
    } else if c == '[' {
        Option::Some(TokenType::LeftSquareBracket)
    } else if c == ']' {
        Option::Some(TokenType::RightSquareBracket)
    } else if c == '(' {
        Option::Some(TokenType::LeftBracket)
    } else if c == ')' {
        Option::Some(TokenType::RightBracket)
    } else if c == '%' {
        Option::Some(TokenType::Percent)
    } else if c == ':' {
        Option::Some(TokenType::Colon)
    } else if c == '\'' {
        Option::Some(TokenType::SingleQuote)
    } else if c == '`' {
        Option::Some(TokenType::AltQuote)
    } else {
        Option::None
    }
}

/// Prepend a token to the outcome of scanning the rest.
pub open spec fn lex_cons(t: TokenM, rest: Result<Seq<TokenM>, LErrM>) -> Result<
    Seq<TokenM>,
    LErrM,
> {
    match rest {
        Result::Ok(ts) => Result::Ok(seq![t] + ts),
        Result::Err(e) => Result::Err(e),
    }
}

#[via_fn]
proof fn lex_from_decreases(s: Seq<char>, i: int, line: nat) {
    if 0 <= i < s.len() {
        if is_digit_char(s[i]) {
            lemma_num_lexeme_end(s, i);
        }
        lemma_alnum_run_end(s, i);
        if i + 2 <= s.len() {
            lemma_line_break_pos(s, i + 2);
        }
        lemma_quote_pos(s, i + 1);
    }
}

/// The whole-source scan: tokens from the beginning, on line 1.
pub open spec fn lex(s: Seq<char>) -> Result<Seq<TokenM>, LErrM> {
    lex_from(s, 0, 1)
}

/// Every successful scan from any position is well formed: it is nonempty,
/// it ends with the end-of-input token and holds no other, and its token
/// lines never decrease and never fall below the line scanned from.
proof fn lemma_lex_from_wellformed(s: Seq<char>, i: int, line: nat)
    ensures
        lex_from(s, i, line) matches Result::Ok(ts) ==> ts.len() >= 1 && ts.last().kind
            == TokenType::EOF && (forall|k: int| 0 <= k < ts.len() - 1 ==> ts[k].kind
            != TokenType::EOF) && (forall|k: int| 0 <= k < ts.len() ==> ts[k].line >= line) && (
        forall|k1: int, k2: int|
            0 <= k1 <= k2 < ts.len() ==> ts[k1].line <= ts[k2].line),
    decreases s.len() - i,
{
    if 0 <= i < s.len() {
        let c = s[i];
        if is_ws_char(c) {
            lemma_lex_from_wellformed(
                s,
                i + 1,
                if c == '\n' {
                    line + 1
                } else {
                    line
                },
            );
        } else if is_digit_char(c) {
            lemma_num_lexeme_end(s, i);
            lemma_lex_from_wellformed(s, num_lexeme_end(s, i), line);
        } else if is_alpha_char(c) {
            lemma_alnum_run_end(s, i);
            lemma_lex_from_wellformed(s, alnum_run_end(s, i), line);
        } else if c == '/' {
            if i + 1 < s.len() && s[i + 1] == '/' {
                lemma_line_break_pos(s, i + 2);
                lemma_lex_from_wellformed(s, line_break_pos(s, i + 2), line);
            } else {
                lemma_lex_from_wellformed(s, i + 1, line);
            }
        } else if c == '=' || c == '<' || c == '>' || c == '!' {
            if i + 1 < s.len() && s[i + 1] == '=' {
                lemma_lex_from_wellformed(s, i + 2, line);
            } else {
                lemma_lex_from_wellformed(s, i + 1, line);
            }
        } else if c == '"' {
            lemma_quote_pos(s, i + 1);
            let q = quote_pos(s, i + 1);
            if q < s.len() {
                lemma_lex_from_wellformed(
                    s,
                    q + 1,
                    line + newline_count(s.subrange(i + 1, q)),
                );
            }
        } else {
            match single_char_kind(c) {
                Option::Some(_) => {
                    lemma_lex_from_wellformed(s, i + 1, line);
                },
                Option::None => {},
            }
        }
    }
}

/// Law: a successful scan of an input with `n` well-formed tokens returns
/// exactly `n + 1` tokens — the sequence is never empty, its last token is
/// the one end-of-input token, and no earlier token is one. Token lines
/// start at 1 and never decrease along the sequence.
pub proof fn lemma_scan_wellformed(src: Seq<char>)
    ensures
        lex(src) matches Result::Ok(ts) ==> ts.len() >= 1 && ts.last().kind == TokenType::EOF && (
        forall|k: int| 0 <= k < ts.len() - 1 ==> ts[k].kind != TokenType::EOF) && (forall|k: int|
            0 <= k < ts.len() ==> ts[k].line >= 1) && (forall|k1: int, k2: int|
            0 <= k1 <= k2 < ts.len() ==> ts[k1].line <= ts[k2].line),
{
    lemma_lex_from_wellformed(src, 0, 1);
}

/// Relies on `String::push`: appends the one character to the string.
#[verifier::external_body]
pub(crate) fn push_char(s: &mut String, c: char)
    ensures
        final(s)@ == old(s)@.push(c),
{
    s.push(c);
}

/// A new string holding the characters `source[start..end]`.
fn collect_range(source: &Vec<char>, start: usize, end: usize) -> (r: String)
    requires
        start <= end <= source@.len(),
    ensures
        r@ == source@.subrange(start as int, end as int),
{
    let mut t = String::new();
    let mut k = start;
    while k < end
        invariant
            start <= k <= end <= source@.len(),
            t@ == source@.subrange(start as int, k as int),
        decreases end - k,
    {
        push_char(&mut t, source[k]);
        k = k + 1;
        assert(t@ =~= source@.subrange(start as int, k as int));
    }
    t
}

fn digit_char(c: char) -> (r: bool)
    ensures
        r == is_digit_char(c),
{
    let u = c as u32;
    48 <= u && u <= 57
}

fn alpha_char(c: char) -> (r: bool)
    ensures
        r == is_alpha_char(c),
{
    let u = c as u32;
    if u < 128 {
        (65 <= u && u <= 90) || (97 <= u && u <= 122)
    } else {
        unicode_alphabetic(c)
    }
}

fn alnum_char(c: char) -> (r: bool)
    ensures
        r == is_alnum_char(c),
{
    let u = c as u32;
    if u < 128 {
        (65 <= u && u <= 90) || (97 <= u && u <= 122) || (48 <= u && u <= 57)
    } else {
        if unicode_alphabetic(c) {
            true
        } else {
            unicode_alphanumeric(c)
        }
    }
}

fn ws_char(c: char) -> (r: bool)
    ensures
        r == is_ws_char(c),
{
    let u = c as u32;
    if u < 128 {
        c == ' ' || c == '\t' || c == '\n' || u == 11 || u == 12 || c == '\r'
    } else {
        unicode_whitespace(c)
    }
}

fn single_kind(c: char) -> (r: Option<TokenType>)
    ensures
        r == single_char_kind(c),
{
    if c == '*' {
        Option::Some(TokenType::Star)
    } else if c == ';' {
        Option::Some(TokenType::Semicolon)
    } else if c == '+' {
        Option::Some(TokenType::Plus)
    } else if c == '-' {
        Option::Some(TokenType::Minus)
    } else if c == '.' {
        Option::Some(TokenType::Dot)
    } else if c == '{' {
        Option::Some(TokenType::LeftCurlyBracket)
    } else if c == '}' {
        Option::Some(TokenType::RightCurlyBracket)
    } else if c == '[' {
        Option::Some(TokenType::LeftSquareBracket)
    } else if c == ']' {
        Option::Some(TokenType::RightSquareBracket)
    } else if c == '(' {
        Option::Some(TokenType::LeftBracket)
    } else if c == ')' {
        Option::Some(TokenType::RightBracket)
    } else if c == '%' {
        Option::Some(TokenType::Percent)
    } else if c == ':' {
        Option::Some(TokenType::Colon)
    } else if c == '\'' {
        Option::Some(TokenType::SingleQuote)
    } else if c == '`' {
        Option::Some(TokenType::AltQuote)
    } else {
        Option::None
    }
}

/// One newline extends the count by one, any other character by none.
proof fn lemma_newline_count_push(s: Seq<char>, c: char)
    ensures
        newline_count(s.push(c)) == newline_count(s) + if c == '\n' {
            1nat
        } else {
            0nat
        },
{
    assert(s.push(c).drop_last() =~= s);
}

/// Tokens already read, joined with the outcome of scanning the rest.
pub open spec fn lex_seq_join(done: Seq<TokenM>, rest: Result<Seq<TokenM>, LErrM>) -> Result<
    Seq<TokenM>,
    LErrM,
> {
    match rest {
        Result::Ok(ts) => Result::Ok(done + ts),
        Result::Err(e) => Result::Err(e),
    }
}

/// Consuming one token keeps the joined outcome of the whole scan.
proof fn lemma_step_token(
    s: Seq<char>,
    c0: int,
    l0: nat,
    added: Seq<TokenM>,
    tok: TokenM,
    cur: int,
    line: nat,
    ncur: int,
    nline: nat,
)
    requires
        lex_from(s, c0, l0) == lex_seq_join(added, lex_from(s, cur, line)),
        lex_from(s, cur, line) == lex_cons(tok, lex_from(s, ncur, nline)),
    ensures
        lex_from(s, c0, l0) == lex_seq_join(added.push(tok), lex_from(s, ncur, nline)),
{
    match lex_from(s, ncur, nline) {
        Result::Ok(ts) => {
            assert(added + (seq![tok] + ts) =~= added.push(tok) + ts);
        },
        Result::Err(_) => {},
    }
}

/// Pushing onto a sequence leaves its prefix and extends its suffix.
proof fn lemma_added_push(deep: Seq<TokenM>, tok: TokenM, n0: int)
    requires
        0 <= n0 <= deep.len(),
    ensures
        deep.push(tok).skip(n0) == deep.skip(n0).push(tok),
        deep.push(tok).take(n0) == deep.take(n0),
{
    assert(deep.push(tok).skip(n0) =~= deep.skip(n0).push(tok));
    assert(deep.push(tok).take(n0) =~= deep.take(n0));
}

/// The scanner: the source as characters, the tokens read so far, a cursor,
/// and the 1-based line the cursor stands on. The cursor counts the
/// characters stepped onto so far: at 0 it rests on a blank before the text,
/// after its k-th step it stands on the k-th character, and one step past
/// the last character it has reached the end of input.
pub struct Scanner {
    pub source: Vec<char>,
    pub tokens: Vec<Token>,
    pub cursor: usize,
    pub line: usize,
}

impl Scanner {
    /// The character a cursor position stands on: the blank rest position
    /// before the text, or the character that position last stepped onto.
    pub open spec fn char_at(&self, p: int) -> char {
        if p == 0 {
            ' '
        } else {
            self.source@[p - 1]
        }
    }

    /// A scanner at the rest position before the given source text.
    pub fn new(source: &str) -> (s: Scanner)
        ensures
            s.source@ == source@,
            s.tokens@.len() == 0,
            s.cursor == 0,
            s.line == 1,
    {
        let n = source.unicode_len();
        let mut v: Vec<char> = Vec::new();
        let mut i: usize = 0;
        while i < n
            invariant
                i <= n,
                n == source@.len(),
                v@ == source@.take(i as int),
            decreases n - i,
        {
            let c = source.get_char(i);
            v.push(c);
            i = i + 1;
            assert(v@ =~= source@.take(i as int));
        }
        assert(source@.take(n as int) =~= source@);
        Scanner { source: v, tokens: Vec::new(), cursor: 0, line: 1 }
    }

    /// The character the cursor stands on, unless it has passed the end of
    /// input.
    pub fn current(&self) -> (r: Option<&char>)
        ensures
            match r {
                Option::Some(c) => self.cursor <= self.source@.len() && *c == self.char_at(
                    self.cursor as int,
                ),
                Option::None => self.cursor > self.source@.len(),
            },
    {
        if self.cursor == 0 {
            Option::Some(&' ')
        } else if self.cursor - 1 < self.source.len() {
            Option::Some(&self.source[self.cursor - 1])
        } else {
            Option::None
        }
    }

    /// Step the cursor one position forward and read the character it lands
    /// on; one step past the last character it finds none.
    pub fn advance(&mut self) -> (r: Option<&char>)
        requires
            old(self).cursor < usize::MAX,
        ensures
            final(self).source == old(self).source,
            final(self).tokens == old(self).tokens,
            final(self).line == old(self).line,
            final(self).cursor == old(self).cursor + 1,
            match r {
                Option::Some(c) => final(self).cursor <= final(self).source@.len() && *c
                    == final(self).source@[final(self).cursor - 1],
                Option::None => final(self).cursor > final(self).source@.len(),
            },
    {
        self.cursor = self.cursor + 1;
        self.current()
    }

    /// The character one step ahead of the cursor, if there is one.
    pub fn peek(&self) -> (r: Option<&char>)
        ensures
            match r {
                Option::Some(c) => self.cursor < self.source@.len() && *c
                    == self.source@[self.cursor as int],
                Option::None => self.cursor >= self.source@.len(),
            },
    {
        if self.cursor < self.source.len() {
            Option::Some(&self.source[self.cursor])
        } else {
            Option::None
        }
    }

    fn _pop(&self) -> (r: Option<&char>)
        ensures
            match r {
                Option::Some(c) => self.cursor <= self.source@.len() && *c == self.char_at(
                    self.cursor as int,
                ),
                Option::None => self.cursor > self.source@.len(),
            },
    {
        self.current()
    }

    /// Whether the cursor has passed the last character.
    pub fn at_end(&self) -> (r: bool)
        ensures
            r == (self.cursor > self.source@.len()),
    {
        self.cursor > self.source.len()
    }

    fn add_token(&mut self, token: Token)
        ensures
            final(self).source == old(self).source,
            final(self).cursor == old(self).cursor,
            final(self).line == old(self).line,
            final(self).tokens.deep_view() == old(self).tokens.deep_view().push(token@),
    {
        let ghost t = token@;
        self.tokens.push(token);
        assert(self.tokens.deep_view() =~= old(self).tokens.deep_view().push(t));
    }

    fn add(&mut self, token_type: TokenType)
        ensures
            final(self).source == old(self).source,
            final(self).cursor == old(self).cursor,
            final(self).line == old(self).line,
            final(self).tokens.deep_view() == old(self).tokens.deep_view().push(
                bare_token(token_type, old(self).line as nat),
            ),
    {
        let line = self.line;
        self.add_token(Token::new(token_type, Option::None, line));
    }

    /// An error outcome raised at the line the scanner stands on.
    pub fn error(&self, error_types: ErrorTypes) -> (r: Result<Vec<Token>, LunalaErrors>)
        ensures
            r matches Result::Err(e) && e@ == (LErrM {
                kind: error_types@,
                line: self.line as nat,
            }),
    {
        Result::Err(LunalaErrors::new(error_types, self.line))
    }

    /// Whether the character is an ASCII decimal digit.
    pub fn is_digit(&self, character: Option<&char>) -> (r: bool)
        ensures
            r == match character {
                Option::Some(c) => is_digit_char(*c),
                Option::None => false,
            },
    {
        match character {
            Option::Some(c) => digit_char(*c),
            Option::None => false,
        }
    }

    /// Whether the character is an ASCII letter or digit.
    pub fn is_alpha_numeric(&self, character: Option<&char>) -> (r: bool)
        ensures
            r == match character {
                Option::Some(c) => is_alnum_char(*c),
                Option::None => false,
            },
    {
        match character {
            Option::Some(c) => alnum_char(*c),
            Option::None => false,
        }
    }

    /// Read the numeric lexeme whose first digit the cursor stands on and
    /// append its token; the cursor ends on the lexeme's last character.
    #[verifier::loop_isolation(false)]
    pub fn number(&mut self)
        requires
            1 <= old(self).cursor,
            old(self).cursor - 1 < old(self).source@.len(),
            is_digit_char(old(self).source@[old(self).cursor - 1]),
        ensures
            final(self).source@ == old(self).source@,
            final(self).line == old(self).line,
            final(self).cursor as int == num_lexeme_end(old(self).source@, old(self).cursor - 1),
            final(self).tokens.deep_view() == old(self).tokens.deep_view().push(
                text_token(
                    TokenType::Number,
                    old(self).source@.subrange(
                        old(self).cursor - 1,
                        num_lexeme_end(old(self).source@, old(self).cursor - 1),
                    ),
                    old(self).line as nat,
                ),
            ),
    {
        let ghost s = self.source@;
        let start = self.cursor - 1;
        assert(digit_run_end(s, start as int) == digit_run_end(s, start + 1));
        while self.cursor < self.source.len() && digit_char(self.source[self.cursor])
            invariant
                start <= self.cursor <= s.len(),
                self.source@ == s,
                self.tokens == old(self).tokens,
                self.line == old(self).line,
                digit_run_end(s, start as int) == digit_run_end(s, self.cursor as int),
            decreases s.len() - self.cursor,
        {
            self.cursor = self.cursor + 1;
        }
        assert(digit_run_end(s, self.cursor as int) == self.cursor as int);
        if self.cursor < self.source.len() && self.source[self.cursor] == '.' && self.cursor + 1
            < self.source.len() && digit_char(self.source[self.cursor + 1]) {
            self.cursor = self.cursor + 1;
            let ghost dot_next = self.cursor as int;
            while self.cursor < self.source.len() && digit_char(self.source[self.cursor])
                invariant
                    dot_next <= self.cursor <= s.len(),
                    self.source@ == s,
                    self.tokens == old(self).tokens,
                    self.line == old(self).line,
                    digit_run_end(s, dot_next) == digit_run_end(s, self.cursor as int),
                decreases s.len() - self.cursor,
            {
                self.cursor = self.cursor + 1;
            }
            assert(digit_run_end(s, self.cursor as int) == self.cursor as int);
        }
        assert(self.cursor as int == num_lexeme_end(s, start as int));
        let text = collect_range(&self.source, start, self.cursor);
        let line = self.line;
        self.add_token(Token::new(TokenType::Number, Option::Some(text), line));
    }

    /// Read the word whose first letter the cursor stands on and append its
    /// keyword or identifier token; the cursor ends on the word's last
    /// character.
    #[verifier::loop_isolation(false)]
    pub fn alpha(&mut self)
        requires
            1 <= old(self).cursor,
            old(self).cursor - 1 < old(self).source@.len(),
            is_alpha_char(old(self).source@[old(self).cursor - 1]),
        ensures
            final(self).source@ == old(self).source@,
            final(self).line == old(self).line,
            final(self).cursor as int == alnum_run_end(old(self).source@, old(self).cursor - 1),
            final(self).tokens.deep_view() == old(self).tokens.deep_view().push(
                {
                    let word = old(self).source@.subrange(
                        old(self).cursor - 1,
                        alnum_run_end(old(self).source@, old(self).cursor - 1),
                    );
                    match keyword_of(word) {
                        Option::Some(kind) => bare_token(kind, old(self).line as nat),
                        Option::None => text_token(
                            TokenType::Identifier,
                            word,
                            old(self).line as nat,
                        ),
                    }
                },
            ),
    {
        let ghost s = self.source@;
        let start = self.cursor - 1;
        assert(alnum_run_end(s, start as int) == alnum_run_end(s, start + 1));
        while self.is_alpha_numeric(self.peek())
            invariant
                start + 1 <= self.cursor <= s.len(),
                self.source@ == s,
                self.tokens == old(self).tokens,
                self.line == old(self).line,
                alnum_run_end(s, start as int) == alnum_run_end(s, self.cursor as int),
            decreases s.len() - self.cursor,
        {
            assert(self.cursor < self.source.len());
            self.cursor = self.cursor + 1;
        }
        assert(alnum_run_end(s, self.cursor as int) == self.cursor as int);
        let value = collect_range(&self.source, start, self.cursor);
        let keywords = ReservedKeywords::new();
        proof {
            lemma_keyword_table_lookup(value@);
        }
        let line = self.line;
        match keywords.get(value.clone()) {
            Option::Some(token_type) => {
                self.add_token(Token::new(token_type, Option::None, line));
            },
            Option::None => {
                self.add_token(Token::new(TokenType::Identifier, Option::Some(value), line));
            },
        }
    }

    /// Scan the whole source into tokens, appending exactly one end-of-input
    /// token, or stop at the first lexical error. Implements `lex_from` from
    /// the scanner's current position.
    #[verifier::loop_isolation(false)]
    #[verifier::rlimit(80)]
    pub fn scan_tokens(&mut self) -> (r: Result<Vec<Token>, LunalaErrors>)
        requires
            old(self).line as int + old(self).source@.len() - old(self).cursor as int
                <= usize::MAX as int,
            old(self).cursor <= old(self).source@.len(),
            old(self).source@.len() < usize::MAX,
        ensures
            final(self).source@ == old(self).source@,
            r is Ok ==> final(self).cursor == old(self).source@.len() + 1,
            ({
                let pre = lex_from(
                    old(self).source@,
                    old(self).cursor as int,
                    old(self).line as nat,
                );
                match r {
                    Result::Ok(v) => pre matches Result::Ok(ts) && v.deep_view() == old(
                        self,
                    ).tokens.deep_view() + ts,
                    Result::Err(e) => pre matches Result::Err(em) && e@ == em,
                }
            }),
    {
        let ghost s = self.source@;
        let ghost c0 = old(self).cursor as int;
        let ghost l0 = old(self).line as nat;
        let ghost n0 = old(self).tokens.deep_view().len() as int;
        proof {
            assert(self.tokens.deep_view().skip(n0) =~= Seq::<TokenM>::empty());
            assert(self.tokens.deep_view().take(n0) =~= self.tokens.deep_view());
            assert(lex_seq_join(
                Seq::<TokenM>::empty(),
                lex_from(s, c0, l0),
            ) == lex_from(s, c0, l0)) by {
                match lex_from(s, c0, l0) {
                    Result::Ok(ts) => {
                        assert(Seq::<TokenM>::empty() + ts =~= ts);
                    },
                    Result::Err(_) => {},
                }
            }
        }
        while self.cursor < self.source.len()
            invariant
                self.source@ == s,
                self.cursor <= s.len(),
                self.line as int + s.len() - self.cursor as int <= usize::MAX as int,
                n0 <= self.tokens.deep_view().len(),
                self.tokens.deep_view().take(n0) == old(self).tokens.deep_view(),
                lex_from(s, c0, l0) == lex_seq_join(
                    self.tokens.deep_view().skip(n0),
                    lex_from(s, self.cursor as int, self.line as nat),
                ),
            decreases s.len() - self.cursor,
        {
            let ghost cur_it = self.cursor as int;
            let ghost line_it = self.line as nat;
            let ghost added = self.tokens.deep_view().skip(n0);
            let ghost deep0 = self.tokens.deep_view();
            let c = self.source[self.cursor];
            if ws_char(c) {
                if c == '\n' {
                    self.line = self.line + 1;
                }
                self.cursor = self.cursor + 1;
                proof {
                    assert(lex_from(s, cur_it, line_it) == lex_from(
                        s,
                        self.cursor as int,
                        self.line as nat,
                    ));
                }
            } else if digit_char(c) {
                // Step onto the first digit; `number` reads the lexeme from
                // there.
                self.cursor = self.cursor + 1;
                self.number();
                proof {
                    lemma_num_lexeme_end(s, cur_it);
                    let j = num_lexeme_end(s, cur_it);
                    let tok = text_token(TokenType::Number, s.subrange(cur_it, j), line_it);
                    assert(lex_from(s, cur_it, line_it) == lex_cons(tok, lex_from(s, j, line_it)));
                    lemma_added_push(deep0, tok, n0);
                    lemma_step_token(
                        s,
                        c0,
                        l0,
                        added,
                        tok,
                        cur_it,
                        line_it,
                        self.cursor as int,
                        self.line as nat,
                    );
                }
            } else if alpha_char(c) {
                // Step onto the first letter; `alpha` reads the word from
                // there.
                self.cursor = self.cursor + 1;
                self.alpha();
                proof {
                    lemma_alnum_run_end(s, cur_it);
                    let j = alnum_run_end(s, cur_it);
                    let word = s.subrange(cur_it, j);
                    let tok = match keyword_of(word) {
                        Option::Some(kind) => bare_token(kind, line_it),
                        Option::None => text_token(TokenType::Identifier, word, line_it),
                    };
                    assert(lex_from(s, cur_it, line_it) == lex_cons(tok, lex_from(s, j, line_it)));
                    lemma_added_push(deep0, tok, n0);
                    lemma_step_token(
                        s,
                        c0,
                        l0,
                        added,
                        tok,
                        cur_it,
                        line_it,
                        self.cursor as int,
                        self.line as nat,
                    );
                }
            } else if c == '/' {
                if self.cursor + 1 < self.source.len() && self.source[self.cursor + 1] == '/' {
                    self.add(TokenType::Comment);
                    let ghost deep1 = self.tokens.deep_view();
                    self.cursor = self.cursor + 2;
                    while self.cursor < self.source.len() && self.source[self.cursor] != '\n'
                        invariant
                            cur_it + 2 <= self.cursor <= s.len(),
                            self.source@ == s,
                            self.tokens.deep_view() == deep1,
                            self.line as nat == line_it,
                            line_break_pos(s, cur_it + 2) == line_break_pos(
                                s,
                                self.cursor as int,
                            ),
                        decreases s.len() - self.cursor,
                    {
                        self.cursor = self.cursor + 1;
                    }
                    proof {
                        assert(line_break_pos(s, self.cursor as int) == self.cursor as int);
                        let tok = bare_token(TokenType::Comment, line_it);
                        assert(lex_from(s, cur_it, line_it) == lex_cons(
                            tok,
                            lex_from(s, line_break_pos(s, cur_it + 2), line_it),
                        ));
                        lemma_added_push(deep0, tok, n0);
                        lemma_step_token(
                            s,
                            c0,
                            l0,
                            added,
                            tok,
                            cur_it,
                            line_it,
                            self.cursor as int,
                            self.line as nat,
                        );
                    }
                } else {
                    self.add(TokenType::Slash);
                    self.cursor = self.cursor + 1;
                    proof {
                        let tok = bare_token(TokenType::Slash, line_it);
                        assert(lex_from(s, cur_it, line_it) == lex_cons(
                            tok,
                            lex_from(s, cur_it + 1, line_it),
                        ));
                        lemma_added_push(deep0, tok, n0);
                        lemma_step_token(
                            s,
                            c0,
                            l0,
                            added,
                            tok,
                            cur_it,
                            line_it,
                            self.cursor as int,
                            self.line as nat,
                        );
                    }
                }
            } else if c == '=' || c == '<' || c == '>' || c == '!' {
                let two = self.cursor + 1 < self.source.len() && self.source[self.cursor + 1]
                    == '=';
                let kind = if c == '=' {
                    if two {
                        TokenType::DoubleEquals
                    } else {
                        TokenType::Equals
                    }
                } else if c == '<' {
                    if two {
                        TokenType::LessEquals
                    } else {
                        TokenType::LessThan
                    }
                } else if c == '>' {
                    if two {
                        TokenType::GreaterEquals
                    } else {
                        TokenType::GreaterThan
                    }
                } else {
                    if two {
                        TokenType::BangEquals
                    } else {
                        TokenType::Bang
                    }
                };
                self.add(kind);
                self.cursor = if two {
                    self.cursor + 2
                } else {
                    self.cursor + 1
                };
                proof {
                    let tok = bare_token(kind, line_it);
                    assert(lex_from(s, cur_it, line_it) == lex_cons(
                        tok,
                        lex_from(s, self.cursor as int, line_it),
                    ));
                    lemma_added_push(deep0, tok, n0);
                    lemma_step_token(
                        s,
                        c0,
                        l0,
                        added,
                        tok,
                        cur_it,
                        line_it,
                        self.cursor as int,
                        self.line as nat,
                    );
                }
            } else if c == '"' {
                let start = self.cursor;
                let tline = self.line;
                self.cursor = self.cursor + 1;
                proof {
                    assert(s.subrange(start as int + 1, self.cursor as int)
                        =~= Seq::<char>::empty());
                }
                while self.cursor < self.source.len() && self.source[self.cursor] != '"'
                    invariant
                        start as int + 1 <= self.cursor <= s.len(),
                        self.source@ == s,
                        self.tokens.deep_view() == deep0,
                        self.line as nat == tline as nat + newline_count(
                            s.subrange(start as int + 1, self.cursor as int),
                        ),
                        self.line as int + s.len() - self.cursor as int <= usize::MAX as int,
                        quote_pos(s, start as int + 1) == quote_pos(s, self.cursor as int),
                    decreases s.len() - self.cursor,
                {
                    let ghost precur = self.cursor as int;
                    if self.source[self.cursor] == '\n' {
                        self.line = self.line + 1;
                    }
                    self.cursor = self.cursor + 1;
                    proof {
                        let t = s.subrange(start as int + 1, self.cursor as int);
                        assert(t.drop_last() =~= s.subrange(start as int + 1, precur));
                        assert(t.last() == s[precur]);
                    }
                }
                if self.cursor >= self.source.len() {
                    proof {
                        assert(quote_pos(s, start as int + 1) >= s.len());
                        assert(lex_from(s, cur_it, line_it) matches Result::Err(em) && em == (LErrM {
                            kind: ErrM::UnterminatedString,
                            line: line_it,
                        }));
                    }
                    // The step past the last character, where the closing
                    // quote was still missing.
                    self.cursor = self.cursor + 1;
                    return Result::Err(
                        LunalaErrors::new(ErrorTypes::UnterminatedString, tline),
                    );
                }
                let text = collect_range(&self.source, start + 1, self.cursor);
                self.add_token(Token::new(TokenType::String, Option::Some(text), tline));
                self.cursor = self.cursor + 1;
                proof {
                    let q = quote_pos(s, start as int + 1);
                    assert(q == self.cursor - 1);
                    let content = s.subrange(start as int + 1, q);
                    let tok = text_token(TokenType::String, content, line_it);
                    assert(lex_from(s, cur_it, line_it) == lex_cons(
                        tok,
                        lex_from(s, q + 1, line_it + newline_count(content)),
                    ));
                    lemma_added_push(deep0, tok, n0);
                    lemma_step_token(
                        s,
                        c0,
                        l0,
                        added,
                        tok,
                        cur_it,
                        line_it,
                        self.cursor as int,
                        self.line as nat,
                    );
                }
            } else {
                match single_kind(c) {
                    Option::Some(kind) => {
                        self.add(kind);
                        self.cursor = self.cursor + 1;
                        proof {
                            let tok = bare_token(kind, line_it);
                            assert(lex_from(s, cur_it, line_it) == lex_cons(
                                tok,
                                lex_from(s, cur_it + 1, line_it),
                            ));
                            lemma_added_push(deep0, tok, n0);
                            lemma_step_token(
                                s,
                                c0,
                                l0,
                                added,
                                tok,
                                cur_it,
                                line_it,
                                self.cursor as int,
                                self.line as nat,
                            );
                        }
                    },
                    Option::None => {
                        let mut t = String::new();
                        push_char(&mut t, c);
                        proof {
                            assert(t@ =~= seq![c]);
                            assert(lex_from(s, cur_it, line_it) matches Result::Err(em) && em
                                == (LErrM { kind: ErrM::InvalidToken(seq![c]), line: line_it }));
                        }
                        // Step onto the offending character and stop there.
                        self.cursor = self.cursor + 1;
                        return self.error(ErrorTypes::InvalidToken(t));
                    },
                }
            }
        }
        proof {
            assert(lex_from(s, self.cursor as int, self.line as nat) == Result::<
                Seq<TokenM>,
                LErrM,
            >::Ok(seq![bare_token(TokenType::EOF, self.line as nat)]));
        }
        let ghost deep0 = self.tokens.deep_view();
        let ghost added = self.tokens.deep_view().skip(n0);
        let ghost eof_line = self.line as nat;
        // The step past the last character, which finds the end of input.
        self.cursor = self.cursor + 1;
        self.add(TokenType::EOF);
        let out = self._get_tokens();
        proof {
            let tok = bare_token(TokenType::EOF, eof_line);
            lemma_added_push(deep0, tok, n0);
            assert(self.tokens.deep_view() =~= self.tokens.deep_view().take(n0)
                + self.tokens.deep_view().skip(n0));
            assert(added + seq![tok] =~= added.push(tok));
        }
        Result::Ok(out)
    }

    /// All tokens read so far.
    pub fn _get_tokens(&self) -> (r: Vec<Token>)
        ensures
            r.deep_view() == self.tokens.deep_view(),
    {
        let mut v: Vec<Token> = Vec::new();
        let mut i: usize = 0;
        while i < self.tokens.len()
            invariant
                i <= self.tokens@.len(),
                v.deep_view() == self.tokens.deep_view().take(i as int),
            decreases self.tokens@.len() - i,
        {
            let t = self.tokens[i].clone();
            assert(t@ == self.tokens.deep_view()[i as int]);
            let ghost pre = v@;
            let ghost predeep = v.deep_view();
            v.push(t);
            i = i + 1;
            proof {
                assert(predeep == self.tokens.deep_view().take(i - 1));
                assert(predeep.len() == i - 1);
                assert(pre.len() == i - 1);
                assert(v@.len() == i);
                assert forall|k: int| 0 <= k < v@.len() implies v.deep_view()[k]
                    == self.tokens.deep_view().take(i as int)[k] by {
                    assert(self.tokens.deep_view().len() == self.tokens@.len());
                    assert(v.deep_view()[k] == v@[k].deep_view());
                    assert(self.tokens.deep_view().take(i as int)[k] == self.tokens.deep_view()[k]);
                    assert(self.tokens.deep_view()[k] == self.tokens@[k].deep_view());
                    if k < pre.len() {
                        assert(v@[k] == pre[k]);
                        assert(predeep[k] == pre[k].deep_view());
                        assert(predeep[k] == self.tokens.deep_view().take(i - 1)[k]);
                    } else {
                        assert(v@[k] == t);
                    }
                }
                assert(v.deep_view() =~= self.tokens.deep_view().take(i as int));
            }
        }
        assert(self.tokens.deep_view().take(self.tokens@.len() as int) =~= self.tokens.deep_view());
        v
    }
}

} // verus!
