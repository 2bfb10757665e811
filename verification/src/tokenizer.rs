//! The tokenizer: a grammar-driven transformation from a source string
//! to an ordered sequence of positioned tokens, ending with `EOI`.
//!
//! Lexical rules, in precedence order: `//` to end of line and
//! non-nesting `/* … */` are comments and are skipped; `\r` is
//! stripped; `\n` emits a newline atom; spaces and tabs emit one
//! whitespace atom per character; `[A-Za-z][A-Za-z0-9]*` emits a word
//! (the reserved identifiers lex to keywords); a single decimal digit
//! emits a digit atom; the known punctuation characters emit their
//! atoms; any other character emits a character atom. The only
//! ill-formed input is an unterminated block comment.

use vstd::prelude::*;

use crate::lcc::{sat_add, sat_add_usize};
use crate::tokens::{
    pseq, word_token, Keyword, Token, TokenPair, TokenPairV, TokenV, Whitespace,
};
use crate::{pos_view, Pos, PosV};

verus! {

/// A tokenization failure: the one ill-formed input is a block comment
/// that never closes. The span points at its opening characters.
#[derive(Debug)]
pub struct TokenizeError {
    path: String,
    start: Pos,
    end: Pos,
}

/// The ghost mirror of [`TokenizeError`].
pub struct TokenizeErrorV {
    pub path: Seq<char>,
    pub start: PosV,
    pub end: PosV,
}

impl View for TokenizeError {
    type V = TokenizeErrorV;

    closed spec fn view(&self) -> TokenizeErrorV {
        TokenizeErrorV {
            path: self.path@,
            start: pos_view(self.start),
            end: pos_view(self.end),
        }
    }
}

impl TokenizeError {
    /// The path of the source that failed.
    pub fn path(&self) -> (r: &str)
        ensures
            r@ == self@.path,
    {
        self.path.as_str()
    }

    /// Where the offending construct opens.
    pub fn start(&self) -> (r: Pos)
        ensures
            pos_view(r) == self@.start,
    {
        self.start
    }

    /// Where the offending construct ends.
    pub fn end(&self) -> (r: Pos)
        ensures
            pos_view(r) == self@.end,
    {
        self.end
    }

    /// A human-readable account of the failure.
    pub fn message(&self) -> String {
        "unterminated block comment".to_owned()
    }
}

/// An ASCII letter.
pub open spec fn is_alpha(c: char) -> bool {
    (65 <= c as u32 && c as u32 <= 90) || (97 <= c as u32 && c as u32 <= 122)
}

fn is_alpha_x(c: char) -> (r: bool)
    ensures
        r == is_alpha(c),
{
    let u = c as u32;
    (65 <= u && u <= 90) || (97 <= u && u <= 122)
}

/// An ASCII decimal digit.
pub open spec fn is_digit(c: char) -> bool {
    c == '0' || c == '1' || c == '2' || c == '3' || c == '4' || c == '5' || c == '6' || c == '7'
        || c == '8' || c == '9'
}

fn is_digit_x(c: char) -> (r: bool)
    ensures
        r == is_digit(c),
{
    c == '0' || c == '1' || c == '2' || c == '3' || c == '4' || c == '5' || c == '6' || c == '7'
        || c == '8' || c == '9'
}

/// The value of an ASCII decimal digit.
pub open spec fn digit_val(c: char) -> u8 {
    if c == '0' {
        0
    } else if c == '1' {
        1
    } else if c == '2' {
        2
    } else if c == '3' {
        3
    } else if c == '4' {
        4
    } else if c == '5' {
        5
    } else if c == '6' {
        6
    } else if c == '7' {
        7
    } else if c == '8' {
        8
    } else {
        9
    }
}

fn digit_val_x(c: char) -> (r: u8)
    ensures
        r == digit_val(c),
{
    if c == '0' {
        0
    } else if c == '1' {
        1
    } else if c == '2' {
        2
    } else if c == '3' {
        3
    } else if c == '4' {
        4
    } else if c == '5' {
        5
    } else if c == '6' {
        6
    } else if c == '7' {
        7
    } else if c == '8' {
        8
    } else {
        9
    }
}

/// A character that may continue a word: an ASCII letter or digit.
pub open spec fn is_word_char(c: char) -> bool {
    is_alpha(c) || is_digit(c)
}

fn is_word_char_x(c: char) -> (r: bool)
    ensures
        r == is_word_char(c),
{
    is_alpha_x(c) || is_digit_x(c)
}

/// The token a single punctuation character lexes to, if it is one of
/// the known set.
pub open spec fn punct_token(c: char) -> Option<TokenV> {
    if c == '_' {
        Some(TokenV::Underscore)
    } else if c == '-' {
        Some(TokenV::Dash)
    } else if c == '=' {
        Some(TokenV::Assignment)
    } else if c == '{' {
        Some(TokenV::LeftBrace)
    } else if c == '}' {
        Some(TokenV::RightBrace)
    } else if c == '[' {
        Some(TokenV::LeftBracket)
    } else if c == ']' {
        Some(TokenV::RightBracket)
    } else if c == '(' {
        Some(TokenV::LeftParenthesis)
    } else if c == ')' {
        Some(TokenV::RightParenthesis)
    } else if c == ':' {
        Some(TokenV::Colon)
    } else if c == ';' {
        Some(TokenV::Semicolon)
    } else if c == '#' {
        Some(TokenV::Directive)
    } else if c == '\\' {
        Some(TokenV::Escape)
    } else if c == ',' {
        Some(TokenV::Comma)
    } else if c == '.' {
        Some(TokenV::Decimal)
    } else if c == '"' {
        Some(TokenV::DoubleQuote)
    } else if c == '\'' {
        Some(TokenV::SingleQuote)
    } else {
        None
    }
}

fn punct_token_x(c: char) -> (r: Option<Token>)
    ensures
        match punct_token(c) {
            Some(t) => r matches Some(t2) && t2@ == t,
            None => r is None,
        },
{
    if c == '_' {
        Some(Token::Underscore)
    } else if c == '-' {
        Some(Token::Dash)
    } else if c == '=' {
        Some(Token::Assignment)
    } else if c == '{' {
        Some(Token::LeftBrace)
    } else if c == '}' {
        Some(Token::RightBrace)
    } else if c == '[' {
        Some(Token::LeftBracket)
    } else if c == ']' {
        Some(Token::RightBracket)
    } else if c == '(' {
        Some(Token::LeftParenthesis)
    } else if c == ')' {
        Some(Token::RightParenthesis)
    } else if c == ':' {
        Some(Token::Colon)
    } else if c == ';' {
        Some(Token::Semicolon)
    } else if c == '#' {
        Some(Token::Directive)
    } else if c == '\\' {
        Some(Token::Escape)
    } else if c == ',' {
        Some(Token::Comma)
    } else if c == '.' {
        Some(Token::Decimal)
    } else if c == '"' {
        Some(Token::DoubleQuote)
    } else if c == '\'' {
        Some(Token::SingleQuote)
    } else {
        None
    }
}

/// How many characters a line comment covers after its `//`: everything
/// up to, not including, the next newline or the end of input.
pub open spec fn line_comment_len(s: Seq<char>, off: int) -> nat
    decreases s.len() - off when 0 <= off <= s.len()
{
    if off >= s.len() || s[off] == '\n' {
        0
    } else {
        1 + line_comment_len(s, off + 1)
    }
}

proof fn lemma_line_comment_len_bound(s: Seq<char>, off: int)
    requires
        0 <= off <= s.len(),
    ensures
        off + line_comment_len(s, off) <= s.len(),
    decreases s.len() - off,
{
    if off < s.len() && s[off] != '\n' {
        lemma_line_comment_len_bound(s, off + 1);
    }
}

/// How many characters a block comment covers after its `/*`, counting
/// the closing `*/`; nothing if the comment never closes.
pub open spec fn block_comment_len(s: Seq<char>, off: int) -> Option<nat>
    decreases s.len() - off when 0 <= off <= s.len()
{
    if off + 2 <= s.len() && s[off] == '*' && s[off + 1] == '/' {
        Some(2nat)
    } else if off >= s.len() {
        None
    } else {
        match block_comment_len(s, off + 1) {
            Some(k) => Some((k + 1) as nat),
            None => None,
        }
    }
}

proof fn lemma_block_comment_len_bound(s: Seq<char>, off: int)
    requires
        0 <= off <= s.len(),
    ensures
        block_comment_len(s, off) matches Some(k) ==> off + k <= s.len(),
    decreases s.len() - off,
{
    if off + 2 <= s.len() && s[off] == '*' && s[off + 1] == '/' {
    } else if off < s.len() {
        lemma_block_comment_len_bound(s, off + 1);
    }
}

/// How many characters a word covers from a given offset: the run of
/// ASCII letters and digits.
pub open spec fn word_len(s: Seq<char>, off: int) -> nat
    decreases s.len() - off when 0 <= off <= s.len()
{
    if off >= s.len() || !is_word_char(s[off]) {
        0
    } else {
        1 + word_len(s, off + 1)
    }
}

pub proof fn lemma_word_len_bound(s: Seq<char>, off: int)
    requires
        0 <= off <= s.len(),
    ensures
        off + word_len(s, off) <= s.len(),
    decreases s.len() - off,
{
    if off < s.len() && is_word_char(s[off]) {
        lemma_word_len_bound(s, off + 1);
    }
}

/// The line and column after walking the characters from one offset to
/// another: a newline starts the next line at column one, anything else
/// is one more column.
pub open spec fn advance_over(s: Seq<char>, from: int, to: int, line: int, col: int) -> (int, int)
    decreases to - from when from <= to
{
    if from >= to {
        (line, col)
    } else if s[from] == '\n' {
        advance_over(s, from + 1, to, sat_add(line, 1), 1)
    } else {
        advance_over(s, from + 1, to, line, sat_add(col, 1))
    }
}

/// The pair view a tokenizer-made pair has.
pub open spec fn made_pair(path: Seq<char>, t: TokenV, start: PosV, end: PosV) -> TokenPairV {
    TokenPairV { path: path, token: t, start: Some(start), end: Some(end) }
}

/// The whole tokenization, from a given offset and position: the
/// ordered token sequence the rest of the source lexes to, or the
/// unterminated-comment error.
pub open spec fn sp_tokenize(s: Seq<char>, path: Seq<char>, off: int, line: int, col: int) -> Result<
    Seq<TokenPairV>,
    TokenizeErrorV,
>
    decreases s.len() - off when 0 <= off <= s.len() via sp_tokenize_dec
{
    if off >= s.len() {
        Ok(seq![made_pair(path, TokenV::EOI, (off, (line, col)), (off, (line, col)))])
    } else {
        let c = s[off];
        if c == '/' && off + 1 < s.len() && s[off + 1] == '/' {
            let k = 2 + line_comment_len(s, off + 2);
            sp_tokenize(s, path, off + k, line, sat_add(col, k as int))
        } else if c == '/' && off + 1 < s.len() && s[off + 1] == '*' {
            match block_comment_len(s, off + 2) {
                Some(k0) => {
                    let lc = advance_over(s, off + 2, off + 2 + k0, line, sat_add(col, 2));
                    sp_tokenize(s, path, off + 2 + k0, lc.0, lc.1)
                },
                None => Err(
                    TokenizeErrorV {
                        path: path,
                        start: (off, (line, col)),
                        end: (off, (line, col)),
                    },
                ),
            }
        } else if c == '\r' {
            sp_tokenize(s, path, off + 1, line, sat_add(col, 1))
        } else if c == '\n' {
            let p = made_pair(
                path,
                TokenV::Newline,
                (off, (line, col)),
                (off + 1, (sat_add(line, 1), 1)),
            );
            match sp_tokenize(s, path, off + 1, sat_add(line, 1), 1) {
                Ok(ts) => Ok(seq![p] + ts),
                Err(e) => Err(e),
            }
        } else if c == ' ' || c == '\t' {
            let t = if c == ' ' {
                TokenV::Whitespace(Whitespace::Space)
            } else {
                TokenV::Whitespace(Whitespace::Tab)
            };
            let p = made_pair(path, t, (off, (line, col)), (off + 1, (line, sat_add(col, 1))));
            match sp_tokenize(s, path, off + 1, line, sat_add(col, 1)) {
                Ok(ts) => Ok(seq![p] + ts),
                Err(e) => Err(e),
            }
        } else if is_alpha(c) {
            let k = 1 + word_len(s, off + 1);
            let t = word_token(s.subrange(off, off + k));
            let p = made_pair(
                path,
                t,
                (off, (line, col)),
                (off + k, (line, sat_add(col, k as int))),
            );
            match sp_tokenize(s, path, off + k, line, sat_add(col, k as int)) {
                Ok(ts) => Ok(seq![p] + ts),
                Err(e) => Err(e),
            }
        } else {
            let t = if is_digit(c) {
                TokenV::Digit(digit_val(c))
            } else {
                match punct_token(c) {
                    Some(t) => t,
                    None => TokenV::Char(c),
                }
            };
            let p = made_pair(path, t, (off, (line, col)), (off + 1, (line, sat_add(col, 1))));
            match sp_tokenize(s, path, off + 1, line, sat_add(col, 1)) {
                Ok(ts) => Ok(seq![p] + ts),
                Err(e) => Err(e),
            }
        }
    }
}

#[via_fn]
proof fn sp_tokenize_dec(s: Seq<char>, path: Seq<char>, off: int, line: int, col: int) {
    if 0 <= off < s.len() {
        if off + 2 <= s.len() {
            lemma_line_comment_len_bound(s, off + 2);
            lemma_block_comment_len_bound(s, off + 2);
        }
        if off + 1 <= s.len() {
            lemma_word_len_bound(s, off + 1);
        }
    }
}

fn line_comment_end(source: &str, off: usize, n: usize) -> (r: usize)
    requires
        n == source@.len(),
        off <= n,
    ensures
        r == off + line_comment_len(source@, off as int),
        off <= r <= n,
    decreases n - off,
{
    if off == n {
        off
    } else {
        let c = source.get_char(off);
        if c == '\n' {
            off
        } else {
            line_comment_end(source, off + 1, n)
        }
    }
}

fn word_end(source: &str, off: usize, n: usize) -> (r: usize)
    requires
        n == source@.len(),
        off <= n,
    ensures
        r == off + word_len(source@, off as int),
        off <= r <= n,
    decreases n - off,
{
    if off == n {
        off
    } else {
        let c = source.get_char(off);
        if is_word_char_x(c) {
            word_end(source, off + 1, n)
        } else {
            off
        }
    }
}

fn scan_block_comment(source: &str, off: usize, n: usize, line: usize, col: usize) -> (r: Option<
    (usize, usize, usize),
>)
    requires
        n == source@.len(),
        off <= n,
    ensures
        match block_comment_len(source@, off as int) {
            Some(k) => {
                let lc = advance_over(source@, off as int, off + k, line as int, col as int);
                r matches Some(e) && e.0 == off + k && e.1 == lc.0 && e.2 == lc.1
            },
            None => r is None,
        },
    decreases n - off,
{
    proof {
        lemma_block_comment_len_bound(source@, off as int);
    }
    if off == n {
        return None;
    }
    if off + 1 < n && source.get_char(off) == '*' && source.get_char(off + 1) == '/' {
        proof {
            let s0 = source@;
            let o = off as int;
            assert(advance_over(s0, o, o + 2, line as int, col as int) == advance_over(
                s0,
                o + 1,
                o + 2,
                line as int,
                sat_add(col as int, 1),
            ));
            assert(advance_over(s0, o + 1, o + 2, line as int, sat_add(col as int, 1))
                == advance_over(s0, o + 2, o + 2, line as int, sat_add(sat_add(col as int, 1), 1)));
            assert(sat_add(sat_add(col as int, 1), 1) == sat_add(col as int, 2));
        }
        Some((off + 2, line, sat_add_usize(col, 2)))
    } else {
        let c = source.get_char(off);
        if c == '\n' {
            match scan_block_comment(source, off + 1, n, sat_add_usize(line, 1), 1) {
                Some(e) => Some(e),
                None => None,
            }
        } else {
            match scan_block_comment(source, off + 1, n, line, sat_add_usize(col, 1)) {
                Some(e) => Some(e),
                None => None,
            }
        }
    }
}

fn tokenize_from(
    source: &str,
    n: usize,
    path: &str,
    off: usize,
    line: usize,
    col: usize,
    out: &mut Vec<TokenPair>,
) -> (r: Result<(), TokenizeError>)
    requires
        n == source@.len(),
        off <= n,
    ensures
        match sp_tokenize(source@, path@, off as int, line as int, col as int) {
            Ok(ts) => r is Ok && pseq(final(out)@) == pseq(old(out)@) + ts,
            Err(e) => r matches Err(e2) && e2@ == e,
        },
    decreases n - off,
{
    if off == n {
        let p = TokenPair::new(path, Token::EOI, (off, (line, col)), (off, (line, col)));
        let ghost pv = p@;
        out.push(p);
        proof {
            assert(pseq(out@) =~= pseq(old(out)@) + seq![pv]);
        }
        return Ok(());
    }
    let c = source.get_char(off);
    if c == '/' && off + 1 < n && source.get_char(off + 1) == '/' {
        let e = line_comment_end(source, off + 2, n);
        proof {
            assert(sat_add(col as int, e - off) == sat_add(col as int, (2 + line_comment_len(
                source@,
                off + 2,
            )) as int));
        }
        let col2 = sat_add_usize(col, e - off);
        return tokenize_from(source, n, path, e, line, col2, out);
    }
    if c == '/' && off + 1 < n && source.get_char(off + 1) == '*' {
        let col2 = sat_add_usize(col, 2);
        match scan_block_comment(source, off + 2, n, line, col2) {
            Some(e) => {
                proof {
                    lemma_block_comment_len_bound(source@, off + 2);
                }
                return tokenize_from(source, n, path, e.0, e.1, e.2, out);
            },
            None => {
                return Err(
                    TokenizeError {
                        path: path.to_owned(),
                        start: (off, (line, col)),
                        end: (off, (line, col)),
                    },
                );
            },
        }
    }
    if c == '\r' {
        return tokenize_from(source, n, path, off + 1, line, sat_add_usize(col, 1), out);
    }
    // The remaining cases each emit exactly one token and recurse.
    let tok: Token;
    let off2: usize;
    let line2: usize;
    let col2: usize;
    if c == '\n' {
        tok = Token::Newline;
        off2 = off + 1;
        line2 = sat_add_usize(line, 1);
        col2 = 1;
    } else if c == ' ' {
        tok = Token::Whitespace(Whitespace::Space);
        off2 = off + 1;
        line2 = line;
        col2 = sat_add_usize(col, 1);
    } else if c == '\t' {
        tok = Token::Whitespace(Whitespace::Tab);
        off2 = off + 1;
        line2 = line;
        col2 = sat_add_usize(col, 1);
    } else if is_alpha_x(c) {
        let e = word_end(source, off + 1, n);
        let w = source.substring_char(off, e).to_owned();
        tok = Token::from_word(w);
        off2 = e;
        line2 = line;
        col2 = sat_add_usize(col, e - off);
    } else if is_digit_x(c) {
        tok = Token::Digit(digit_val_x(c));
        off2 = off + 1;
        line2 = line;
        col2 = sat_add_usize(col, 1);
    } else {
        tok = match punct_token_x(c) {
            Some(t) => t,
            None => Token::Char(c),
        };
        off2 = off + 1;
        line2 = line;
        col2 = sat_add_usize(col, 1);
    }
    let p = TokenPair::new(path, tok, (off, (line, col)), (off2, (line2, col2)));
    let ghost pv = p@;
    out.push(p);
    proof {
        assert(pseq(out@) =~= pseq(old(out)@).push(pv));
    }
    let ghost mid = pseq(out@);
    let r = tokenize_from(source, n, path, off2, line2, col2, out);
    proof {
        let sp_next = sp_tokenize(source@, path@, off2 as int, line2 as int, col2 as int);
        if sp_next is Ok {
            let ts = sp_next->Ok_0;
            assert(pseq(out@) == mid + ts);
            assert(pseq(old(out)@).push(pv) + ts =~= pseq(old(out)@) + (seq![pv] + ts));
        }
    }
    return r;
}

/// A tokenized source: the path, the source text, and the ordered
/// tokens, the last of which is `EOI`.
#[derive(Debug)]
pub struct Tokens {
    path: String,
    source: String,
    tokens: Vec<TokenPair>,
}

/// The ghost mirror of [`Tokens`].
pub struct TokensV {
    pub path: Seq<char>,
    pub source: Seq<char>,
    pub tokens: Seq<TokenPairV>,
}

impl View for Tokens {
    type V = TokensV;

    closed spec fn view(&self) -> TokensV {
        TokensV { path: self.path@, source: self.source@, tokens: pseq(self.tokens@) }
    }
}

impl Tokens {
    /// Tokenizes a source under a path label.
    pub fn new(path: &str, source: &str) -> (r: Result<Self, TokenizeError>)
        ensures
            match sp_tokenize(source@, path@, 0, 1, 1) {
                Ok(ts) => r matches Ok(t) && t@.tokens == ts && t@.path == path@ && t@.source
                    == source@,
                Err(e) => r matches Err(e2) && e2@ == e,
            },
    {
        let n = source.unicode_len();
        let mut out: Vec<TokenPair> = Vec::new();
        match tokenize_from(source, n, path, 0, 1, 1, &mut out) {
            Ok(()) => {
                proof {
                    assert(pseq(out@) =~= sp_tokenize(source@, path@, 0, 1, 1)->Ok_0);
                }
                Ok(Tokens { path: path.to_owned(), source: source.to_owned(), tokens: out })
            },
            Err(e) => Err(e),
        }
    }

    /// The tokens, in source order.
    pub fn tokens(&self) -> (r: &Vec<TokenPair>)
        ensures
            pseq(r@) == self@.tokens,
    {
        &self.tokens
    }

    /// The token at an index.
    pub fn get(&self, i: usize) -> (r: &TokenPair)
        requires
            i < self@.tokens.len(),
        ensures
            r@ == self@.tokens[i as int],
    {
        &self.tokens[i]
    }

    /// The path label the source was tokenized under.
    pub fn path(&self) -> (r: &str)
        ensures
            r@ == self@.path,
    {
        self.path.as_str()
    }

    /// The source text.
    pub fn source(&self) -> (r: &str)
        ensures
            r@ == self@.source,
    {
        self.source.as_str()
    }

    /// How many tokens the source produced.
    pub fn len(&self) -> (r: usize)
        ensures
            r == self@.tokens.len(),
    {
        self.tokens.len()
    }

    /// Whether no tokens were produced; a tokenized source always ends
    /// with `EOI`, so this says the struct was built by hand.
    pub fn is_empty(&self) -> (r: bool)
        ensures
            r == (self@.tokens.len() == 0),
    {
        self.tokens.is_empty()
    }
}

/// Tokenizes a source under a path label.
pub fn tokenize(source: &str, path: &str) -> (r: Result<Tokens, TokenizeError>)
    ensures
        match sp_tokenize(source@, path@, 0, 1, 1) {
            Ok(ts) => r matches Ok(t) && t@.tokens == ts && t@.path == path@ && t@.source
                == source@,
            Err(e) => r matches Err(e2) && e2@ == e,
        },
{
    Tokens::new(path, source)
}

} // verus!
