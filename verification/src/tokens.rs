//! The lexical token model: every atom the tokenizer can emit, and the
//! pairing of a token with its source path and resolved positions.

use vstd::prelude::*;

use crate::{pos_view, Pos, PosV};

verus! {

/// One horizontal-whitespace character.
#[derive(Clone, Copy, Debug, PartialEq, Eq, Structural)]
pub enum Whitespace {
    Space,
    Tab,
}

/// The source text of a whitespace atom.
pub open spec fn whitespace_str(w: Whitespace) -> Seq<char> {
    match w {
        Whitespace::Space => seq![' '],
        Whitespace::Tab => seq!['\t'],
    }
}

impl Whitespace {
    /// The single character this atom stands for, as a string.
    pub fn to_source(&self) -> (r: String)
        ensures
            r@ == whitespace_str(*self),
    {
        match self {
            Whitespace::Space => char_string(' '),
            Whitespace::Tab => char_string('\t'),
        }
    }
}

/// A reserved identifier of the configuration grammar.
#[derive(Clone, Copy, Debug, PartialEq, Eq, Structural)]
pub enum Keyword {
    Class,
    Delete,
    Enum,
}

/// The source text of a keyword.
pub open spec fn keyword_str(k: Keyword) -> Seq<char> {
    match k {
        Keyword::Class => "class"@,
        Keyword::Delete => "delete"@,
        Keyword::Enum => "enum"@,
    }
}

/// The number of source characters of a keyword.
pub open spec fn keyword_size(k: Keyword) -> nat {
    match k {
        Keyword::Class => 5,
        Keyword::Delete => 6,
        Keyword::Enum => 4,
    }
}

/// `keyword_size` agrees with the length of the keyword's source text.
pub proof fn lemma_keyword_size_is_str_len(k: Keyword)
    ensures
        keyword_size(k) == keyword_str(k).len(),
{
    reveal_strlit("class");
    reveal_strlit("delete");
    reveal_strlit("enum");
}

impl Keyword {
    /// The number of source characters that produced the keyword.
    pub fn len(&self) -> (r: usize)
        ensures
            r == keyword_size(*self),
    {
        match self {
            Keyword::Class => 5,
            Keyword::Delete => 6,
            Keyword::Enum => 4,
        }
    }

    /// Same as [`Keyword::len`]; kept under both names for callers of either.
    pub fn size(&self) -> (r: usize)
        ensures
            r == keyword_size(*self),
    {
        self.len()
    }

    /// A keyword always has source text.
    pub fn is_empty(&self) -> (r: bool)
        ensures
            r == false,
    {
        false
    }

    /// The keyword's source text.
    pub fn to_source(&self) -> (r: String)
        ensures
            r@ == keyword_str(*self),
    {
        match self {
            Keyword::Class => "class".to_owned(),
            Keyword::Delete => "delete".to_owned(),
            Keyword::Enum => "enum".to_owned(),
        }
    }
}

/// A lexical atom of the configuration language.
#[derive(Debug, PartialEq)]
pub enum Token {
    Keyword(Keyword),
    Word(String),
    Alpha(char),
    Digit(u8),
    Underscore,
    Dash,
    Assignment,
    LeftBrace,
    RightBrace,
    LeftBracket,
    RightBracket,
    LeftParenthesis,
    RightParenthesis,
    Colon,
    Semicolon,
    Directive,
    Escape,
    Comma,
    Decimal,
    DoubleQuote,
    SingleQuote,
    Char(char),
    Newline,
    Whitespace(Whitespace),
    EOI,
}

/// The ghost mirror of [`Token`]; a word carries its character sequence.
pub enum TokenV {
    Keyword(Keyword),
    Word(Seq<char>),
    Alpha(char),
    Digit(u8),
    Underscore,
    Dash,
    Assignment,
    LeftBrace,
    RightBrace,
    LeftBracket,
    RightBracket,
    LeftParenthesis,
    RightParenthesis,
    Colon,
    Semicolon,
    Directive,
    Escape,
    Comma,
    Decimal,
    DoubleQuote,
    SingleQuote,
    Char(char),
    Newline,
    Whitespace(Whitespace),
    EOI,
}

impl View for Token {
    type V = TokenV;

    open spec fn view(&self) -> TokenV {
        match self {
            Token::Keyword(k) => TokenV::Keyword(*k),
            Token::Word(w) => TokenV::Word(w@),
            Token::Alpha(c) => TokenV::Alpha(*c),
            Token::Digit(d) => TokenV::Digit(*d),
            Token::Underscore => TokenV::Underscore,
            Token::Dash => TokenV::Dash,
            Token::Assignment => TokenV::Assignment,
            Token::LeftBrace => TokenV::LeftBrace,
            Token::RightBrace => TokenV::RightBrace,
            Token::LeftBracket => TokenV::LeftBracket,
            Token::RightBracket => TokenV::RightBracket,
            Token::LeftParenthesis => TokenV::LeftParenthesis,
            Token::RightParenthesis => TokenV::RightParenthesis,
            Token::Colon => TokenV::Colon,
            Token::Semicolon => TokenV::Semicolon,
            Token::Directive => TokenV::Directive,
            Token::Escape => TokenV::Escape,
            Token::Comma => TokenV::Comma,
            Token::Decimal => TokenV::Decimal,
            Token::DoubleQuote => TokenV::DoubleQuote,
            Token::SingleQuote => TokenV::SingleQuote,
            Token::Char(c) => TokenV::Char(*c),
            Token::Newline => TokenV::Newline,
            Token::Whitespace(w) => TokenV::Whitespace(*w),
            Token::EOI => TokenV::EOI,
        }
    }
}

impl Clone for Token {
    fn clone(&self) -> (r: Self)
        ensures
            r@ == self@,
    {
        match self {
            Token::Keyword(k) => Token::Keyword(*k),
            Token::Word(w) => Token::Word(w.clone()),
            Token::Alpha(c) => Token::Alpha(*c),
            Token::Digit(d) => Token::Digit(*d),
            Token::Underscore => Token::Underscore,
            Token::Dash => Token::Dash,
            Token::Assignment => Token::Assignment,
            Token::LeftBrace => Token::LeftBrace,
            Token::RightBrace => Token::RightBrace,
            Token::LeftBracket => Token::LeftBracket,
            Token::RightBracket => Token::RightBracket,
            Token::LeftParenthesis => Token::LeftParenthesis,
            Token::RightParenthesis => Token::RightParenthesis,
            Token::Colon => Token::Colon,
            Token::Semicolon => Token::Semicolon,
            Token::Directive => Token::Directive,
            Token::Escape => Token::Escape,
            Token::Comma => Token::Comma,
            Token::Decimal => Token::Decimal,
            Token::DoubleQuote => Token::DoubleQuote,
            Token::SingleQuote => Token::SingleQuote,
            Token::Char(c) => Token::Char(*c),
            Token::Newline => Token::Newline,
            Token::Whitespace(w) => Token::Whitespace(*w),
            Token::EOI => Token::EOI,
        }
    }
}

/// The character standing for a decimal digit value. Only values
/// zero through nine arise from the tokenizer.
pub open spec fn digit_char(d: u8) -> char {
    if d == 0 {
        '0'
    } else if d == 1 {
        '1'
    } else if d == 2 {
        '2'
    } else if d == 3 {
        '3'
    } else if d == 4 {
        '4'
    } else if d == 5 {
        '5'
    } else if d == 6 {
        '6'
    } else if d == 7 {
        '7'
    } else if d == 8 {
        '8'
    } else {
        '9'
    }
}

fn digit_char_of(d: u8) -> (c: char)
    ensures
        c == digit_char(d),
{
    if d == 0 {
        '0'
    } else if d == 1 {
        '1'
    } else if d == 2 {
        '2'
    } else if d == 3 {
        '3'
    } else if d == 4 {
        '4'
    } else if d == 5 {
        '5'
    } else if d == 6 {
        '6'
    } else if d == 7 {
        '7'
    } else if d == 8 {
        '8'
    } else {
        '9'
    }
}

/// Relies on `String::push`: appends exactly the one given character.
#[verifier::external_body]
pub(crate) fn push_char(s: &mut String, c: char)
    ensures
        final(s)@ == old(s)@.push(c),
{
    s.push(c)
}

/// A fresh one-character string.
fn char_string(c: char) -> (r: String)
    ensures
        r@ == seq![c],
{
    let mut s = String::new();
    push_char(&mut s, c);
    proof {
        assert(s@ =~= seq![c]);
    }
    s
}

/// The source text a token stands for.
pub open spec fn token_str(t: TokenV) -> Seq<char> {
    match t {
        TokenV::Keyword(k) => keyword_str(k),
        TokenV::Word(w) => w,
        TokenV::Alpha(c) => seq![c],
        TokenV::Digit(d) => seq![digit_char(d)],
        TokenV::Underscore => seq!['_'],
        TokenV::Dash => seq!['-'],
        TokenV::Assignment => seq!['='],
        TokenV::LeftBrace => seq!['{'],
        TokenV::RightBrace => seq!['}'],
        TokenV::LeftBracket => seq!['['],
        TokenV::RightBracket => seq![']'],
        TokenV::LeftParenthesis => seq!['('],
        TokenV::RightParenthesis => seq![')'],
        TokenV::Colon => seq![':'],
        TokenV::Semicolon => seq![';'],
        TokenV::Directive => seq!['#'],
        TokenV::Escape => seq!['\\'],
        TokenV::Comma => seq![','],
        TokenV::Decimal => seq!['.'],
        TokenV::DoubleQuote => seq!['"'],
        TokenV::SingleQuote => seq!['\''],
        TokenV::Char(c) => seq![c],
        TokenV::Newline => seq!['\n'],
        TokenV::Whitespace(w) => whitespace_str(w),
        TokenV::EOI => Seq::empty(),
    }
}

/// The text a token contributes to an identifier run: a word's
/// characters, an underscore's character, nothing for any other token.
pub open spec fn word_text(t: TokenV) -> Seq<char> {
    match t {
        TokenV::Word(w) => w,
        TokenV::Underscore => seq!['_'],
        _ => Seq::empty(),
    }
}

/// The number of source characters that produced a token.
pub open spec fn token_size(t: TokenV) -> nat {
    match t {
        TokenV::Keyword(k) => keyword_size(k),
        TokenV::Word(w) => w.len(),
        TokenV::EOI => 0,
        _ => 1,
    }
}

/// `token_size` agrees with the length of the token's source text.
pub proof fn lemma_token_size_is_str_len(t: TokenV)
    ensures
        token_size(t) == token_str(t).len(),
{
    match t {
        TokenV::Keyword(k) => lemma_keyword_size_is_str_len(k),
        _ => {},
    }
}

/// The token a run of word characters lexes to: the three reserved
/// identifiers become keywords, everything else stays a word.
pub open spec fn word_token(w: Seq<char>) -> TokenV {
    if w == "class"@ {
        TokenV::Keyword(Keyword::Class)
    } else if w == "delete"@ {
        TokenV::Keyword(Keyword::Delete)
    } else if w == "enum"@ {
        TokenV::Keyword(Keyword::Enum)
    } else {
        TokenV::Word(w)
    }
}

impl Token {
    /// Lexes a run of word characters, turning the reserved identifiers
    /// into keywords.
    pub fn from_word(word: String) -> (r: Token)
        ensures
            r@ == word_token(word@),
    {
        if word == "class".to_owned() {
            Token::Keyword(Keyword::Class)
        } else if word == "delete".to_owned() {
            Token::Keyword(Keyword::Delete)
        } else if word == "enum".to_owned() {
            Token::Keyword(Keyword::Enum)
        } else {
            Token::Word(word)
        }
    }

    /// Whether the token is a horizontal-whitespace atom. A newline is
    /// not whitespace in this sense.
    pub fn is_whitespace(&self) -> (r: bool)
        ensures
            r == (self@ is Whitespace),
    {
        match self {
            Token::Whitespace(_) => true,
            _ => false,
        }
    }

    /// The number of source characters that produced the token.
    pub fn len(&self) -> (r: usize)
        ensures
            r == token_size(self@),
    {
        match self {
            Token::Keyword(k) => k.len(),
            Token::Word(w) => w.as_str().unicode_len(),
            Token::EOI => 0,
            _ => 1,
        }
    }

    /// Same as [`Token::len`]; kept under both names for callers of either.
    pub fn size(&self) -> (r: usize)
        ensures
            r == token_size(self@),
    {
        self.len()
    }

    /// Whether the token stands for no source text at all.
    pub fn is_empty(&self) -> (r: bool)
        ensures
            r == (token_size(self@) == 0),
    {
        match self {
            Token::Keyword(_) => false,
            Token::Word(w) => w.as_str().is_empty(),
            Token::EOI => true,
            _ => false,
        }
    }

    /// The text the token contributes to an identifier run.
    pub fn word_text_of(&self) -> (r: String)
        ensures
            r@ == word_text(self@),
    {
        match self {
            Token::Word(w) => w.clone(),
            Token::Underscore => char_string('_'),
            _ => String::new(),
        }
    }

    /// The source text the token stands for.
    pub fn to_source(&self) -> (r: String)
        ensures
            r@ == token_str(self@),
    {
        match self {
            Token::Keyword(k) => k.to_source(),
            Token::Word(w) => w.clone(),
            Token::Alpha(c) => char_string(*c),
            Token::Digit(d) => char_string(digit_char_of(*d)),
            Token::Underscore => char_string('_'),
            Token::Dash => char_string('-'),
            Token::Assignment => char_string('='),
            Token::LeftBrace => char_string('{'),
            Token::RightBrace => char_string('}'),
            Token::LeftBracket => char_string('['),
            Token::RightBracket => char_string(']'),
            Token::LeftParenthesis => char_string('('),
            Token::RightParenthesis => char_string(')'),
            Token::Colon => char_string(':'),
            Token::Semicolon => char_string(';'),
            Token::Directive => char_string('#'),
            Token::Escape => char_string('\\'),
            Token::Comma => char_string(','),
            Token::Decimal => char_string('.'),
            Token::DoubleQuote => char_string('"'),
            Token::SingleQuote => char_string('\''),
            Token::Char(c) => char_string(*c),
            Token::Newline => char_string('\n'),
            Token::Whitespace(w) => w.to_source(),
            Token::EOI => String::new(),
        }
    }
}

/// A token bound to a source path and resolved start/end positions.
/// Positions are set by the tokenizer, or stamped later by the
/// preprocessor's line/column counter; a pair synthesized by the
/// preprocessor starts with no positions.
#[derive(Debug)]
pub struct TokenPair {
    path: String,
    token: Token,
    start: Option<Pos>,
    end: Option<Pos>,
}

/// The ghost mirror of [`TokenPair`].
pub struct TokenPairV {
    pub path: Seq<char>,
    pub token: TokenV,
    pub start: Option<PosV>,
    pub end: Option<PosV>,
}

/// The ghost value of an optional position.
pub open spec fn opt_pos_view(p: Option<Pos>) -> Option<PosV> {
    match p {
        Some(q) => Some(pos_view(q)),
        None => None,
    }
}

impl View for TokenPair {
    type V = TokenPairV;

    closed spec fn view(&self) -> TokenPairV {
        TokenPairV {
            path: self.path@,
            token: self.token@,
            start: opt_pos_view(self.start),
            end: opt_pos_view(self.end),
        }
    }
}

impl Clone for TokenPair {
    fn clone(&self) -> (r: Self)
        ensures
            r@ == self@,
    {
        TokenPair { path: self.path.clone(), token: self.token.clone(), start: self.start, end: self.end }
    }
}

/// The ghost values of a sequence of pairs.
pub open spec fn pseq(s: Seq<TokenPair>) -> Seq<TokenPairV> {
    s.map_values(|p: TokenPair| p@)
}

/// The position reported for a pair whose position was never set.
pub open spec fn zero_pos() -> PosV {
    (0int, (0int, 0int))
}

impl TokenPairV {
    /// The start position a read reports: the stored one, or zero.
    pub open spec fn start_or_zero(self) -> PosV {
        match self.start {
            Some(p) => p,
            None => zero_pos(),
        }
    }

    /// The end position a read reports: the stored one, or zero.
    pub open spec fn end_or_zero(self) -> PosV {
        match self.end {
            Some(p) => p,
            None => zero_pos(),
        }
    }
}

impl TokenPair {
    /// A pair created by the tokenizer, with both positions known.
    pub fn new(path: &str, token: Token, start: Pos, end: Pos) -> (r: Self)
        ensures
            r@ == (TokenPairV {
                path: path@,
                token: token@,
                start: Some(pos_view(start)),
                end: Some(pos_view(end)),
            }),
    {
        TokenPair { path: path.to_owned(), token, start: Some(start), end: Some(end) }
    }

    /// A pair synthesized by the preprocessor: no path, no positions.
    pub fn anon(token: Token) -> (r: Self)
        ensures
            r@ == (TokenPairV { path: Seq::empty(), token: token@, start: None, end: None }),
    {
        let path = String::new();
        TokenPair { path, token, start: None, end: None }
    }

    /// A pair that carries a new token under another pair's path and
    /// positions.
    pub fn with_pos(token: Token, token_pair: &Self) -> (r: Self)
        ensures
            r@ == (TokenPairV {
                path: token_pair@.path,
                token: token@,
                start: token_pair@.start,
                end: token_pair@.end,
            }),
    {
        TokenPair {
            path: token_pair.path.clone(),
            token,
            start: token_pair.start,
            end: token_pair.end,
        }
    }

    /// The start position, or zero where none was ever set.
    pub fn start(&self) -> (r: Pos)
        ensures
            pos_view(r) == self@.start_or_zero(),
    {
        match self.start {
            Some(p) => p,
            None => (0, (0, 0)),
        }
    }

    /// Overwrites the start position.
    pub fn set_start(&mut self, pos: Pos)
        ensures
            final(self)@ == (TokenPairV { start: Some(pos_view(pos)), ..old(self)@ }),
    {
        self.start = Some(pos);
    }

    /// The end position, or zero where none was ever set.
    pub fn end(&self) -> (r: Pos)
        ensures
            pos_view(r) == self@.end_or_zero(),
    {
        match self.end {
            Some(p) => p,
            None => (0, (0, 0)),
        }
    }

    /// Overwrites the end position.
    pub fn set_end(&mut self, pos: Pos)
        ensures
            final(self)@ == (TokenPairV { end: Some(pos_view(pos)), ..old(self)@ }),
    {
        self.end = Some(pos);
    }

    /// The source path the token came from; empty for synthesized pairs.
    pub fn path(&self) -> (r: &str)
        ensures
            r@ == self@.path,
    {
        self.path.as_str()
    }

    /// The token itself.
    pub fn token(&self) -> (r: &Token)
        ensures
            r@ == self@.token,
    {
        &self.token
    }

    /// Gives up the pair for its token.
    pub fn into_token(self) -> (r: Token)
        ensures
            r@ == self@.token,
    {
        self.token
    }

    /// The source text of the pair's token.
    pub fn to_source(&self) -> (r: String)
        ensures
            r@ == token_str(self@.token),
    {
        self.token.to_source()
    }
}

} // verus!
