//! A mutable cursor that tracks character offset, line and column while
//! the preprocessor walks tokens, and stamps positions into pairs.

use vstd::prelude::*;

use crate::tokens::{token_size, Token, TokenPair, TokenPairV, TokenV};
use crate::{pos_view, Pos, PosV};

verus! {

/// The counter: offset, line and column, plus the newline flag that
/// says whether no non-whitespace token has been seen since the last
/// newline (so the next `#` would open a directive).
#[derive(Debug)]
pub struct LineColCounter {
    pos: usize,
    line: usize,
    col: usize,
    newline: bool,
}

/// The ghost mirror of [`LineColCounter`].
pub struct LccV {
    pub pos: int,
    pub line: int,
    pub col: int,
    pub newline: bool,
}

impl View for LineColCounter {
    type V = LccV;

    closed spec fn view(&self) -> LccV {
        LccV { pos: self.pos as int, line: self.line as int, col: self.col as int, newline: self.newline }
    }
}

/// Addition that stops at the largest representable offset instead of
/// wrapping; positions of absurdly long inputs pin at that bound.
pub open spec fn sat_add(a: int, b: int) -> int {
    if a + b <= usize::MAX {
        a + b
    } else {
        usize::MAX as int
    }
}

pub fn sat_add_usize(a: usize, b: usize) -> (r: usize)
    ensures
        r as int == sat_add(a as int, b as int),
{
    if b > usize::MAX - a {
        usize::MAX
    } else {
        a + b
    }
}

impl LccV {
    /// The position the counter currently reports.
    pub open spec fn pos_linecol(self) -> PosV {
        (self.pos, (self.line, self.col))
    }
}

/// How consuming one token advances the counter: column and offset grow
/// by the token's size, and any non-whitespace token clears the newline
/// flag.
pub open spec fn sp_add_cols(l: LccV, t: TokenV) -> LccV {
    let c = token_size(t) as int;
    LccV {
        pos: sat_add(l.pos, c),
        line: l.line,
        col: sat_add(l.col, c),
        newline: l.newline && (t is Whitespace),
    }
}

/// How a consumed newline advances the counter: next line, column one,
/// offset grows by one, newline flag set.
pub open spec fn sp_add_line(l: LccV) -> LccV {
    LccV { pos: sat_add(l.pos, 1), line: sat_add(l.line, 1), col: 1, newline: true }
}

/// Stamping a pair: its start becomes the current position, the counter
/// advances over the token, and its end becomes the new position.
pub open spec fn sp_mod_cols(l: LccV, p: TokenPairV) -> (LccV, TokenPairV) {
    let l2 = sp_add_cols(l, p.token);
    (l2, TokenPairV { start: Some(l.pos_linecol()), end: Some(l2.pos_linecol()), ..p })
}

impl LineColCounter {
    /// A counter at the start of a source: offset, line and column one,
    /// newline flag set.
    pub fn new() -> (r: Self)
        ensures
            r@ == (LccV { pos: 1, line: 1, col: 1, newline: true }),
    {
        LineColCounter { pos: 1, line: 1, col: 1, newline: true }
    }

    /// Stamps the pair's start with the current position, advances over
    /// the token, then stamps the pair's end.
    pub fn mod_cols(&mut self, t: &mut TokenPair)
        ensures
            (final(self)@, final(t)@) == sp_mod_cols(old(self)@, old(t)@),
    {
        t.set_start(self.pos_linecol());
        let tok_ref = t.token();
        let sz = tok_ref.size();
        let ws = tok_ref.is_whitespace();
        self.advance(sz, ws);
        t.set_end(self.pos_linecol());
    }

    /// Advances column and offset by a size, clearing the newline flag
    /// unless the size came from whitespace.
    fn advance(&mut self, size: usize, is_ws: bool)
        ensures
            final(self)@ == (LccV {
                pos: sat_add(old(self)@.pos, size as int),
                line: old(self)@.line,
                col: sat_add(old(self)@.col, size as int),
                newline: old(self)@.newline && is_ws,
            }),
    {
        self.col = sat_add_usize(self.col, size);
        self.pos = sat_add_usize(self.pos, size);
        if self.newline && !is_ws {
            self.newline = false;
        }
    }

    /// Advances the counter over a token without stamping anything.
    pub fn add_cols(&mut self, t: &Token)
        ensures
            final(self)@ == sp_add_cols(old(self)@, t@),
    {
        let sz = t.size();
        let ws = t.is_whitespace();
        self.advance(sz, ws);
    }

    /// Advances to the next line and sets the newline flag.
    pub fn add_line(&mut self)
        ensures
            final(self)@ == sp_add_line(old(self)@),
    {
        self.line = sat_add_usize(self.line, 1);
        self.newline = true;
        self.pos = sat_add_usize(self.pos, 1);
        self.col = 1;
    }

    /// Whether the cursor stands at the start of a line: no
    /// non-whitespace token has been consumed since the last newline.
    pub fn newline(&self) -> (r: bool)
        ensures
            r == self@.newline,
    {
        self.newline
    }

    /// The current character offset.
    pub fn pos(&self) -> (r: usize)
        ensures
            r == self@.pos,
    {
        self.pos
    }

    /// The current column.
    pub fn cols(&self) -> (r: usize)
        ensures
            r == self@.col,
    {
        self.col
    }

    /// The current line.
    pub fn line(&self) -> (r: usize)
        ensures
            r == self@.line,
    {
        self.line
    }

    /// The current position as an offset with line and column.
    pub fn pos_linecol(&self) -> (r: Pos)
        ensures
            pos_view(r) == self@.pos_linecol(),
    {
        (self.pos, (self.line, self.col))
    }
}

} // verus!
