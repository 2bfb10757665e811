//! The renderer: concatenates a token stream's string forms back into
//! preprocessed source text, and exposes a per-line structural map that
//! attributes each piece of a line to its source path and token.

use vstd::prelude::*;

use crate::lcc::{sat_add, sat_add_usize};
use crate::tokenizer::{sp_tokenize, TokenizeErrorV};
use crate::tokens::{
    pseq, token_size, token_str, word_token, Token, TokenPair, TokenPairV, TokenV,
};

verus! {

/// The rendered text of a token stream: each token's string form, in
/// order.
pub open spec fn render_str(ts: Seq<TokenPairV>) -> Seq<char>
    decreases ts.len(),
{
    if ts.len() == 0 {
        Seq::empty()
    } else {
        token_str(ts[0].token) + render_str(ts.drop_first())
    }
}

/// Rendering splits over concatenation.
pub proof fn lemma_render_str_concat(a: Seq<TokenPairV>, b: Seq<TokenPairV>)
    ensures
        render_str(a + b) == render_str(a) + render_str(b),
    decreases a.len(),
{
    if a.len() == 0 {
        assert(a + b =~= b);
        assert(render_str(a) + render_str(b) =~= render_str(b));
    } else {
        lemma_render_str_concat(a.drop_first(), b);
        assert((a + b).drop_first() =~= a.drop_first() + b);
        assert((a + b)[0] == a[0]);
        assert(token_str(a[0].token) + (render_str(a.drop_first()) + render_str(b)) =~= (token_str(
            a[0].token,
        ) + render_str(a.drop_first())) + render_str(b));
    }
}

/// Rendering one more token appends its string form.
pub proof fn lemma_render_str_snoc(a: Seq<TokenPairV>, p: TokenPairV)
    ensures
        render_str(a.push(p)) == render_str(a) + token_str(p.token),
{
    lemma_render_str_concat(a, seq![p]);
    assert(a.push(p) =~= a + seq![p]);
    assert(seq![p].drop_first() =~= Seq::<TokenPairV>::empty());
    assert(render_str(Seq::<TokenPairV>::empty()) =~= Seq::<char>::empty());
    assert(render_str(seq![p]) == token_str(p.token) + render_str(seq![p].drop_first()));
    assert(token_str(p.token) + Seq::<char>::empty() =~= token_str(p.token));
}

/// One attributed piece of a rendered line: its column, its length in
/// characters, the path it came from, and the token itself.
pub struct LineEntryV {
    pub col: int,
    pub len: nat,
    pub path: Seq<char>,
    pub token: TokenV,
}

/// One attributed piece of a rendered line, executably.
pub type LineMap = Vec<(usize, usize, String, Token)>;

/// The ghost value of one line's entries.
pub open spec fn line_map_view(m: Seq<(usize, usize, String, Token)>) -> Seq<LineEntryV> {
    m.map_values(
        |e: (usize, usize, String, Token)|
            LineEntryV { col: e.0 as int, len: e.1 as nat, path: e.2@, token: e.3@ },
    )
}

/// The ghost value of the whole per-line map.
pub open spec fn full_map_view(m: Seq<(usize, LineMap)>) -> Seq<(int, Seq<LineEntryV>)> {
    m.map_values(|e: (usize, LineMap)| (e.0 as int, line_map_view(e.1@)))
}

/// The per-line map a stream renders to: walking the tokens with a line
/// number and a column, a newline closes the current line, anything
/// else joins it and advances the column by the token's size. A final
/// line that no newline closes is not in the map.
pub open spec fn sp_render_map(
    ts: Seq<TokenPairV>,
    lc: int,
    cc: int,
    cur: Seq<LineEntryV>,
) -> Seq<(int, Seq<LineEntryV>)>
    decreases ts.len(),
{
    if ts.len() == 0 {
        Seq::empty()
    } else if ts[0].token is Newline {
        seq![(lc, cur)] + sp_render_map(ts.drop_first(), sat_add(lc, 1), 1, Seq::empty())
    } else {
        sp_render_map(
            ts.drop_first(),
            lc,
            sat_add(cc, token_size(ts[0].token) as int),
            cur.push(
                LineEntryV {
                    col: cc,
                    len: token_size(ts[0].token),
                    path: ts[0].path,
                    token: ts[0].token,
                },
            ),
        )
    }
}

/// A rendered stream: the tokens it came from and the per-line map.
#[derive(Debug)]
pub struct Rendered {
    tokens: Vec<TokenPair>,
    map: Vec<(usize, LineMap)>,
}

/// The ghost mirror of [`Rendered`].
pub struct RenderedV {
    pub tokens: Seq<TokenPairV>,
    pub map: Seq<(int, Seq<LineEntryV>)>,
}

impl View for Rendered {
    type V = RenderedV;

    closed spec fn view(&self) -> RenderedV {
        RenderedV { tokens: pseq(self.tokens@), map: full_map_view(self.map@) }
    }
}

impl Rendered {
    /// Packs tokens and their per-line map.
    pub fn new(tokens: Vec<TokenPair>, map: Vec<(usize, LineMap)>) -> (r: Self)
        ensures
            r@.tokens == pseq(tokens@),
            r@.map == full_map_view(map@),
    {
        Rendered { tokens, map }
    }

    /// The tokens the rendering came from.
    pub fn tokens(&self) -> (r: &Vec<TokenPair>)
        ensures
            pseq(r@) == self@.tokens,
    {
        &self.tokens
    }

    /// The per-line map.
    pub fn map(&self) -> (r: &Vec<(usize, LineMap)>)
        ensures
            full_map_view(r@) == self@.map,
    {
        &self.map
    }

    /// The preprocessed source: every token's string form, concatenated.
    pub fn export(&self) -> (r: String)
        ensures
            r@ == render_str(self@.tokens),
    {
        let mut s = String::new();
        let n = self.tokens.len();
        let mut i: usize = 0;
        while i < n
            invariant
                0 <= i <= n,
                n == self.tokens@.len(),
                s@ == render_str(pseq(self.tokens@).take(i as int)),
            decreases n - i,
        {
            let piece = self.tokens[i].to_source();
            s.append(piece.as_str());
            proof {
                let ts = pseq(self.tokens@);
                assert(ts.take(i + 1) =~= ts.take(i as int).push(ts[i as int]));
                lemma_render_str_snoc(ts.take(i as int), ts[i as int]);
            }
            i += 1;
        }
        proof {
            assert(pseq(self.tokens@).take(n as int) =~= pseq(self.tokens@));
        }
        s
    }
}

/// Builds the per-line map over a stream and packs it with a copy of
/// the stream.
pub fn render(source: &Vec<TokenPair>) -> (r: Rendered)
    ensures
        r@.tokens == pseq(source@),
        r@.map == sp_render_map(pseq(source@), 1, 1, Seq::empty()),
{
    let mut map: Vec<(usize, LineMap)> = Vec::new();
    let mut line: LineMap = Vec::new();
    let mut lc: usize = 1;
    let mut cc: usize = 1;
    let n = source.len();
    let mut i: usize = 0;
    proof {
        assert(pseq(source@).skip(0) =~= pseq(source@));
        assert(full_map_view(map@) =~= Seq::<(int, Seq<LineEntryV>)>::empty());
        assert(line_map_view(line@) =~= Seq::<LineEntryV>::empty());
        assert(Seq::<(int, Seq<LineEntryV>)>::empty() + sp_render_map(
            pseq(source@),
            1,
            1,
            Seq::empty(),
        ) =~= sp_render_map(pseq(source@), 1, 1, Seq::empty()));
    }
    while i < n
        invariant
            0 <= i <= n,
            n == source@.len(),
            sp_render_map(pseq(source@), 1, 1, Seq::empty()) == full_map_view(map@) + sp_render_map(
                pseq(source@).skip(i as int),
                lc as int,
                cc as int,
                line_map_view(line@),
            ),
        decreases n - i,
    {
        let ghost pre_map = full_map_view(map@);
        let ghost pre_line = line_map_view(line@);
        let ghost rest = pseq(source@).skip(i as int);
        let ghost lc0 = lc as int;
        let ghost cc0 = cc as int;
        proof {
            assert(rest[0] == pseq(source@)[i as int]);
            assert(rest.drop_first() =~= pseq(source@).skip(i + 1));
        }
        let is_nl = match source[i].token() {
            Token::Newline => true,
            _ => false,
        };
        if is_nl {
            map.push((lc, line));
            line = Vec::new();
            lc = sat_add_usize(lc, 1);
            cc = 1;
            proof {
                assert(full_map_view(map@) =~= pre_map.push((lc0, pre_line)));
                assert(line_map_view(line@) =~= Seq::<LineEntryV>::empty());
                let tail = sp_render_map(rest.drop_first(), sat_add(lc0, 1), 1, Seq::empty());
                assert(sp_render_map(rest, lc0, cc0, pre_line) == seq![(lc0, pre_line)] + tail);
                assert(pre_map.push((lc0, pre_line)) + tail =~= pre_map + (seq![(lc0, pre_line)]
                    + tail));
            }
        } else {
            let sz = source[i].token().size();
            let entry = (cc, sz, source[i].path().to_owned(), source[i].token().clone());
            let ghost ev = LineEntryV {
                col: entry.0 as int,
                len: entry.1 as nat,
                path: entry.2@,
                token: entry.3@,
            };
            line.push(entry);
            cc = sat_add_usize(cc, sz);
            proof {
                assert(line_map_view(line@) =~= pre_line.push(ev));
                assert(ev == (LineEntryV {
                    col: cc0,
                    len: token_size(rest[0].token),
                    path: rest[0].path,
                    token: rest[0].token,
                }));
                assert(sp_render_map(rest, lc0, cc0, pre_line) == sp_render_map(
                    rest.drop_first(),
                    lc0,
                    sat_add(cc0, token_size(rest[0].token) as int),
                    pre_line.push(ev),
                ));
            }
        }
        i += 1;
    }
    proof {
        assert(pseq(source@).skip(n as int) =~= Seq::<TokenPairV>::empty());
        assert(full_map_view(map@) + Seq::<(int, Seq<LineEntryV>)>::empty() =~= full_map_view(
            map@,
        ));
    }
    let tokens = crate::defines::clone_pairs(source);
    Rendered { tokens, map }
}

/// Law: for a source holding no `#`, no carriage return and no comment
/// opener, tokenizing and then rendering gives back the source exactly,
/// and tokenizing cannot fail.
pub proof fn lemma_tokenize_render_round_trip(s: Seq<char>, path: Seq<char>)
    requires
        forall|i: int| 0 <= i < s.len() ==> s[i] != '#' && s[i] != '\r',
        forall|i: int|
            0 <= i < s.len() - 1 ==> !((#[trigger] s[i]) == '/' && (s[i + 1] == '/' || s[i + 1]
                == '*')),
    ensures
        sp_tokenize(s, path, 0, 1, 1) is Ok,
        render_str(sp_tokenize(s, path, 0, 1, 1)->Ok_0) == s,
{
    lemma_round_trip_from(s, path, 0, 1, 1);
    assert(s.subrange(0, s.len() as int) =~= s);
}

/// Rendering a stream that opens with one more token: the token's
/// string form, then the rest.
proof fn lemma_cons_render(p: TokenPairV, rest: Seq<TokenPairV>)
    ensures
        render_str(seq![p] + rest) == token_str(p.token) + render_str(rest),
{
    let ts = seq![p] + rest;
    assert(ts.len() == 1 + rest.len());
    assert(ts[0] == p);
    assert(ts.drop_first() =~= rest);
    assert(render_str(ts) == token_str(ts[0].token) + render_str(ts.drop_first()));
}

#[verifier::rlimit(100)]
proof fn lemma_round_trip_from(s: Seq<char>, path: Seq<char>, off: int, line: int, col: int)
    requires
        0 <= off <= s.len(),
        forall|i: int| 0 <= i < s.len() ==> s[i] != '#' && s[i] != '\r',
        forall|i: int|
            0 <= i < s.len() - 1 ==> !((#[trigger] s[i]) == '/' && (s[i + 1] == '/' || s[i + 1]
                == '*')),
    ensures
        sp_tokenize(s, path, off, line, col) is Ok,
        render_str(sp_tokenize(s, path, off, line, col)->Ok_0) == s.subrange(off, s.len() as int),
    decreases s.len() - off,
{
    let res = sp_tokenize(s, path, off, line, col);
    if off >= s.len() {
        let eoi = crate::tokenizer::made_pair(
            path,
            TokenV::EOI,
            (off, (line, col)),
            (off, (line, col)),
        );
        assert(res == Ok::<Seq<TokenPairV>, TokenizeErrorV>(seq![eoi]));
        let ts = res->Ok_0;
        assert(ts.len() == 1 && ts[0] == eoi);
        assert(ts.drop_first() =~= Seq::<TokenPairV>::empty());
        assert(render_str(Seq::<TokenPairV>::empty()) =~= Seq::<char>::empty());
        assert(render_str(ts) == token_str(ts[0].token) + render_str(ts.drop_first()));
        assert(render_str(ts) =~= s.subrange(off, s.len() as int));
    } else {
        let c = s[off];
        assert(c != '#' && c != '\r');
        assert(!(c == '/' && off + 1 < s.len() && s[off + 1] == '/'));
        assert(!(c == '/' && off + 1 < s.len() && s[off + 1] == '*'));
        let k: int = if crate::tokenizer::is_alpha(c) {
            1 + crate::tokenizer::word_len(s, off + 1) as int
        } else {
            1
        };
        let l2: int = if c == '\n' {
            sat_add(line, 1)
        } else {
            line
        };
        let c2: int = if c == '\n' {
            1
        } else {
            sat_add(col, k)
        };
        crate::tokenizer::lemma_word_len_bound(s, off + 1);
        lemma_round_trip_from(s, path, off + k, l2, c2);
        let rest = sp_tokenize(s, path, off + k, l2, c2)->Ok_0;
        let tokv: TokenV = if c == '\n' {
            TokenV::Newline
        } else if c == ' ' {
            TokenV::Whitespace(crate::tokens::Whitespace::Space)
        } else if c == '\t' {
            TokenV::Whitespace(crate::tokens::Whitespace::Tab)
        } else if crate::tokenizer::is_alpha(c) {
            word_token(s.subrange(off, off + k))
        } else if crate::tokenizer::is_digit(c) {
            TokenV::Digit(crate::tokenizer::digit_val(c))
        } else {
            match crate::tokenizer::punct_token(c) {
                Some(t) => t,
                None => TokenV::Char(c),
            }
        };
        let st = (off, (line, col));
        let en = if c == '\n' {
            (off + 1, (sat_add(line, 1), 1))
        } else {
            (off + k, (line, sat_add(col, k)))
        };
        let p = crate::tokenizer::made_pair(path, tokv, st, en);
        assert(res == Ok::<Seq<TokenPairV>, TokenizeErrorV>(seq![p] + rest));
        lemma_cons_render(p, rest);
        assert(token_str(tokv) =~= s.subrange(off, off + k)) by {
            if crate::tokenizer::is_alpha(c) {
                let w = s.subrange(off, off + k);
                assert(token_str(word_token(w)) == w);
            } else {
                assert(s.subrange(off, off + 1) =~= seq![c]);
            }
        }
        assert(s.subrange(off, off + k) + s.subrange(off + k, s.len() as int) =~= s.subrange(
            off,
            s.len() as int,
        ));
    }
}

} // verus!
