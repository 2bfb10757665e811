//! The preprocessor engine: consumes a token stream, interprets the
//! directives `#define`, `#undef`, `#ifdef`, `#ifndef`, `#else` and
//! `#endif` at line starts, expands object-like and function-like
//! macros by longest defined prefix, performs `#IDENT` stringification,
//! and emits the rewritten stream. Expansion depth is bounded; a cyclic
//! macro ends in a recursion-limit error rather than a hang.

use vstd::prelude::*;

use crate::defines::{clone_pairs, vvseq, Define, DefineV, Defines};
use crate::ifstate::{all_reading, sp_flip, IfState, IfStates};
use crate::lcc::{sp_add_cols, sp_add_line, sp_mod_cols, LccV, LineColCounter};
use crate::tokens::{pseq, word_text, Token, TokenPair, TokenPairV, TokenV};
use crate::{pos_view, Pos, PosV};

verus! {

/// What went wrong during preprocessing.
#[derive(Clone, Copy, Debug, PartialEq, Eq, Structural)]
pub enum ErrorKind {
    /// A directive without the identifier it needs, or a `#` with
    /// nothing usable after it.
    DirectiveSyntax,
    /// A directive word the engine does not know, met while reading.
    UnknownDirective,
    /// A function-like macro called with the wrong number of arguments.
    WrongArgumentCount,
    /// A function-like macro name not followed by `(`.
    ExpectedParenthesis,
    /// End of input inside a parenthesized argument list.
    UnterminatedArguments,
    /// End of input inside a macro body, or inside a quoted string in
    /// a body.
    UnterminatedBody,
    /// The bounded expansion depth was exhausted; the macros cycle.
    RecursionLimit,
}

/// A preprocessing failure: the kind, the path of the source, and the
/// position the engine had reached.
#[derive(Debug)]
pub struct Error {
    kind: ErrorKind,
    path: String,
    start: Pos,
    end: Pos,
}

/// The ghost mirror of [`Error`].
pub struct ErrorV {
    pub kind: ErrorKind,
    pub path: Seq<char>,
    pub start: PosV,
    pub end: PosV,
}

impl View for Error {
    type V = ErrorV;

    closed spec fn view(&self) -> ErrorV {
        ErrorV {
            kind: self.kind,
            path: self.path@,
            start: pos_view(self.start),
            end: pos_view(self.end),
        }
    }
}

/// The error the engine reports at its current position.
pub open spec fn err_at(kind: ErrorKind, path: Seq<char>, lcc: LccV) -> ErrorV {
    ErrorV { kind: kind, path: path, start: lcc.pos_linecol(), end: lcc.pos_linecol() }
}

impl Error {
    /// The kind of failure.
    pub fn kind(&self) -> (r: ErrorKind)
        ensures
            r == self@.kind,
    {
        self.kind
    }

    /// The path of the source that failed.
    pub fn path(&self) -> (r: &str)
        ensures
            r@ == self@.path,
    {
        self.path.as_str()
    }

    /// Where the engine stood when it failed.
    pub fn start(&self) -> (r: Pos)
        ensures
            pos_view(r) == self@.start,
    {
        self.start
    }

    /// The end of the offending span.
    pub fn end(&self) -> (r: Pos)
        ensures
            pos_view(r) == self@.end,
    {
        self.end
    }

    /// A human-readable account of the failure.
    pub fn message(&self) -> String {
        match self.kind {
            ErrorKind::DirectiveSyntax => "directive needs an identifier".to_owned(),
            ErrorKind::UnknownDirective => "unknown directive".to_owned(),
            ErrorKind::WrongArgumentCount => "wrong number of arguments".to_owned(),
            ErrorKind::ExpectedParenthesis => "expected ( after function macro name".to_owned(),
            ErrorKind::UnterminatedArguments => "end of input inside argument list".to_owned(),
            ErrorKind::UnterminatedBody => "end of input inside define body".to_owned(),
            ErrorKind::RecursionLimit => "macro expansion exceeded the recursion limit".to_owned(),
        }
    }
}

fn mk_err(kind: ErrorKind, path: &str, lcc: &LineColCounter) -> (r: Error)
    ensures
        r@ == err_at(kind, path@, lcc@),
{
    let p = lcc.pos_linecol();
    Error { kind, path: path.to_owned(), start: p, end: p }
}

/// The pair the engine synthesizes for a stringification quote: no
/// path, no positions.
pub open spec fn anon_quote() -> TokenPairV {
    TokenPairV { path: Seq::empty(), token: TokenV::DoubleQuote, start: None, end: None }
}

/// Skipping leading whitespace: how many tokens go and how the counter
/// moves.
pub open spec fn sp_skip_ws(t: Seq<TokenPairV>, lcc: LccV) -> (nat, LccV)
    decreases t.len(),
{
    if t.len() > 0 && t[0].token is Whitespace {
        let r = sp_skip_ws(t.drop_first(), sp_add_cols(lcc, t[0].token));
        ((r.0 + 1) as nat, r.1)
    } else {
        (0, lcc)
    }
}

/// What reading an identifier run gives: its text, the stamped pairs
/// it covered, how many tokens went, and the counter after.
pub struct IdentRead {
    pub text: Seq<char>,
    pub pairs: Seq<TokenPairV>,
    pub n: nat,
    pub lcc: LccV,
}

/// Collecting the run of word and underscore tokens at the front:
/// each is stamped and joins the identifier's text.
pub open spec fn sp_read_words(t: Seq<TokenPairV>, lcc: LccV) -> IdentRead
    decreases t.len(),
{
    if t.len() > 0 && (t[0].token is Word || t[0].token is Underscore) {
        let sm = sp_mod_cols(lcc, t[0]);
        let r = sp_read_words(t.drop_first(), sm.0);
        IdentRead {
            text: word_text(t[0].token) + r.text,
            pairs: seq![sm.1] + r.pairs,
            n: (r.n + 1) as nat,
            lcc: r.lcc,
        }
    } else {
        IdentRead { text: Seq::empty(), pairs: Seq::empty(), n: 0, lcc: lcc }
    }
}

/// Reading an identifier: leading whitespace goes, then the word run.
pub open spec fn sp_read_ident(t: Seq<TokenPairV>, lcc: LccV) -> IdentRead
{
    let w = sp_skip_ws(t, lcc);
    let r = sp_read_words(t.skip(w.0 as int), w.1);
    IdentRead { text: r.text, pairs: r.pairs, n: (w.0 + r.n) as nat, lcc: r.lcc }
}

/// What reading a parenthesized argument list gives.
pub struct ArgsRead {
    pub args: Seq<Seq<TokenPairV>>,
    pub n: nat,
    pub lcc: LccV,
}

/// The argument-list loop after the opening parenthesis: an
/// unparenthesized comma ends the current argument, an unparenthesized
/// closing parenthesis ends the list, nested parentheses pass through
/// verbatim, and empty arguments are dropped. End of input inside the
/// list is an error.
pub open spec fn sp_read_args_loop(
    t: Seq<TokenPairV>,
    lcc: LccV,
    nested: int,
    cur: Seq<TokenPairV>,
    args: Seq<Seq<TokenPairV>>,
    path: Seq<char>,
) -> Result<ArgsRead, ErrorV>
    decreases t.len(),
{
    if t.len() == 0 || t[0].token is EOI {
        Err(err_at(ErrorKind::UnterminatedArguments, path, lcc))
    } else {
        let tok = t[0].token;
        if tok is LeftParenthesis {
            let sm = sp_mod_cols(lcc, t[0]);
            match sp_read_args_loop(t.drop_first(), sm.0, nested + 1, cur.push(sm.1), args, path) {
                Ok(r) => Ok(ArgsRead { args: r.args, n: (r.n + 1) as nat, lcc: r.lcc }),
                Err(e) => Err(e),
            }
        } else if tok is RightParenthesis {
            if nested == 0 {
                let args2 = if cur.len() > 0 {
                    args.push(cur)
                } else {
                    args
                };
                Ok(ArgsRead { args: args2, n: 1, lcc: sp_add_cols(lcc, tok) })
            } else {
                let sm = sp_mod_cols(lcc, t[0]);
                match sp_read_args_loop(
                    t.drop_first(),
                    sm.0,
                    nested - 1,
                    cur.push(sm.1),
                    args,
                    path,
                ) {
                    Ok(r) => Ok(ArgsRead { args: r.args, n: (r.n + 1) as nat, lcc: r.lcc }),
                    Err(e) => Err(e),
                }
            }
        } else if tok is Comma && nested == 0 {
            let args2 = if cur.len() > 0 {
                args.push(cur)
            } else {
                args
            };
            match sp_read_args_loop(
                t.drop_first(),
                sp_add_cols(lcc, tok),
                0,
                Seq::empty(),
                args2,
                path,
            ) {
                Ok(r) => Ok(ArgsRead { args: r.args, n: (r.n + 1) as nat, lcc: r.lcc }),
                Err(e) => Err(e),
            }
        } else {
            let sm = sp_mod_cols(lcc, t[0]);
            match sp_read_args_loop(t.drop_first(), sm.0, nested, cur.push(sm.1), args, path) {
                Ok(r) => Ok(ArgsRead { args: r.args, n: (r.n + 1) as nat, lcc: r.lcc }),
                Err(e) => Err(e),
            }
        }
    }
}

/// Reading an argument list: leading whitespace goes, the opening
/// parenthesis must stand next, then the loop runs.
pub open spec fn sp_read_args(t: Seq<TokenPairV>, lcc: LccV, path: Seq<char>) -> Result<
    ArgsRead,
    ErrorV,
> {
    let w = sp_skip_ws(t, lcc);
    let rest = t.skip(w.0 as int);
    if rest.len() > 0 && rest[0].token is LeftParenthesis {
        match sp_read_args_loop(
            rest.drop_first(),
            sp_add_cols(w.1, TokenV::LeftParenthesis),
            0,
            Seq::empty(),
            Seq::empty(),
            path,
        ) {
            Ok(r) => Ok(ArgsRead { args: r.args, n: (w.0 + 1 + r.n) as nat, lcc: r.lcc }),
            Err(e) => Err(e),
        }
    } else {
        Err(err_at(ErrorKind::ExpectedParenthesis, path, w.1))
    }
}

/// How many tokens an argument list consumed and how many arguments it
/// yielded, bounded by the input it ran on.
pub proof fn lemma_read_args_loop_bound(
    t: Seq<TokenPairV>,
    lcc: LccV,
    nested: int,
    cur: Seq<TokenPairV>,
    args: Seq<Seq<TokenPairV>>,
    path: Seq<char>,
)
    ensures
        sp_read_args_loop(t, lcc, nested, cur, args, path) matches Ok(r) ==> 1 <= r.n <= t.len()
            && r.args.len() <= args.len() + 1 + t.len(),
    decreases t.len(),
{
    if t.len() == 0 || t[0].token is EOI {
    } else {
        let tok = t[0].token;
        if tok is LeftParenthesis {
            let sm = sp_mod_cols(lcc, t[0]);
            lemma_read_args_loop_bound(t.drop_first(), sm.0, nested + 1, cur.push(sm.1), args, path);
        } else if tok is RightParenthesis {
            if nested == 0 {
            } else {
                let sm = sp_mod_cols(lcc, t[0]);
                lemma_read_args_loop_bound(
                    t.drop_first(),
                    sm.0,
                    nested - 1,
                    cur.push(sm.1),
                    args,
                    path,
                );
            }
        } else if tok is Comma && nested == 0 {
            let args2 = if cur.len() > 0 {
                args.push(cur)
            } else {
                args
            };
            lemma_read_args_loop_bound(
                t.drop_first(),
                sp_add_cols(lcc, tok),
                0,
                Seq::empty(),
                args2,
                path,
            );
        } else {
            let sm = sp_mod_cols(lcc, t[0]);
            lemma_read_args_loop_bound(t.drop_first(), sm.0, nested, cur.push(sm.1), args, path);
        }
    }
}

/// What reading a define body gives.
pub struct BodyRead {
    pub body: Seq<TokenPairV>,
    pub n: nat,
    pub lcc: LccV,
}

/// The body loop: tokens join the body up to the first unescaped
/// newline, which stays unconsumed for the directive's line ending. A
/// backslash directly before a newline keeps the newline in the body
/// and carries on reading; inside double quotes newlines are ordinary
/// body characters. End of input before the terminating newline is an
/// error.
pub open spec fn sp_read_body_loop(
    t: Seq<TokenPairV>,
    lcc: LccV,
    quoted: bool,
    path: Seq<char>,
) -> Result<BodyRead, ErrorV>
    decreases t.len(),
{
    if t.len() == 0 || t[0].token is EOI {
        Err(err_at(ErrorKind::UnterminatedBody, path, lcc))
    } else {
        let tok = t[0].token;
        if quoted {
            let sm = sp_mod_cols(lcc, t[0]);
            match sp_read_body_loop(t.drop_first(), sm.0, !(tok is DoubleQuote), path) {
                Ok(r) => Ok(BodyRead { body: seq![sm.1] + r.body, n: (r.n + 1) as nat, lcc: r.lcc }),
                Err(e) => Err(e),
            }
        } else if tok is Newline {
            Ok(BodyRead { body: Seq::empty(), n: 0, lcc: lcc })
        } else if tok is Escape && t.len() > 1 && t[1].token is Newline {
            let l1 = sp_add_cols(lcc, tok);
            let sm = sp_mod_cols(l1, t[1]);
            match sp_read_body_loop(t.skip(2), sm.0, false, path) {
                Ok(r) => Ok(BodyRead { body: seq![sm.1] + r.body, n: (r.n + 2) as nat, lcc: r.lcc }),
                Err(e) => Err(e),
            }
        } else {
            let sm = sp_mod_cols(lcc, t[0]);
            match sp_read_body_loop(t.drop_first(), sm.0, tok is DoubleQuote, path) {
                Ok(r) => Ok(BodyRead { body: seq![sm.1] + r.body, n: (r.n + 1) as nat, lcc: r.lcc }),
                Err(e) => Err(e),
            }
        }
    }
}

/// Reading a define body: leading whitespace goes, then the loop runs.
pub open spec fn sp_read_body(t: Seq<TokenPairV>, lcc: LccV, path: Seq<char>) -> Result<
    BodyRead,
    ErrorV,
> {
    let w = sp_skip_ws(t, lcc);
    match sp_read_body_loop(t.skip(w.0 as int), w.1, false, path) {
        Ok(r) => Ok(BodyRead { body: r.body, n: (w.0 + r.n) as nat, lcc: r.lcc }),
        Err(e) => Err(e),
    }
}

/// The identifier the first `k` elements of a word stack spell.
pub open spec fn sp_ident_of(stack: Seq<TokenPairV>, k: int) -> Seq<char>
    decreases k,
{
    if k <= 0 {
        Seq::empty()
    } else {
        sp_ident_of(stack, k - 1) + word_text(stack[k - 1].token)
    }
}

/// The longest prefix of the stack, up to length `k`, whose identifier
/// is a defined macro name, with that macro.
pub open spec fn sp_find_match(
    stack: Seq<TokenPairV>,
    defines: Map<Seq<char>, DefineV>,
    k: int,
) -> Option<(int, DefineV)>
    decreases k,
{
    if k <= 0 {
        None
    } else if defines.contains_key(sp_ident_of(stack, k)) {
        Some((k, defines[sp_ident_of(stack, k)]))
    } else {
        sp_find_match(stack, defines, k - 1)
    }
}

/// A found prefix has a length between one and where the search began.
pub proof fn lemma_find_match_range(
    stack: Seq<TokenPairV>,
    defines: Map<Seq<char>, DefineV>,
    k: int,
)
    ensures
        sp_find_match(stack, defines, k) matches Some(m) ==> 1 <= m.0 <= k,
    decreases k,
{
    if k > 0 && !defines.contains_key(sp_ident_of(stack, k)) {
        lemma_find_match_range(stack, defines, k - 1);
    }
}

/// The name a formal parameter's token sequence spells; the counter it
/// is read with is fresh and thrown away.
pub open spec fn formal_name(f: Seq<TokenPairV>) -> Seq<char> {
    sp_read_ident(f, LccV { pos: 1, line: 1, col: 1, newline: true }).text
}

/// The scoped table for a function-macro body: each formal parameter
/// bound, as an object-like macro, to its expanded actual argument.
pub open spec fn sp_bind(
    formals: Seq<Seq<TokenPairV>>,
    expanded: Seq<Seq<TokenPairV>>,
    scoped: Map<Seq<char>, DefineV>,
) -> Map<Seq<char>, DefineV>
    decreases formals.len(),
{
    if formals.len() == 0 {
        scoped
    } else {
        sp_bind(
            formals.drop_first(),
            expanded.drop_first(),
            scoped.insert(formal_name(formals[0]), DefineV::Word(expanded[0])),
        )
    }
}

/// A consumed-token count held inside the nonempty remaining input;
/// the engine always consumes at least one token there, so the bound
/// never truly binds.
pub open spec fn clamp1(n: nat, len: nat) -> nat {
    if 1 <= n <= len {
        n
    } else {
        1
    }
}

/// A consumed-token count held inside the remaining input.
pub open spec fn clamp0(n: nat, len: nat) -> nat {
    if n <= len {
        n
    } else {
        len
    }
}

/// What a successful preprocessing returns: the emitted pairs, the
/// macro table as the run left it, and the counter.
pub struct PpOk {
    pub out: Seq<TokenPairV>,
    pub defines: Map<Seq<char>, DefineV>,
    pub lcc: LccV,
}

/// What a successful resolution returns: the emitted pairs, how many
/// input tokens went, and the counter.
pub struct ResolveOk {
    pub out: Seq<TokenPairV>,
    pub n: nat,
    pub lcc: LccV,
}

/// What handling one directive line returns: tokens consumed through
/// the line's newline, the macro table, the conditional stack, and the
/// counter.
pub struct DirectiveOk {
    pub n: nat,
    pub defines: Map<Seq<char>, DefineV>,
    pub ifs: Seq<IfState>,
    pub lcc: LccV,
}

/// The end of a directive line: remaining whitespace and the
/// terminating newline are consumed.
pub open spec fn sp_epilogue(t: Seq<TokenPairV>, lcc: LccV) -> (nat, LccV) {
    let w = sp_skip_ws(t, lcc);
    let rest = t.skip(w.0 as int);
    if rest.len() > 0 && rest[0].token is Newline {
        ((w.0 + 1) as nat, sp_add_line(w.1))
    } else {
        (w.0, w.1)
    }
}

/// One directive line, from its `#` on: dispatch on the directive word
/// and the reading state, per the directive table; afterwards the rest
/// of the line is consumed.
#[verifier::opaque]
pub open spec fn sp_directive(
    t: Seq<TokenPairV>,
    defines: Map<Seq<char>, DefineV>,
    ifs: Seq<IfState>,
    lcc: LccV,
    path: Seq<char>,
) -> Result<DirectiveOk, ErrorV> {
    let rd = all_reading(ifs);
    let l1 = sp_add_cols(lcc, TokenV::Directive);
    if t.len() < 2 {
        Err(err_at(ErrorKind::DirectiveSyntax, path, l1))
    } else {
        let dtok = t[1].token;
        let l2 = sp_add_cols(l1, dtok);
        match dtok {
            TokenV::Word(w) => {
                if w == "define"@ && rd {
                    sp_define(t, defines, ifs, l2, path)
                } else if w == "undef"@ && rd {
                    let ir = sp_read_ident(t.skip(2), l2);
                    if ir.text.len() == 0 {
                        Err(err_at(ErrorKind::DirectiveSyntax, path, ir.lcc))
                    } else {
                        sp_finish_line(
                            t,
                            (2 + ir.n) as nat,
                            defines.remove(ir.text),
                            ifs,
                            ir.lcc,
                        )
                    }
                } else if w == "ifdef"@ && rd {
                    let ir = sp_read_ident(t.skip(2), l2);
                    if ir.text.len() == 0 {
                        Err(err_at(ErrorKind::DirectiveSyntax, path, ir.lcc))
                    } else {
                        let st = if defines.contains_key(ir.text) {
                            IfState::ReadingIf
                        } else {
                            IfState::PassingIf
                        };
                        sp_finish_line(t, (2 + ir.n) as nat, defines, ifs.push(st), ir.lcc)
                    }
                } else if w == "ifndef"@ && rd {
                    let ir = sp_read_ident(t.skip(2), l2);
                    if ir.text.len() == 0 {
                        Err(err_at(ErrorKind::DirectiveSyntax, path, ir.lcc))
                    } else {
                        let st = if defines.contains_key(ir.text) {
                            IfState::PassingIf
                        } else {
                            IfState::ReadingIf
                        };
                        sp_finish_line(t, (2 + ir.n) as nat, defines, ifs.push(st), ir.lcc)
                    }
                } else if (w == "ifdef"@ || w == "ifndef"@) && !rd {
                    sp_finish_line(t, 2, defines, ifs.push(IfState::PassingChild), l2)
                } else if w == "else"@ {
                    sp_finish_line(t, 2, defines, sp_flip(ifs), l2)
                } else if w == "endif"@ {
                    let ifs2 = if ifs.len() > 0 {
                        ifs.drop_last()
                    } else {
                        ifs
                    };
                    sp_finish_line(t, 2, defines, ifs2, l2)
                } else if rd {
                    Err(err_at(ErrorKind::UnknownDirective, path, l2))
                } else {
                    sp_finish_line(t, 2, defines, ifs, l2)
                }
            },
            _ => {
                if rd {
                    Err(err_at(ErrorKind::DirectiveSyntax, path, l2))
                } else {
                    sp_finish_line(t, 2, defines, ifs, l2)
                }
            },
        }
    }
}

/// The `#define` directive: the name, then either a parameter list and
/// a body, or a body alone. Whitespace between the name and a `(`
/// still makes it function-like.
#[verifier::opaque]
pub open spec fn sp_define(
    t: Seq<TokenPairV>,
    defines: Map<Seq<char>, DefineV>,
    ifs: Seq<IfState>,
    l2: LccV,
    path: Seq<char>,
) -> Result<DirectiveOk, ErrorV> {
    let ir = sp_read_ident(t.skip(2), l2);
    if ir.text.len() == 0 {
        Err(err_at(ErrorKind::DirectiveSyntax, path, ir.lcc))
    } else {
        let rest1 = t.skip(2 + ir.n as int);
        let w = sp_skip_ws(rest1, ir.lcc);
        let rest2 = rest1.skip(w.0 as int);
        if rest2.len() > 0 && rest2[0].token is LeftParenthesis {
            match sp_read_args(rest2, w.1, path) {
                Ok(ar) => match sp_read_body(rest2.skip(ar.n as int), ar.lcc, path) {
                    Ok(br) => sp_finish_line(
                        t,
                        (2 + ir.n + w.0 + ar.n + br.n) as nat,
                        defines.insert(ir.text, DefineV::Function(ar.args, br.body)),
                        ifs,
                        br.lcc,
                    ),
                    Err(e) => Err(e),
                },
                Err(e) => Err(e),
            }
        } else {
            match sp_read_body(rest2, w.1, path) {
                Ok(br) => sp_finish_line(
                    t,
                    (2 + ir.n + w.0 + br.n) as nat,
                    defines.insert(ir.text, DefineV::Word(br.body)),
                    ifs,
                    br.lcc,
                ),
                Err(e) => Err(e),
            }
        }
    }
}

/// Closes a directive line: skips what remains of it and the newline.
pub open spec fn sp_finish_line(
    t: Seq<TokenPairV>,
    consumed: nat,
    defines: Map<Seq<char>, DefineV>,
    ifs: Seq<IfState>,
    lcc: LccV,
) -> Result<DirectiveOk, ErrorV> {
    let c = clamp0(consumed, t.len());
    let e = sp_epilogue(t.skip(c as int), lcc);
    Ok(DirectiveOk { n: (c + e.0) as nat, defines: defines, ifs: ifs, lcc: e.1 })
}


/// The whole preprocessing of a stream: a fresh conditional stack, then
/// the token loop.
#[verifier::opaque]
pub open spec fn sp_process(
    input: Seq<TokenPairV>,
    defines: Map<Seq<char>, DefineV>,
    lcc: LccV,
    path: Seq<char>,
    depth: nat,
) -> Result<PpOk, ErrorV>
    decreases depth, input.len(), 4int,
{
    sp_process_loop(input, defines, Seq::empty(), lcc, path, depth)
}

/// The token loop: each step acts on the front token per the triple of
/// token, start-of-line flag and reading state, and carries on with
/// what remains.
#[verifier::opaque]
pub open spec fn sp_process_loop(
    t: Seq<TokenPairV>,
    defines: Map<Seq<char>, DefineV>,
    ifs: Seq<IfState>,
    lcc: LccV,
    path: Seq<char>,
    depth: nat,
) -> Result<PpOk, ErrorV>
    decreases depth, t.len(), 3int,
    via sp_process_loop_dec
{
    if t.len() == 0 {
        Ok(PpOk { out: Seq::empty(), defines: defines, lcc: lcc })
    } else {
        let tok = t[0].token;
        let rd = all_reading(ifs);
        if tok is Directive && lcc.newline {
            match sp_directive(t, defines, ifs, lcc, path) {
                Ok(d) => {
                    let c = clamp1(d.n, t.len());
                    sp_process_loop(t.skip(c as int), d.defines, d.ifs, d.lcc, path, depth)
                },
                Err(e) => Err(e),
            }
        } else if tok is Directive && !lcc.newline && rd {
            let l1 = sp_add_cols(lcc, tok);
            let ir = sp_read_ident(t.skip(1), l1);
            if ir.text.len() == 0 {
                Err(err_at(ErrorKind::DirectiveSyntax, path, ir.lcc))
            } else {
                match sp_resolve_stack(ir.pairs, Seq::empty(), defines, ir.lcc, path, depth) {
                    Ok(rs) => {
                        let piece = seq![anon_quote()] + rs.out + seq![anon_quote()];
                        let c = clamp1((1 + ir.n) as nat, t.len());
                        match sp_process_loop(t.skip(c as int), defines, ifs, rs.lcc, path, depth) {
                            Ok(po) => Ok(PpOk { out: piece + po.out, ..po }),
                            Err(e) => Err(e),
                        }
                    },
                    Err(e) => Err(e),
                }
            }
        } else if tok is Newline {
            let l1 = sp_add_line(lcc);
            match sp_process_loop(t.drop_first(), defines, ifs, l1, path, depth) {
                Ok(po) => Ok(
                    PpOk {
                        out: if rd {
                            seq![t[0]] + po.out
                        } else {
                            po.out
                        },
                        ..po
                    },
                ),
                Err(e) => Err(e),
            }
        } else if tok is EOI {
            Ok(PpOk { out: Seq::empty(), defines: defines, lcc: lcc })
        } else if (tok is Word || tok is Underscore) && rd {
            match sp_resolve(t, defines, lcc, path, depth) {
                Ok(rs) => {
                    let c = clamp1(rs.n, t.len());
                    match sp_process_loop(t.skip(c as int), defines, ifs, rs.lcc, path, depth) {
                        Ok(po) => Ok(PpOk { out: rs.out + po.out, ..po }),
                        Err(e) => Err(e),
                    }
                },
                Err(e) => Err(e),
            }
        } else if rd {
            let sm = sp_mod_cols(lcc, t[0]);
            match sp_process_loop(t.drop_first(), defines, ifs, sm.0, path, depth) {
                Ok(po) => Ok(PpOk { out: seq![sm.1] + po.out, ..po }),
                Err(e) => Err(e),
            }
        } else {
            let l1 = sp_add_cols(lcc, tok);
            sp_process_loop(t.drop_first(), defines, ifs, l1, path, depth)
        }
    }
}

#[via_fn]
proof fn sp_process_loop_dec(
    t: Seq<TokenPairV>,
    defines: Map<Seq<char>, DefineV>,
    ifs: Seq<IfState>,
    lcc: LccV,
    path: Seq<char>,
    depth: nat,
) {
    if t.len() > 0 {
        let tok = t[0].token;
        let rd = all_reading(ifs);
        if tok is Directive && !lcc.newline && rd {
            let l1 = sp_add_cols(lcc, tok);
            let t1 = t.skip(1);
            let w = sp_skip_ws(t1, l1);
            lemma_skip_ws_bound(t1, l1);
            let t2 = t1.skip(w.0 as int);
            lemma_read_words_bound(t2, w.1);
            assert(sp_read_ident(t1, l1).pairs.len() <= t2.len());
        }
    }
}

/// Identifier resolution: collect the adjacent word/underscore run,
/// then search it for the longest defined prefix and expand.
#[verifier::opaque]
pub open spec fn sp_resolve(
    t: Seq<TokenPairV>,
    defines: Map<Seq<char>, DefineV>,
    lcc: LccV,
    path: Seq<char>,
    depth: nat,
) -> Result<ResolveOk, ErrorV>
    decreases depth, t.len(), 2int,
    via sp_resolve_dec
{
    let w = sp_skip_ws(t, lcc);
    let rest = t.skip(w.0 as int);
    let ir = sp_read_words(rest, w.1);
    if ir.pairs.len() == 0 {
        if rest.len() > 0 {
            let sm = sp_mod_cols(w.1, rest[0]);
            Ok(ResolveOk { out: seq![sm.1], n: (w.0 + 1) as nat, lcc: sm.0 })
        } else {
            Ok(ResolveOk { out: Seq::empty(), n: w.0, lcc: w.1 })
        }
    } else {
        match sp_resolve_stack(ir.pairs, rest.skip(ir.n as int), defines, ir.lcc, path, depth) {
            Ok(rs) => Ok(ResolveOk { out: rs.out, n: (w.0 + ir.n + rs.n) as nat, lcc: rs.lcc }),
            Err(e) => Err(e),
        }
    }
}

#[via_fn]
proof fn sp_resolve_dec(
    t: Seq<TokenPairV>,
    defines: Map<Seq<char>, DefineV>,
    lcc: LccV,
    path: Seq<char>,
    depth: nat,
) {
    let w = sp_skip_ws(t, lcc);
    lemma_skip_ws_bound(t, lcc);
    let rest = t.skip(w.0 as int);
    let ir = sp_read_words(rest, w.1);
    lemma_read_words_bound(rest, w.1);
    assert(rest.skip(ir.n as int).len() == rest.len() - ir.n);
}

/// The stack search: the longest defined prefix expands (an object
/// macro on a snapshot of the table; a function macro reads its
/// arguments, expands each in the outer scope, binds the formals in a
/// snapshot and expands the body), then the remainder of the stack is
/// searched again; a front element under which nothing matches is
/// emitted as it stands.
#[verifier::opaque]
pub open spec fn sp_resolve_stack(
    stack: Seq<TokenPairV>,
    t: Seq<TokenPairV>,
    defines: Map<Seq<char>, DefineV>,
    lcc: LccV,
    path: Seq<char>,
    depth: nat,
) -> Result<ResolveOk, ErrorV>
    decreases depth, t.len() + stack.len(), 1int,
    via sp_resolve_stack_dec
{
    if stack.len() == 0 {
        Ok(ResolveOk { out: Seq::empty(), n: 0, lcc: lcc })
    } else {
        match sp_find_match(stack, defines, stack.len() as int) {
            Some(m) => {
                let k = clamp1(m.0 as nat, stack.len());
                if depth == 0 {
                    Err(err_at(ErrorKind::RecursionLimit, path, lcc))
                } else {
                    match m.1 {
                        DefineV::Word(body) => {
                            match sp_process(body, defines, lcc, path, (depth - 1) as nat) {
                                Ok(po) => {
                                    match sp_resolve_stack(
                                        stack.skip(k as int),
                                        t,
                                        defines,
                                        po.lcc,
                                        path,
                                        depth,
                                    ) {
                                        Ok(rs) => Ok(
                                            ResolveOk {
                                                out: po.out + rs.out,
                                                n: rs.n,
                                                lcc: rs.lcc,
                                            },
                                        ),
                                        Err(e) => Err(e),
                                    }
                                },
                                Err(e) => Err(e),
                            }
                        },
                        DefineV::Function(formals, body) => {
                            match sp_read_args(t, lcc, path) {
                                Ok(ar) => {
                                    if ar.args.len() != formals.len() {
                                        Err(err_at(ErrorKind::WrongArgumentCount, path, ar.lcc))
                                    } else {
                                        let a2 = clamp_args(ar.args, t.len());
                                        match sp_expand_args(
                                            a2,
                                            defines,
                                            ar.lcc,
                                            path,
                                            depth,
                                        ) {
                                            Ok(ex) => {
                                                let scoped = sp_bind(formals, ex.0, defines);
                                                match sp_process(
                                                    body,
                                                    scoped,
                                                    ex.1,
                                                    path,
                                                    (depth - 1) as nat,
                                                ) {
                                                    Ok(po) => {
                                                        let c = clamp0(ar.n, t.len());
                                                        match sp_resolve_stack(
                                                            stack.skip(k as int),
                                                            t.skip(c as int),
                                                            defines,
                                                            po.lcc,
                                                            path,
                                                            depth,
                                                        ) {
                                                            Ok(rs) => Ok(
                                                                ResolveOk {
                                                                    out: po.out + rs.out,
                                                                    n: (c + rs.n) as nat,
                                                                    lcc: rs.lcc,
                                                                },
                                                            ),
                                                            Err(e) => Err(e),
                                                        }
                                                    },
                                                    Err(e) => Err(e),
                                                }
                                            },
                                            Err(e) => Err(e),
                                        }
                                    }
                                },
                                Err(e) => Err(e),
                            }
                        },
                    }
                }
            },
            None => {
                match sp_resolve_stack(stack.drop_first(), t, defines, lcc, path, depth) {
                    Ok(rs) => Ok(ResolveOk { out: seq![stack[0]] + rs.out, n: rs.n, lcc: rs.lcc }),
                    Err(e) => Err(e),
                }
            },
        }
    }
}

#[via_fn]
proof fn sp_resolve_stack_dec(
    stack: Seq<TokenPairV>,
    t: Seq<TokenPairV>,
    defines: Map<Seq<char>, DefineV>,
    lcc: LccV,
    path: Seq<char>,
    depth: nat,
) {
}


/// An argument list held to the size of the call site that produced
/// it; real calls never reach the bound.
pub open spec fn clamp_args(args: Seq<Seq<TokenPairV>>, len: nat) -> Seq<Seq<TokenPairV>> {
    if args.len() <= len {
        args
    } else {
        args.take(len as int)
    }
}

/// Expanding each actual argument, in order, in a snapshot of the
/// outer scope.
#[verifier::opaque]
pub open spec fn sp_expand_args(
    actuals: Seq<Seq<TokenPairV>>,
    defines: Map<Seq<char>, DefineV>,
    lcc: LccV,
    path: Seq<char>,
    depth: nat,
) -> Result<(Seq<Seq<TokenPairV>>, LccV), ErrorV>
    decreases depth, actuals.len(), 0int,
{
    if actuals.len() == 0 {
        Ok((Seq::empty(), lcc))
    } else if depth == 0 {
        Err(err_at(ErrorKind::RecursionLimit, path, lcc))
    } else {
        match sp_process(actuals[0], defines, lcc, path, (depth - 1) as nat) {
            Ok(po) => {
                match sp_expand_args(actuals.drop_first(), defines, po.lcc, path, depth) {
                    Ok(r) => Ok((seq![po.out] + r.0, r.1)),
                    Err(e) => Err(e),
                }
            },
            Err(e) => Err(e),
        }
    }
}

/// Skipping whitespace consumes no more than there is.
pub proof fn lemma_skip_ws_bound(t: Seq<TokenPairV>, lcc: LccV)
    ensures
        sp_skip_ws(t, lcc).0 <= t.len(),
    decreases t.len(),
{
    if t.len() > 0 && t[0].token is Whitespace {
        lemma_skip_ws_bound(t.drop_first(), sp_add_cols(lcc, t[0].token));
    }
}

/// Reading a word run consumes no more than there is, and yields one
/// pair per consumed token.
pub proof fn lemma_read_words_bound(t: Seq<TokenPairV>, lcc: LccV)
    ensures
        sp_read_words(t, lcc).n <= t.len(),
        sp_read_words(t, lcc).pairs.len() == sp_read_words(t, lcc).n,
    decreases t.len(),
{
    if t.len() > 0 && (t[0].token is Word || t[0].token is Underscore) {
        lemma_read_words_bound(t.drop_first(), sp_mod_cols(lcc, t[0]).0);
    }
}


fn skip_whitespace(tokens: &Vec<TokenPair>, i: usize, lcc: &mut LineColCounter) -> (r: usize)
    requires
        i <= tokens@.len(),
    ensures
        ({
            let sw = sp_skip_ws(pseq(tokens@).skip(i as int), old(lcc)@);
            r == i + sw.0 && final(lcc)@ == sw.1 && i <= r <= tokens@.len()
        }),
    decreases tokens@.len() - i,
{
    if i < tokens.len() {
        let is_ws = tokens[i].token().is_whitespace();
        proof {
            assert(pseq(tokens@).skip(i as int)[0] == pseq(tokens@)[i as int]);
        }
        if is_ws {
            lcc.add_cols(tokens[i].token());
            let r = skip_whitespace(tokens, i + 1, lcc);
            proof {
                assert(pseq(tokens@).skip(i as int).drop_first() =~= pseq(tokens@).skip(i + 1));
            }
            return r;
        }
    }
    i
}

fn read_words(
    tokens: &Vec<TokenPair>,
    j: usize,
    lcc: &mut LineColCounter,
    text: &mut String,
    pairs: &mut Vec<TokenPair>,
) -> (r: usize)
    requires
        j <= tokens@.len(),
    ensures
        ({
            let wr = sp_read_words(pseq(tokens@).skip(j as int), old(lcc)@);
            final(text)@ == old(text)@ + wr.text && pseq(final(pairs)@) == pseq(old(pairs)@)
                + wr.pairs && r == j + wr.n && final(lcc)@ == wr.lcc && j <= r <= tokens@.len()
        }),
    decreases tokens@.len() - j,
{
    let ghost sub = pseq(tokens@).skip(j as int);
    if j < tokens.len() {
        proof {
            assert(sub[0] == pseq(tokens@)[j as int]);
        }
        let is_wu = match tokens[j].token() {
            Token::Word(_) => true,
            Token::Underscore => true,
            _ => false,
        };
        if is_wu {
            let piece = tokens[j].token().word_text_of();
            text.append(piece.as_str());
            let mut p = tokens[j].clone();
            lcc.mod_cols(&mut p);
            let ghost pv = p@;
            pairs.push(p);
            proof {
                assert(pseq(pairs@) =~= pseq(old(pairs)@).push(pv));
                assert(sub.drop_first() =~= pseq(tokens@).skip(j + 1));
            }
            let ghost mid_text = text@;
            let ghost mid_pairs = pseq(pairs@);
            let r = read_words(tokens, j + 1, lcc, text, pairs);
            proof {
                let wr = sp_read_words(sub, old(lcc)@);
                let wrr = sp_read_words(sub.drop_first(), sp_mod_cols(old(lcc)@, sub[0]).0);
                assert(text@ == mid_text + wrr.text);
                assert(old(text)@ + word_text(sub[0].token) + wrr.text =~= old(text)@ + (word_text(
                    sub[0].token,
                ) + wrr.text));
                assert(pseq(pairs@) == mid_pairs + wrr.pairs);
                assert(pseq(old(pairs)@).push(pv) + wrr.pairs =~= pseq(old(pairs)@) + (seq![pv]
                    + wrr.pairs));
            }
            return r;
        }
    }
    proof {
        assert(final(text)@ =~= old(text)@ + Seq::<char>::empty());
        assert(pseq(pairs@) =~= pseq(pairs@) + Seq::<TokenPairV>::empty());
    }
    j
}

fn read_ident(tokens: &Vec<TokenPair>, i: usize, lcc: &mut LineColCounter) -> (r: (
    String,
    Vec<TokenPair>,
    usize,
))
    requires
        i <= tokens@.len(),
    ensures
        ({
            let ir = sp_read_ident(pseq(tokens@).skip(i as int), old(lcc)@);
            r.0@ == ir.text && pseq(r.1@) == ir.pairs && r.2 == i + ir.n && final(lcc)@ == ir.lcc && i
                <= r.2 <= tokens@.len()
        }),
{
    let j = skip_whitespace(tokens, i, lcc);
    let mut text = String::new();
    let mut pairs: Vec<TokenPair> = Vec::new();
    let k = read_words(tokens, j, lcc, &mut text, &mut pairs);
    proof {
        let sub = pseq(tokens@).skip(i as int);
        let w = sp_skip_ws(sub, old(lcc)@);
        assert(sub.skip(w.0 as int) =~= pseq(tokens@).skip(j as int));
        let wr = sp_read_words(pseq(tokens@).skip(j as int), w.1);
        assert(text@ =~= Seq::<char>::empty() + sp_read_words(
            pseq(tokens@).skip(j as int),
            w.1,
        ).text);
        assert(Seq::<char>::empty() + sp_read_words(pseq(tokens@).skip(j as int), w.1).text
            =~= sp_read_words(pseq(tokens@).skip(j as int), w.1).text);
        assert(pseq(pairs@) =~= Seq::<TokenPairV>::empty() + sp_read_words(
            pseq(tokens@).skip(j as int),
            w.1,
        ).pairs);
        assert(Seq::<TokenPairV>::empty() + sp_read_words(pseq(tokens@).skip(j as int), w.1).pairs
            =~= sp_read_words(pseq(tokens@).skip(j as int), w.1).pairs);
    }
    (text, pairs, k)
}


fn finish_line(tokens: &Vec<TokenPair>, c: usize, lcc: &mut LineColCounter) -> (r: usize)
    requires
        c <= tokens@.len(),
    ensures
        ({
            let e = sp_epilogue(pseq(tokens@).skip(c as int), old(lcc)@);
            r == c + e.0 && final(lcc)@ == e.1 && c <= r <= tokens@.len()
        }),
{
    let j = skip_whitespace(tokens, c, lcc);
    proof {
        let sub = pseq(tokens@).skip(c as int);
        let w = sp_skip_ws(sub, old(lcc)@);
        assert(sub.skip(w.0 as int) =~= pseq(tokens@).skip(j as int));
        if j < tokens@.len() {
            assert(pseq(tokens@).skip(j as int)[0] == pseq(tokens@)[j as int]);
        }
    }
    if j < tokens.len() {
        let is_nl = match tokens[j].token() {
            Token::Newline => true,
            _ => false,
        };
        if is_nl {
            lcc.add_line();
            return j + 1;
        }
    }
    j
}

fn read_args_loop(
    tokens: &Vec<TokenPair>,
    j: usize,
    lcc: &mut LineColCounter,
    nested: usize,
    cur: Vec<TokenPair>,
    args: Vec<Vec<TokenPair>>,
    path: &str,
) -> (r: Result<(Vec<Vec<TokenPair>>, usize), Error>)
    requires
        j <= tokens@.len(),
        nested <= j,
    ensures
        match sp_read_args_loop(
            pseq(tokens@).skip(j as int),
            old(lcc)@,
            nested as int,
            pseq(cur@),
            vvseq(args@),
            path@,
        ) {
            Ok(ar) => r matches Ok(v) && vvseq(v.0@) == ar.args && v.1 == j + ar.n && final(lcc)@
                == ar.lcc && j < v.1 <= tokens@.len(),
            Err(e) => r matches Err(e2) && e2@ == e,
        },
    decreases tokens@.len() - j,
{
    let ghost sub = pseq(tokens@).skip(j as int);
    let mut cur = cur;
    let mut args = args;
    let ghost cur0 = pseq(cur@);
    let ghost args0 = vvseq(args@);
    if j == tokens.len() {
        return Err(mk_err(ErrorKind::UnterminatedArguments, path, lcc));
    }
    proof {
        assert(sub[0] == pseq(tokens@)[j as int]);
        assert(sub.drop_first() =~= pseq(tokens@).skip(j + 1));
    }
    let is_eoi = match tokens[j].token() {
        Token::EOI => true,
        _ => false,
    };
    if is_eoi {
        return Err(mk_err(ErrorKind::UnterminatedArguments, path, lcc));
    }
    match tokens[j].token() {
        Token::LeftParenthesis => {
            let mut p = tokens[j].clone();
            lcc.mod_cols(&mut p);
            let ghost pv = p@;
            cur.push(p);
            proof {
                assert(pseq(cur@) =~= cur0.push(pv));
            }
            read_args_loop(tokens, j + 1, lcc, nested + 1, cur, args, path)
        },
        Token::RightParenthesis => {
            if nested == 0 {
                lcc.add_cols(tokens[j].token());
                if cur.len() > 0 {
                    let ghost curv = pseq(cur@);
                    args.push(cur);
                    proof {
                        assert(vvseq(args@) =~= args0.push(curv));
                    }
                }
                Ok((args, j + 1))
            } else {
                let mut p = tokens[j].clone();
                lcc.mod_cols(&mut p);
                let ghost pv = p@;
                cur.push(p);
                proof {
                    assert(pseq(cur@) =~= cur0.push(pv));
                }
                read_args_loop(tokens, j + 1, lcc, nested - 1, cur, args, path)
            }
        },
        Token::Comma => {
            if nested == 0 {
                lcc.add_cols(tokens[j].token());
                if cur.len() > 0 {
                    let ghost curv = pseq(cur@);
                    args.push(cur);
                    proof {
                        assert(vvseq(args@) =~= args0.push(curv));
                    }
                } else {
                    proof {
                        assert(pseq(cur@) =~= Seq::<TokenPairV>::empty());
                    }
                }
                proof {
                    assert(pseq(Seq::<TokenPair>::empty()) =~= Seq::<TokenPairV>::empty());
                }
                read_args_loop(tokens, j + 1, lcc, 0, Vec::new(), args, path)
            } else {
                let mut p = tokens[j].clone();
                lcc.mod_cols(&mut p);
                let ghost pv = p@;
                cur.push(p);
                proof {
                    assert(pseq(cur@) =~= cur0.push(pv));
                }
                read_args_loop(tokens, j + 1, lcc, nested, cur, args, path)
            }
        },
        _ => {
            let mut p = tokens[j].clone();
            lcc.mod_cols(&mut p);
            let ghost pv = p@;
            cur.push(p);
            proof {
                assert(pseq(cur@) =~= cur0.push(pv));
            }
            read_args_loop(tokens, j + 1, lcc, nested, cur, args, path)
        },
    }
}

fn read_args(tokens: &Vec<TokenPair>, i: usize, lcc: &mut LineColCounter, path: &str) -> (r: Result<
    (Vec<Vec<TokenPair>>, usize),
    Error,
>)
    requires
        i <= tokens@.len(),
    ensures
        match sp_read_args(pseq(tokens@).skip(i as int), old(lcc)@, path@) {
            Ok(ar) => r matches Ok(v) && vvseq(v.0@) == ar.args && v.1 == i + ar.n && final(lcc)@
                == ar.lcc && i < v.1 <= tokens@.len(),
            Err(e) => r matches Err(e2) && e2@ == e,
        },
{
    let j = skip_whitespace(tokens, i, lcc);
    proof {
        let sub = pseq(tokens@).skip(i as int);
        let w = sp_skip_ws(sub, old(lcc)@);
        assert(sub.skip(w.0 as int) =~= pseq(tokens@).skip(j as int));
        if j < tokens@.len() {
            assert(pseq(tokens@).skip(j as int)[0] == pseq(tokens@)[j as int]);
        }
    }
    let mut at_paren = false;
    if j < tokens.len() {
        at_paren = match tokens[j].token() {
            Token::LeftParenthesis => true,
            _ => false,
        };
    }
    if !at_paren {
        return Err(mk_err(ErrorKind::ExpectedParenthesis, path, lcc));
    }
    lcc.add_cols(tokens[j].token());
    proof {
        assert(pseq(tokens@).skip(j as int).drop_first() =~= pseq(tokens@).skip(j + 1));
        assert(pseq(Seq::<TokenPair>::empty()) =~= Seq::<TokenPairV>::empty());
        assert(vvseq(Seq::<Vec<TokenPair>>::empty()) =~= Seq::<Seq<TokenPairV>>::empty());
    }
    read_args_loop(tokens, j + 1, lcc, 0, Vec::new(), Vec::new(), path)
}

fn read_body_loop(
    tokens: &Vec<TokenPair>,
    j: usize,
    lcc: &mut LineColCounter,
    quoted: bool,
    body: Vec<TokenPair>,
    path: &str,
) -> (r: Result<(Vec<TokenPair>, usize), Error>)
    requires
        j <= tokens@.len(),
    ensures
        match sp_read_body_loop(pseq(tokens@).skip(j as int), old(lcc)@, quoted, path@) {
            Ok(br) => r matches Ok(v) && pseq(v.0@) == pseq(body@) + br.body && v.1 == j + br.n
                && final(lcc)@ == br.lcc && j <= v.1 <= tokens@.len(),
            Err(e) => r matches Err(e2) && e2@ == e,
        },
    decreases tokens@.len() - j,
{
    let ghost sub = pseq(tokens@).skip(j as int);
    if j == tokens.len() {
        return Err(mk_err(ErrorKind::UnterminatedBody, path, lcc));
    }
    proof {
        assert(sub[0] == pseq(tokens@)[j as int]);
        assert(sub.drop_first() =~= pseq(tokens@).skip(j + 1));
    }
    let mut body = body;
    let is_eoi = match tokens[j].token() {
        Token::EOI => true,
        _ => false,
    };
    if is_eoi {
        return Err(mk_err(ErrorKind::UnterminatedBody, path, lcc));
    }
    if quoted {
        let mut p = tokens[j].clone();
        lcc.mod_cols(&mut p);
        let still = match p.token() {
            Token::DoubleQuote => false,
            _ => true,
        };
        let ghost pv = p@;
        body.push(p);
        proof {
            assert(pseq(body@) =~= pseq(body@.drop_last()).push(pv));
        }
        let r = read_body_loop(tokens, j + 1, lcc, still, body, path);
        proof {
            lemma_body_assoc(pseq(body@.drop_last()), pv);
        }
        return r;
    }
    match tokens[j].token() {
        Token::Newline => Ok((body, j)),
        Token::Escape => {
            let mut nl_next = false;
            if j + 1 < tokens.len() {
                nl_next = match tokens[j + 1].token() {
                    Token::Newline => true,
                    _ => false,
                };
            }
            proof {
                if j + 1 < tokens@.len() {
                    assert(sub[1] == pseq(tokens@)[j + 1]);
                }
            }
            if nl_next {
                lcc.add_cols(tokens[j].token());
                let mut p = tokens[j + 1].clone();
                lcc.mod_cols(&mut p);
                let ghost pv = p@;
                body.push(p);
                proof {
                    assert(pseq(body@) =~= pseq(body@.drop_last()).push(pv));
                    assert(sub.skip(2) =~= pseq(tokens@).skip(j + 2));
                }
                let r = read_body_loop(tokens, j + 2, lcc, false, body, path);
                proof {
                    lemma_body_assoc(pseq(body@.drop_last()), pv);
                }
                return r;
            }
            let mut p = tokens[j].clone();
            lcc.mod_cols(&mut p);
            let ghost pv = p@;
            body.push(p);
            proof {
                assert(pseq(body@) =~= pseq(body@.drop_last()).push(pv));
            }
            let r = read_body_loop(tokens, j + 1, lcc, false, body, path);
            proof {
                lemma_body_assoc(pseq(body@.drop_last()), pv);
            }
            return r;
        },
        _ => {
            let mut p = tokens[j].clone();
            lcc.mod_cols(&mut p);
            let q = match p.token() {
                Token::DoubleQuote => true,
                _ => false,
            };
            let ghost pv = p@;
            body.push(p);
            proof {
                assert(pseq(body@) =~= pseq(body@.drop_last()).push(pv));
            }
            let r = read_body_loop(tokens, j + 1, lcc, q, body, path);
            proof {
                lemma_body_assoc(pseq(body@.drop_last()), pv);
            }
            return r;
        },
    }
}

/// Appending one pair and then a tail appends their concatenation.
proof fn lemma_body_assoc(base: Seq<TokenPairV>, pv: TokenPairV)
    ensures
        forall|rest: Seq<TokenPairV>|
            base.push(pv) + rest =~= base + (#[trigger] (seq![pv] + rest)),
{
}

fn read_define_value(tokens: &Vec<TokenPair>, i: usize, lcc: &mut LineColCounter, path: &str) -> (r:
    Result<(Vec<TokenPair>, usize), Error>)
    requires
        i <= tokens@.len(),
    ensures
        match sp_read_body(pseq(tokens@).skip(i as int), old(lcc)@, path@) {
            Ok(br) => r matches Ok(v) && pseq(v.0@) == br.body && v.1 == i + br.n && final(lcc)@
                == br.lcc && i <= v.1 <= tokens@.len(),
            Err(e) => r matches Err(e2) && e2@ == e,
        },
{
    let j = skip_whitespace(tokens, i, lcc);
    proof {
        let sub = pseq(tokens@).skip(i as int);
        let w = sp_skip_ws(sub, old(lcc)@);
        assert(sub.skip(w.0 as int) =~= pseq(tokens@).skip(j as int));
        assert(pseq(Seq::<TokenPair>::empty()) =~= Seq::<TokenPairV>::empty());
    }
    match read_body_loop(tokens, j, lcc, false, Vec::new(), path) {
        Ok(v) => {
            proof {
                let sub = pseq(tokens@).skip(i as int);
                let w = sp_skip_ws(sub, old(lcc)@);
                let br = sp_read_body_loop(pseq(tokens@).skip(j as int), w.1, false, path@);
                if br is Ok {
                    assert(Seq::<TokenPairV>::empty() + br->Ok_0.body =~= br->Ok_0.body);
                }
            }
            Ok(v)
        },
        Err(e) => Err(e),
    }
}

fn ident_of(stack: &Vec<TokenPair>, si: usize, k: usize) -> (r: String)
    requires
        si + k <= stack@.len(),
    ensures
        r@ == sp_ident_of(pseq(stack@).skip(si as int), k as int),
{
    let total = stack.len();
    let mut s = String::new();
    let mut j: usize = 0;
    proof {
        assert(s@ =~= sp_ident_of(pseq(stack@).skip(si as int), 0));
    }
    while j < k
        invariant
            0 <= j <= k,
            si + k <= total,
            total == stack@.len(),
            s@ == sp_ident_of(pseq(stack@).skip(si as int), j as int),
        decreases k - j,
    {
        let piece = stack[si + j].token().word_text_of();
        s.append(piece.as_str());
        proof {
            assert(pseq(stack@).skip(si as int)[j as int] == pseq(stack@)[si + j]);
        }
        j += 1;
    }
    s
}

fn find_match(stack: &Vec<TokenPair>, si: usize, defines: &Defines) -> (r: Option<(usize, Define)>)
    requires
        si <= stack@.len(),
        defines.wf(),
    ensures
        ({
            let sub = pseq(stack@).skip(si as int);
            match sp_find_match(sub, defines@, sub.len() as int) {
                Some(m) => r matches Some(v) && v.0 == m.0 && v.1@ == m.1 && 1 <= v.0 <= sub.len(),
                None => r is None,
            }
        }),
{
    let ghost sub = pseq(stack@).skip(si as int);
    let m = stack.len() - si;
    let mut k: usize = m;
    while k > 0
        invariant
            0 <= k <= m,
            m == stack@.len() - si,
            si <= stack@.len(),
            defines.wf(),
            sub == pseq(stack@).skip(si as int),
            sp_find_match(sub, defines@, m as int) == sp_find_match(sub, defines@, k as int),
        decreases k,
    {
        let ident = ident_of(stack, si, k);
        match defines.get(ident.as_str()) {
            Some(d) => {
                proof {
                    lemma_find_match_range(sub, defines@, k as int);
                }
                return Some((k, d));
            },
            None => {},
        }
        k -= 1;
    }
    None
}

fn bind_args(formals: &Vec<Vec<TokenPair>>, expanded: &Vec<Vec<TokenPair>>, scoped: &mut Defines)
    requires
        old(scoped).wf(),
        formals@.len() == expanded@.len(),
    ensures
        final(scoped).wf(),
        final(scoped)@ == sp_bind(vvseq(formals@), vvseq(expanded@), old(scoped)@),
{
    let n = formals.len();
    let mut fi: usize = 0;
    proof {
        assert(vvseq(formals@).skip(0) =~= vvseq(formals@));
        assert(vvseq(expanded@).skip(0) =~= vvseq(expanded@));
    }
    while fi < n
        invariant
            0 <= fi <= n,
            n == formals@.len(),
            formals@.len() == expanded@.len(),
            scoped.wf(),
            sp_bind(vvseq(formals@), vvseq(expanded@), old(scoped)@) == sp_bind(
                vvseq(formals@).skip(fi as int),
                vvseq(expanded@).skip(fi as int),
                scoped@,
            ),
        decreases n - fi,
    {
        let ghost ff = vvseq(formals@).skip(fi as int);
        let ghost ee = vvseq(expanded@).skip(fi as int);
        proof {
            assert(ff[0] == vvseq(formals@)[fi as int]);
            assert(ee[0] == vvseq(expanded@)[fi as int]);
            assert(ff.drop_first() =~= vvseq(formals@).skip(fi + 1));
            assert(ee.drop_first() =~= vvseq(expanded@).skip(fi + 1));
        }
        let mut flcc = LineColCounter::new();
        let fr = read_ident(&formals[fi], 0, &mut flcc);
        proof {
            assert(pseq(formals[fi as int]@).skip(0) =~= pseq(formals[fi as int]@));
            assert(fr.0@ == formal_name(vvseq(formals@)[fi as int]));
        }
        let body = clone_pairs(&expanded[fi]);
        scoped.new_word(fr.0.as_str(), body);
        fi += 1;
    }
    proof {
        assert(vvseq(formals@).skip(n as int) =~= Seq::<Seq<TokenPairV>>::empty());
        assert(vvseq(expanded@).skip(n as int) =~= Seq::<Seq<TokenPairV>>::empty());
    }
}

#[verifier::rlimit(100)]
#[verifier::spinoff_prover]
#[verifier::loop_isolation(false)]
fn resolve_stack(
    stack: &Vec<TokenPair>,
    si: usize,
    tokens: &Vec<TokenPair>,
    j: usize,
    defines: &Defines,
    lcc: &mut LineColCounter,
    path: &str,
    depth: u64,
    out: &mut Vec<TokenPair>,
) -> (r: Result<usize, Error>)
    requires
        si <= stack@.len(),
        j <= tokens@.len(),
        defines.wf(),
    ensures
        match sp_resolve_stack(
            pseq(stack@).skip(si as int),
            pseq(tokens@).skip(j as int),
            defines@,
            old(lcc)@,
            path@,
            depth as nat,
        ) {
            Ok(rs) => r matches Ok(j2) && j2 == j + rs.n && pseq(final(out)@) == pseq(old(out)@)
                + rs.out && final(lcc)@ == rs.lcc && j <= j2 <= tokens@.len(),
            Err(e) => r matches Err(e2) && e2@ == e,
        },
    decreases depth, tokens@.len() - j + stack@.len() - si, 1int,
{
    proof {
        reveal(sp_process);
        reveal(sp_process_loop);
        reveal(sp_resolve);
        reveal(sp_resolve_stack);
        reveal(sp_expand_args);
    }
    let ghost stk = pseq(stack@).skip(si as int);
    let ghost inp = pseq(tokens@).skip(j as int);
    if si == stack.len() {
        proof {
            assert(pseq(out@) =~= pseq(out@) + Seq::<TokenPairV>::empty());
        }
        return Ok(j);
    }
    match find_match(stack, si, defines) {
        None => {
            let p = stack[si].clone();
            let ghost pv = p@;
            proof {
                assert(stk[0] == pseq(stack@)[si as int]);
                assert(stk.drop_first() =~= pseq(stack@).skip(si + 1));
            }
            out.push(p);
            proof {
                assert(pseq(out@) =~= pseq(old(out)@).push(pv));
            }
            let ghost mid = pseq(out@);
            let r = resolve_stack(stack, si + 1, tokens, j, defines, lcc, path, depth, out);
            proof {
                let rec = sp_resolve_stack(
                    stk.drop_first(),
                    inp,
                    defines@,
                    old(lcc)@,
                    path@,
                    depth as nat,
                );
                if rec is Ok {
                    let rs = rec->Ok_0;
                    assert(pseq(out@) == mid + rs.out);
                    assert(pseq(old(out)@).push(pv) + rs.out =~= pseq(old(out)@) + (seq![pv]
                        + rs.out));
                }
            }
            return r;
        },
        Some((k, d)) => {
            proof {
                assert(sp_find_match(stk, defines@, stk.len() as int) matches Some(m) && m.0
                    == k as int && m.1 == d@);
                assert(clamp1(k as nat, stk.len()) == k as nat);
                assert(pseq(stack@).skip(si + k as int) =~= stk.skip(k as int));
            }
            if depth == 0 {
                return Err(mk_err(ErrorKind::RecursionLimit, path, lcc));
            }
            match d {
                Define::Word(body) => {
                    let mut scoped = defines.clone();
                    let ghost mid0 = pseq(out@);
                    match process_tokens(&body, &mut scoped, lcc, path, depth - 1, out) {
                        Ok(()) => {},
                        Err(e) => {
                            return Err(e);
                        },
                    }
                    let ghost mid = pseq(out@);
                    let r = resolve_stack(
                        stack,
                        si + k,
                        tokens,
                        j,
                        defines,
                        lcc,
                        path,
                        depth,
                        out,
                    );
                    proof {
                        let po = sp_process(
                            pseq(body@),
                            defines@,
                            old(lcc)@,
                            path@,
                            (depth - 1) as nat,
                        )->Ok_0;
                        let rec = sp_resolve_stack(
                            stk.skip(k as int),
                            inp,
                            defines@,
                            po.lcc,
                            path@,
                            depth as nat,
                        );
                        if rec is Ok {
                            let rs = rec->Ok_0;
                            assert(pseq(out@) == mid + rs.out);
                            assert(mid == mid0 + po.out);
                            assert(mid0 + po.out + rs.out =~= mid0 + (po.out + rs.out));
                        }
                    }
                    return r;
                },
                Define::Function(fm) => {
                    let formals = fm.args();
                    let body = fm.statement();
                    let ar = match read_args(tokens, j, lcc, path) {
                        Ok(v) => v,
                        Err(e) => {
                            return Err(e);
                        },
                    };
                    let (argv, j2) = ar;
                    if argv.len() != formals.len() {
                        return Err(mk_err(ErrorKind::WrongArgumentCount, path, lcc));
                    }
                    proof {
                        let sar = sp_read_args(inp, old(lcc)@, path@)->Ok_0;
                        lemma_args_within(inp, old(lcc)@, path@);
                        assert(clamp_args(sar.args, inp.len()) == sar.args);
                        assert(clamp0(sar.n, inp.len()) == sar.n);
                        assert(vvseq(argv@) == sar.args);
                        assert(lcc@ == sar.lcc);
                        assert(j2 == j + sar.n);
                    }
                    // Expand each actual argument in a snapshot of the
                    // outer scope, in order.
                    let ghost actualsv = vvseq(argv@);
                    let ghost lcc0 = lcc@;
                    let mut expanded: Vec<Vec<TokenPair>> = Vec::new();
                    let mut ai: usize = 0;
                    proof {
                        assert(actualsv.skip(0) =~= actualsv);
                        assert(vvseq(expanded@) =~= Seq::<Seq<TokenPairV>>::empty());
                        let r0 = sp_expand_args(actualsv, defines@, lcc0, path@, depth as nat);
                        if r0 is Ok {
                            assert(Seq::<Seq<TokenPairV>>::empty() + r0->Ok_0.0 =~= r0->Ok_0.0);
                        }
                    }
                    while ai < argv.len()
                        invariant
                            0 <= ai <= argv@.len(),
                            depth >= 1,
                            defines.wf(),
                            actualsv == vvseq(argv@),
                            vvseq(expanded@).len() == ai,
                            sp_expand_args(actualsv, defines@, lcc0, path@, depth as nat) == (
                            match sp_expand_args(
                                actualsv.skip(ai as int),
                                defines@,
                                lcc@,
                                path@,
                                depth as nat,
                            ) {
                                Ok(r2) => Ok::<(Seq<Seq<TokenPairV>>, LccV), ErrorV>(
                                    (vvseq(expanded@) + r2.0, r2.1),
                                ),
                                Err(e2) => Err(e2),
                            }),
                        decreases argv@.len() - ai,
                    {
                        let ghost rest_act = actualsv.skip(ai as int);
                        proof {
                            reveal(sp_process);
        reveal(sp_process_loop);
        reveal(sp_resolve);
        reveal(sp_resolve_stack);
        reveal(sp_expand_args);
                            assert(rest_act[0] == actualsv[ai as int]);
                            assert(rest_act.drop_first() =~= actualsv.skip(ai + 1));
                            assert(actualsv[ai as int] == pseq(argv@[ai as int]@));
                        }
                        let mut ascope = defines.clone();
                        let mut sub_out: Vec<TokenPair> = Vec::new();
                        let ghost lcc_before = lcc@;
                        match process_tokens(
                            &argv[ai],
                            &mut ascope,
                            lcc,
                            path,
                            depth - 1,
                            &mut sub_out,
                        ) {
                            Ok(()) => {},
                            Err(e) => {
                                proof {
                                    reveal_with_fuel(sp_process, 2);
                                    reveal_with_fuel(sp_resolve_stack, 2);
                                    reveal_with_fuel(sp_expand_args, 2);
                                    let spp = sp_process(
                                        rest_act[0],
                                        defines@,
                                        lcc_before,
                                        path@,
                                        (depth - 1) as nat,
                                    );
                                    assert(spp is Err && e@ == spp->Err_0);
                                    let spe = sp_expand_args(
                                        rest_act,
                                        defines@,
                                        lcc_before,
                                        path@,
                                        depth as nat,
                                    );
                                    assert(spe == Err::<(Seq<Seq<TokenPairV>>, LccV), ErrorV>(
                                        spp->Err_0,
                                    ));
                                    assert(sp_expand_args(
                                        actualsv,
                                        defines@,
                                        lcc0,
                                        path@,
                                        depth as nat,
                                    ) == spe);
                                    let fm_ = sp_find_match(stk, defines@, stk.len() as int);
                                    assert(fm_ is Some);
                                    let m = fm_->Some_0;
                                    assert(m.1 is Function);
                                    let formals_s = m.1->Function_0;
                                    let sar = sp_read_args(inp, old(lcc)@, path@)->Ok_0;
                                    assert(sar.args.len() == formals_s.len());
                                    assert(clamp_args(sar.args, inp.len()) == sar.args);
                                    assert(lcc0 == sar.lcc);
                                    assert(actualsv == sar.args);
                                    assert(sp_expand_args(
                                        sar.args,
                                        defines@,
                                        sar.lcc,
                                        path@,
                                        depth as nat,
                                    ) == Err::<(Seq<Seq<TokenPairV>>, LccV), ErrorV>(e@));
                                    assert(sp_resolve_stack(
                                        stk,
                                        inp,
                                        defines@,
                                        old(lcc)@,
                                        path@,
                                        depth as nat,
                                    ) == Err::<ResolveOk, ErrorV>(e@));
                                }
                                return Err(e);
                            },
                        }
                        let ghost ev = vvseq(expanded@);
                        proof {
                            let po = sp_process(
                                rest_act[0],
                                defines@,
                                lcc_before,
                                path@,
                                (depth - 1) as nat,
                            )->Ok_0;
                            assert(Seq::<TokenPairV>::empty() + po.out =~= po.out);
                            assert(pseq(sub_out@) == po.out);
                        }
                        expanded.push(sub_out);
                        proof {
                            assert(vvseq(expanded@) =~= ev.push(pseq(expanded@.last()@)));
                        }
                        ai += 1;
                        proof {
                            let rec = sp_expand_args(
                                actualsv.skip(ai as int),
                                defines@,
                                lcc@,
                                path@,
                                depth as nat,
                            );
                            if rec is Ok {
                                let r2 = rec->Ok_0;
                                assert(ev + (seq![pseq(expanded@.last()@)] + r2.0) =~= vvseq(
                                    expanded@,
                                ) + r2.0);
                            }
                        }
                    }
                    proof {
                        reveal(sp_process);
        reveal(sp_process_loop);
        reveal(sp_resolve);
        reveal(sp_resolve_stack);
        reveal(sp_expand_args);
                        assert(actualsv.skip(argv@.len() as int) =~= Seq::<Seq<TokenPairV>>::empty());
                        assert(vvseq(expanded@) + Seq::<Seq<TokenPairV>>::empty() =~= vvseq(
                            expanded@,
                        ));
                    }
                    let mut scoped = defines.clone();
                    bind_args(formals, &expanded, &mut scoped);
                    let ghost mid0 = pseq(out@);
                    match process_tokens(&body, &mut scoped, lcc, path, depth - 1, out) {
                        Ok(()) => {},
                        Err(e) => {
                            return Err(e);
                        },
                    }
                    let ghost mid = pseq(out@);
                    let r = resolve_stack(
                        stack,
                        si + k,
                        tokens,
                        j2,
                        defines,
                        lcc,
                        path,
                        depth,
                        out,
                    );
                    proof {
                        let sar = sp_read_args(inp, old(lcc)@, path@)->Ok_0;
                        assert(inp.skip(sar.n as int) =~= pseq(tokens@).skip(j2 as int));
                        let ex = sp_expand_args(
                            sar.args,
                            defines@,
                            lcc0,
                            path@,
                            depth as nat,
                        )->Ok_0;
                        assert(lcc0 == sar.lcc);
                        let scp = sp_bind(
                            sp_find_match(stk, defines@, stk.len() as int)->Some_0.1->Function_0,
                            ex.0,
                            defines@,
                        );
                        let po = sp_process(
                            pseq(body@),
                            scp,
                            ex.1,
                            path@,
                            (depth - 1) as nat,
                        )->Ok_0;
                        let rec = sp_resolve_stack(
                            stk.skip(k as int),
                            inp.skip(sar.n as int),
                            defines@,
                            po.lcc,
                            path@,
                            depth as nat,
                        );
                        if rec is Ok {
                            let rs = rec->Ok_0;
                            assert(pseq(out@) == mid + rs.out);
                            assert(mid == mid0 + po.out);
                            assert(mid0 + po.out + rs.out =~= mid0 + (po.out + rs.out));
                        }
                    }
                    return r;
                },
            }
        },
    }
}

/// The argument reader stays inside the input it was given, and yields
/// no more arguments than tokens it read.
proof fn lemma_args_within(t: Seq<TokenPairV>, lcc: LccV, path: Seq<char>)
    ensures
        sp_read_args(t, lcc, path) matches Ok(ar) ==> 1 <= ar.n <= t.len() && ar.args.len()
            <= t.len(),
{
    let w = sp_skip_ws(t, lcc);
    lemma_skip_ws_bound(t, lcc);
    let rest = t.skip(w.0 as int);
    if rest.len() > 0 && rest[0].token is LeftParenthesis {
        lemma_read_args_loop_bound(
            rest.drop_first(),
            sp_add_cols(w.1, TokenV::LeftParenthesis),
            0,
            Seq::empty(),
            Seq::empty(),
            path,
        );
    }
}

#[verifier::rlimit(100)]
#[verifier::spinoff_prover]
fn resolve(
    tokens: &Vec<TokenPair>,
    i: usize,
    defines: &Defines,
    lcc: &mut LineColCounter,
    path: &str,
    depth: u64,
    out: &mut Vec<TokenPair>,
) -> (r: Result<usize, Error>)
    requires
        i <= tokens@.len(),
        defines.wf(),
    ensures
        match sp_resolve(
            pseq(tokens@).skip(i as int),
            defines@,
            old(lcc)@,
            path@,
            depth as nat,
        ) {
            Ok(rs) => r matches Ok(i2) && i2 == i + rs.n && pseq(final(out)@) == pseq(old(out)@)
                + rs.out && final(lcc)@ == rs.lcc && i <= i2 <= tokens@.len(),
            Err(e) => r matches Err(e2) && e2@ == e,
        },
    decreases depth, tokens@.len() - i, 2int,
{
    proof {
        reveal(sp_process);
        reveal(sp_process_loop);
        reveal(sp_resolve);
        reveal(sp_resolve_stack);
        reveal(sp_expand_args);
    }
    let ghost sub = pseq(tokens@).skip(i as int);
    let j = skip_whitespace(tokens, i, lcc);
    proof {
        let w = sp_skip_ws(sub, old(lcc)@);
        assert(sub.skip(w.0 as int) =~= pseq(tokens@).skip(j as int));
    }
    let mut text = String::new();
    let mut stack: Vec<TokenPair> = Vec::new();
    let k = read_words(tokens, j, lcc, &mut text, &mut stack);
    proof {
        let w = sp_skip_ws(sub, old(lcc)@);
        let ir = sp_read_words(sub.skip(w.0 as int), w.1);
        assert(pseq(stack@) =~= Seq::<TokenPairV>::empty() + ir.pairs ==> pseq(stack@) == ir.pairs)
            by {
            assert(Seq::<TokenPairV>::empty() + ir.pairs =~= ir.pairs);
        }
        lemma_read_words_bound(sub.skip(w.0 as int), w.1);
    }
    if stack.len() == 0 {
        if j < tokens.len() {
            proof {
                assert(pseq(tokens@).skip(j as int)[0] == pseq(tokens@)[j as int]);
            }
            let mut p = tokens[j].clone();
            lcc.mod_cols(&mut p);
            let ghost pv = p@;
            out.push(p);
            proof {
                assert(pseq(out@) =~= pseq(old(out)@).push(pv));
                assert(pseq(old(out)@).push(pv) =~= pseq(old(out)@) + seq![pv]);
            }
            return Ok(j + 1);
        }
        proof {
            assert(pseq(out@) =~= pseq(out@) + Seq::<TokenPairV>::empty());
        }
        return Ok(j);
    }
    proof {
        assert(pseq(stack@).skip(0) =~= pseq(stack@));
        assert(pseq(tokens@).skip(j as int).skip(
            (k - j) as int,
        ) =~= pseq(tokens@).skip(k as int));
    }
    resolve_stack(&stack, 0, tokens, k, defines, lcc, path, depth, out)
}

#[verifier::rlimit(100)]
#[verifier::spinoff_prover]
fn handle_directive(
    tokens: &Vec<TokenPair>,
    i: usize,
    ifs: &mut IfStates,
    defines: &mut Defines,
    lcc: &mut LineColCounter,
    path: &str,
) -> (r: Result<usize, Error>)
    requires
        i < tokens@.len(),
        pseq(tokens@)[i as int].token is Directive,
        old(defines).wf(),
    ensures
        final(defines).wf(),
        match sp_directive(
            pseq(tokens@).skip(i as int),
            old(defines)@,
            old(ifs)@,
            old(lcc)@,
            path@,
        ) {
            Ok(d) => r matches Ok(i2) && i2 == i + d.n && i < i2 <= tokens@.len()
                && final(defines)@ == d.defines && final(ifs)@ == d.ifs && final(lcc)@ == d.lcc,
            Err(e) => r matches Err(e2) && e2@ == e,
        },
{
    proof {
        reveal(sp_directive);
        reveal(sp_define);
    }
    let ghost sub = pseq(tokens@).skip(i as int);
    proof {
        assert(sub[0] == pseq(tokens@)[i as int]);
    }
    let n = tokens.len();
    let rd = ifs.reading();
    lcc.add_cols(tokens[i].token());
    if i == n - 1 {
        return Err(mk_err(ErrorKind::DirectiveSyntax, path, lcc));
    }
    proof {
        assert(sub[1] == pseq(tokens@)[i + 1]);
    }
    lcc.add_cols(tokens[i + 1].token());
    let is_word = match tokens[i + 1].token() {
        Token::Word(_) => true,
        _ => false,
    };
    if !is_word {
        if rd {
            return Err(mk_err(ErrorKind::DirectiveSyntax, path, lcc));
        }
        let i2 = finish_line(tokens, i + 2, lcc);
        proof {
            lemma_finish(sub, i as int, i + 2, tokens@);
        }
        return Ok(i2);
    }
    let dname = match tokens[i + 1].token() {
        Token::Word(w) => w.clone(),
        _ => String::new(),
    };
    if dname == "define".to_owned() && rd {
        proof {
            assert(sub.skip(2) =~= pseq(tokens@).skip(i + 2));
        }
        let fr = read_ident(tokens, i + 2, lcc);
        let ghost l2v = sp_add_cols(sp_add_cols(old(lcc)@, TokenV::Directive), sub[1].token);
        let ghost irv = sp_read_ident(sub.skip(2), l2v);
        if fr.0.as_str().is_empty() {
            return Err(mk_err(ErrorKind::DirectiveSyntax, path, lcc));
        }
        let i3 = fr.2;
        proof {
            assert(fr.2 == i + 2 + irv.n);
            assert(sub.skip(2 + irv.n as int) =~= pseq(tokens@).skip(i3 as int));
        }
        let j = skip_whitespace(tokens, i3, lcc);
        proof {
            assert(pseq(tokens@).skip(i3 as int).skip(
                (j - i3) as int,
            ) =~= pseq(tokens@).skip(j as int));
            if j < tokens@.len() {
                assert(pseq(tokens@).skip(j as int)[0] == pseq(tokens@)[j as int]);
            }
        }
        let mut at_paren = false;
        if j < tokens.len() {
            at_paren = match tokens[j].token() {
                Token::LeftParenthesis => true,
                _ => false,
            };
        }
        if at_paren {
            let ar = match read_args(tokens, j, lcc, path) {
                Ok(v) => v,
                Err(e) => {
                    return Err(e);
                },
            };
            let (argv, j2) = ar;
            proof {
                assert(pseq(tokens@).skip(j as int).skip(
                    (j2 - j) as int,
                ) =~= pseq(tokens@).skip(j2 as int));
            }
            let br = match read_define_value(tokens, j2, lcc, path) {
                Ok(v) => v,
                Err(e) => {
                    return Err(e);
                },
            };
            let (body, j3) = br;
            defines.new_function(fr.0.as_str(), argv, body);
            let i2 = finish_line(tokens, j3, lcc);
            proof {
                lemma_finish(sub, i as int, j3 as int, tokens@);
            }
            return Ok(i2);
        }
        let br = match read_define_value(tokens, j, lcc, path) {
            Ok(v) => v,
            Err(e) => {
                return Err(e);
            },
        };
        let (body, j3) = br;
        defines.new_word(fr.0.as_str(), body);
        let i2 = finish_line(tokens, j3, lcc);
        proof {
            lemma_finish(sub, i as int, j3 as int, tokens@);
        }
        return Ok(i2);
    }
    if dname == "undef".to_owned() && rd {
        let fr = read_ident(tokens, i + 2, lcc);
        proof {
            assert(sub.skip(2) =~= pseq(tokens@).skip(i + 2));
        }
        if fr.0.as_str().is_empty() {
            return Err(mk_err(ErrorKind::DirectiveSyntax, path, lcc));
        }
        defines.remove(fr.0.as_str());
        let i2 = finish_line(tokens, fr.2, lcc);
        proof {
            lemma_finish(sub, i as int, fr.2 as int, tokens@);
        }
        return Ok(i2);
    }
    if dname == "ifdef".to_owned() && rd {
        let fr = read_ident(tokens, i + 2, lcc);
        proof {
            assert(sub.skip(2) =~= pseq(tokens@).skip(i + 2));
        }
        if fr.0.as_str().is_empty() {
            return Err(mk_err(ErrorKind::DirectiveSyntax, path, lcc));
        }
        if defines.defined(fr.0.as_str()) {
            ifs.push(IfState::ReadingIf);
        } else {
            ifs.push(IfState::PassingIf);
        }
        let i2 = finish_line(tokens, fr.2, lcc);
        proof {
            lemma_finish(sub, i as int, fr.2 as int, tokens@);
        }
        return Ok(i2);
    }
    if dname == "ifndef".to_owned() && rd {
        let fr = read_ident(tokens, i + 2, lcc);
        proof {
            assert(sub.skip(2) =~= pseq(tokens@).skip(i + 2));
        }
        if fr.0.as_str().is_empty() {
            return Err(mk_err(ErrorKind::DirectiveSyntax, path, lcc));
        }
        if defines.defined(fr.0.as_str()) {
            ifs.push(IfState::PassingIf);
        } else {
            ifs.push(IfState::ReadingIf);
        }
        let i2 = finish_line(tokens, fr.2, lcc);
        proof {
            lemma_finish(sub, i as int, fr.2 as int, tokens@);
        }
        return Ok(i2);
    }
    if (dname == "ifdef".to_owned() || dname == "ifndef".to_owned()) && !rd {
        ifs.push(IfState::PassingChild);
        let i2 = finish_line(tokens, i + 2, lcc);
        proof {
            lemma_finish(sub, i as int, i + 2, tokens@);
        }
        return Ok(i2);
    }
    if dname == "else".to_owned() {
        ifs.flip();
        let i2 = finish_line(tokens, i + 2, lcc);
        proof {
            lemma_finish(sub, i as int, i + 2, tokens@);
        }
        return Ok(i2);
    }
    if dname == "endif".to_owned() {
        ifs.pop();
        let i2 = finish_line(tokens, i + 2, lcc);
        proof {
            lemma_finish(sub, i as int, i + 2, tokens@);
        }
        return Ok(i2);
    }
    if rd {
        return Err(mk_err(ErrorKind::UnknownDirective, path, lcc));
    }
    let i2 = finish_line(tokens, i + 2, lcc);
    proof {
        lemma_finish(sub, i as int, i + 2, tokens@);
    }
    Ok(i2)
}

/// Ties the exec epilogue index to the spec's clamped skip: the index
/// the line handling reached is inside the stream, so the bound in the
/// spec never binds.
proof fn lemma_finish(sub: Seq<TokenPairV>, i: int, c: int, tokens: Seq<TokenPair>)
    requires
        0 <= i <= c <= tokens.len(),
        sub == pseq(tokens).skip(i),
    ensures
        clamp0((c - i) as nat, sub.len()) == (c - i) as nat,
        sub.skip(c - i) =~= pseq(tokens).skip(c),
{
}

#[verifier::rlimit(100)]
#[verifier::spinoff_prover]
fn process_from(
    tokens: &Vec<TokenPair>,
    i: usize,
    ifs: &mut IfStates,
    defines: &mut Defines,
    lcc: &mut LineColCounter,
    path: &str,
    depth: u64,
    out: &mut Vec<TokenPair>,
) -> (r: Result<(), Error>)
    requires
        i <= tokens@.len(),
        old(defines).wf(),
    ensures
        final(defines).wf(),
        match sp_process_loop(
            pseq(tokens@).skip(i as int),
            old(defines)@,
            old(ifs)@,
            old(lcc)@,
            path@,
            depth as nat,
        ) {
            Ok(po) => r is Ok && pseq(final(out)@) == pseq(old(out)@) + po.out && final(defines)@
                == po.defines && final(lcc)@ == po.lcc,
            Err(e) => r matches Err(e2) && e2@ == e,
        },
    decreases depth, tokens@.len() - i, 3int,
{
    proof {
        reveal(sp_process);
        reveal(sp_process_loop);
        reveal(sp_resolve);
        reveal(sp_resolve_stack);
        reveal(sp_expand_args);
    }
    let ghost sub = pseq(tokens@).skip(i as int);
    if i == tokens.len() {
        proof {
            assert(pseq(out@) =~= pseq(out@) + Seq::<TokenPairV>::empty());
        }
        return Ok(());
    }
    proof {
        assert(sub[0] == pseq(tokens@)[i as int]);
        assert(sub.drop_first() =~= pseq(tokens@).skip(i + 1));
    }
    let nl = lcc.newline();
    let rd = ifs.reading();
    let is_directive = match tokens[i].token() {
        Token::Directive => true,
        _ => false,
    };
    if is_directive && nl {
        let i2 = match handle_directive(tokens, i, ifs, defines, lcc, path) {
            Ok(v) => v,
            Err(e) => {
                proof {
                    reveal(sp_process_loop);
                }
                return Err(e);
            },
        };
        proof {
            reveal(sp_process_loop);
        }
        proof {
            let d = sp_directive(sub, old(defines)@, old(ifs)@, old(lcc)@, path@)->Ok_0;
            assert(clamp1(d.n, sub.len()) == d.n);
            assert(sub.skip(d.n as int) =~= pseq(tokens@).skip(i2 as int));
        }
        return process_from(tokens, i2, ifs, defines, lcc, path, depth, out);
    }
    if is_directive && !nl && rd {
        lcc.add_cols(tokens[i].token());
        let fr = read_ident(tokens, i + 1, lcc);
        proof {
            assert(sub.skip(1) =~= pseq(tokens@).skip(i + 1));
        }
        if fr.0.as_str().is_empty() {
            proof {
                reveal(sp_process_loop);
            }
            return Err(mk_err(ErrorKind::DirectiveSyntax, path, lcc));
        }
        proof {
            reveal(sp_process_loop);
            let l1v = sp_add_cols(old(lcc)@, sub[0].token);
            lemma_skip_ws_bound(sub.skip(1), l1v);
            lemma_read_words_bound(
                sub.skip(1).skip(sp_skip_ws(sub.skip(1), l1v).0 as int),
                sp_skip_ws(sub.skip(1), l1v).1,
            );
            assert(pseq(fr.1@).len() < sub.len());
        }
        let q1 = TokenPair::anon(Token::DoubleQuote);
        proof {
            assert(q1@ == anon_quote());
        }
        out.push(q1);
        proof {
            assert(pseq(out@) =~= pseq(old(out)@).push(anon_quote()));
        }
        let ghost mid0 = pseq(out@);
        let empty_input: Vec<TokenPair> = Vec::new();
        proof {
            assert(pseq(fr.1@).skip(0) =~= pseq(fr.1@));
            assert(pseq(empty_input@).skip(0) =~= Seq::<TokenPairV>::empty());
        }
        let ghost g1 = pseq(out@);
        match resolve_stack(&fr.1, 0, &empty_input, 0, defines, lcc, path, depth, out) {
            Ok(_) => {},
            Err(e) => {
                proof {
                    reveal(sp_process_loop);
                }
                return Err(e);
            },
        }
        let ghost g2 = pseq(out@);
        let q2 = TokenPair::anon(Token::DoubleQuote);
        proof {
            assert(q2@ == anon_quote());
        }
        out.push(q2);
        let ghost mid = pseq(out@);
        proof {
            reveal(sp_process_loop);
            let ir = sp_read_ident(sub.skip(1), sp_add_cols(old(lcc)@, sub[0].token));
            let rs = sp_resolve_stack(
                ir.pairs,
                Seq::empty(),
                old(defines)@,
                ir.lcc,
                path@,
                depth as nat,
            )->Ok_0;
            assert(g2 == g1 + rs.out);
            assert(mid =~= g2.push(anon_quote()));
            assert(mid =~= pseq(old(out)@) + (seq![anon_quote()] + rs.out + seq![anon_quote()]));
            assert(clamp1((1 + ir.n) as nat, sub.len()) == 1 + ir.n) by {
                lemma_skip_ws_bound(sub.skip(1), sp_add_cols(old(lcc)@, sub[0].token));
                lemma_read_words_bound(
                    sub.skip(1).skip(
                        sp_skip_ws(sub.skip(1), sp_add_cols(old(lcc)@, sub[0].token)).0 as int,
                    ),
                    sp_skip_ws(sub.skip(1), sp_add_cols(old(lcc)@, sub[0].token)).1,
                );
            }
            assert(sub.skip(1 + ir.n as int) =~= pseq(tokens@).skip(fr.2 as int));
        }
        let r = process_from(tokens, fr.2, ifs, defines, lcc, path, depth, out);
        proof {
            reveal(sp_process_loop);
            let ir = sp_read_ident(sub.skip(1), sp_add_cols(old(lcc)@, sub[0].token));
            let rs = sp_resolve_stack(
                ir.pairs,
                Seq::empty(),
                old(defines)@,
                ir.lcc,
                path@,
                depth as nat,
            )->Ok_0;
            let rec = sp_process_loop(
                sub.skip(1 + ir.n as int),
                old(defines)@,
                old(ifs)@,
                rs.lcc,
                path@,
                depth as nat,
            );
            if rec is Ok {
                let po = rec->Ok_0;
                assert(pseq(out@) == mid + po.out);
                assert(mid + po.out =~= pseq(old(out)@) + ((seq![anon_quote()] + rs.out + seq![
                    anon_quote(),
                ]) + po.out));
            }
        }
        return r;
    }
    let is_newline = match tokens[i].token() {
        Token::Newline => true,
        _ => false,
    };
    if is_newline {
        lcc.add_line();
        if rd {
            let p = tokens[i].clone();
            let ghost pv = p@;
            out.push(p);
            proof {
                assert(pseq(out@) =~= pseq(old(out)@).push(pv));
            }
        }
        let ghost mid = pseq(out@);
        let r = process_from(tokens, i + 1, ifs, defines, lcc, path, depth, out);
        proof {
            reveal(sp_process_loop);
            let rec = sp_process_loop(
                sub.drop_first(),
                old(defines)@,
                old(ifs)@,
                sp_add_line(old(lcc)@),
                path@,
                depth as nat,
            );
            if rec is Ok {
                let po = rec->Ok_0;
                assert(pseq(out@) == mid + po.out);
                if all_reading(old(ifs)@) {
                    assert(pseq(old(out)@).push(sub[0]) + po.out =~= pseq(old(out)@) + (seq![
                        sub[0],
                    ] + po.out));
                }
            }
        }
        return r;
    }
    let is_eoi = match tokens[i].token() {
        Token::EOI => true,
        _ => false,
    };
    if is_eoi {
        proof {
            assert(pseq(out@) =~= pseq(out@) + Seq::<TokenPairV>::empty());
        }
        return Ok(());
    }
    let is_wu = match tokens[i].token() {
        Token::Word(_) => true,
        Token::Underscore => true,
        _ => false,
    };
    if is_wu && rd {
        let i2 = match resolve(tokens, i, defines, lcc, path, depth, out) {
            Ok(v) => v,
            Err(e) => {
                proof {
                    reveal(sp_process_loop);
                }
                return Err(e);
            },
        };
        proof {
            reveal(sp_process_loop);
        }
        proof {
            let rs = sp_resolve(sub, old(defines)@, old(lcc)@, path@, depth as nat)->Ok_0;
            assert(1 <= rs.n) by {
                reveal(sp_resolve);
                assert(sub[0].token is Word || sub[0].token is Underscore);
                assert(sp_skip_ws(sub, old(lcc)@).0 == 0);
                lemma_read_words_bound(sub, sp_skip_ws(sub, old(lcc)@).1);
            }
            assert(clamp1(rs.n, sub.len()) == rs.n);
            assert(sub.skip(rs.n as int) =~= pseq(tokens@).skip(i2 as int));
        }
        let ghost mid = pseq(out@);
        let r = process_from(tokens, i2, ifs, defines, lcc, path, depth, out);
        proof {
            reveal(sp_process_loop);
            let rs = sp_resolve(sub, old(defines)@, old(lcc)@, path@, depth as nat)->Ok_0;
            let rec = sp_process_loop(
                sub.skip(clamp1(rs.n, sub.len()) as int),
                old(defines)@,
                old(ifs)@,
                rs.lcc,
                path@,
                depth as nat,
            );
            if rec is Ok {
                let po = rec->Ok_0;
                assert(pseq(out@) == mid + po.out);
                assert(mid == pseq(old(out)@) + rs.out);
                assert(pseq(old(out)@) + rs.out + po.out =~= pseq(old(out)@) + (rs.out + po.out));
            }
        }
        return r;
    }
    if rd {
        let mut p = tokens[i].clone();
        lcc.mod_cols(&mut p);
        let ghost pv = p@;
        out.push(p);
        proof {
            assert(pseq(out@) =~= pseq(old(out)@).push(pv));
        }
        let ghost mid = pseq(out@);
        let r = process_from(tokens, i + 1, ifs, defines, lcc, path, depth, out);
        proof {
            reveal(sp_process_loop);
            let sm = sp_mod_cols(old(lcc)@, sub[0]);
            let rec = sp_process_loop(
                sub.drop_first(),
                old(defines)@,
                old(ifs)@,
                sm.0,
                path@,
                depth as nat,
            );
            if rec is Ok {
                let po = rec->Ok_0;
                assert(pseq(out@) == mid + po.out);
                assert(pseq(old(out)@).push(pv) + po.out =~= pseq(old(out)@) + (seq![pv] + po.out));
            }
        }
        return r;
    }
    lcc.add_cols(tokens[i].token());
    let r = process_from(tokens, i + 1, ifs, defines, lcc, path, depth, out);
    proof {
        reveal(sp_process_loop);
    }
    r
}

/// Runs the whole engine over a token stream with a fresh conditional
/// stack, appending the rewritten stream to `out` and leaving the table
/// as the run ends.
pub fn process_tokens(
    tokens: &Vec<TokenPair>,
    defines: &mut Defines,
    lcc: &mut LineColCounter,
    path: &str,
    depth: u64,
    out: &mut Vec<TokenPair>,
) -> (r: Result<(), Error>)
    requires
        old(defines).wf(),
    ensures
        final(defines).wf(),
        match sp_process(pseq(tokens@), old(defines)@, old(lcc)@, path@, depth as nat) {
            Ok(po) => r is Ok && pseq(final(out)@) == pseq(old(out)@) + po.out && final(defines)@
                == po.defines && final(lcc)@ == po.lcc,
            Err(e) => r matches Err(e2) && e2@ == e,
        },
    decreases depth, tokens@.len(), 4int,
{
    proof {
        reveal(sp_process);
        reveal(sp_process_loop);
        reveal(sp_resolve);
        reveal(sp_resolve_stack);
        reveal(sp_expand_args);
    }
    let mut ifs = IfStates::new();
    proof {
        assert(pseq(tokens@).skip(0) =~= pseq(tokens@));
    }
    let r = process_from(tokens, 0, &mut ifs, defines, lcc, path, depth, out);
    proof {
        reveal(sp_process);
        assert(sp_process(pseq(tokens@), old(defines)@, old(lcc)@, path@, depth as nat)
            == sp_process_loop(
            pseq(tokens@),
            old(defines)@,
            Seq::<IfState>::empty(),
            old(lcc)@,
            path@,
            depth as nat,
        ));
    }
    r
}

/// The default bound on macro expansion depth.
pub const DEFAULT_DEPTH: u64 = 64;

/// A finished preprocessing run: the rewritten token stream.
#[derive(Debug)]
pub struct Preprocessor {
    output: Vec<TokenPair>,
}

impl View for Preprocessor {
    type V = Seq<TokenPairV>;

    closed spec fn view(&self) -> Seq<TokenPairV> {
        pseq(self.output@)
    }
}

impl Preprocessor {
    /// Preprocesses a tokenized source against a caller-provided macro
    /// table, under the default expansion-depth bound. The table is
    /// read and written by the run and keeps what top-level `#define`
    /// and `#undef` directives did to it.
    pub fn execute(root: &crate::tokenizer::Tokens, defines: &mut Defines) -> (r: Result<
        Preprocessor,
        Error,
    >)
        requires
            old(defines).wf(),
        ensures
            final(defines).wf(),
            match sp_process(
                root@.tokens,
                old(defines)@,
                LccV { pos: 1, line: 1, col: 1, newline: true },
                root@.path,
                DEFAULT_DEPTH as nat,
            ) {
                Ok(po) => r matches Ok(p) && p@ == po.out && final(defines)@ == po.defines,
                Err(e) => r matches Err(e2) && e2@ == e,
            },
    {
        Self::execute_with_depth(root, defines, DEFAULT_DEPTH)
    }

    /// Preprocesses a tokenized source with a chosen expansion-depth
    /// bound.
    pub fn execute_with_depth(
        root: &crate::tokenizer::Tokens,
        defines: &mut Defines,
        depth: u64,
    ) -> (r: Result<Preprocessor, Error>)
        requires
            old(defines).wf(),
        ensures
            final(defines).wf(),
            match sp_process(
                root@.tokens,
                old(defines)@,
                LccV { pos: 1, line: 1, col: 1, newline: true },
                root@.path,
                depth as nat,
            ) {
                Ok(po) => r matches Ok(p) && p@ == po.out && final(defines)@ == po.defines,
                Err(e) => r matches Err(e2) && e2@ == e,
            },
    {
        let mut lcc = LineColCounter::new();
        let mut out: Vec<TokenPair> = Vec::new();
        match process_tokens(root.tokens(), defines, &mut lcc, root.path(), depth, &mut out) {
            Ok(()) => {
                proof {
                    let po = sp_process(
                        root@.tokens,
                        old(defines)@,
                        LccV { pos: 1, line: 1, col: 1, newline: true },
                        root@.path,
                        depth as nat,
                    )->Ok_0;
                    assert(pseq(out@) =~= Seq::<TokenPairV>::empty() + po.out ==> pseq(out@)
                        == po.out) by {
                        assert(Seq::<TokenPairV>::empty() + po.out =~= po.out);
                    }
                }
                Ok(Preprocessor { output: out })
            },
            Err(e) => Err(e),
        }
    }

    /// The rewritten token stream.
    pub fn output(&self) -> (r: &Vec<TokenPair>)
        ensures
            pseq(r@) == self@,
    {
        &self.output
    }
}

/// The tokens of a stream, without their positions.
pub open spec fn toks(ts: Seq<TokenPairV>) -> Seq<TokenV> {
    ts.map_values(|p: TokenPairV| p.token)
}

/// The prefix of a stream before its first end-of-input token, which
/// is where the engine stops.
pub open spec fn before_eoi(t: Seq<TokenPairV>) -> Seq<TokenPairV>
    decreases t.len(),
{
    if t.len() == 0 || t[0].token is EOI {
        Seq::empty()
    } else {
        seq![t[0]] + before_eoi(t.drop_first())
    }
}

/// No prefix of a word stack matches a name in an empty table.
proof fn lemma_find_match_empty(stack: Seq<TokenPairV>, k: int)
    ensures
        sp_find_match(stack, Map::empty(), k) is None,
    decreases k,
{
    if k > 0 {
        assert(!Map::<Seq<char>, DefineV>::empty().contains_key(sp_ident_of(stack, k)));
        lemma_find_match_empty(stack, k - 1);
    }
}

/// Against an empty table, the stack search emits the stack as it
/// stands and consumes nothing further.
proof fn lemma_resolve_stack_empty(
    stack: Seq<TokenPairV>,
    t: Seq<TokenPairV>,
    lcc: LccV,
    path: Seq<char>,
    depth: nat,
)
    ensures
        sp_resolve_stack(stack, t, Map::empty(), lcc, path, depth) == Ok::<ResolveOk, ErrorV>(
            ResolveOk { out: stack, n: 0, lcc: lcc },
        ),
    decreases stack.len(),
{
    reveal(sp_resolve_stack);
    if stack.len() == 0 {
        assert(stack =~= Seq::<TokenPairV>::empty());
    } else {
        lemma_find_match_empty(stack, stack.len() as int);
        lemma_resolve_stack_empty(stack.drop_first(), t, lcc, path, depth);
        assert(seq![stack[0]] + stack.drop_first() =~= stack);
    }
}

/// Reading a word run keeps each token; only positions are stamped.
proof fn lemma_read_words_toks(t: Seq<TokenPairV>, lcc: LccV)
    ensures
        ({
            let ir = sp_read_words(t, lcc);
            toks(ir.pairs) == toks(t.take(ir.n as int)) && ir.n <= t.len() && (t.len() > 0 && (
            t[0].token is Word || t[0].token is Underscore) ==> ir.n >= 1) && (forall|i: int|
                0 <= i < ir.n ==> (#[trigger] t[i].token) is Word || t[i].token is Underscore)
        }),
    decreases t.len(),
{
    lemma_read_words_bound(t, lcc);
    let ir = sp_read_words(t, lcc);
    if t.len() > 0 && (t[0].token is Word || t[0].token is Underscore) {
        let sm = sp_mod_cols(lcc, t[0]);
        lemma_read_words_toks(t.drop_first(), sm.0);
        let r = sp_read_words(t.drop_first(), sm.0);
        assert(forall|i: int|
            0 <= i < t.drop_first().len() ==> (#[trigger] t.drop_first()[i]) == t[i + 1]);
        assert(t.take(ir.n as int) =~= seq![t[0]] + t.drop_first().take(r.n as int));
        assert(toks(seq![sm.1] + r.pairs) =~= seq![t[0].token] + toks(r.pairs));
        assert(toks(seq![t[0]] + t.drop_first().take(r.n as int)) =~= seq![t[0].token] + toks(
            t.drop_first().take(r.n as int),
        ));
        assert forall|i: int|
            0 <= i < ir.n implies (#[trigger] t[i].token) is Word || t[i].token is Underscore by {
            if i > 0 {
                assert(t.drop_first()[i - 1] == t[i]);
                assert(t.drop_first()[i - 1].token is Word || t.drop_first()[i - 1].token
                    is Underscore);
            }
        }
    } else {
        assert(toks(ir.pairs) =~= toks(t.take(0)));
    }
}

/// Law: a stream holding no `#` runs through the engine against an
/// empty table unchanged: preprocessing succeeds, the table stays
/// empty, and the emitted tokens are exactly the input's tokens up to
/// its end-of-input atom. Running the engine again on its own output
/// therefore gives that output back, token for token.
#[verifier::rlimit(100)]
#[verifier::spinoff_prover]
pub proof fn lemma_no_directives_identity(
    t: Seq<TokenPairV>,
    ifs: Seq<IfState>,
    lcc: LccV,
    path: Seq<char>,
    depth: nat,
)
    requires
        forall|i: int| 0 <= i < t.len() ==> !((#[trigger] t[i].token) is Directive),
        all_reading(ifs),
    ensures
        sp_process_loop(t, Map::empty(), ifs, lcc, path, depth) matches Ok(po) && toks(po.out)
            == toks(before_eoi(t)) && po.defines == Map::<Seq<char>, DefineV>::empty(),
    decreases t.len(),
{
    reveal(sp_process_loop);
    reveal(sp_resolve);
    let dm = Map::<Seq<char>, DefineV>::empty();
    if t.len() == 0 {
        assert(toks(Seq::<TokenPairV>::empty()) =~= Seq::<TokenV>::empty());
    } else {
        let tok = t[0].token;
        if tok is Newline {
            assert(forall|i: int|
                0 <= i < t.drop_first().len() ==> (#[trigger] t.drop_first()[i]) == t[i + 1]);
            lemma_no_directives_identity(t.drop_first(), ifs, sp_add_line(lcc), path, depth);
            let po = sp_process_loop(t.drop_first(), dm, ifs, sp_add_line(lcc), path, depth)->Ok_0;
            assert(toks(seq![t[0]] + po.out) =~= seq![tok] + toks(po.out));
            assert(toks(seq![t[0]] + before_eoi(t.drop_first())) =~= seq![tok] + toks(
                before_eoi(t.drop_first()),
            ));
        } else if tok is EOI {
            assert(toks(Seq::<TokenPairV>::empty()) =~= Seq::<TokenV>::empty());
        } else if (tok is Word || tok is Underscore) {
            let w = sp_skip_ws(t, lcc);
            assert(w.0 == 0);
            assert(t.skip(0) =~= t);
            let ir = sp_read_words(t, w.1);
            lemma_read_words_toks(t, w.1);
            lemma_read_words_bound(t, w.1);
            lemma_resolve_stack_empty(ir.pairs, t.skip(ir.n as int), ir.lcc, path, depth);
            let rs = sp_resolve(t, dm, lcc, path, depth)->Ok_0;
            assert(rs.n == ir.n && rs.out == ir.pairs && 1 <= rs.n <= t.len());
            assert(clamp1(rs.n, t.len()) == rs.n);
            assert(forall|i: int|
                0 <= i < t.skip(ir.n as int).len() ==> (#[trigger] t.skip(ir.n as int)[i]) == t[i
                    + ir.n]);
            lemma_no_directives_identity(t.skip(ir.n as int), ifs, ir.lcc, path, depth);
            let po = sp_process_loop(t.skip(ir.n as int), dm, ifs, ir.lcc, path, depth)->Ok_0;
            lemma_before_eoi_take(t, ir.n as int);
            assert(toks(ir.pairs + po.out) =~= toks(ir.pairs) + toks(po.out));
            assert(toks(t.take(ir.n as int) + before_eoi(t.skip(ir.n as int))) =~= toks(
                t.take(ir.n as int),
            ) + toks(before_eoi(t.skip(ir.n as int))));
        } else {
            assert(forall|i: int|
                0 <= i < t.drop_first().len() ==> (#[trigger] t.drop_first()[i]) == t[i + 1]);
            let sm = sp_mod_cols(lcc, t[0]);
            lemma_no_directives_identity(t.drop_first(), ifs, sm.0, path, depth);
            let po = sp_process_loop(t.drop_first(), dm, ifs, sm.0, path, depth)->Ok_0;
            assert(toks(seq![sm.1] + po.out) =~= seq![tok] + toks(po.out));
            assert(toks(seq![t[0]] + before_eoi(t.drop_first())) =~= seq![tok] + toks(
                before_eoi(t.drop_first()),
            ));
        }
    }
}

/// Splitting off a prefix that holds no end-of-input atom splits the
/// before-end prefix accordingly.
proof fn lemma_before_eoi_take(t: Seq<TokenPairV>, n: int)
    requires
        0 <= n <= t.len(),
        forall|i: int| 0 <= i < n ==> !((#[trigger] t[i].token) is EOI),
    ensures
        before_eoi(t) == t.take(n) + before_eoi(t.skip(n)),
    decreases n,
{
    if n == 0 {
        assert(t.skip(0) =~= t);
        assert(t.take(0) + before_eoi(t) =~= before_eoi(t));
    } else {
        assert(!(t[0].token is EOI));
        assert(forall|i: int| 0 <= i < n - 1 ==> (#[trigger] t.drop_first()[i]) == t[i + 1]);
        lemma_before_eoi_take(t.drop_first(), n - 1);
        assert(t.drop_first().take(n - 1) =~= t.take(n).drop_first());
        assert(t.drop_first().skip(n - 1) =~= t.skip(n));
        assert(before_eoi(t) == seq![t[0]] + (t.take(n).drop_first() + before_eoi(t.skip(n))));
        assert(seq![t[0]] + (t.take(n).drop_first() + before_eoi(t.skip(n))) =~= t.take(n)
            + before_eoi(t.skip(n)));
    }
}

/// The number of newline atoms in a token stream.
pub open spec fn count_newlines(ts: Seq<TokenV>) -> nat
    decreases ts.len(),
{
    if ts.len() == 0 {
        0
    } else {
        (if ts[0] is Newline {
            1nat
        } else {
            0nat
        }) + count_newlines(ts.drop_first())
    }
}

/// Law: with no directive lines to consume, the engine keeps the
/// stream's newline count: the output has exactly the newlines of the
/// input up to its end-of-input atom.
pub proof fn lemma_no_directives_newline_count(
    t: Seq<TokenPairV>,
    lcc: LccV,
    path: Seq<char>,
    depth: nat,
)
    requires
        forall|i: int| 0 <= i < t.len() ==> !((#[trigger] t[i].token) is Directive),
    ensures
        sp_process(t, Map::empty(), lcc, path, depth) matches Ok(po) && count_newlines(
            toks(po.out),
        ) == count_newlines(toks(before_eoi(t))),
{
    reveal(sp_process);
    reveal(sp_process_loop);
    assert(all_reading(Seq::<IfState>::empty()));
    lemma_no_directives_identity(t, Seq::empty(), lcc, path, depth);
}

} // verus!
