//! The macro table: a mapping from macro name to definition, populated
//! by `#define`, emptied by `#undef`, snapshotted for scoped expansion.

use vstd::prelude::*;

use crate::tokens::{pseq, TokenPair, TokenPairV};

verus! {

/// The ghost values of a sequence of argument token-sequences.
pub open spec fn vvseq(s: Seq<Vec<TokenPair>>) -> Seq<Seq<TokenPairV>> {
    s.map_values(|a: Vec<TokenPair>| pseq(a@))
}

/// A deep copy of a pair sequence; the copies carry the same values.
pub fn clone_pairs(v: &Vec<TokenPair>) -> (r: Vec<TokenPair>)
    ensures
        pseq(r@) == pseq(v@),
{
    let mut r: Vec<TokenPair> = Vec::new();
    let mut i: usize = 0;
    while i < v.len()
        invariant
            0 <= i <= v@.len(),
            r@.len() == i,
            forall|j: int| 0 <= j < i ==> (#[trigger] r@[j]@) == v@[j]@,
        decreases v@.len() - i,
    {
        let x = v[i].clone();
        r.push(x);
        i += 1;
    }
    proof {
        assert(pseq(r@) =~= pseq(v@));
    }
    r
}

/// A deep copy of a sequence of argument token-sequences.
pub fn clone_args(v: &Vec<Vec<TokenPair>>) -> (r: Vec<Vec<TokenPair>>)
    ensures
        vvseq(r@) == vvseq(v@),
{
    let mut r: Vec<Vec<TokenPair>> = Vec::new();
    let mut i: usize = 0;
    while i < v.len()
        invariant
            0 <= i <= v@.len(),
            r@.len() == i,
            forall|j: int| 0 <= j < i ==> pseq(#[trigger] r@[j]@) == pseq(v@[j]@),
        decreases v@.len() - i,
    {
        let x = clone_pairs(&v[i]);
        r.push(x);
        i += 1;
    }
    proof {
        assert(vvseq(r@) =~= vvseq(v@));
    }
    r
}

/// A parameterized macro: the formal parameters, each itself a token
/// sequence extracted from the parenthesized list at definition time,
/// and the body.
#[derive(Debug)]
pub struct FunctionMacro {
    args: Vec<Vec<TokenPair>>,
    statement: Vec<TokenPair>,
}

impl View for FunctionMacro {
    type V = (Seq<Seq<TokenPairV>>, Seq<TokenPairV>);

    closed spec fn view(&self) -> (Seq<Seq<TokenPairV>>, Seq<TokenPairV>) {
        (vvseq(self.args@), pseq(self.statement@))
    }
}

impl FunctionMacro {
    /// Packs formal parameters and a body into a macro.
    pub fn new(args: Vec<Vec<TokenPair>>, statement: Vec<TokenPair>) -> (r: Self)
        ensures
            r@ == (vvseq(args@), pseq(statement@)),
    {
        FunctionMacro { args, statement }
    }

    /// The formal parameters.
    pub fn args(&self) -> (r: &Vec<Vec<TokenPair>>)
        ensures
            vvseq(r@) == self@.0,
    {
        &self.args
    }

    /// The body.
    pub fn statement(&self) -> (r: &Vec<TokenPair>)
        ensures
            pseq(r@) == self@.1,
    {
        &self.statement
    }
}

impl Clone for FunctionMacro {
    fn clone(&self) -> (r: Self)
        ensures
            r@ == self@,
    {
        FunctionMacro { args: clone_args(&self.args), statement: clone_pairs(&self.statement) }
    }
}

/// A macro definition: parameterless with a body, or parameterized.
#[derive(Debug)]
pub enum Define {
    /// A parameterless macro whose expansion is the body.
    Word(Vec<TokenPair>),
    /// A parameterized macro, called with a parenthesized argument list.
    Function(FunctionMacro),
}

/// The ghost mirror of [`Define`].
pub enum DefineV {
    Word(Seq<TokenPairV>),
    Function(Seq<Seq<TokenPairV>>, Seq<TokenPairV>),
}

impl DefineV {
    /// The body of either kind of definition.
    pub open spec fn body(self) -> Seq<TokenPairV> {
        match self {
            DefineV::Word(b) => b,
            DefineV::Function(_, b) => b,
        }
    }
}

impl View for Define {
    type V = DefineV;

    open spec fn view(&self) -> DefineV {
        match self {
            Define::Word(b) => DefineV::Word(pseq(b@)),
            Define::Function(f) => DefineV::Function(f@.0, f@.1),
        }
    }
}

impl Clone for Define {
    fn clone(&self) -> (r: Self)
        ensures
            r@ == self@,
    {
        match self {
            Define::Word(b) => Define::Word(clone_pairs(b)),
            Define::Function(f) => Define::Function(f.clone()),
        }
    }
}

impl Define {
    /// A parameterless macro.
    pub fn new_word(statement: Vec<TokenPair>) -> (r: Self)
        ensures
            r@ == DefineV::Word(pseq(statement@)),
    {
        Define::Word(statement)
    }

    /// A parameterized macro.
    pub fn new_function(args: Vec<Vec<TokenPair>>, statement: Vec<TokenPair>) -> (r: Self)
        ensures
            r@ == DefineV::Function(vvseq(args@), pseq(statement@)),
    {
        Define::Function(FunctionMacro::new(args, statement))
    }

    /// The formal parameters of a parameterized macro, or nothing.
    pub fn args(&self) -> (r: Option<&Vec<Vec<TokenPair>>>)
        ensures
            match self@ {
                DefineV::Word(_) => r is None,
                DefineV::Function(a, _) => r matches Some(v) && vvseq(v@) == a,
            },
    {
        match self {
            Define::Word(_) => None,
            Define::Function(f) => Some(f.args()),
        }
    }

    /// An owned copy of the body.
    pub fn statement(&self) -> (r: Vec<TokenPair>)
        ensures
            pseq(r@) == self@.body(),
    {
        match self {
            Define::Word(b) => clone_pairs(b),
            Define::Function(f) => clone_pairs(f.statement()),
        }
    }

    /// The body itself.
    pub fn statement_ref(&self) -> (r: &Vec<TokenPair>)
        ensures
            pseq(r@) == self@.body(),
    {
        match self {
            Define::Word(b) => b,
            Define::Function(f) => f.statement(),
        }
    }
}

/// The mapping an entry list stands for; a later entry for the same
/// name wins, though the table never holds two.
pub open spec fn dmap(entries: Seq<(String, Define)>) -> Map<Seq<char>, DefineV>
    decreases entries.len(),
{
    if entries.len() == 0 {
        Map::empty()
    } else {
        dmap(entries.drop_last()).insert(entries.last().0@, entries.last().1@)
    }
}

/// No two entries carry the same name.
pub open spec fn unique_keys(entries: Seq<(String, Define)>) -> bool {
    forall|i: int, j: int|
        0 <= i < j < entries.len() ==> (#[trigger] entries[i].0@) != (#[trigger] entries[j].0@)
}

/// A name is in the mapping exactly when some entry carries it.
proof fn lemma_dmap_contains(e: Seq<(String, Define)>, k: Seq<char>)
    ensures
        dmap(e).contains_key(k) <==> (exists|i: int| 0 <= i < e.len() && (#[trigger] e[i].0@) == k),
    decreases e.len(),
{
    if e.len() > 0 {
        lemma_dmap_contains(e.drop_last(), k);
        if e.last().0@ == k {
            assert(e[e.len() - 1].0@ == k);
        } else {
            if dmap(e).contains_key(k) {
                let i = choose|i: int| 0 <= i < e.drop_last().len() && (#[trigger] e.drop_last()[i].0@)
                    == k;
                assert(e[i].0@ == k);
            }
            if exists|i: int| 0 <= i < e.len() && (#[trigger] e[i].0@) == k {
                let i = choose|i: int| 0 <= i < e.len() && (#[trigger] e[i].0@) == k;
                assert(e.drop_last()[i].0@ == k);
            }
        }
    }
}

/// With unique names, the mapping sends each entry's name to its
/// definition.
proof fn lemma_dmap_index(e: Seq<(String, Define)>, i: int)
    requires
        unique_keys(e),
        0 <= i < e.len(),
    ensures
        dmap(e).contains_key(e[i].0@),
        dmap(e)[e[i].0@] == e[i].1@,
    decreases e.len(),
{
    if i == e.len() - 1 {
    } else {
        assert(unique_keys(e.drop_last())) by {
            assert(forall|x: int| 0 <= x < e.len() - 1 ==> e.drop_last()[x] == e[x]);
        }
        lemma_dmap_index(e.drop_last(), i);
        assert(e[i].0@ != e.last().0@);
        assert(e.drop_last()[i] == e[i]);
    }
}

/// Removing the entry that carries a name removes the name from the
/// mapping and nothing else.
proof fn lemma_dmap_remove(e: Seq<(String, Define)>, i: int)
    requires
        unique_keys(e),
        0 <= i < e.len(),
    ensures
        dmap(e.remove(i)) == dmap(e).remove(e[i].0@),
    decreases e.len(),
{
    let k = e[i].0@;
    if i == e.len() - 1 {
        assert(e.remove(i) =~= e.drop_last());
        lemma_dmap_contains(e.drop_last(), k);
        assert(forall|x: int|
            0 <= x < e.drop_last().len() ==> (#[trigger] e.drop_last()[x].0@) == e[x].0@);
        assert(!dmap(e.drop_last()).contains_key(k));
        assert(dmap(e).remove(k) =~= dmap(e.drop_last()));
    } else {
        assert(unique_keys(e.drop_last())) by {
            assert(forall|x: int| 0 <= x < e.len() - 1 ==> e.drop_last()[x] == e[x]);
        }
        assert(e.drop_last()[i] == e[i]);
        lemma_dmap_remove(e.drop_last(), i);
        assert(e.remove(i).drop_last() =~= e.drop_last().remove(i));
        assert(e.remove(i).last() == e.last());
        assert(dmap(e.remove(i)) == dmap(e.drop_last().remove(i)).insert(e.last().0@, e.last().1@));
        assert(e.last().0@ != k);
        assert(dmap(e.drop_last()).remove(k).insert(e.last().0@, e.last().1@) =~= dmap(
            e.drop_last(),
        ).insert(e.last().0@, e.last().1@).remove(k));
    }
}

/// The mapping depends only on the entries' values, not on which
/// allocation carries them.
proof fn lemma_dmap_congruent(a: Seq<(String, Define)>, b: Seq<(String, Define)>)
    requires
        a.len() == b.len(),
        forall|i: int| 0 <= i < a.len() ==> (#[trigger] a[i].0@) == b[i].0@ && a[i].1@ == b[i].1@,
    ensures
        dmap(a) == dmap(b),
    decreases a.len(),
{
    if a.len() > 0 {
        assert(forall|i: int|
            0 <= i < a.len() - 1 ==> (#[trigger] a.drop_last()[i]) == a[i] && b.drop_last()[i]
                == b[i]);
        lemma_dmap_congruent(a.drop_last(), b.drop_last());
        assert(a[a.len() - 1].0@ == b[b.len() - 1].0@ && a[a.len() - 1].1@ == b[b.len() - 1].1@);
    }
}

/// The macro table. Within one preprocessing run it is read and written
/// freely; scoped expansion snapshots it with [`Clone`].
#[derive(Debug)]
pub struct Defines {
    entries: Vec<(String, Define)>,
}

impl View for Defines {
    type V = Map<Seq<char>, DefineV>;

    closed spec fn view(&self) -> Map<Seq<char>, DefineV> {
        dmap(self.entries@)
    }
}

impl Defines {
    /// Well-formedness: the table holds no name twice. Constructors
    /// establish it and every operation preserves it.
    pub closed spec fn wf(self) -> bool {
        unique_keys(self.entries@)
    }

    /// An empty table.
    pub fn new() -> (r: Self)
        ensures
            r@ == Map::<Seq<char>, DefineV>::empty(),
            r.wf(),
    {
        Defines { entries: Vec::new() }
    }

    /// Takes the entry carrying a name out of the list, if any.
    fn take_out(&mut self, word: &str) -> (r: Option<Define>)
        requires
            old(self).wf(),
        ensures
            final(self)@ == old(self)@.remove(word@),
            final(self).wf(),
            r matches Some(d) ==> old(self)@.contains_key(word@) && d@ == old(self)@[word@],
            r is None ==> !old(self)@.contains_key(word@),
    {
        let w = word.to_owned();
        let n = self.entries.len();
        let mut i: usize = 0;
        while i < n
            invariant
                0 <= i <= n,
                n == self.entries@.len(),
                self.entries@ == old(self).entries@,
                w@ == word@,
                unique_keys(self.entries@),
                forall|j: int| 0 <= j < i ==> (#[trigger] self.entries@[j].0@) != word@,
            decreases n - i,
        {
            if self.entries[i].0 == w {
                proof {
                    lemma_dmap_index(self.entries@, i as int);
                    lemma_dmap_remove(self.entries@, i as int);
                }
                let e = self.entries.remove(i);
                proof {
                    assert(unique_keys(self.entries@)) by {
                        assert(forall|x: int|
                            0 <= x < self.entries@.len() ==> (#[trigger] self.entries@[x])
                                == if x < i { old(self).entries@[x] } else {
                                old(self).entries@[x + 1]
                            });
                    }
                }
                return Some(e.1);
            }
            i += 1;
        }
        proof {
            lemma_dmap_contains(self.entries@, word@);
            assert(!self@.contains_key(word@));
            assert(self@.remove(word@) =~= self@);
        }
        None
    }

    /// Installs a parameterless macro, handing back what the name held
    /// before.
    pub fn new_word(&mut self, word: &str, statement: Vec<TokenPair>) -> (r: Option<Define>)
        requires
            old(self).wf(),
        ensures
            final(self)@ == old(self)@.insert(word@, DefineV::Word(pseq(statement@))),
            final(self).wf(),
            r matches Some(d) ==> old(self)@.contains_key(word@) && d@ == old(self)@[word@],
            r is None ==> !old(self)@.contains_key(word@),
    {
        self.new_define(word, Define::Word(statement))
    }

    /// Installs a parameterized macro, handing back what the name held
    /// before.
    pub fn new_function(
        &mut self,
        word: &str,
        args: Vec<Vec<TokenPair>>,
        statement: Vec<TokenPair>,
    ) -> (r: Option<Define>)
        requires
            old(self).wf(),
        ensures
            final(self)@ == old(self)@.insert(
                word@,
                DefineV::Function(vvseq(args@), pseq(statement@)),
            ),
            final(self).wf(),
            r matches Some(d) ==> old(self)@.contains_key(word@) && d@ == old(self)@[word@],
            r is None ==> !old(self)@.contains_key(word@),
    {
        self.new_define(word, Define::new_function(args, statement))
    }

    /// Installs a definition under a name, handing back what the name
    /// held before.
    pub fn new_define(&mut self, word: &str, define: Define) -> (r: Option<Define>)
        requires
            old(self).wf(),
        ensures
            final(self)@ == old(self)@.insert(word@, define@),
            final(self).wf(),
            r matches Some(d) ==> old(self)@.contains_key(word@) && d@ == old(self)@[word@],
            r is None ==> !old(self)@.contains_key(word@),
    {
        let ghost m0 = self@;
        let prev = self.take_out(word);
        proof {
            lemma_dmap_contains(self.entries@, word@);
            assert(forall|j: int|
                0 <= j < self.entries@.len() ==> (#[trigger] self.entries@[j].0@) != word@);
        }
        let ghost mid = self.entries@;
        self.entries.push((word.to_owned(), define));
        proof {
            assert(self.entries@.drop_last() =~= mid);
            assert(self.entries@.last() == self.entries@[self.entries@.len() - 1]);
            assert(unique_keys(self.entries@)) by {
                assert(forall|x: int|
                    0 <= x < mid.len() ==> (#[trigger] self.entries@[x]) == mid[x]);
            }
            assert(self@ == dmap(mid).insert(word@, define@));
            assert(m0.remove(word@).insert(word@, define@) =~= m0.insert(word@, define@));
        }
        prev
    }

    /// Removes a name, handing back what it held.
    pub fn remove(&mut self, word: &str) -> (r: Option<Define>)
        requires
            old(self).wf(),
        ensures
            final(self)@ == old(self)@.remove(word@),
            final(self).wf(),
            r matches Some(d) ==> old(self)@.contains_key(word@) && d@ == old(self)@[word@],
            r is None ==> !old(self)@.contains_key(word@),
    {
        self.take_out(word)
    }

    /// An owned copy of the definition a name holds, if any.
    pub fn get(&self, word: &str) -> (r: Option<Define>)
        requires
            self.wf(),
        ensures
            self@.contains_key(word@) ==> (r matches Some(d) && d@ == self@[word@]),
            !self@.contains_key(word@) ==> r is None,
    {
        let w = word.to_owned();
        let n = self.entries.len();
        let mut i: usize = 0;
        while i < n
            invariant
                0 <= i <= n,
                n == self.entries@.len(),
                w@ == word@,
                forall|j: int| 0 <= j < i ==> (#[trigger] self.entries@[j].0@) != word@,
                unique_keys(self.entries@),
                self@ == dmap(self.entries@),
            decreases n - i,
        {
            if self.entries[i].0 == w {
                proof {
                    lemma_dmap_index(self.entries@, i as int);
                }
                return Some(self.entries[i].1.clone());
            }
            i += 1;
        }
        proof {
            lemma_dmap_contains(self.entries@, word@);
        }
        None
    }

    /// Whether a name is defined.
    pub fn defined(&self, word: &str) -> (r: bool)
        requires
            self.wf(),
        ensures
            r == self@.contains_key(word@),
    {
        let w = word.to_owned();
        let n = self.entries.len();
        let mut i: usize = 0;
        while i < n
            invariant
                0 <= i <= n,
                n == self.entries@.len(),
                w@ == word@,
                forall|j: int| 0 <= j < i ==> (#[trigger] self.entries@[j].0@) != word@,
                unique_keys(self.entries@),
                self@ == dmap(self.entries@),
            decreases n - i,
        {
            if self.entries[i].0 == w {
                proof {
                    lemma_dmap_index(self.entries@, i as int);
                }
                return true;
            }
            i += 1;
        }
        proof {
            lemma_dmap_contains(self.entries@, word@);
        }
        false
    }

    /// Same as [`Defines::defined`]; kept under both names for callers
    /// of either.
    pub fn contains(&self, word: &str) -> (r: bool)
        requires
            self.wf(),
        ensures
            r == self@.contains_key(word@),
    {
        self.defined(word)
    }

    /// A snapshot of every entry, for walking a scope.
    pub fn all(&self) -> (r: Vec<(String, Define)>)
        requires
            self.wf(),
        ensures
            dmap(r@) == self@,
            unique_keys(r@),
    {
        let n = self.entries.len();
        let mut r: Vec<(String, Define)> = Vec::new();
        let mut i: usize = 0;
        while i < n
            invariant
                0 <= i <= n,
                n == self.entries@.len(),
                r@.len() == i,
                forall|j: int|
                    0 <= j < i ==> (#[trigger] r@[j].0@) == self.entries@[j].0@ && r@[j].1@
                        == self.entries@[j].1@,
            decreases n - i,
        {
            r.push((self.entries[i].0.clone(), self.entries[i].1.clone()));
            i += 1;
        }
        proof {
            lemma_dmap_congruent(r@, self.entries@);
        }
        r
    }
}

impl Clone for Defines {
    /// The snapshot a scoped expansion works in.
    fn clone(&self) -> (r: Self)
        ensures
            r@ == self@,
            self.wf() ==> r.wf(),
    {
        let n = self.entries.len();
        let mut entries: Vec<(String, Define)> = Vec::new();
        let mut i: usize = 0;
        while i < n
            invariant
                0 <= i <= n,
                n == self.entries@.len(),
                entries@.len() == i,
                forall|j: int|
                    0 <= j < i ==> (#[trigger] entries@[j].0@) == self.entries@[j].0@
                        && entries@[j].1@ == self.entries@[j].1@,
            decreases n - i,
        {
            entries.push((self.entries[i].0.clone(), self.entries[i].1.clone()));
            i += 1;
        }
        proof {
            lemma_dmap_congruent(entries@, self.entries@);
        }
        Defines { entries }
    }
}

/// Law: on a table where a name is not yet defined, installing it and
/// removing it again returns `defined(name)` to its prior value, and
/// the whole table to its prior state.
pub proof fn lemma_define_undef_restores(
    m: Map<Seq<char>, DefineV>,
    name: Seq<char>,
    d: DefineV,
)
    requires
        !m.contains_key(name),
    ensures
        m.insert(name, d).remove(name) == m,
        m.insert(name, d).remove(name).contains_key(name) == m.contains_key(name),
{
    assert(m.insert(name, d).remove(name) =~= m);
}

} // verus!
