//! The conditional-inclusion state stack: one frame per open
//! `#ifdef`/`#ifndef`, flipped by `#else`, popped by `#endif`.

use vstd::prelude::*;

verus! {

/// One conditional-inclusion frame.
#[derive(Clone, Copy, Debug, PartialEq, Eq, Structural)]
pub enum IfState {
    /// The condition was met; tokens in this block are emitted.
    ReadingIf,
    /// The condition was not met; tokens in this block are discarded.
    PassingIf,
    /// An `#else` after an unmet condition; tokens are emitted.
    ReadingElse,
    /// An `#else` after a met condition; tokens are discarded.
    PassingElse,
    /// A nested conditional inside an already-discarding region; tokens
    /// are discarded whatever the nested test would say.
    PassingChild,
}

/// Whether a single frame lets tokens through.
pub open spec fn state_reading(s: IfState) -> bool {
    match s {
        IfState::ReadingIf => true,
        IfState::PassingIf => false,
        IfState::ReadingElse => true,
        IfState::PassingElse => false,
        IfState::PassingChild => false,
    }
}

impl IfState {
    /// Whether this frame lets tokens through.
    pub fn reading(&self) -> (r: bool)
        ensures
            r == state_reading(*self),
    {
        match self {
            IfState::ReadingIf => true,
            IfState::PassingIf => false,
            IfState::ReadingElse => true,
            IfState::PassingElse => false,
            IfState::PassingChild => false,
        }
    }
}

/// Whether every frame of a stack lets tokens through; an empty stack
/// does.
pub open spec fn all_reading(s: Seq<IfState>) -> bool {
    forall|i: int| 0 <= i < s.len() ==> state_reading(#[trigger] s[i])
}

/// What `#else` does to the stack: nothing unless every frame below the
/// top is reading; then the top flips, and a second `#else` in the same
/// block pops the frame instead.
pub open spec fn sp_flip(s: Seq<IfState>) -> Seq<IfState> {
    if s.len() == 0 {
        s
    } else if all_reading(s.drop_last()) {
        match s.last() {
            IfState::PassingChild => s.drop_last().push(IfState::PassingChild),
            IfState::PassingIf => s.drop_last().push(IfState::ReadingElse),
            IfState::ReadingIf => s.drop_last().push(IfState::PassingElse),
            IfState::PassingElse => s.drop_last(),
            IfState::ReadingElse => s.drop_last(),
        }
    } else {
        s
    }
}

/// The stack of conditional-inclusion frames.
#[derive(Debug)]
pub struct IfStates {
    states: Vec<IfState>,
}

impl View for IfStates {
    type V = Seq<IfState>;

    closed spec fn view(&self) -> Seq<IfState> {
        self.states@
    }
}

impl IfStates {
    /// An empty stack: everything is read.
    pub fn new() -> (r: Self)
        ensures
            r@ == Seq::<IfState>::empty(),
    {
        IfStates { states: Vec::new() }
    }

    /// Whether tokens currently pass through: every frame must be
    /// reading.
    pub fn reading(&self) -> (r: bool)
        ensures
            r == all_reading(self@),
    {
        let n = self.states.len();
        let mut i: usize = 0;
        while i < n
            invariant
                0 <= i <= n,
                n == self@.len(),
                forall|j: int| 0 <= j < i ==> state_reading(#[trigger] self@[j]),
            decreases n - i,
        {
            if !self.states[i].reading() {
                return false;
            }
            i += 1;
        }
        true
    }

    /// Opens a new frame.
    pub fn push(&mut self, s: IfState)
        ensures
            final(self)@ == old(self)@.push(s),
    {
        self.states.push(s);
    }

    /// Closes the innermost frame; on an empty stack, does nothing and
    /// reports that.
    pub fn pop(&mut self) -> (r: Option<IfState>)
        ensures
            old(self)@.len() > 0 ==> r == Some(old(self)@.last()) && final(self)@ == old(
                self,
            )@.drop_last(),
            old(self)@.len() == 0 ==> r == None::<IfState> && final(self)@ == old(self)@,
    {
        let r = self.states.pop();
        proof {
            if old(self)@.len() > 0 {
                assert(self@ =~= old(self)@.drop_last());
            }
        }
        r
    }

    /// Handles `#else`: flips the top frame, but only if every frame
    /// below it is reading; a stray `#else` on an empty stack is a
    /// silent no-op.
    pub fn flip(&mut self)
        ensures
            final(self)@ == sp_flip(old(self)@),
    {
        let n = self.states.len();
        if n == 0 {
            return ;
        }
        let mut i: usize = 0;
        let mut below_reading = true;
        while i < n - 1
            invariant
                0 <= i <= n - 1,
                n == self@.len(),
                self@ == old(self)@,
                below_reading == all_reading(self@.take(i as int)),
            decreases n - i,
        {
            let fr_reading = self.states[i].reading();
            proof {
                assert(self@.take(i + 1).drop_last() =~= self@.take(i as int));
                assert(self@.take(i + 1).last() == self@[i as int]);
                assert(all_reading(self@.take(i + 1)) == (all_reading(self@.take(i as int))
                    && state_reading(self@[i as int]))) by {
                    if all_reading(self@.take(i as int)) && state_reading(self@[i as int]) {
                        assert forall|j: int| 0 <= j < i + 1 implies state_reading(
                            #[trigger] self@.take(i + 1)[j],
                        ) by {
                            if j < i {
                                assert(self@.take(i as int)[j] == self@.take(i + 1)[j]);
                            }
                        }
                    }
                    if all_reading(self@.take(i + 1)) {
                        assert forall|j: int| 0 <= j < i implies state_reading(
                            #[trigger] self@.take(i as int)[j],
                        ) by {
                            assert(self@.take(i + 1)[j] == self@.take(i as int)[j]);
                        }
                        assert(state_reading(self@.take(i + 1)[i as int]));
                    }
                }
            }
            below_reading = below_reading && fr_reading;
            i += 1;
        }
        proof {
            assert(self@.take(n - 1) =~= self@.drop_last());
        }
        if below_reading {
            let top = self.states.pop();
            proof {
                assert(self@ =~= old(self)@.drop_last());
            }
            match top {
                Some(IfState::PassingChild) => self.states.push(IfState::PassingChild),
                Some(IfState::PassingIf) => self.states.push(IfState::ReadingElse),
                Some(IfState::ReadingIf) => self.states.push(IfState::PassingElse),
                Some(IfState::PassingElse) => (),
                Some(IfState::ReadingElse) => (),
                None => (),
            }
        }
    }
}

/// Law: opening a conditional frame and closing it again returns the
/// stack to its prior depth and to its prior reading state, whatever
/// the frame was.
pub proof fn lemma_push_pop_restores(s: Seq<IfState>, x: IfState)
    ensures
        s.push(x).drop_last() == s,
        s.push(x).len() == s.len() + 1,
        all_reading(s.push(x).drop_last()) == all_reading(s),
{
    assert(s.push(x).drop_last() =~= s);
}

} // verus!
