//! The sliding window: the start offsets of the last valid characters.
use vstd::prelude::*;

verus! {

/// The offsets of consecutive characters of one run, oldest first.
#[derive(Debug, Clone, Copy, PartialEq, Eq, Structural)]
pub struct Window {
    start: usize,
    len: usize,
}

impl View for Window {
    type V = Seq<int>;

    /// The offsets held, oldest first: each is one more than the one before.
    open spec fn view(&self) -> Seq<int> {
        Seq::new(self.count(), |i: int| self.first() + i)
    }
}

impl Window {
    /// The offset of the oldest character held, or, where the window is
    /// empty, of the next character that it can take.
    pub closed spec fn first(&self) -> nat {
        self.start as nat
    }

    /// The number of offsets held.
    pub closed spec fn count(&self) -> nat {
        self.len as nat
    }

    /// The offset after the newest character held.
    pub open spec fn end(&self) -> nat {
        self.first() + self.count()
    }

    /// Whether the offset after the newest one fits the machine.
    pub closed spec fn wf(&self) -> bool {
        self.start + self.len <= usize::MAX
    }

    /// The empty window that waits for the character at `at`.
    pub fn empty_at(at: usize) -> (w: Window)
        ensures
            w.wf(),
            w.first() == at,
            w.count() == 0,
            w@ == Seq::<int>::empty(),
    {
        assert(Seq::new(0, |i: int| at + i) =~= Seq::<int>::empty());
        Window { start: at, len: 0 }
    }

    /// The number of offsets held.
    pub fn len(&self) -> (n: usize)
        ensures
            n == self.count(),
    {
        self.len
    }

    /// The oldest offset held.
    pub fn head(&self) -> (at: usize)
        ensures
            at == self.first(),
    {
        self.start
    }

    /// The offset after the newest one held.
    pub fn tail(&self) -> (at: usize)
        requires
            self.wf(),
        ensures
            at == self.end(),
    {
        self.start + self.len
    }

    /// Takes in the offset after the newest one held.
    pub fn push_back(&mut self)
        requires
            old(self).wf(),
            old(self).end() < usize::MAX,
        ensures
            final(self).wf(),
            final(self).first() == old(self).first(),
            final(self).count() == old(self).count() + 1,
            final(self)@ == old(self)@.push(old(self).end() as int),
    {
        self.len = self.len + 1;
        assert(self@ =~= old(self)@.push(old(self).end() as int));
    }

    /// Drops the `n` oldest offsets and returns the oldest of them.
    pub fn pop_front(&mut self, n: usize) -> (at: usize)
        requires
            old(self).wf(),
            n <= old(self).count(),
        ensures
            at == old(self).first(),
            final(self).wf(),
            final(self).first() == old(self).first() + n,
            final(self).count() == old(self).count() - n,
            final(self)@ == old(self)@.skip(n as int),
    {
        let at = self.start;
        self.start = self.start + n;
        self.len = self.len - n;
        assert(self@ =~= old(self)@.skip(n as int));
        at
    }
}

} // verus!
