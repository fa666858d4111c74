//! A fixed-capacity list of positions stored inline, used for the positions
//! listed in error payloads.
use vstd::prelude::*;
use crate::geometry::Pos2;

verus! {

#[derive(Clone, Copy, Debug, PartialEq, Eq)]
pub struct StackVec<const N: usize> {
    items: [Pos2; N],
    len: usize,
}

impl<const N: usize> View for StackVec<N> {
    type V = Seq<Pos2>;

    closed spec fn view(&self) -> Seq<Pos2> {
        self.items@.subrange(0, self.len as int)
    }
}

impl<const N: usize> StackVec<N> {
    /// The length never exceeds the capacity.
    pub closed spec fn wf(&self) -> bool {
        self.len <= N
    }

    pub fn new() -> (r: Self)
        ensures
            r.wf(),
            r@ == Seq::<Pos2>::empty(),
    {
        StackVec { items: [Pos2 { x: 0, y: 0 }; N], len: 0 }
    }

    /// Appends a position; the capacity must not be exceeded.
    pub fn push(&mut self, p: Pos2)
        requires
            old(self).wf(),
            old(self)@.len() < N,
        ensures
            final(self).wf(),
            final(self)@ == old(self)@.push(p),
    {
        let ghost before = self@;
        self.items[self.len] = p;
        self.len = self.len + 1;
        assert(self@ =~= before.push(p));
    }

    pub fn len(&self) -> (r: usize)
        requires
            self.wf(),
        ensures
            r == self@.len(),
    {
        self.len
    }

    pub fn is_empty(&self) -> (r: bool)
        requires
            self.wf(),
        ensures
            r == (self@.len() == 0),
    {
        self.len == 0
    }

    pub fn get(&self, i: usize) -> (r: Option<Pos2>)
        requires
            self.wf(),
        ensures
            r == (if i < self@.len() {
                Some(self@[i as int])
            } else {
                None::<Pos2>
            }),
    {
        if i < self.len {
            Some(self.items[i])
        } else {
            None
        }
    }

    /// The stored positions, in order.
    pub fn to_vec(&self) -> (r: Vec<Pos2>)
        requires
            self.wf(),
        ensures
            r@ == self@,
    {
        let mut r: Vec<Pos2> = Vec::new();
        let mut i: usize = 0;
        while i < self.len
            invariant
                self.wf(),
                i <= self.len,
                r@ == self@.subrange(0, i as int),
            decreases self.len - i,
        {
            r.push(self.items[i]);
            i = i + 1;
            assert(r@ =~= self@.subrange(0, i as int));
        }
        assert(r@ =~= self@);
        r
    }
}

} // verus!
