use vstd::prelude::*;

verus! {

/// The four cardinal neighbours of a cell, each absent where there is none.
#[derive(Debug, Clone, PartialEq)]
pub struct XyNeighbor<'a, T> {
    pub up: Option<&'a T>,
    pub left: Option<&'a T>,
    pub right: Option<&'a T>,
    pub down: Option<&'a T>,
}

impl<'a, T> XyNeighbor<'a, T> {
    /// The neighbours in the order up, left, right, down.
    pub open spec fn slots(&self) -> Seq<Option<&'a T>> {
        seq![self.up, self.left, self.right, self.down]
    }

    /// Walks the four neighbours in the order up, left, right, down.
    pub fn iter(&self) -> (r: XyNeighIterator<'_, Option<&'a T>>)
        ensures
            r.remaining() == self.slots(),
    {
        let r = XyNeighIterator { refs: [&self.up, &self.left, &self.right, &self.down], current: 0 };
        proof {
            assert(r.remaining() =~= self.slots());
        }
        r
    }
}

/// Walks the four entries of an `XyNeighbor`.
pub struct XyNeighIterator<'a, V> {
    refs: [&'a V; 4],
    current: usize,
}

impl<'a, V> XyNeighIterator<'a, V> {
    #[verifier::type_invariant]
    spec fn inv(&self) -> bool {
        self.current <= 4
    }

    /// The entries not yet handed out.
    pub closed spec fn remaining(&self) -> Seq<V> {
        Seq::new((4 - self.current) as nat, |k: int| *self.refs@[self.current + k])
    }

    /// The next entry, or `None` after the last.
    pub fn next(&mut self) -> (r: Option<&'a V>)
        ensures
            old(self).remaining().len() == 0 ==> r is None && final(self).remaining() == old(self).remaining(),
            old(self).remaining().len() > 0 ==> r == Some(&old(self).remaining()[0])
                && final(self).remaining() == old(self).remaining().drop_first(),
    {
        proof {
            use_type_invariant(&*self);
        }
        if self.current >= 4 {
            None
        } else {
            let ret = self.refs[self.current];
            self.current += 1;
            proof {
                assert(self.remaining() =~= old(self).remaining().drop_first());
            }
            Some(ret)
        }
    }
}

/// The eight neighbours of a cell, each absent where there is none.
pub struct AllAroundNeighbor<'a, T> {
    pub upleft: Option<&'a T>,
    pub up: Option<&'a T>,
    pub upright: Option<&'a T>,
    pub left: Option<&'a T>,
    pub right: Option<&'a T>,
    pub downleft: Option<&'a T>,
    pub down: Option<&'a T>,
    pub downright: Option<&'a T>,
}

impl<'a, T> AllAroundNeighbor<'a, T> {
    /// The neighbours in the order upleft, up, upright, left, right, downleft, down,
    /// downright.
    pub open spec fn slots(&self) -> Seq<Option<&'a T>> {
        seq![
            self.upleft,
            self.up,
            self.upright,
            self.left,
            self.right,
            self.downleft,
            self.down,
            self.downright,
        ]
    }

    /// Walks the eight neighbours in the order upleft, up, upright, left, right,
    /// downleft, down, downright.
    pub fn iter(&self) -> (r: AllAroundNeighIterator<'_, Option<&'a T>>)
        ensures
            r.remaining() == self.slots(),
    {
        let r = AllAroundNeighIterator {
            refs: [
                &self.upleft,
                &self.up,
                &self.upright,
                &self.left,
                &self.right,
                &self.downleft,
                &self.down,
                &self.downright,
            ],
            current: 0,
        };
        proof {
            assert(r.remaining() =~= self.slots());
        }
        r
    }
}

/// Walks the eight entries of an `AllAroundNeighbor`.
pub struct AllAroundNeighIterator<'a, V> {
    refs: [&'a V; 8],
    current: usize,
}

impl<'a, V> AllAroundNeighIterator<'a, V> {
    #[verifier::type_invariant]
    spec fn inv(&self) -> bool {
        self.current <= 8
    }

    /// The entries not yet handed out.
    pub closed spec fn remaining(&self) -> Seq<V> {
        Seq::new((8 - self.current) as nat, |k: int| *self.refs@[self.current + k])
    }

    /// The next entry, or `None` after the last.
    pub fn next(&mut self) -> (r: Option<&'a V>)
        ensures
            old(self).remaining().len() == 0 ==> r is None && final(self).remaining() == old(self).remaining(),
            old(self).remaining().len() > 0 ==> r == Some(&old(self).remaining()[0])
                && final(self).remaining() == old(self).remaining().drop_first(),
    {
        proof {
            use_type_invariant(&*self);
        }
        if self.current >= 8 {
            None
        } else {
            let ret = self.refs[self.current];
            self.current += 1;
            proof {
                assert(self.remaining() =~= old(self).remaining().drop_first());
            }
            Some(ret)
        }
    }
}

} // verus!
