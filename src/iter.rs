use vstd::prelude::*;

verus! {

/// A sequence of items drawn from an owned value, which it keeps alive while
/// the items are handed out one at a time.
pub struct GenLockedIter<O, OUT> {
    owner: O,
    /// The items still to come, last first.
    rest: Vec<OUT>,
}

impl<O, OUT> GenLockedIter<O, OUT> {
    /// The items still to come, in order.
    pub closed spec fn remaining(&self) -> Seq<OUT> {
        self.rest@.reverse()
    }

    pub closed spec fn owner_spec(&self) -> O {
        self.owner
    }

    /// Draws the items from `owner` with `iter_fn` and keeps `owner`.
    pub fn from<F: FnOnce(&O) -> Vec<OUT>>(owner: O, iter_fn: F) -> (r: Self)
        requires
            iter_fn.requires((&owner,)),
        ensures
            r.owner_spec() == owner,
            exists|items: Vec<OUT>| iter_fn.ensures((&owner,), items) && r.remaining() == items@,
    {
        let mut items = iter_fn(&owner);
        let ghost all = items@;
        let mut rest: Vec<OUT> = Vec::new();
        while items.len() > 0
            invariant
                items@ + rest@.reverse() == all,
            decreases items@.len(),
        {
            let x = items.pop().unwrap();
            proof {
                assert(rest@.push(x).reverse() =~= seq![x] + rest@.reverse());
            }
            rest.push(x);
            proof {
                assert(items@ + rest@.reverse() =~= all);
            }
        }
        proof {
            assert(items@ + rest@.reverse() =~= rest@.reverse());
        }
        GenLockedIter { owner, rest }
    }

    /// The next item, where one is left.
    pub fn next(&mut self) -> (r: Option<OUT>)
        ensures
            final(self).owner_spec() == old(self).owner_spec(),
            old(self).remaining().len() == 0 ==> r.is_none() && final(self).remaining() == old(self).remaining(),
            old(self).remaining().len() > 0 ==> r == Some(old(self).remaining()[0])
                && final(self).remaining() == old(self).remaining().drop_first(),
    {
        let r = self.rest.pop();
        proof {
            if old(self).rest@.len() > 0 {
                assert(old(self).rest@.reverse()[0] == old(self).rest@.last());
                assert(self.rest@.reverse() =~= old(self).rest@.reverse().drop_first());
            }
        }
        r
    }

    /// The value the items were drawn from.
    pub fn owner(&self) -> (r: &O)
        ensures
            *r == self.owner_spec(),
    {
        &self.owner
    }
}

} // verus!
