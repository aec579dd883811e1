use vstd::prelude::*;

use crate::prop::{is_set_of, same_kind, Prop, PropValue, TProp};
use crate::time_index::{TimeIndex, TimeIndexEntry};

verus! {

/// The constant and temporal properties of one entity, or of one layer of an edge.
pub struct PropStore {
    pub constant: Vec<(usize, Prop)>,
    pub temporal: Vec<(usize, TProp)>,
}

pub open spec fn keys_unique<V>(s: Seq<(usize, V)>) -> bool {
    forall|i: int, j: int| 0 <= i < j < s.len() ==> (#[trigger] s[i]).0 != (#[trigger] s[j]).0
}

/// Where key `k` stands in `v`.
pub fn find_key<V>(v: &Vec<(usize, V)>, k: usize) -> (r: Option<usize>)
    ensures
        match r {
            Some(i) => i < v@.len() && v@[i as int].0 == k,
            None => forall|i: int| 0 <= i < v@.len() ==> (#[trigger] v@[i]).0 != k,
        },
{
    let mut i: usize = 0;
    while i < v.len()
        invariant
            i <= v@.len(),
            forall|j: int| 0 <= j < i ==> (#[trigger] v@[j]).0 != k,
        decreases v@.len() - i,
    {
        if v[i].0 == k {
            return Some(i);
        }
        i += 1;
    }
    None
}

impl PropStore {
    pub open spec fn wf(&self) -> bool {
        &&& keys_unique(self.constant@)
        &&& keys_unique(self.temporal@)
        &&& forall|i: int| 0 <= i < self.temporal@.len() ==> (#[trigger] self.temporal@[i]).1.wf()
    }

    /// The log of temporal property `k`; empty where it was never written.
    pub open spec fn temporal_log(&self, k: usize) -> Seq<(TimeIndexEntry, PropValue)> {
        if exists|i: int| 0 <= i < self.temporal@.len() && (#[trigger] self.temporal@[i]).0 == k {
            self.temporal@[choose|i: int| 0 <= i < self.temporal@.len() && (#[trigger] self.temporal@[i]).0 == k].1@
        } else {
            Seq::empty()
        }
    }

    pub open spec fn has_temporal(&self, k: usize) -> bool {
        exists|i: int| 0 <= i < self.temporal@.len() && (#[trigger] self.temporal@[i]).0 == k
    }

    /// The constant value of property `k`.
    pub open spec fn constant_value(&self, k: usize) -> Option<PropValue> {
        if exists|i: int| 0 <= i < self.constant@.len() && (#[trigger] self.constant@[i]).0 == k {
            Some(self.constant@[choose|i: int| 0 <= i < self.constant@.len() && (#[trigger] self.constant@[i]).0 == k].1@)
        } else {
            None
        }
    }

    pub fn new() -> (r: PropStore)
        ensures
            r.wf(),
            r.constant@.len() == 0,
            r.temporal@.len() == 0,
    {
        PropStore { constant: Vec::new(), temporal: Vec::new() }
    }

    /// The log of temporal property `k`, where it was ever written.
    pub fn temporal(&self, k: usize) -> (r: Option<&TProp>)
        requires
            self.wf(),
        ensures
            r.is_some() == self.has_temporal(k),
            r.is_some() ==> r.unwrap()@ == self.temporal_log(k) && r.unwrap().wf(),
    {
        match find_key(&self.temporal, k) {
            Some(i) => {
                proof {
                    let j = choose|j: int| 0 <= j < self.temporal@.len() && (#[trigger] self.temporal@[j]).0 == k;
                    assert(j == i as int);
                }
                Some(&self.temporal[i].1)
            },
            None => None,
        }
    }

    /// The constant value of property `k`.
    pub fn constant(&self, k: usize) -> (r: Option<&Prop>)
        requires
            self.wf(),
        ensures
            match r {
                Some(p) => self.constant_value(k) == Some(p@),
                None => self.constant_value(k).is_none(),
            },
    {
        match find_key(&self.constant, k) {
            Some(i) => {
                proof {
                    let j = choose|j: int| 0 <= j < self.constant@.len() && (#[trigger] self.constant@[j]).0 == k;
                    assert(j == i as int);
                }
                Some(&self.constant[i].1)
            },
            None => None,
        }
    }

    /// Whether writing `v` to temporal property `k` keeps the type it was first written with.
    pub open spec fn accepts(&self, k: usize, v: PropValue) -> bool {
        self.temporal_log(k).len() == 0 || same_kind(self.temporal_log(k)[0].1, v)
    }

    /// Appends a write of `v` at `e` to temporal property `k`.
    pub fn write_temporal(&mut self, k: usize, e: TimeIndexEntry, v: Prop)
        requires
            old(self).wf(),
        ensures
            final(self).wf(),
            final(self).constant == old(self).constant,
            final(self).has_temporal(k),
            is_set_of(final(self).temporal_log(k), old(self).temporal_log(k), e, v@),
            forall|k2: usize| k2 != k ==> final(self).temporal_log(k2) == old(self).temporal_log(k2)
                && final(self).has_temporal(k2) == old(self).has_temporal(k2),
            forall|k2: usize| #[trigger] final(self).constant_value(k2) == old(self).constant_value(k2),
    {
        match find_key(&self.temporal, k) {
            Some(i) => {
                let ghost before = self.temporal@;
                let mut entry = self.temporal.remove(i);
                entry.1.set(e, v);
                self.temporal.insert(i, entry);
                proof {
                    assert forall|j: int| 0 <= j < self.temporal@.len() && j != i implies self.temporal@[j] == before[j] by {
                        if j < i {
                        } else {
                        }
                    }
                    assert(self.temporal@[i as int].0 == k);
                    let j0 = choose|j: int| 0 <= j < self.temporal@.len() && (#[trigger] self.temporal@[j]).0 == k;
                    assert(j0 == i as int);
                    let j1 = choose|j: int| 0 <= j < before.len() && (#[trigger] before[j]).0 == k;
                    assert(j1 == i as int);
                    assert forall|k2: usize| k2 != k implies self.temporal_log(k2) == old(self).temporal_log(k2)
                        && self.has_temporal(k2) == old(self).has_temporal(k2) by {
                        if old(self).has_temporal(k2) {
                            let j = choose|j: int| 0 <= j < before.len() && (#[trigger] before[j]).0 == k2;
                            assert(self.temporal@[j] == before[j]);
                            let j2 = choose|j: int| 0 <= j < self.temporal@.len() && (#[trigger] self.temporal@[j]).0 == k2;
                            assert(j2 == j);
                        }
                        if self.has_temporal(k2) {
                            let j = choose|j: int| 0 <= j < self.temporal@.len() && (#[trigger] self.temporal@[j]).0 == k2;
                            assert(self.temporal@[j] == before[j]);
                        }
                    }
                }
            },
            None => {
                let mut t = TProp::new();
                t.set(e, v);
                let ghost before = self.temporal@;
                self.temporal.push((k, t));
                proof {
                    let n = self.temporal@.len() - 1;
                    assert(self.temporal@[n].0 == k);
                    let j0 = choose|j: int| 0 <= j < self.temporal@.len() && (#[trigger] self.temporal@[j]).0 == k;
                    assert(j0 == n);
                    assert(old(self).temporal_log(k) == Seq::<(TimeIndexEntry, PropValue)>::empty());
                    assert forall|k2: usize| k2 != k implies self.temporal_log(k2) == old(self).temporal_log(k2)
                        && self.has_temporal(k2) == old(self).has_temporal(k2) by {
                        if old(self).has_temporal(k2) {
                            let j = choose|j: int| 0 <= j < before.len() && (#[trigger] before[j]).0 == k2;
                            assert(self.temporal@[j] == before[j]);
                        }
                        if self.has_temporal(k2) {
                            let j = choose|j: int| 0 <= j < self.temporal@.len() && (#[trigger] self.temporal@[j]).0 == k2;
                            assert(j < n);
                            assert(self.temporal@[j] == before[j]);
                        }
                    }
                }
            },
        }
        proof {
            assert forall|k2: usize| #[trigger] self.constant_value(k2) == old(self).constant_value(k2) by {
                assert(self.constant@ == old(self).constant@);
            }
        }
    }

    /// Sets constant property `k` to `v`; `false`, and no change, where it
    /// already holds another value.
    pub fn set_constant(&mut self, k: usize, v: Prop) -> (r: bool)
        requires
            old(self).wf(),
        ensures
            final(self).wf(),
            final(self).temporal == old(self).temporal,
            r == (old(self).constant_value(k).is_none() || old(self).constant_value(k) == Some(v@)),
            r ==> final(self).constant_value(k) == Some(v@),
            !r ==> final(self).constant == old(self).constant,
            final(self).constant@ == old(self).constant@ || (final(self).constant@ == old(self).constant@.push((k, v)) && r),
            forall|k2: usize| k2 != k ==> #[trigger] final(self).constant_value(k2) == old(self).constant_value(k2),
    {
        match find_key(&self.constant, k) {
            Some(i) => {
                proof {
                    let j = choose|j: int| 0 <= j < self.constant@.len() && (#[trigger] self.constant@[j]).0 == k;
                    assert(j == i as int);
                }
                let same = self.constant[i].1.same_value(&v);
                same
            },
            None => {
                let ghost before = self.constant@;
                self.constant.push((k, v));
                proof {
                    let n = self.constant@.len() - 1;
                    assert(self.constant@[n].0 == k);
                    assert forall|k2: usize| k2 != k implies #[trigger] self.constant_value(k2) == old(self).constant_value(k2) by {
                        if exists|j: int| 0 <= j < before.len() && (#[trigger] before[j]).0 == k2 {
                            let j = choose|j: int| 0 <= j < before.len() && (#[trigger] before[j]).0 == k2;
                            assert(self.constant@[j] == before[j]);
                            let j2 = choose|j: int| 0 <= j < self.constant@.len() && (#[trigger] self.constant@[j]).0 == k2;
                            assert(j2 == j);
                        }
                        if exists|j: int| 0 <= j < self.constant@.len() && (#[trigger] self.constant@[j]).0 == k2 {
                            let j = choose|j: int| 0 <= j < self.constant@.len() && (#[trigger] self.constant@[j]).0 == k2;
                            assert(j < n);
                            assert(self.constant@[j] == before[j]);
                        }
                    }
                    let j2 = choose|j: int| 0 <= j < self.constant@.len() && (#[trigger] self.constant@[j]).0 == k;
                    assert(j2 == n);
                }
                true
            },
        }
    }
}

/// A node: its external id, the times of every event that touched it, and its properties.
pub struct NodeStore {
    pub gid: u64,
    pub timestamps: TimeIndex,
    pub props: PropStore,
}

impl NodeStore {
    pub open spec fn wf(&self) -> bool {
        self.timestamps.wf() && self.props.wf()
    }
}

/// An edge: its endpoints and, per layer, its additions, deletions and properties.
/// A layer beyond a vector's length has no record in it.
pub struct EdgeStore {
    pub src: usize,
    pub dst: usize,
    pub additions: Vec<TimeIndex>,
    pub deletions: Vec<TimeIndex>,
    pub props: Vec<PropStore>,
}

impl EdgeStore {
    pub open spec fn wf(&self) -> bool {
        &&& forall|l: int| 0 <= l < self.additions@.len() ==> (#[trigger] self.additions@[l]).wf()
        &&& forall|l: int| 0 <= l < self.deletions@.len() ==> (#[trigger] self.deletions@[l]).wf()
        &&& forall|l: int| 0 <= l < self.props@.len() ==> (#[trigger] self.props@[l]).wf()
    }

    pub open spec fn has_adds(&self, l: int) -> bool {
        0 <= l < self.additions@.len()
    }

    pub open spec fn has_dels(&self, l: int) -> bool {
        0 <= l < self.deletions@.len()
    }

    /// The additions of layer `l`.
    pub open spec fn adds(&self, l: int) -> Seq<TimeIndexEntry> {
        if self.has_adds(l) {
            self.additions@[l]@
        } else {
            Seq::empty()
        }
    }

    /// The deletions of layer `l`.
    pub open spec fn dels(&self, l: int) -> Seq<TimeIndexEntry> {
        if self.has_dels(l) {
            self.deletions@[l]@
        } else {
            Seq::empty()
        }
    }

    /// The log of temporal property `k` on layer `l`.
    pub open spec fn prop_log(&self, l: int, k: usize) -> Seq<(TimeIndexEntry, PropValue)> {
        if 0 <= l < self.props@.len() {
            self.props@[l].temporal_log(k)
        } else {
            Seq::empty()
        }
    }

    pub open spec fn has_prop_log(&self, l: int, k: usize) -> bool {
        0 <= l < self.props@.len() && self.props@[l].has_temporal(k)
    }

    /// The number of layers that either vector reaches.
    pub open spec fn span(&self) -> nat {
        if self.additions@.len() >= self.deletions@.len() {
            self.additions@.len()
        } else {
            self.deletions@.len()
        }
    }

    pub fn new(src: usize, dst: usize) -> (r: EdgeStore)
        ensures
            r.wf(),
            r.src == src,
            r.dst == dst,
            r.additions@.len() == 0,
            r.deletions@.len() == 0,
            r.props@.len() == 0,
    {
        EdgeStore { src, dst, additions: Vec::new(), deletions: Vec::new(), props: Vec::new() }
    }

    pub fn span_exec(&self) -> (r: usize)
        ensures
            r == self.span(),
    {
        if self.additions.len() >= self.deletions.len() {
            self.additions.len()
        } else {
            self.deletions.len()
        }
    }

    /// The additions of layer `l`, where the edge has a record for it.
    pub fn additions_of(&self, l: usize) -> (r: Option<&TimeIndex>)
        requires
            self.wf(),
        ensures
            r.is_some() == self.has_adds(l as int),
            r.is_some() ==> r.unwrap()@ == self.adds(l as int) && r.unwrap().wf(),
    {
        if l < self.additions.len() {
            Some(&self.additions[l])
        } else {
            None
        }
    }

    /// The deletions of layer `l`, where the edge has a record for it.
    pub fn deletions_of(&self, l: usize) -> (r: Option<&TimeIndex>)
        requires
            self.wf(),
        ensures
            r.is_some() == self.has_dels(l as int),
            r.is_some() ==> r.unwrap()@ == self.dels(l as int) && r.unwrap().wf(),
    {
        if l < self.deletions.len() {
            Some(&self.deletions[l])
        } else {
            None
        }
    }

    /// The log of temporal property `k` on layer `l`, where it was written.
    pub fn prop_of(&self, l: usize, k: usize) -> (r: Option<&TProp>)
        requires
            self.wf(),
        ensures
            r.is_some() == self.has_prop_log(l as int, k),
            r.is_some() ==> r.unwrap()@ == self.prop_log(l as int, k) && r.unwrap().wf(),
    {
        if l < self.props.len() {
            self.props[l].temporal(k)
        } else {
            None
        }
    }
}

/// Grows `v` with empty indices until it reaches index `l`.
pub fn reach_layer(v: &mut Vec<TimeIndex>, l: usize)
    requires
        forall|i: int| 0 <= i < old(v)@.len() ==> (#[trigger] old(v)@[i]).wf(),
        l < usize::MAX,
    ensures
        forall|i: int| 0 <= i < final(v)@.len() ==> (#[trigger] final(v)@[i]).wf(),
        final(v)@.len() == if old(v)@.len() > l { old(v)@.len() as int } else { l + 1 },
        forall|i: int| 0 <= i < old(v)@.len() ==> final(v)@[i] == old(v)@[i],
        forall|i: int| old(v)@.len() <= i < final(v)@.len() ==> (#[trigger] final(v)@[i])@.len() == 0,
{
    while v.len() <= l
        invariant
            forall|i: int| 0 <= i < v@.len() ==> (#[trigger] v@[i]).wf(),
            old(v)@.len() <= v@.len() <= if old(v)@.len() > l { old(v)@.len() as int } else { l + 1 },
            forall|i: int| 0 <= i < old(v)@.len() ==> v@[i] == old(v)@[i],
            forall|i: int| old(v)@.len() <= i < v@.len() ==> (#[trigger] v@[i])@.len() == 0,
        decreases l + 1 - v@.len(),
    {
        v.push(TimeIndex::new());
    }
}

/// Grows `v` with empty property stores until it reaches index `l`.
pub fn reach_prop_layer(v: &mut Vec<PropStore>, l: usize)
    requires
        forall|i: int| 0 <= i < old(v)@.len() ==> (#[trigger] old(v)@[i]).wf(),
        l < usize::MAX,
    ensures
        forall|i: int| 0 <= i < final(v)@.len() ==> (#[trigger] final(v)@[i]).wf(),
        final(v)@.len() == if old(v)@.len() > l { old(v)@.len() as int } else { l + 1 },
        forall|i: int| 0 <= i < old(v)@.len() ==> final(v)@[i] == old(v)@[i],
        forall|i: int| old(v)@.len() <= i < final(v)@.len() ==> (#[trigger] final(v)@[i]).constant@.len() == 0
            && final(v)@[i].temporal@.len() == 0,
{
    while v.len() <= l
        invariant
            forall|i: int| 0 <= i < v@.len() ==> (#[trigger] v@[i]).wf(),
            old(v)@.len() <= v@.len() <= if old(v)@.len() > l { old(v)@.len() as int } else { l + 1 },
            forall|i: int| 0 <= i < old(v)@.len() ==> v@[i] == old(v)@[i],
            forall|i: int| old(v)@.len() <= i < v@.len() ==> (#[trigger] v@[i]).constant@.len() == 0
                && v@[i].temporal@.len() == 0,
        decreases l + 1 - v@.len(),
    {
        v.push(PropStore::new());
    }
}

} // verus!
