use vstd::prelude::*;

verus! {

/// A selection of edge layers.
#[derive(Debug)]
pub enum LayerIds {
    Empty,
    All,
    One(usize),
    /// At least two ids, strictly increasing.
    Multiple(Vec<usize>),
}

pub open spec fn ids_sorted(s: Seq<usize>) -> bool {
    forall|i: int, j: int| 0 <= i < j < s.len() ==> #[trigger] s[i] < #[trigger] s[j]
}

/// Appending `x` adds exactly `x` to what a sequence holds.
pub proof fn lemma_contains_push<A>(s: Seq<A>, x: A, y: A)
    ensures
        s.push(x).contains(y) <==> (s.contains(y) || y == x),
{
    if s.push(x).contains(y) && y != x {
        let k = choose|k: int| 0 <= k < s.push(x).len() && s.push(x)[k] == y;
        assert(s[k] == y);
    }
    if s.contains(y) {
        let k = choose|k: int| 0 <= k < s.len() && s[k] == y;
        assert(s.push(x)[k] == y);
    }
    if y == x {
        assert(s.push(x)[s.len() as int] == x);
    }
}

/// Whether `v` holds `x`.
pub fn vec_contains(v: &Vec<usize>, x: usize) -> (r: bool)
    ensures
        r == v@.contains(x),
{
    let mut i: usize = 0;
    while i < v.len()
        invariant
            i <= v@.len(),
            forall|j: int| 0 <= j < i ==> v@[j] != x,
        decreases v@.len() - i,
    {
        if v[i] == x {
            return true;
        }
        i += 1;
    }
    false
}

/// Adds `x` to a strictly increasing vector of ids, keeping it so.
pub fn insert_sorted(v: &mut Vec<usize>, x: usize)
    requires
        ids_sorted(old(v)@),
    ensures
        ids_sorted(final(v)@),
        forall|y: usize| final(v)@.contains(y) <==> (old(v)@.contains(y) || y == x),
{
    let ghost s = v@;
    let mut i: usize = 0;
    while i < v.len()
        invariant
            v@ == s,
            i <= s.len(),
            forall|j: int| 0 <= j < i ==> #[trigger] s[j] < x,
        ensures
            i <= s.len(),
            i < s.len() ==> s[i as int] >= x,
            forall|j: int| 0 <= j < i ==> #[trigger] s[j] < x,
        decreases s.len() - i,
    {
        if v[i] >= x {
            break;
        }
        i += 1;
    }
    if i < v.len() && v[i] == x {
        return;
    }
    v.insert(i, x);
    proof {
        let n = v@;
        assert forall|a: int, b: int| 0 <= a < b < n.len() implies #[trigger] n[a] < #[trigger] n[b] by {
            if b < i {
            } else if a < i && b == i {
            } else if a < i {
                assert(n[b] == s[b - 1]);
            } else if a == i {
                assert(n[b] == s[b - 1]);
                if b - 1 > i {
                    assert(s[i as int] < s[b - 1]);
                }
            } else {
                assert(n[a] == s[a - 1] && n[b] == s[b - 1]);
            }
        }
        assert forall|y: usize| n.contains(y) <==> (s.contains(y) || y == x) by {
            if n.contains(y) {
                let k = choose|k: int| 0 <= k < n.len() && n[k] == y;
                if k < i {
                    assert(s[k] == y);
                } else if k > i {
                    assert(s[k - 1] == y);
                }
            }
            if s.contains(y) {
                let k = choose|k: int| 0 <= k < s.len() && s[k] == y;
                if k < i {
                    assert(n[k] == y);
                } else {
                    assert(n[k + 1] == y);
                }
            }
            if y == x {
                assert(n[i as int] == x);
            }
        }
    }
}

impl LayerIds {
    /// `Multiple` holds at least two ids, strictly increasing.
    pub open spec fn wf(&self) -> bool {
        match self {
            LayerIds::Multiple(v) => v@.len() >= 2 && ids_sorted(v@),
            _ => true,
        }
    }

    /// Whether layer `l` is selected.
    pub open spec fn selects(&self, l: usize) -> bool {
        match self {
            LayerIds::Empty => false,
            LayerIds::All => true,
            LayerIds::One(id) => l == *id,
            LayerIds::Multiple(v) => v@.contains(l),
        }
    }

    /// Two selections that select the same layers.
    pub open spec fn same_as(&self, o: &LayerIds) -> bool {
        forall|l: usize| self.selects(l) == o.selects(l)
    }

    pub fn contains(&self, l: usize) -> (r: bool)
        ensures
            r == self.selects(l),
    {
        match self {
            LayerIds::Empty => false,
            LayerIds::All => true,
            LayerIds::One(id) => *id == l,
            LayerIds::Multiple(v) => vec_contains(v, l),
        }
    }

    /// The canonical selection of the ids in `ids`: `None` (`Empty`) for none, `One`
    /// for a single id.
    pub fn from_ids(ids: &Vec<usize>) -> (r: LayerIds)
        ensures
            r.wf(),
            !(r is All),
            forall|l: usize| r.selects(l) <==> ids@.contains(l),
    {
        let mut v: Vec<usize> = Vec::new();
        let mut i: usize = 0;
        while i < ids.len()
            invariant
                i <= ids@.len(),
                ids_sorted(v@),
                forall|y: usize| v@.contains(y) <==> ids@.subrange(0, i as int).contains(y),
            decreases ids@.len() - i,
        {
            insert_sorted(&mut v, ids[i]);
            proof {
                assert(ids@.subrange(0, i + 1) =~= ids@.subrange(0, i as int).push(ids@[i as int]));
                assert forall|y: usize| v@.contains(y) <==> ids@.subrange(0, i + 1).contains(y) by {
                    lemma_contains_push(ids@.subrange(0, i as int), ids@[i as int], y);
                }
            }
            i += 1;
        }
        proof {
            assert(ids@.subrange(0, ids@.len() as int) =~= ids@);
            assert forall|y: usize| v@.contains(y) <==> ids@.contains(y) by {
                assert(ids@.subrange(0, i as int) == ids@);
            }
            if v@.len() == 1 {
                assert forall|y: usize| v@.contains(y) <==> y == v@[0] by {
                    if v@.contains(y) {
                        let k = choose|k: int| 0 <= k < v@.len() && v@[k] == y;
                    }
                    assert(v@.contains(v@[0]));
                }
            }
        }
        if v.len() == 0 {
            LayerIds::Empty
        } else if v.len() == 1 {
            LayerIds::One(v[0])
        } else {
            LayerIds::Multiple(v)
        }
    }

    /// A copy of this selection.
    pub fn duplicate(&self) -> (r: LayerIds)
        requires
            self.wf(),
        ensures
            r.wf(),
            r.same_as(self),
            (r is All) == (self is All),
    {
        match self {
            LayerIds::Empty => LayerIds::Empty,
            LayerIds::All => LayerIds::All,
            LayerIds::One(id) => LayerIds::One(*id),
            LayerIds::Multiple(v) => {
                let r = LayerIds::from_ids(v);
                proof {
                    assert(!(r is Empty)) by {
                        assert(v@.contains(v@[0]));
                        assert(r.selects(v@[0]));
                    }
                }
                match r {
                    LayerIds::One(x) => {
                        proof {
                            assert(v@.contains(v@[0]) && v@.contains(v@[1]));
                            assert(r.selects(v@[0]) && r.selects(v@[1]));
                        }
                        LayerIds::One(x)
                    },
                    other => other,
                }
            },
        }
    }

    /// The ids of a selection other than `All`.
    pub fn ids(&self) -> (r: Vec<usize>)
        requires
            !(self is All),
        ensures
            forall|l: usize| self.selects(l) <==> r@.contains(l),
    {
        match self {
            LayerIds::Empty => Vec::new(),
            LayerIds::All => Vec::new(),
            LayerIds::One(id) => {
                let mut v: Vec<usize> = Vec::new();
                v.push(*id);
                proof {
                    assert(v@[0] == *id);
                }
                v
            },
            LayerIds::Multiple(v) => {
                let mut out: Vec<usize> = Vec::new();
                let mut i: usize = 0;
                while i < v.len()
                    invariant
                        i <= v@.len(),
                        out@ == v@.subrange(0, i as int),
                    decreases v@.len() - i,
                {
                    out.push(v[i]);
                    i += 1;
                }
                proof {
                    assert(out@ =~= v@);
                }
                out
            },
        }
    }

    /// The layers selected by both.
    pub fn intersect(&self, other: &LayerIds) -> (r: LayerIds)
        requires
            self.wf(),
            other.wf(),
        ensures
            r.wf(),
            forall|l: usize| r.selects(l) == (self.selects(l) && other.selects(l)),
    {
        if let LayerIds::All = self {
            return other.duplicate();
        }
        if let LayerIds::All = other {
            return self.duplicate();
        }
        let mine = self.ids();
        let mut keep: Vec<usize> = Vec::new();
        let mut i: usize = 0;
        while i < mine.len()
            invariant
                i <= mine@.len(),
                forall|l: usize| #[trigger] keep@.contains(l) <==> (mine@.subrange(0, i as int).contains(l) && other.selects(l)),
            decreases mine@.len() - i,
        {
            let x = mine[i];
            let ghost before = keep@;
            if other.contains(x) {
                keep.push(x);
            }
            proof {
                let pre = mine@.subrange(0, i as int);
                assert(mine@.subrange(0, i + 1) =~= pre.push(x));
                assert forall|l: usize| #[trigger] keep@.contains(l) <==> (pre.push(x).contains(l) && other.selects(l)) by {
                    lemma_contains_push(pre, x, l);
                    lemma_contains_push(before, x, l);
                    assert(before.contains(l) <==> (pre.contains(l) && other.selects(l)));
                }
            }
            i += 1;
        }
        proof {
            assert(mine@.subrange(0, mine@.len() as int) =~= mine@);
        }
        let r = LayerIds::from_ids(&keep);
        proof {
            assert forall|l: usize| r.selects(l) == (self.selects(l) && other.selects(l)) by {
                assert(r.selects(l) == keep@.contains(l));
                assert(self.selects(l) == mine@.contains(l));
            }
        }
        r
    }

    /// The layers selected by either.
    pub fn union(&self, other: &LayerIds) -> (r: LayerIds)
        requires
            self.wf(),
            other.wf(),
        ensures
            r.wf(),
            forall|l: usize| r.selects(l) == (self.selects(l) || other.selects(l)),
    {
        if let LayerIds::All = self {
            return LayerIds::All;
        }
        if let LayerIds::All = other {
            return LayerIds::All;
        }
        let mut all = self.ids();
        let theirs = other.ids();
        let ghost mine = all@;
        let mut i: usize = 0;
        while i < theirs.len()
            invariant
                i <= theirs@.len(),
                all@ == mine + theirs@.subrange(0, i as int),
            decreases theirs@.len() - i,
        {
            all.push(theirs[i]);
            proof {
                assert(mine + theirs@.subrange(0, i + 1) =~= (mine + theirs@.subrange(0, i as int)).push(theirs@[i as int]));
            }
            i += 1;
        }
        proof {
            assert(theirs@.subrange(0, theirs@.len() as int) =~= theirs@);
            assert forall|l: usize| all@.contains(l) <==> (self.selects(l) || other.selects(l)) by {
                if all@.contains(l) {
                    let k = choose|k: int| 0 <= k < all@.len() && all@[k] == l;
                    if k < mine.len() {
                        assert(mine[k] == l);
                    } else {
                        assert(theirs@[k - mine.len()] == l);
                    }
                }
                if mine.contains(l) {
                    let k = choose|k: int| 0 <= k < mine.len() && mine[k] == l;
                    assert(all@[k] == l);
                }
                if theirs@.contains(l) {
                    let j = choose|j: int| 0 <= j < theirs@.len() && theirs@[j] == l;
                    assert(all@[mine.len() + j] == l);
                }
            }
        }
        LayerIds::from_ids(&all)
    }
}

} // verus!
