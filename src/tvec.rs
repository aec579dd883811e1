use vstd::prelude::*;

use itertools::Itertools;
use roaring::RoaringTreemap;

use crate::tcell::{has_time, lemma_set_write_len, set_write, times_sorted, window, TCell};

verus! {

#[verifier::external_type_specification]
#[verifier::external_body]
pub struct ExRoaringTreemap(RoaringTreemap);

/// The values a treemap holds, in increasing order.
pub uninterp spec fn treemap_values(m: RoaringTreemap) -> Seq<u64>;

pub open spec fn increasing(s: Seq<u64>) -> bool {
    forall|i: int, j: int| 0 <= i < j < s.len() ==> #[trigger] s[i] < #[trigger] s[j]
}

/// Relies on `RoaringTreemap::new`: an empty set.
#[verifier::external_body]
fn treemap_new() -> (r: RoaringTreemap)
    ensures
        treemap_values(r) == Seq::<u64>::empty(),
{
    RoaringTreemap::new()
}

/// Relies on `RoaringTreemap::insert`: adds `v` to the set, and reports
/// whether it was absent.
#[verifier::external_body]
fn treemap_insert(m: &mut RoaringTreemap, v: u64) -> (r: bool)
    ensures
        forall|x: u64| treemap_values(*final(m)).contains(x) <==> (treemap_values(*old(m)).contains(x) || x == v),
        r == !treemap_values(*old(m)).contains(v),
{
    m.insert(v)
}

/// Relies on `RoaringTreemap::iter`: every value of the set once, in
/// increasing order.
#[verifier::external_body]
fn treemap_iter(m: &RoaringTreemap) -> (r: Vec<u64>)
    ensures
        r@ == treemap_values(*m),
        increasing(r@),
{
    m.iter().collect()
}

/// The items of `s` at their first occurrence, in order.
pub open spec fn dedup(s: Seq<u64>) -> Seq<u64>
    decreases s.len(),
{
    if s.len() == 0 {
        s
    } else if dedup(s.drop_last()).contains(s.last()) {
        dedup(s.drop_last())
    } else {
        dedup(s.drop_last()).push(s.last())
    }
}

/// Relies on `Itertools::unique`: each item at its first occurrence, in order.
#[verifier::external_body]
fn unique_ids(v: Vec<u64>) -> (r: Vec<u64>)
    ensures
        r@ == dedup(v@),
{
    v.into_iter().unique().collect()
}

/// A sequence of values, each tagged with the times it was written, with a
/// secondary index from time to the slots written then.
pub enum DefaultTVec<A> {
    Empty,
    One(TCell<A>),
    Vec { vs: Vec<TCell<A>>, t_index: Vec<(u64, RoaringTreemap)> },
}

/// The index as times paired with the slots written then.
pub open spec fn index_view(t_index: Seq<(u64, RoaringTreemap)>) -> Seq<(u64, Seq<u64>)> {
    Seq::new(t_index.len(), |a: int| (t_index[a].0, treemap_values(t_index[a].1)))
}

/// The slots, in index order, written at a time in `[lo, hi)`.
pub open spec fn window_ids(idx: Seq<(u64, Seq<u64>)>, lo: u64, hi: u64) -> Seq<u64>
    decreases idx.len(),
{
    if idx.len() == 0 {
        Seq::empty()
    } else if lo <= idx.last().0 < hi {
        window_ids(idx.drop_last(), lo, hi) + idx.last().1
    } else {
        window_ids(idx.drop_last(), lo, hi)
    }
}

/// The writes in `[lo, hi)` of the slots `ids`, slot after slot.
pub open spec fn gather<A>(slots: Seq<Seq<(u64, A)>>, ids: Seq<u64>, lo: u64, hi: u64) -> Seq<(u64, A)>
    decreases ids.len(),
{
    if ids.len() == 0 {
        Seq::empty()
    } else {
        gather(slots, ids.drop_last(), lo, hi) + if ids.last() < slots.len() {
            window(slots[ids.last() as int], lo, hi)
        } else {
            Seq::empty()
        }
    }
}

/// Every write of every slot, slot after slot.
pub open spec fn flatten<A>(slots: Seq<Seq<(u64, A)>>) -> Seq<(u64, A)>
    decreases slots.len(),
{
    if slots.len() == 0 {
        Seq::empty()
    } else {
        flatten(slots.drop_last()) + slots.last()
    }
}

/// One slot per write of `c`.
pub open spec fn singletons<A>(c: Seq<(u64, A)>) -> Seq<Seq<(u64, A)>> {
    Seq::new(c.len(), |k: int| seq![c[k]])
}

proof fn lemma_flatten_push<A>(slots: Seq<Seq<(u64, A)>>, s: Seq<(u64, A)>)
    ensures
        flatten(slots.push(s)) == flatten(slots) + s,
{
    assert(slots.push(s).drop_last() =~= slots);
}

/// Replacing one slot changes the number of writes by the difference.
proof fn lemma_flatten_update_len<A>(slots: Seq<Seq<(u64, A)>>, i: int, x: Seq<(u64, A)>)
    requires
        0 <= i < slots.len(),
    ensures
        flatten(slots.update(i, x)).len() == flatten(slots).len() - slots[i].len() + x.len(),
    decreases slots.len(),
{
    let u = slots.update(i, x);
    assert(u.drop_last() =~= if i == slots.len() - 1 { slots.drop_last() } else { slots.drop_last().update(i, x) });
    if i < slots.len() - 1 {
        lemma_flatten_update_len(slots.drop_last(), i, x);
    }
}

proof fn lemma_flatten_singletons<A>(c: Seq<(u64, A)>)
    ensures
        flatten(singletons(c)) == c,
    decreases c.len(),
{
    if c.len() > 0 {
        lemma_flatten_singletons(c.drop_last());
        assert(singletons(c).drop_last() =~= singletons(c.drop_last()));
        assert(flatten(singletons(c.drop_last())) + seq![c.last()] =~= c);
    } else {
        assert(flatten(singletons(c)) =~= c);
    }
}

proof fn lemma_set_write_times<A>(c: Seq<(u64, A)>, t: u64, a: A, x: u64)
    ensures
        has_time(set_write(c, t, a), x) <==> (has_time(c, x) || x == t),
    decreases c.len(),
{
    if c.len() == 0 {
        assert(set_write(c, t, a)[0].0 == t);
    } else {
        let d = c.drop_last();
        lemma_set_write_times(d, t, a, x);
        let n = set_write(c, t, a);
        if has_time(c, x) {
            let i = choose|i: int| 0 <= i < c.len() && (#[trigger] c[i]).0 == x;
            if i < d.len() {
                assert(d[i] == c[i]);
            }
        }
        if has_time(d, x) {
            let i = choose|i: int| 0 <= i < d.len() && (#[trigger] d[i]).0 == x;
            assert(c[i] == d[i]);
        }
        if c.last().0 < t {
            if has_time(n, x) {
                let i = choose|i: int| 0 <= i < n.len() && (#[trigger] n[i]).0 == x;
                if i < c.len() {
                    assert(n[i] == c[i]);
                }
            }
            if has_time(c, x) {
                let i = choose|i: int| 0 <= i < c.len() && (#[trigger] c[i]).0 == x;
                assert(n[i] == c[i]);
            }
            assert(n[c.len() as int].0 == t);
        } else if c.last().0 == t {
            if has_time(n, x) {
                let i = choose|i: int| 0 <= i < n.len() && (#[trigger] n[i]).0 == x;
                if i < d.len() {
                    assert(n[i] == d[i]);
                }
            }
            if has_time(d, x) {
                let i = choose|i: int| 0 <= i < d.len() && (#[trigger] d[i]).0 == x;
                assert(n[i] == d[i]);
            }
            assert(n[d.len() as int].0 == t);
        } else {
            let m = set_write(d, t, a);
            if has_time(n, x) {
                let i = choose|i: int| 0 <= i < n.len() && (#[trigger] n[i]).0 == x;
                if i < m.len() {
                    assert(n[i] == m[i]);
                }
            }
            if has_time(m, x) {
                let i = choose|i: int| 0 <= i < m.len() && (#[trigger] m[i]).0 == x;
                assert(n[i] == m[i]);
            }
            assert(n[m.len() as int] == c.last());
        }
    }
}

/// Each slot's writes are increasing in time, and the index, increasing in
/// time, maps each time to exactly the slots written then.
pub open spec fn vec_inv<A>(slots: Seq<Seq<(u64, A)>>, t_index: Seq<(u64, RoaringTreemap)>) -> bool {
    &&& forall|i: int| 0 <= i < slots.len() ==> times_sorted(#[trigger] slots[i])
    &&& forall|a: int, b: int| 0 <= a < b < t_index.len() ==> (#[trigger] t_index[a]).0 < (#[trigger] t_index[b]).0
    &&& forall|a: int, i: u64| 0 <= a < t_index.len() ==> (#[trigger] treemap_values(t_index[a].1).contains(i)
        <==> (i < slots.len() && has_time(slots[i as int], t_index[a].0)))
    &&& forall|i: int, t: u64| 0 <= i < slots.len() && #[trigger] has_time(slots[i], t) ==> exists|a: int|
        0 <= a < t_index.len() && (#[trigger] t_index[a]).0 == t
}

/// The slots of a vector of cells.
pub open spec fn cells_view<A>(vs: Seq<TCell<A>>) -> Seq<Seq<(u64, A)>> {
    Seq::new(vs.len(), |i: int| vs[i]@)
}

/// Records in the index that slot `i` was written at `t`: `new` is `old`
/// with slot `i` (an existing slot, or one appended) gaining time `t`.
fn index_add<A>(t_index: &mut Vec<(u64, RoaringTreemap)>, t: u64, i: u64, Ghost(old_slots): Ghost<Seq<Seq<(u64, A)>>>, Ghost(new_slots): Ghost<Seq<Seq<(u64, A)>>>)
    requires
        vec_inv(old_slots, old(t_index)@),
        new_slots.len() == old_slots.len() || (new_slots.len() == old_slots.len() + 1 && i == old_slots.len()),
        i < new_slots.len(),
        forall|k: int| 0 <= k < new_slots.len() ==> times_sorted(#[trigger] new_slots[k]),
        forall|k: int| 0 <= k < old_slots.len() && k != i ==> new_slots[k] == old_slots[k],
        forall|x: u64| #[trigger] has_time(new_slots[i as int], x) <==> ((i < old_slots.len() && has_time(old_slots[i as int], x)) || x == t),
    ensures
        vec_inv(new_slots, final(t_index)@),
{
    let ghost idx0 = t_index@;
    let mut p: usize = 0;
    while p < t_index.len()
        invariant
            t_index@ == idx0,
            p <= idx0.len(),
            forall|q: int| 0 <= q < p ==> (#[trigger] idx0[q]).0 < t,
        ensures
            p <= idx0.len(),
            p < idx0.len() ==> idx0[p as int].0 >= t,
            forall|q: int| 0 <= q < p ==> (#[trigger] idx0[q]).0 < t,
        decreases idx0.len() - p,
    {
        if t_index[p].0 >= t {
            break;
        }
        p += 1;
    }
    if p < t_index.len() && t_index[p].0 == t {
        let mut entry = t_index.remove(p);
        treemap_insert(&mut entry.1, i);
        t_index.insert(p, entry);
        proof {
            let idx1 = t_index@;
            assert forall|q: int| 0 <= q < idx1.len() && q != p implies idx1[q] == idx0[q] by {}
            assert forall|a: int, x: u64| 0 <= a < idx1.len() implies (#[trigger] treemap_values(idx1[a].1).contains(x)
                <==> (x < new_slots.len() && has_time(new_slots[x as int], idx1[a].0))) by {
                if x == i {
                    if a != p {
                        assert(idx1[a] == idx0[a]);
                        assert(idx0[a].0 != t);
                    }
                } else if x < old_slots.len() {
                    assert(new_slots[x as int] == old_slots[x as int]);
                }
            }
            assert forall|j: int, t2: u64| 0 <= j < new_slots.len() && #[trigger] has_time(new_slots[j], t2) implies exists|a: int|
                0 <= a < idx1.len() && (#[trigger] idx1[a]).0 == t2 by {
                if t2 == t {
                    assert(idx1[p as int].0 == t);
                } else {
                    if j != i {
                        assert(new_slots[j] == old_slots[j]);
                    }
                    assert(has_time(old_slots[j], t2));
                    let a = choose|a: int| 0 <= a < idx0.len() && (#[trigger] idx0[a]).0 == t2;
                    assert(idx1[a].0 == t2);
                }
            }
            assert forall|x: int, y: int| 0 <= x < y < idx1.len() implies (#[trigger] idx1[x]).0 < (#[trigger] idx1[y]).0 by {
                assert(idx1[x].0 == idx0[x].0 && idx1[y].0 == idx0[y].0);
            }
        }
    } else {
        let mut m = treemap_new();
        treemap_insert(&mut m, i);
        t_index.insert(p, (t, m));
        proof {
            let idx1 = t_index@;
            assert(idx1 == idx0.insert(p as int, (t, m)));
            assert forall|b: int| 0 <= b < idx0.len() implies (#[trigger] idx0[b]).0 != t by {
                if b >= p {
                    if b > p {
                        assert(idx0[p as int].0 < idx0[b].0);
                    }
                }
            }
            assert forall|a: int, x: u64| 0 <= a < idx1.len() implies (#[trigger] treemap_values(idx1[a].1).contains(x)
                <==> (x < new_slots.len() && has_time(new_slots[x as int], idx1[a].0))) by {
                if a == p {
                    if x < new_slots.len() && x != i && has_time(new_slots[x as int], t) {
                        assert(new_slots[x as int] == old_slots[x as int]);
                        let b = choose|b: int| 0 <= b < idx0.len() && (#[trigger] idx0[b]).0 == t;
                    }
                } else {
                    let b = if a < p { a } else { a - 1 };
                    assert(idx1[a] == idx0[b]);
                    if x == i {
                        if has_time(new_slots[i as int], idx0[b].0) {
                            assert(idx0[b].0 != t);
                        }
                    } else if x < old_slots.len() {
                        assert(new_slots[x as int] == old_slots[x as int]);
                    }
                }
            }
            assert forall|j: int, t2: u64| 0 <= j < new_slots.len() && #[trigger] has_time(new_slots[j], t2) implies exists|a: int|
                0 <= a < idx1.len() && (#[trigger] idx1[a]).0 == t2 by {
                if t2 == t {
                    assert(idx1[p as int].0 == t);
                } else {
                    if j != i {
                        assert(new_slots[j] == old_slots[j]);
                    }
                    assert(has_time(old_slots[j], t2));
                    let a = choose|a: int| 0 <= a < idx0.len() && (#[trigger] idx0[a]).0 == t2;
                    if a < p {
                        assert(idx1[a].0 == t2);
                    } else {
                        assert(idx1[a + 1].0 == t2);
                    }
                }
            }
            assert forall|x: int, y: int| 0 <= x < y < idx1.len() implies (#[trigger] idx1[x]).0 < (#[trigger] idx1[y]).0 by {
                if y < p {
                } else if y == p {
                } else if x < p {
                    assert(idx1[y] == idx0[y - 1]);
                } else if x == p {
                    assert(idx1[y] == idx0[y - 1]);
                    if y - 1 > p {
                        assert(idx0[p as int].0 < idx0[y - 1].0);
                    }
                } else {
                    assert(idx1[x] == idx0[x - 1] && idx1[y] == idx0[y - 1]);
                }
            }
        }
    }
}

/// Appends a slot holding `a` written at `t`, to the slots of the
/// vector-and-index form.
fn push_slot_of<A>(vs: &mut Vec<TCell<A>>, t_index: &mut Vec<(u64, RoaringTreemap)>, t: u64, a: A)
    requires
        vec_inv(cells_view(old(vs)@), old(t_index)@),
        old(vs)@.len() < u64::MAX,
    ensures
        vec_inv(cells_view(final(vs)@), final(t_index)@),
        cells_view(final(vs)@) == cells_view(old(vs)@).push(seq![(t, a)]),
{
    let i = vs.len();
    let ghost s0 = cells_view(vs@);
    vs.push(TCell::new(t, a));
    let ghost s1 = cells_view(vs@);
    proof {
        assert(s1 =~= s0.push(seq![(t, a)]));
        assert forall|x: u64| #[trigger] has_time(s1[i as int], x) <==> ((i < s0.len() && has_time(s0[i as int], x)) || x == t) by {
            if has_time(s1[i as int], x) {
                let k = choose|k: int| 0 <= k < s1[i as int].len() && (#[trigger] s1[i as int][k]).0 == x;
            }
            if x == t {
                assert(s1[i as int][0].0 == t);
            }
        }
        assert forall|k: int| 0 <= k < s1.len() implies times_sorted(#[trigger] s1[k]) by {
            if k < s0.len() {
                assert(s1[k] == s0[k]);
            }
        }
    }
    index_add::<A>(t_index, t, i as u64, Ghost(s0), Ghost(s1));
}

impl<A> DefaultTVec<A> {
    /// The slots, each the writes of one value over time.
    pub open spec fn slots(&self) -> Seq<Seq<(u64, A)>> {
        match self {
            DefaultTVec::Empty => Seq::empty(),
            DefaultTVec::One(c) => seq![c@],
            DefaultTVec::Vec { vs, .. } => cells_view(vs@),
        }
    }

    /// Each slot's writes are increasing in time, and the index maps each time
    /// to exactly the slots written then.
    pub open spec fn inv(&self) -> bool {
        match self {
            DefaultTVec::Empty => true,
            DefaultTVec::One(c) => c.wf(),
            DefaultTVec::Vec { vs, t_index } => vec_inv(cells_view(vs@), t_index@),
        }
    }

    /// The writes in `[lo, hi)` in the order the window reads them.
    pub open spec fn window_writes(&self, lo: u64, hi: u64) -> Seq<(u64, A)> {
        match self {
            DefaultTVec::Empty => Seq::empty(),
            DefaultTVec::One(c) => window(c@, lo, hi),
            DefaultTVec::Vec { t_index, .. } => gather(self.slots(), dedup(window_ids(index_view(t_index@), lo, hi)), lo, hi),
        }
    }

    /// A vector of one value written at `t`.
    pub fn new(t: u64, a: A) -> (r: DefaultTVec<A>)
        ensures
            r.inv(),
            r.slots() == seq![seq![(t, a)]],
    {
        DefaultTVec::One(TCell::new(t, a))
    }


    /// Whether slot ids stay below `u64::MAX` after one more push.
    pub open spec fn has_room(&self) -> bool {
        match self {
            DefaultTVec::Empty => true,
            DefaultTVec::One(c) => c@.len() + 1 < u64::MAX,
            DefaultTVec::Vec { vs, .. } => vs@.len() + 1 < u64::MAX,
        }
    }

    /// Appends `a`, written at `t`, as a new slot.  A single cell is first
    /// split into one slot per write.
    pub fn push(&mut self, t: u64, a: A)
        requires
            old(self).inv(),
            old(self).has_room(),
        ensures
            final(self).inv(),
            flatten(final(self).slots()) == flatten(old(self).slots()).push((t, a)),
            match *old(self) {
                DefaultTVec::One(c) => final(self).slots() == singletons(c@).push(seq![(t, a)]),
                _ => final(self).slots() == old(self).slots().push(seq![(t, a)]),
            },
    {
        let mut cur = DefaultTVec::Empty;
        std::mem::swap(self, &mut cur);
        match cur {
            DefaultTVec::Empty => {
                *self = DefaultTVec::One(TCell::new(t, a));
                proof {
                    assert(self.slots() =~= Seq::<Seq<(u64, A)>>::empty().push(seq![(t, a)]));
                    lemma_flatten_push(Seq::<Seq<(u64, A)>>::empty(), seq![(t, a)]);
                    assert(flatten(Seq::<Seq<(u64, A)>>::empty()).push((t, a)) =~= flatten(Seq::<Seq<(u64, A)>>::empty()) + seq![(t, a)]);
                }
            },
            DefaultTVec::One(c) => {
                let ghost cv = c@;
                let mut writes = c.into_writes();
                let mut vs: Vec<TCell<A>> = Vec::new();
                let mut t_index: Vec<(u64, RoaringTreemap)> = Vec::new();
                let mut k: usize = 0;
                let total = writes.len();
                proof {
                    assert(cells_view(vs@) =~= singletons(cv.subrange(0, 0)));
                    assert(writes@ =~= cv.subrange(0, cv.len() as int));
                }
                while writes.len() > 0
                    invariant
                        k <= cv.len(),
                        cv.len() == total,
                        cv.len() + 1 < u64::MAX,
                        writes@ == cv.subrange(k as int, cv.len() as int),
                        cells_view(vs@) == singletons(cv.subrange(0, k as int)),
                        vec_inv(cells_view(vs@), t_index@),
                        vs@.len() == k,
                    decreases writes@.len(),
                {
                    let (t0, a0) = writes.remove(0);
                    push_slot_of(&mut vs, &mut t_index, t0, a0);
                    proof {
                        assert(singletons(cv.subrange(0, k + 1)) =~= singletons(cv.subrange(0, k as int)).push(seq![(t0, a0)]));
                        assert(writes@ =~= cv.subrange(k + 1, cv.len() as int));
                    }
                    k += 1;
                }
                push_slot_of(&mut vs, &mut t_index, t, a);
                *self = DefaultTVec::Vec { vs, t_index };
                proof {
                    assert(cv.subrange(0, k as int) =~= cv);
                    lemma_flatten_singletons(cv);
                    lemma_flatten_push(singletons(cv), seq![(t, a)]);
                    assert(flatten(seq![cv]) == flatten(Seq::<Seq<(u64, A)>>::empty()) + cv) by {
                        assert(seq![cv].drop_last() =~= Seq::<Seq<(u64, A)>>::empty());
                    }
                    assert(flatten(Seq::<Seq<(u64, A)>>::empty()) + cv =~= cv);
                    assert(cv + seq![(t, a)] =~= cv.push((t, a)));
                }
            },
            DefaultTVec::Vec { mut vs, mut t_index } => {
                let ghost s0 = cells_view(vs@);
                push_slot_of(&mut vs, &mut t_index, t, a);
                *self = DefaultTVec::Vec { vs, t_index };
                proof {
                    lemma_flatten_push(s0, seq![(t, a)]);
                    assert(flatten(s0) + seq![(t, a)] =~= flatten(s0).push((t, a)));
                }
            },
        }
    }

    /// Records `a` at `t` in slot `i` as one more version, keeping every
    /// earlier write; versions at the same time keep the order they were made in.
    pub fn insert(&mut self, t: u64, a: A, i: usize)
        requires
            old(self).inv(),
            i < old(self).slots().len(),
        ensures
            final(self).inv(),
            final(self).slots() == old(self).slots().update(i as int, set_write(old(self).slots()[i as int], t, a)),
            flatten(final(self).slots()).len() == flatten(old(self).slots()).len() + 1,
    {
        proof {
            lemma_set_write_len(old(self).slots()[i as int], t, a);
            lemma_flatten_update_len(old(self).slots(), i as int, set_write(old(self).slots()[i as int], t, a));
        }
        let mut cur = DefaultTVec::Empty;
        std::mem::swap(self, &mut cur);
        match cur {
            DefaultTVec::Empty => {},
            DefaultTVec::One(mut c) => {
                c.set(t, a);
                *self = DefaultTVec::One(c);
                proof {
                    assert(self.slots() =~= old(self).slots().update(i as int, set_write(old(self).slots()[i as int], t, a)));
                }
            },
            DefaultTVec::Vec { mut vs, mut t_index } => {
                let ghost s0 = cells_view(vs@);
                proof {
                    assert(s0[i as int] == vs@[i as int]@);
                    assert(times_sorted(s0[i as int]));
                }
                vs[i].set(t, a);
                let ghost s1 = cells_view(vs@);
                proof {
                    assert(s1 =~= s0.update(i as int, set_write(s0[i as int], t, a)));
                    assert forall|x: u64| #[trigger] has_time(s1[i as int], x) <==> ((i < s0.len() && has_time(s0[i as int], x)) || x == t) by {
                        lemma_set_write_times(s0[i as int], t, a, x);
                    }
                    assert forall|k: int| 0 <= k < s1.len() implies times_sorted(#[trigger] s1[k]) by {
                        if k != i {
                            assert(s1[k] == s0[k]);
                        }
                    }
                }
                index_add::<A>(&mut t_index, t, i as u64, Ghost(s0), Ghost(s1));
                *self = DefaultTVec::Vec { vs, t_index };
            },
        }
    }

    /// Every value, slot after slot, each slot in order of time.
    pub fn iter(&self) -> (r: Vec<&A>)
        requires
            self.inv(),
        ensures
            r@.len() == flatten(self.slots()).len(),
            forall|k: int| 0 <= k < r@.len() ==> *(#[trigger] r@[k]) == flatten(self.slots())[k].1,
    {
        let mut out: Vec<&A> = Vec::new();
        match self {
            DefaultTVec::Empty => {},
            DefaultTVec::One(c) => {
                out = c.iter();
                proof {
                    assert(seq![c@].drop_last() =~= Seq::<Seq<(u64, A)>>::empty());
                    assert(flatten(Seq::<Seq<(u64, A)>>::empty()) =~= Seq::<(u64, A)>::empty());
                    assert(flatten(seq![c@]) =~= c@);
                }
            },
            DefaultTVec::Vec { vs, .. } => {
                let ghost sl = cells_view(vs@);
                let mut j: usize = 0;
                while j < vs.len()
                    invariant
                        sl == cells_view(vs@),
                        j <= vs@.len(),
                        out@.len() == flatten(sl.subrange(0, j as int)).len(),
                        forall|k: int| 0 <= k < out@.len() ==> *(#[trigger] out@[k]) == flatten(sl.subrange(0, j as int))[k].1,
                    decreases vs@.len() - j,
                {
                    let vals = vs[j].iter();
                    let ghost before = out@;
                    let mut q: usize = 0;
                    while q < vals.len()
                        invariant
                            q <= vals@.len(),
                            out@.len() == before.len() + q,
                            forall|k: int| 0 <= k < before.len() ==> out@[k] == before[k],
                            forall|k: int| 0 <= k < q ==> out@[before.len() + k] == vals@[k],
                        decreases vals@.len() - q,
                    {
                        out.push(vals[q]);
                        q += 1;
                    }
                    proof {
                        assert(sl.subrange(0, j + 1).drop_last() =~= sl.subrange(0, j as int));
                        let f = flatten(sl.subrange(0, j + 1));
                        assert(sl[j as int] == vs@[j as int]@);
                        assert(f == flatten(sl.subrange(0, j as int)) + sl[j as int]);
                        assert forall|k: int| 0 <= k < out@.len() implies *(#[trigger] out@[k]) == f[k].1 by {
                            if k >= before.len() {
                                assert(out@[before.len() + (k - before.len())] == vals@[k - before.len()]);
                                assert(*vals@[k - before.len()] == vs@[j as int]@[k - before.len()].1);
                            } else {
                                assert(out@[k] == before[k]);
                            }
                        }
                    }
                    j += 1;
                }
                proof {
                    assert(sl.subrange(0, vs@.len() as int) =~= sl);
                }
            },
        }
        out
    }

    /// The writes with time in `[lo, hi)`: those of each slot written in the
    /// window, slot after slot in the order the index meets them.
    pub fn iter_window_t(&self, lo: u64, hi: u64) -> (r: Vec<(&u64, &A)>)
        requires
            self.inv(),
        ensures
            r@.len() == self.window_writes(lo, hi).len(),
            forall|k: int| 0 <= k < r@.len() ==> *(#[trigger] r@[k]).0 == self.window_writes(lo, hi)[k].0
                && *r@[k].1 == self.window_writes(lo, hi)[k].1,
    {
        match self {
            DefaultTVec::Empty => Vec::new(),
            DefaultTVec::One(c) => c.iter_window_t(lo, hi),
            DefaultTVec::Vec { vs, t_index } => {
                let ghost iv = index_view(t_index@);
                let mut ids: Vec<u64> = Vec::new();
                let mut a: usize = 0;
                while a < t_index.len()
                    invariant
                        iv == index_view(t_index@),
                        a <= t_index@.len(),
                        ids@ == window_ids(iv.subrange(0, a as int), lo, hi),
                    decreases t_index@.len() - a,
                {
                    proof {
                        assert(iv.subrange(0, a + 1).drop_last() =~= iv.subrange(0, a as int));
                    }
                    if lo <= t_index[a].0 && t_index[a].0 < hi {
                        let vals = treemap_iter(&t_index[a].1);
                        let ghost before = ids@;
                        let mut q: usize = 0;
                        while q < vals.len()
                            invariant
                                q <= vals@.len(),
                                ids@ == before + vals@.subrange(0, q as int),
                            decreases vals@.len() - q,
                        {
                            ids.push(vals[q]);
                            q += 1;
                            proof {
                                assert(ids@ =~= before + vals@.subrange(0, q as int));
                            }
                        }
                        proof {
                            assert(vals@.subrange(0, vals@.len() as int) =~= vals@);
                        }
                    }
                    a += 1;
                }
                proof {
                    assert(iv.subrange(0, t_index@.len() as int) =~= iv);
                }
                let ids = unique_ids(ids);
                let ghost sl = cells_view(vs@);
                let mut out: Vec<(&u64, &A)> = Vec::new();
                let mut k: usize = 0;
                while k < ids.len()
                    invariant
                        sl == cells_view(vs@),
                        k <= ids@.len(),
                        out@.len() == gather(sl, ids@.subrange(0, k as int), lo, hi).len(),
                        forall|x: int| 0 <= x < out@.len() ==> *(#[trigger] out@[x]).0 == gather(sl, ids@.subrange(0, k as int), lo, hi)[x].0
                            && *out@[x].1 == gather(sl, ids@.subrange(0, k as int), lo, hi)[x].1,
                    decreases ids@.len() - k,
                {
                    let id = ids[k];
                    let ghost before = out@;
                    let ghost g0 = gather(sl, ids@.subrange(0, k as int), lo, hi);
                    proof {
                        assert(ids@.subrange(0, k + 1).drop_last() =~= ids@.subrange(0, k as int));
                    }
                    if id < vs.len() as u64 {
                        let w = vs[id as usize].iter_window_t(lo, hi);
                        let mut q: usize = 0;
                        while q < w.len()
                            invariant
                                q <= w@.len(),
                                out@.len() == before.len() + q,
                                forall|x: int| 0 <= x < before.len() ==> out@[x] == before[x],
                                forall|x: int| 0 <= x < q ==> out@[before.len() + x] == w@[x],
                            decreases w@.len() - q,
                        {
                            out.push(w[q]);
                            q += 1;
                        }
                        proof {
                            let g1 = gather(sl, ids@.subrange(0, k + 1), lo, hi);
                            assert(sl[id as int] == vs@[id as int]@);
                            assert(g1 == g0 + window(sl[id as int], lo, hi));
                            assert forall|x: int| 0 <= x < out@.len() implies *(#[trigger] out@[x]).0 == g1[x].0 && *out@[x].1 == g1[x].1 by {
                                if x >= before.len() {
                                    assert(out@[before.len() + (x - before.len())] == w@[x - before.len()]);
                                } else {
                                    assert(out@[x] == before[x]);
                                }
                            }
                        }
                    } else {
                        proof {
                            let g1 = gather(sl, ids@.subrange(0, k + 1), lo, hi);
                            assert(g1 =~= g0);
                        }
                    }
                    k += 1;
                }
                proof {
                    assert(ids@.subrange(0, ids@.len() as int) =~= ids@);
                }
                out
            },
        }
    }

    /// The values written in `[lo, hi)`, in the order of `iter_window_t`.
    pub fn iter_window(&self, lo: u64, hi: u64) -> (r: Vec<&A>)
        requires
            self.inv(),
        ensures
            r@.len() == self.window_writes(lo, hi).len(),
            forall|k: int| 0 <= k < r@.len() ==> *(#[trigger] r@[k]) == self.window_writes(lo, hi)[k].1,
    {
        let pairs = self.iter_window_t(lo, hi);
        let mut out: Vec<&A> = Vec::new();
        let mut k: usize = 0;
        while k < pairs.len()
            invariant
                k <= pairs@.len(),
                out@.len() == k,
                forall|x: int| 0 <= x < k ==> out@[x] == pairs@[x].1,
            decreases pairs@.len() - k,
        {
            out.push(pairs[k].1);
            k += 1;
        }
        out
    }

    /// The number of writes, every version of every slot.
    pub fn len(&self) -> (r: usize)
        requires
            self.inv(),
        ensures
            r == flatten(self.slots()).len(),
    {
        self.iter().len()
    }

    /// The number of writes in `[lo, hi)`.
    pub fn len_t(&self, lo: u64, hi: u64) -> (r: usize)
        requires
            self.inv(),
        ensures
            r == self.window_writes(lo, hi).len(),
    {
        self.iter_window(lo, hi).len()
    }
}

impl<A> Default for DefaultTVec<A> {
    fn default() -> (r: DefaultTVec<A>)
        ensures
            r.inv(),
            r.slots().len() == 0,
    {
        DefaultTVec::Empty
    }
}

/// A sequence of slots, each holding the values written to it over time.
pub trait TVec<A>: Sized {
    /// The slots, each the writes of one value in order of time.
    spec fn contents(&self) -> Seq<Seq<(u64, A)>>;

    spec fn valid(&self) -> bool;

    /// Whether one more slot still gets an id.
    spec fn room(&self) -> bool;

    /// The writes in `[lo, hi)` in the order the window reads them.
    spec fn writes_in(&self, lo: u64, hi: u64) -> Seq<(u64, A)>;

    /// Appends `a`, written at `t`.
    fn push(&mut self, t: u64, a: A)
        requires
            old(self).valid(),
            old(self).room(),
        ensures
            final(self).valid(),
            flatten(final(self).contents()) == flatten(old(self).contents()).push((t, a));

    /// Records `a` at `t` in slot `i`, keeping its earlier writes.
    fn insert(&mut self, t: u64, a: A, i: usize)
        requires
            old(self).valid(),
            i < old(self).contents().len(),
        ensures
            final(self).valid(),
            final(self).contents() == old(self).contents().update(i as int, set_write(old(self).contents()[i as int], t, a)),
            flatten(final(self).contents()).len() == flatten(old(self).contents()).len() + 1;

    /// Every value, slot after slot.
    fn iter(&self) -> (r: Vec<&A>)
        requires
            self.valid(),
        ensures
            r@.len() == flatten(self.contents()).len(),
            forall|k: int| 0 <= k < r@.len() ==> *(#[trigger] r@[k]) == flatten(self.contents())[k].1;

    /// The values written in `[lo, hi)`.
    fn iter_window(&self, lo: u64, hi: u64) -> (r: Vec<&A>)
        requires
            self.valid(),
        ensures
            r@.len() == self.writes_in(lo, hi).len(),
            forall|k: int| 0 <= k < r@.len() ==> *(#[trigger] r@[k]) == self.writes_in(lo, hi)[k].1;

    /// The writes in `[lo, hi)`, with their times.
    fn iter_window_t(&self, lo: u64, hi: u64) -> (r: Vec<(&u64, &A)>)
        requires
            self.valid(),
        ensures
            r@.len() == self.writes_in(lo, hi).len(),
            forall|k: int| 0 <= k < r@.len() ==> *(#[trigger] r@[k]).0 == self.writes_in(lo, hi)[k].0
                && *r@[k].1 == self.writes_in(lo, hi)[k].1;
}

impl<A> TVec<A> for DefaultTVec<A> {
    open spec fn contents(&self) -> Seq<Seq<(u64, A)>> {
        self.slots()
    }

    open spec fn valid(&self) -> bool {
        self.inv()
    }

    open spec fn room(&self) -> bool {
        self.has_room()
    }

    open spec fn writes_in(&self, lo: u64, hi: u64) -> Seq<(u64, A)> {
        self.window_writes(lo, hi)
    }

    fn push(&mut self, t: u64, a: A) {
        DefaultTVec::push(self, t, a)
    }

    fn insert(&mut self, t: u64, a: A, i: usize) {
        DefaultTVec::insert(self, t, a, i)
    }

    fn iter(&self) -> (r: Vec<&A>) {
        DefaultTVec::iter(self)
    }

    fn iter_window(&self, lo: u64, hi: u64) -> (r: Vec<&A>) {
        DefaultTVec::iter_window(self, lo, hi)
    }

    fn iter_window_t(&self, lo: u64, hi: u64) -> (r: Vec<(&u64, &A)>) {
        DefaultTVec::iter_window_t(self, lo, hi)
    }
}

} // verus!
