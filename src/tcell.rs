use vstd::prelude::*;

verus! {

/// The writes of `c` with `(t, a)` added after every write at a time up to
/// `t`: writes at the same time keep the order they were made in.
pub open spec fn set_write<A>(c: Seq<(u64, A)>, t: u64, a: A) -> Seq<(u64, A)>
    decreases c.len(),
{
    if c.len() == 0 {
        seq![(t, a)]
    } else if c.last().0 <= t {
        c.push((t, a))
    } else {
        set_write(c.drop_last(), t, a).push(c.last())
    }
}

/// Writes ordered by time; writes at the same time in the order they were made.
pub open spec fn times_sorted<A>(c: Seq<(u64, A)>) -> bool {
    forall|i: int, j: int| 0 <= i < j < c.len() ==> (#[trigger] c[i]).0 <= (#[trigger] c[j]).0
}

/// The writes of `c` with time in `[lo, hi)`, in order.
pub open spec fn window<A>(c: Seq<(u64, A)>, lo: u64, hi: u64) -> Seq<(u64, A)>
    decreases c.len(),
{
    if c.len() == 0 {
        Seq::empty()
    } else if lo <= c.last().0 < hi {
        window(c.drop_last(), lo, hi).push(c.last())
    } else {
        window(c.drop_last(), lo, hi)
    }
}

/// Whether `c` holds a write at time `t`.
pub open spec fn has_time<A>(c: Seq<(u64, A)>, t: u64) -> bool {
    exists|i: int| 0 <= i < c.len() && (#[trigger] c[i]).0 == t
}

proof fn lemma_set_write_at<A>(c: Seq<(u64, A)>, t: u64, a: A, i: int)
    requires
        0 <= i <= c.len(),
        i == 0 || c[i - 1].0 <= t,
        forall|j: int| i <= j < c.len() ==> (#[trigger] c[j]).0 > t,
    ensures
        set_write(c, t, a) == c.subrange(0, i).push((t, a)) + c.subrange(i, c.len() as int),
    decreases c.len() - i,
{
    if i == c.len() {
        if c.len() == 0 {
            assert(c.subrange(0, i).push((t, a)) + c.subrange(i, c.len() as int) =~= seq![(t, a)]);
        } else {
            assert(c.subrange(0, i) =~= c);
            assert(c.subrange(0, i).push((t, a)) + c.subrange(i, c.len() as int) =~= c.push((t, a)));
        }
    } else {
        let d = c.drop_last();
        assert forall|j: int| i <= j < d.len() implies (#[trigger] d[j]).0 > t by {
            assert(d[j] == c[j]);
        }
        lemma_set_write_at(d, t, a, i);
        assert(d.subrange(0, i) =~= c.subrange(0, i));
        assert((d.subrange(0, i).push((t, a)) + d.subrange(i, d.len() as int)).push(c.last())
            =~= c.subrange(0, i).push((t, a)) + c.subrange(i, c.len() as int));
    }
}

/// Adding a write adds one write.
pub proof fn lemma_set_write_len<A>(c: Seq<(u64, A)>, t: u64, a: A)
    ensures
        set_write(c, t, a).len() == c.len() + 1,
    decreases c.len(),
{
    if c.len() > 0 && c.last().0 > t {
        lemma_set_write_len(c.drop_last(), t, a);
    }
}

/// The values written to one cell over time, ordered by time.
pub struct TCell<A> {
    writes: Vec<(u64, A)>,
}

impl<A> View for TCell<A> {
    type V = Seq<(u64, A)>;

    closed spec fn view(&self) -> Seq<(u64, A)> {
        self.writes@
    }
}

impl<A> TCell<A> {
    pub open spec fn wf(&self) -> bool {
        times_sorted(self@)
    }

    pub fn new(t: u64, a: A) -> (r: TCell<A>)
        ensures
            r@ == seq![(t, a)],
            r.wf(),
    {
        let mut writes: Vec<(u64, A)> = Vec::new();
        writes.push((t, a));
        proof {
            assert(writes@ =~= seq![(t, a)]);
        }
        TCell { writes }
    }

    /// Records `a` at `t`, after the writes already made at `t`.
    pub fn set(&mut self, t: u64, a: A)
        requires
            old(self).wf(),
        ensures
            final(self).wf(),
            final(self)@ == set_write(old(self)@, t, a),
            final(self)@.len() == old(self)@.len() + 1,
    {
        let ghost c = self@;
        let mut i: usize = self.writes.len();
        while i > 0
            invariant
                self@ == c,
                i <= c.len(),
                forall|j: int| i <= j < c.len() ==> (#[trigger] c[j]).0 > t,
            ensures
                i <= c.len(),
                i == 0 || c[i - 1].0 <= t,
                forall|j: int| i <= j < c.len() ==> (#[trigger] c[j]).0 > t,
            decreases i,
        {
            if self.writes[i - 1].0 <= t {
                break;
            }
            i -= 1;
        }
        proof {
            lemma_set_write_at(c, t, a, i as int);
            lemma_set_write_len(c, t, a);
        }
        self.writes.insert(i, (t, a));
        proof {
            assert(self@ =~= c.subrange(0, i as int).push((t, a)) + c.subrange(i as int, c.len() as int));
            let n = self@;
            assert forall|x: int, y: int| 0 <= x < y < n.len() implies (#[trigger] n[x]).0 <= (#[trigger] n[y]).0 by {
                if y < i {
                    assert(n[x] == c[x] && n[y] == c[y]);
                } else if y == i {
                    assert(n[x] == c[x]);
                    if x < i - 1 {
                        assert(c[x].0 <= c[i - 1].0);
                    }
                } else if x < i {
                    assert(n[x] == c[x] && n[y] == c[y - 1]);
                } else if x == i {
                    assert(n[y] == c[y - 1]);
                } else {
                    assert(n[x] == c[x - 1] && n[y] == c[y - 1]);
                }
            }
        }
    }

    /// The writes, in order of time.
    pub fn writes(&self) -> (r: &Vec<(u64, A)>)
        ensures
            r@ == self@,
    {
        &self.writes
    }

    /// The writes, handed over.
    pub fn into_writes(self) -> (r: Vec<(u64, A)>)
        ensures
            r@ == self@,
    {
        self.writes
    }

    /// The values, in order of time.
    pub fn iter(&self) -> (r: Vec<&A>)
        ensures
            r@.len() == self@.len(),
            forall|k: int| 0 <= k < r@.len() ==> *(#[trigger] r@[k]) == self@[k].1,
    {
        let mut out: Vec<&A> = Vec::new();
        let mut i: usize = 0;
        while i < self.writes.len()
            invariant
                i <= self@.len(),
                out@.len() == i,
                forall|k: int| 0 <= k < i ==> *(#[trigger] out@[k]) == self@[k].1,
            decreases self@.len() - i,
        {
            out.push(&self.writes[i].1);
            i += 1;
        }
        out
    }

    /// The writes with time in `[lo, hi)`, in order.
    pub fn iter_window_t(&self, lo: u64, hi: u64) -> (r: Vec<(&u64, &A)>)
        ensures
            r@.len() == window(self@, lo, hi).len(),
            forall|k: int| 0 <= k < r@.len() ==> *(#[trigger] r@[k]).0 == window(self@, lo, hi)[k].0
                && *r@[k].1 == window(self@, lo, hi)[k].1,
    {
        let ghost c = self@;
        let mut out: Vec<(&u64, &A)> = Vec::new();
        let mut i: usize = 0;
        while i < self.writes.len()
            invariant
                self@ == c,
                i <= c.len(),
                out@.len() == window(c.subrange(0, i as int), lo, hi).len(),
                forall|k: int| 0 <= k < out@.len() ==> *(#[trigger] out@[k]).0 == window(c.subrange(0, i as int), lo, hi)[k].0
                    && *out@[k].1 == window(c.subrange(0, i as int), lo, hi)[k].1,
            decreases c.len() - i,
        {
            assert(c.subrange(0, i + 1).drop_last() =~= c.subrange(0, i as int));
            let w = &self.writes[i];
            if lo <= w.0 && w.0 < hi {
                out.push((&w.0, &w.1));
            }
            i += 1;
        }
        proof {
            assert(c.subrange(0, c.len() as int) =~= c);
        }
        out
    }
}

} // verus!
