use vstd::prelude::*;

use crate::time_index::{entry_lt, strictly_sorted, TimeIndexEntry};

verus! {

/// A property value.
#[derive(Debug, PartialEq)]
pub enum Prop {
    Bool(bool),
    I64(i64),
    U64(u64),
    Str(String),
}

/// What a property value holds, as a mathematical value.
pub enum PropValue {
    Bool(bool),
    I64(i64),
    U64(u64),
    Str(Seq<char>),
}

impl View for Prop {
    type V = PropValue;

    open spec fn view(&self) -> PropValue {
        match self {
            Prop::Bool(b) => PropValue::Bool(*b),
            Prop::I64(v) => PropValue::I64(*v),
            Prop::U64(v) => PropValue::U64(*v),
            Prop::Str(s) => PropValue::Str(s@),
        }
    }
}

/// Whether two values have the same type.
pub open spec fn same_kind(a: PropValue, b: PropValue) -> bool {
    match (a, b) {
        (PropValue::Bool(_), PropValue::Bool(_)) => true,
        (PropValue::I64(_), PropValue::I64(_)) => true,
        (PropValue::U64(_), PropValue::U64(_)) => true,
        (PropValue::Str(_), PropValue::Str(_)) => true,
        _ => false,
    }
}

impl Prop {
    pub fn str(s: &str) -> (r: Prop)
        ensures
            r@ == PropValue::Str(s@),
    {
        Prop::Str(s.to_owned())
    }

    /// A copy of this value.
    pub fn duplicate(&self) -> (r: Prop)
        ensures
            r@ == self@,
    {
        match self {
            Prop::Bool(b) => Prop::Bool(*b),
            Prop::I64(v) => Prop::I64(*v),
            Prop::U64(v) => Prop::U64(*v),
            Prop::Str(s) => Prop::Str(s.clone()),
        }
    }

    pub fn same_value(&self, o: &Prop) -> (r: bool)
        ensures
            r == (self@ == o@),
    {
        match self {
            Prop::Bool(a) => match o {
                Prop::Bool(b) => *a == *b,
                _ => false,
            },
            Prop::I64(a) => match o {
                Prop::I64(b) => *a == *b,
                _ => false,
            },
            Prop::U64(a) => match o {
                Prop::U64(b) => *a == *b,
                _ => false,
            },
            Prop::Str(a) => match o {
                Prop::Str(b) => {
                    let r = *a == *b;
                    proof {
                        if a@ == b@ {
                            assert(self@ == o@);
                        }
                    }
                    r
                },
                _ => false,
            },
        }
    }

    pub fn same_kind(&self, o: &Prop) -> (r: bool)
        ensures
            r == same_kind(self@, o@),
    {
        match (self, o) {
            (Prop::Bool(_), Prop::Bool(_)) => true,
            (Prop::I64(_), Prop::I64(_)) => true,
            (Prop::U64(_), Prop::U64(_)) => true,
            (Prop::Str(_), Prop::Str(_)) => true,
            _ => false,
        }
    }
}

pub open spec fn entries_of(s: Seq<(TimeIndexEntry, PropValue)>) -> Seq<TimeIndexEntry> {
    s.map_values(|p: (TimeIndexEntry, PropValue)| p.0)
}

/// The writes of `s` whose time lies in `[lo, hi)`, as `(t, value)`.
pub open spec fn writes_in(s: Seq<(TimeIndexEntry, PropValue)>, lo: int, hi: int) -> Seq<(i64, PropValue)>
    decreases s.len(),
{
    if s.len() == 0 {
        Seq::empty()
    } else if lo <= s.last().0.t < hi {
        writes_in(s.drop_last(), lo, hi).push((s.last().0.t, s.last().1))
    } else {
        writes_in(s.drop_last(), lo, hi)
    }
}

/// The last write of `s` whose time is below `t`.
pub open spec fn last_write_before(s: Seq<(TimeIndexEntry, PropValue)>, t: int) -> Option<(i64, PropValue)>
    decreases s.len(),
{
    if s.len() == 0 {
        None
    } else if s.last().0.t < t {
        Some((s.last().0.t, s.last().1))
    } else {
        last_write_before(s.drop_last(), t)
    }
}

/// `n` is the log `s` after a write of `v` at `e`: placed by its entry, and
/// replacing a write at the same entry.
pub open spec fn is_set_of(
    n: Seq<(TimeIndexEntry, PropValue)>,
    s: Seq<(TimeIndexEntry, PropValue)>,
    e: TimeIndexEntry,
    v: PropValue,
) -> bool {
    exists|p: int|
        0 <= p <= s.len() && (forall|j: int| 0 <= j < p ==> entry_lt(#[trigger] s[j].0, e))
            && (forall|j: int| p <= j < s.len() ==> !entry_lt(#[trigger] s[j].0, e))
            && if p < s.len() && s[p].0 == e {
            n == s.update(p, (e, v))
        } else {
            n == s.insert(p, (e, v))
        }
}

/// The log of one temporal property: values written at time-index entries,
/// strictly increasing in the entry.
pub struct TProp {
    writes: Vec<(TimeIndexEntry, Prop)>,
}

impl View for TProp {
    type V = Seq<(TimeIndexEntry, PropValue)>;

    closed spec fn view(&self) -> Seq<(TimeIndexEntry, PropValue)> {
        self.writes@.map_values(|p: (TimeIndexEntry, Prop)| (p.0, p.1@))
    }
}

/// A list of `(t, value)` pairs that holds the writes `s`.
pub open spec fn writes_match(r: Seq<(i64, Prop)>, s: Seq<(i64, PropValue)>) -> bool {
    r.len() == s.len() && forall|k: int| 0 <= k < r.len() ==> (#[trigger] r[k]).0 == s[k].0 && r[k].1@ == s[k].1
}

/// What a list of writes holds.
pub open spec fn writes_as_log(w: Seq<(TimeIndexEntry, Prop)>) -> Seq<(TimeIndexEntry, PropValue)> {
    Seq::new(w.len(), |i: int| (w[i].0, w[i].1@))
}

impl TProp {
    /// A log from writes already strictly increasing in entry; `None` where
    /// they are not.
    pub fn from_writes(writes: Vec<(TimeIndexEntry, Prop)>) -> (r: Option<TProp>)
        ensures
            r.is_some() == strictly_sorted(entries_of(writes_as_log(writes@))),
            r.is_some() ==> r.unwrap()@ == writes_as_log(writes@) && r.unwrap().wf(),
    {
        let ghost es = entries_of(writes_as_log(writes@));
        let mut i: usize = 1;
        if writes.len() > 0 {
            while i < writes.len()
                invariant
                    1 <= i <= writes@.len(),
                    es == entries_of(writes_as_log(writes@)),
                    forall|a: int, b: int| 0 <= a < b < i ==> entry_lt(#[trigger] es[a], #[trigger] es[b]),
                decreases writes@.len() - i,
            {
                let p = writes[i - 1].0;
                let c = writes[i].0;
                assert(es[i - 1] == p && es[i as int] == c);
                if !(p.t < c.t || (p.t == c.t && p.seq < c.seq)) {
                    return None;
                }
                assert forall|a: int, b: int| 0 <= a < b < i + 1 implies entry_lt(#[trigger] es[a], #[trigger] es[b]) by {
                    if b == i && a < i - 1 {
                        assert(entry_lt(es[a], es[i - 1]));
                    }
                }
                i += 1;
            }
        }
        let r = TProp { writes };
        proof {
            assert(r@ =~= writes_as_log(r.writes@));
        }
        Some(r)
    }

    pub open spec fn wf(&self) -> bool {
        strictly_sorted(entries_of(self@))
    }

    pub fn new() -> (r: TProp)
        ensures
            r@ == Seq::<(TimeIndexEntry, PropValue)>::empty(),
            r.wf(),
    {
        TProp { writes: Vec::new() }
    }

    pub fn len(&self) -> (r: usize)
        ensures
            r == self@.len(),
    {
        self.writes.len()
    }

    /// The value of the first write, which fixes the property's type.
    pub fn first_value(&self) -> (r: Option<&Prop>)
        ensures
            r.is_some() == (self@.len() > 0),
            r.is_some() ==> r.unwrap()@ == self@[0].1,
    {
        if self.writes.len() > 0 {
            Some(&self.writes[0].1)
        } else {
            None
        }
    }

    /// The write at position `i`.
    pub fn write_at(&self, i: usize) -> (r: (TimeIndexEntry, &Prop))
        requires
            i < self@.len(),
        ensures
            r.0 == self@[i as int].0,
            r.1@ == self@[i as int].1,
    {
        (self.writes[i].0, &self.writes[i].1)
    }

    /// Records `v` at `e`; a write at the same entry is replaced.
    pub fn set(&mut self, e: TimeIndexEntry, v: Prop)
        requires
            old(self).wf(),
        ensures
            final(self).wf(),
            is_set_of(final(self)@, old(self)@, e, v@),
    {
        let ghost s = self@;
        let ghost es = entries_of(s);
        let mut i: usize = 0;
        while i < self.writes.len()
            invariant
                self@ == s,
                es == entries_of(s),
                strictly_sorted(es),
                i <= s.len(),
                forall|j: int| 0 <= j < i ==> entry_lt(#[trigger] s[j].0, e),
            ensures
                i <= s.len(),
                i < s.len() ==> !entry_lt(s[i as int].0, e),
                forall|j: int| 0 <= j < i ==> entry_lt(#[trigger] s[j].0, e),
            decreases s.len() - i,
        {
            let c = self.writes[i].0;
            assert(c == s[i as int].0);
            if c.t > e.t || (c.t == e.t && c.seq >= e.seq) {
                break;
            }
            i += 1;
        }
        proof {
            assert forall|j: int| i <= j < s.len() implies !entry_lt(#[trigger] s[j].0, e) by {
                if j > i {
                    assert(es[i as int] == s[i as int].0 && es[j] == s[j].0);
                    assert(entry_lt(es[i as int], es[j]));
                }
            }
        }
        if i < self.writes.len() && self.writes[i].0 == e {
            self.writes.set(i, (e, v));
            proof {
                assert(self@ =~= s.update(i as int, (e, v@)));
                let n = entries_of(self@);
                assert(n =~= es);
            }
        } else {
            self.writes.insert(i, (e, v));
            proof {
                let n = self@;
                assert(n =~= s.insert(i as int, (e, v@)));
                let ne = entries_of(n);
                assert forall|a: int, b: int| 0 <= a < b < ne.len() implies entry_lt(#[trigger] ne[a], #[trigger] ne[b]) by {
                    assert(ne[a] == n[a].0 && ne[b] == n[b].0);
                    if b < i {
                        assert(es[a] == s[a].0 && es[b] == s[b].0);
                    } else if a < i && b == i {
                    } else if a < i {
                        assert(n[b] == s[b - 1]);
                        assert(es[a] == s[a].0 && es[b - 1] == s[b - 1].0);
                    } else if a == i {
                        assert(n[b] == s[b - 1]);
                        if b - 1 > i {
                            assert(es[i as int] == s[i as int].0 && es[b - 1] == s[b - 1].0);
                            assert(entry_lt(es[i as int], es[b - 1]));
                        }
                    } else {
                        assert(n[a] == s[a - 1] && n[b] == s[b - 1]);
                        assert(es[a - 1] == s[a - 1].0 && es[b - 1] == s[b - 1].0);
                    }
                }
            }
        }
    }

    /// The writes with time in `[lo, hi)`, in order, as `(t, value)`.
    pub fn window(&self, lo: i64, hi: i64) -> (r: Vec<(i64, Prop)>)
        ensures
            writes_match(r@, writes_in(self@, lo as int, hi as int)),
    {
        let ghost s = self@;
        let mut out: Vec<(i64, Prop)> = Vec::new();
        let mut i: usize = 0;
        while i < self.writes.len()
            invariant
                self@ == s,
                i <= s.len(),
                writes_match(out@, writes_in(s.subrange(0, i as int), lo as int, hi as int)),
            decreases s.len() - i,
        {
            let e = self.writes[i].0;
            assert(s.subrange(0, i + 1).drop_last() =~= s.subrange(0, i as int));
            if lo <= e.t && e.t < hi {
                let v = self.writes[i].1.duplicate();
                out.push((e.t, v));

            }
            i += 1;
        }
        proof {
            assert(s.subrange(0, s.len() as int) =~= s);
        }
        out
    }

    /// Every write, in order, as `(t, value)`.
    pub fn window_all(&self) -> (r: Vec<(i64, Prop)>)
        ensures
            writes_match(r@, writes_in(self@, i64::MIN as int, i64::MAX as int + 1)),
    {
        let ghost s = self@;
        let mut out: Vec<(i64, Prop)> = Vec::new();
        let mut i: usize = 0;
        while i < self.writes.len()
            invariant
                self@ == s,
                i <= s.len(),
                writes_match(out@, writes_in(s.subrange(0, i as int), i64::MIN as int, i64::MAX as int + 1)),
            decreases s.len() - i,
        {
            let e = self.writes[i].0;
            assert(s.subrange(0, i + 1).drop_last() =~= s.subrange(0, i as int));
            let v = self.writes[i].1.duplicate();
            out.push((e.t, v));
            i += 1;
        }
        proof {
            assert(s.subrange(0, s.len() as int) =~= s);
        }
        out
    }

    /// The last write with time below `t`.
    pub fn last_before(&self, t: i64) -> (r: Option<(i64, Prop)>)
        ensures
            match (r, last_write_before(self@, t as int)) {
                (None, None) => true,
                (Some(x), Some(y)) => x.0 == y.0 && x.1@ == y.1,
                _ => false,
            },
    {
        let ghost s = self@;
        let mut i: usize = self.writes.len();
        proof {
            assert(s.subrange(0, s.len() as int) =~= s);
        }
        while i > 0
            invariant
                self@ == s,
                i <= s.len(),
                last_write_before(s, t as int) == last_write_before(s.subrange(0, i as int), t as int),
            decreases i,
        {
            let e = self.writes[i - 1].0;
            assert(s.subrange(0, i as int).drop_last() =~= s.subrange(0, i - 1));
            if e.t < t {
                return Some((e.t, self.writes[i - 1].1.duplicate()));
            }
            i -= 1;
        }
        None
    }
}

} // verus!
