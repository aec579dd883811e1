use vstd::prelude::*;

verus! {

/// A point on the time axis: the time a caller sees, and a sequence number
/// that orders events recorded at the same time.
#[derive(Clone, Copy, Debug, PartialEq, Eq, Structural)]
pub struct TimeIndexEntry {
    pub t: i64,
    pub seq: u64,
}

/// Lexicographic order on `(t, seq)`.
pub open spec fn entry_lt(a: TimeIndexEntry, b: TimeIndexEntry) -> bool {
    a.t < b.t || (a.t == b.t && a.seq < b.seq)
}

/// The order of `Option<TimeIndexEntry>`: `None` before every entry.
pub open spec fn opt_entry_lt(a: Option<TimeIndexEntry>, b: Option<TimeIndexEntry>) -> bool {
    match (a, b) {
        (_, None) => false,
        (None, Some(_)) => true,
        (Some(x), Some(y)) => entry_lt(x, y),
    }
}

/// The greatest entry.
pub open spec fn max_entry() -> TimeIndexEntry {
    TimeIndexEntry { t: i64::MAX, seq: u64::MAX }
}

impl TimeIndexEntry {
    pub fn lt(&self, o: &TimeIndexEntry) -> (r: bool)
        ensures
            r == entry_lt(*self, *o),
    {
        self.t < o.t || (self.t == o.t && self.seq < o.seq)
    }
}

pub fn opt_lt(a: Option<TimeIndexEntry>, b: Option<TimeIndexEntry>) -> (r: bool)
    ensures
        r == opt_entry_lt(a, b),
{
    match (a, b) {
        (_, None) => false,
        (None, Some(_)) => true,
        (Some(x), Some(y)) => x.lt(&y),
    }
}

/// The lower bound of an optional window; no window starts at the earliest time.
pub open spec fn lo_of(w: Option<(i64, i64)>) -> int {
    match w {
        Some(p) => p.0 as int,
        None => i64::MIN as int,
    }
}

/// The upper bound of an optional window; no window reaches past the latest time.
pub open spec fn hi_of(w: Option<(i64, i64)>) -> int {
    match w {
        Some(p) => p.1 as int,
        None => i64::MAX as int + 1,
    }
}

pub fn in_opt_window(t: i64, w: Option<(i64, i64)>) -> (r: bool)
    ensures
        r == (lo_of(w) <= t < hi_of(w)),
{
    match w {
        Some((lo, hi)) => lo <= t && t < hi,
        None => true,
    }
}

/// Whether an entry falls in the half-open window `[lo, hi)`.
pub open spec fn in_window(e: TimeIndexEntry, lo: int, hi: int) -> bool {
    lo <= e.t && e.t < hi
}

pub open spec fn strictly_sorted(s: Seq<TimeIndexEntry>) -> bool {
    forall|i: int, j: int| 0 <= i < j < s.len() ==> entry_lt(#[trigger] s[i], #[trigger] s[j])
}

/// The first entry of `s` in `[lo, hi)`.
pub open spec fn first_in(s: Seq<TimeIndexEntry>, lo: int, hi: int) -> Option<TimeIndexEntry>
    decreases s.len(),
{
    if s.len() == 0 {
        None
    } else if in_window(s[0], lo, hi) {
        Some(s[0])
    } else {
        first_in(s.drop_first(), lo, hi)
    }
}

/// The last entry of `s` in `[lo, hi)`.
pub open spec fn last_in(s: Seq<TimeIndexEntry>, lo: int, hi: int) -> Option<TimeIndexEntry>
    decreases s.len(),
{
    if s.len() == 0 {
        None
    } else if in_window(s.last(), lo, hi) {
        Some(s.last())
    } else {
        last_in(s.drop_last(), lo, hi)
    }
}

/// The number of entries of `s` in `[lo, hi)`.
pub open spec fn count_in(s: Seq<TimeIndexEntry>, lo: int, hi: int) -> nat
    decreases s.len(),
{
    if s.len() == 0 {
        0
    } else {
        count_in(s.drop_last(), lo, hi) + if in_window(s.last(), lo, hi) {
            1nat
        } else {
            0nat
        }
    }
}

/// The times of the entries of `s` in `[lo, hi)`, in order.
pub open spec fn times_in(s: Seq<TimeIndexEntry>, lo: int, hi: int) -> Seq<i64>
    decreases s.len(),
{
    if s.len() == 0 {
        Seq::empty()
    } else if in_window(s.last(), lo, hi) {
        times_in(s.drop_last(), lo, hi).push(s.last().t)
    } else {
        times_in(s.drop_last(), lo, hi)
    }
}

/// Whether `s` holds an entry in `[lo, hi)`.
pub open spec fn any_in(s: Seq<TimeIndexEntry>, lo: int, hi: int) -> bool {
    exists|i: int| 0 <= i < s.len() && in_window(#[trigger] s[i], lo, hi)
}

pub open spec fn first_of(s: Seq<TimeIndexEntry>) -> Option<TimeIndexEntry> {
    if s.len() > 0 {
        Some(s[0])
    } else {
        None
    }
}

pub open spec fn last_of(s: Seq<TimeIndexEntry>) -> Option<TimeIndexEntry> {
    if s.len() > 0 {
        Some(s.last())
    } else {
        None
    }
}

pub open spec fn t_of(e: Option<TimeIndexEntry>) -> Option<i64> {
    match e {
        Some(x) => Some(x.t),
        None => None,
    }
}

/// `first_in` finds an entry exactly when one lies in the window, and it is
/// in the window.
pub proof fn lemma_first_in(s: Seq<TimeIndexEntry>, lo: int, hi: int)
    ensures
        first_in(s, lo, hi).is_some() == any_in(s, lo, hi),
        first_in(s, lo, hi).is_some() ==> in_window(first_in(s, lo, hi).unwrap(), lo, hi)
            && s.contains(first_in(s, lo, hi).unwrap()),
    decreases s.len(),
{
    if s.len() > 0 {
        lemma_first_in(s.drop_first(), lo, hi);
        if any_in(s, lo, hi) && !in_window(s[0], lo, hi) {
            let i = choose|i: int| 0 <= i < s.len() && in_window(#[trigger] s[i], lo, hi);
            assert(s.drop_first()[i - 1] == s[i]);
        }
        if any_in(s.drop_first(), lo, hi) {
            let i = choose|i: int|
                0 <= i < s.drop_first().len() && in_window(#[trigger] s.drop_first()[i], lo, hi);
            assert(s[i + 1] == s.drop_first()[i]);
        }
        if first_in(s, lo, hi).is_some() && !in_window(s[0], lo, hi) {
            let x = first_in(s, lo, hi).unwrap();
            let k = choose|k: int| 0 <= k < s.drop_first().len() && s.drop_first()[k] == x;
            assert(s[k + 1] == x);
        }
    }
}

/// Every entry lies in the window that spans the whole time axis.
pub proof fn lemma_count_all(s: Seq<TimeIndexEntry>)
    ensures
        count_in(s, i64::MIN as int, i64::MAX as int + 1) == s.len(),
    decreases s.len(),
{
    if s.len() > 0 {
        lemma_count_all(s.drop_last());
    }
}

/// A window that lies inside another sees a subset of its entries.
pub proof fn lemma_any_in_mono(s: Seq<TimeIndexEntry>, lo1: int, hi1: int, lo2: int, hi2: int)
    requires
        lo2 <= lo1,
        hi1 <= hi2,
        any_in(s, lo1, hi1),
    ensures
        any_in(s, lo2, hi2),
{
    let i = choose|i: int| 0 <= i < s.len() && in_window(#[trigger] s[i], lo1, hi1);
    assert(in_window(s[i], lo2, hi2));
}

/// An ordered set of time-index entries, strictly increasing in `(t, seq)`.
pub struct TimeIndex {
    entries: Vec<TimeIndexEntry>,
}

impl View for TimeIndex {
    type V = Seq<TimeIndexEntry>;

    closed spec fn view(&self) -> Seq<TimeIndexEntry> {
        self.entries@
    }
}

impl TimeIndex {
    pub open spec fn wf(&self) -> bool {
        strictly_sorted(self@)
    }

    pub fn new() -> (r: TimeIndex)
        ensures
            r@ == Seq::<TimeIndexEntry>::empty(),
            r.wf(),
    {
        TimeIndex { entries: Vec::new() }
    }

    /// Builds an index from entries that are already strictly increasing;
    /// `None` where they are not.
    pub fn from_entries(entries: Vec<TimeIndexEntry>) -> (r: Option<TimeIndex>)
        ensures
            r.is_some() == strictly_sorted(entries@),
            r.is_some() ==> r.unwrap()@ == entries@,
    {
        let mut i: usize = 1;
        if entries.len() == 0 {
            return Some(TimeIndex { entries });
        }
        while i < entries.len()
            invariant
                1 <= i <= entries@.len(),
                forall|a: int, b: int| 0 <= a < b < i ==> entry_lt(#[trigger] entries@[a], #[trigger] entries@[b]),
            decreases entries@.len() - i,
        {
            let p = entries[i - 1];
            let c = entries[i];
            if !(p.t < c.t || (p.t == c.t && p.seq < c.seq)) {
                assert(!strictly_sorted(entries@)) by {
                    assert(!entry_lt(entries@[i - 1], entries@[i as int]));
                }
                return None;
            }
            assert forall|a: int, b: int| 0 <= a < b < i + 1 implies entry_lt(#[trigger] entries@[a], #[trigger] entries@[b]) by {
                if b == i && a < i - 1 {
                    assert(entry_lt(entries@[a], entries@[i - 1]));
                }
            }
            i += 1;
        }
        Some(TimeIndex { entries })
    }

    pub fn len(&self) -> (r: usize)
        ensures
            r == self@.len(),
    {
        self.entries.len()
    }

    pub fn entries(&self) -> (r: &Vec<TimeIndexEntry>)
        ensures
            r@ == self@,
    {
        &self.entries
    }

    /// Adds `e`; an entry already present leaves the index as it is.
    pub fn insert(&mut self, e: TimeIndexEntry)
        requires
            old(self).wf(),
        ensures
            final(self).wf(),
            old(self)@.contains(e) ==> final(self)@ == old(self)@,
            !old(self)@.contains(e) ==> exists|p: int|
                0 <= p <= old(self)@.len() && final(self)@ == old(self)@.insert(p, e),
            final(self)@.to_set() == old(self)@.to_set().insert(e),
    {
        let ghost s = self@;
        let mut i: usize = 0;
        while i < self.entries.len()
            invariant
                self@ == s,
                strictly_sorted(s),
                i <= s.len(),
                forall|j: int| 0 <= j < i ==> entry_lt(#[trigger] s[j], e),
            ensures
                i <= s.len(),
                i < s.len() ==> !entry_lt(s[i as int], e),
                forall|j: int| 0 <= j < i ==> entry_lt(#[trigger] s[j], e),
            decreases s.len() - i,
        {
            let c = self.entries[i];
            if c.t > e.t || (c.t == e.t && c.seq >= e.seq) {
                break;
            }
            i += 1;
        }
        if i < self.entries.len() && self.entries[i] == e {
            assert(s.to_set().insert(e) =~= s.to_set()) by {
                assert(s.contains(e));
            }
            return;
        }
        proof {
            assert forall|j: int| i <= j < s.len() implies entry_lt(e, #[trigger] s[j]) by {
                if j > i {
                    assert(entry_lt(s[i as int], s[j]));
                }
            }
            assert(!s.contains(e)) by {
                if s.contains(e) {
                    let k = choose|k: int| 0 <= k < s.len() && s[k] == e;
                    if k < i {
                        assert(entry_lt(s[k], e));
                    } else {
                        assert(entry_lt(e, s[k]));
                    }
                }
            }
        }
        self.entries.insert(i, e);
        proof {
            let n = self@;
            assert(n == s.insert(i as int, e));
            assert forall|a: int, b: int| 0 <= a < b < n.len() implies entry_lt(#[trigger] n[a], #[trigger] n[b]) by {
                if b < i {
                } else if a < i && b == i {
                } else if a < i {
                    assert(n[b] == s[b - 1]);
                    assert(entry_lt(s[a], s[b - 1]));
                } else if a == i {
                    assert(n[b] == s[b - 1]);
                } else {
                    assert(n[a] == s[a - 1] && n[b] == s[b - 1]);
                }
            }
            assert(n.to_set() =~= s.to_set().insert(e)) by {
                assert forall|x: TimeIndexEntry| n.contains(x) <==> s.to_set().insert(e).contains(x) by {
                    if n.contains(x) {
                        let k = choose|k: int| 0 <= k < n.len() && n[k] == x;
                        if k < i {
                            assert(s[k] == x);
                        } else if k > i {
                            assert(s[k - 1] == x);
                        }
                    }
                    if s.contains(x) {
                        let k = choose|k: int| 0 <= k < s.len() && s[k] == x;
                        if k < i {
                            assert(n[k] == x);
                        } else {
                            assert(n[k + 1] == x);
                        }
                    }
                    if x == e {
                        assert(n[i as int] == e);
                    }
                }
            }
        }
    }

    pub fn first(&self) -> (r: Option<TimeIndexEntry>)
        ensures
            r == first_of(self@),
    {
        if self.entries.len() > 0 {
            Some(self.entries[0])
        } else {
            None
        }
    }

    pub fn last(&self) -> (r: Option<TimeIndexEntry>)
        ensures
            r == last_of(self@),
    {
        if self.entries.len() > 0 {
            Some(self.entries[self.entries.len() - 1])
        } else {
            None
        }
    }

    pub fn first_t(&self) -> (r: Option<i64>)
        ensures
            r == t_of(first_of(self@)),
    {
        match self.first() {
            Some(e) => Some(e.t),
            None => None,
        }
    }

    pub fn last_t(&self) -> (r: Option<i64>)
        ensures
            r == t_of(last_of(self@)),
    {
        match self.last() {
            Some(e) => Some(e.t),
            None => None,
        }
    }

    /// The first entry in `[lo, hi)`.
    pub fn first_in(&self, lo: i64, hi: i64) -> (r: Option<TimeIndexEntry>)
        ensures
            r == first_in(self@, lo as int, hi as int),
    {
        let ghost s = self@;
        let mut i: usize = 0;
        assert(s.subrange(0, s.len() as int) =~= s);
        while i < self.entries.len()
            invariant
                self@ == s,
                i <= s.len(),
                first_in(s, lo as int, hi as int) == first_in(s.subrange(i as int, s.len() as int), lo as int, hi as int),
            decreases s.len() - i,
        {
            let c = self.entries[i];
            assert(s.subrange(i as int, s.len() as int).drop_first() =~= s.subrange(i + 1, s.len() as int));
            if lo <= c.t && c.t < hi {
                return Some(c);
            }
            i += 1;
        }
        None
    }

    /// The last entry in `[lo, hi)`.
    pub fn last_in(&self, lo: i64, hi: i64) -> (r: Option<TimeIndexEntry>)
        ensures
            r == last_in(self@, lo as int, hi as int),
    {
        let ghost s = self@;
        let mut i: usize = self.entries.len();
        assert(s.subrange(0, s.len() as int) =~= s);
        while i > 0
            invariant
                self@ == s,
                i <= s.len(),
                last_in(s, lo as int, hi as int) == last_in(s.subrange(0, i as int), lo as int, hi as int),
            decreases i,
        {
            let c = self.entries[i - 1];
            assert(s.subrange(0, i as int).drop_last() =~= s.subrange(0, i - 1));
            if lo <= c.t && c.t < hi {
                return Some(c);
            }
            i -= 1;
        }
        None
    }

    /// The first entry in an optional window; no window holds every entry.
    pub fn first_in_w(&self, w: Option<(i64, i64)>) -> (r: Option<TimeIndexEntry>)
        ensures
            r == first_in(self@, lo_of(w), hi_of(w)),
    {
        match w {
            Some((lo, hi)) => self.first_in(lo, hi),
            None => {
                proof {
                    if self@.len() > 0 {
                        assert(in_window(self@[0], lo_of(w), hi_of(w)));
                    }
                }
                self.first()
            },
        }
    }

    /// The last entry in an optional window; no window holds every entry.
    pub fn last_in_w(&self, w: Option<(i64, i64)>) -> (r: Option<TimeIndexEntry>)
        ensures
            r == last_in(self@, lo_of(w), hi_of(w)),
    {
        match w {
            Some((lo, hi)) => self.last_in(lo, hi),
            None => {
                proof {
                    if self@.len() > 0 {
                        assert(in_window(self@.last(), lo_of(w), hi_of(w)));
                    }
                }
                self.last()
            },
        }
    }

    /// Whether some entry lies in `[lo, hi)`; stops at the first one found.
    pub fn active(&self, lo: i64, hi: i64) -> (r: bool)
        ensures
            r == any_in(self@, lo as int, hi as int),
    {
        proof {
            lemma_first_in(self@, lo as int, hi as int);
        }
        self.first_in(lo, hi).is_some()
    }

    /// The number of entries in `[lo, hi)`.
    pub fn len_window(&self, lo: i64, hi: i64) -> (r: usize)
        ensures
            r == count_in(self@, lo as int, hi as int),
    {
        let ghost s = self@;
        let mut i: usize = 0;
        let mut n: usize = 0;
        while i < self.entries.len()
            invariant
                self@ == s,
                i <= s.len(),
                n == count_in(s.subrange(0, i as int), lo as int, hi as int),
                n <= i,
            decreases s.len() - i,
        {
            let c = self.entries[i];
            assert(s.subrange(0, i + 1).drop_last() =~= s.subrange(0, i as int));
            if lo <= c.t && c.t < hi {
                n += 1;
            }
            i += 1;
        }
        assert(s.subrange(0, s.len() as int) =~= s);
        n
    }

    /// The times of the entries in `[lo, hi)`, in order.
    pub fn times_window(&self, lo: i64, hi: i64) -> (r: Vec<i64>)
        ensures
            r@ == times_in(self@, lo as int, hi as int),
    {
        let ghost s = self@;
        let mut i: usize = 0;
        let mut out: Vec<i64> = Vec::new();
        while i < self.entries.len()
            invariant
                self@ == s,
                i <= s.len(),
                out@ == times_in(s.subrange(0, i as int), lo as int, hi as int),
            decreases s.len() - i,
        {
            let c = self.entries[i];
            assert(s.subrange(0, i + 1).drop_last() =~= s.subrange(0, i as int));
            if lo <= c.t && c.t < hi {
                out.push(c.t);
            }
            i += 1;
        }
        assert(s.subrange(0, s.len() as int) =~= s);
        out
    }

    /// The times of all entries, in order.
    pub fn times(&self) -> (r: Vec<i64>)
        ensures
            r@ == self@.map_values(|e: TimeIndexEntry| e.t),
    {
        let mut out: Vec<i64> = Vec::new();
        let mut i: usize = 0;
        while i < self.entries.len()
            invariant
                i <= self@.len(),
                out@ == self@.subrange(0, i as int).map_values(|e: TimeIndexEntry| e.t),
            decreases self@.len() - i,
        {
            out.push(self.entries[i].t);
            i += 1;
            assert(out@ =~= self@.subrange(0, i as int).map_values(|e: TimeIndexEntry| e.t));
        }
        assert(self@.subrange(0, self@.len() as int) =~= self@);
        out
    }
}

} // verus!
