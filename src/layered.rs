use vstd::prelude::*;

use crate::entities::EdgeStore;
use crate::layer_ids::LayerIds;
use crate::prop::{Prop, PropValue};
use crate::time_index::{
    entry_lt, first_in, hi_of, in_window, last_in, lo_of, TimeIndex, TimeIndexEntry,
};

verus! {

/// The earlier of two optional entries; `None` where both are absent.
pub open spec fn opt_min(a: Option<TimeIndexEntry>, b: Option<TimeIndexEntry>) -> Option<TimeIndexEntry> {
    match (a, b) {
        (None, y) => y,
        (x, None) => x,
        (Some(x), Some(y)) => if entry_lt(y, x) {
            Some(y)
        } else {
            Some(x)
        },
    }
}

/// The later of two optional entries; `None` where both are absent.
pub open spec fn opt_max(a: Option<TimeIndexEntry>, b: Option<TimeIndexEntry>) -> Option<TimeIndexEntry> {
    match (a, b) {
        (None, y) => y,
        (x, None) => x,
        (Some(x), Some(y)) => if entry_lt(x, y) {
            Some(y)
        } else {
            Some(x)
        },
    }
}

pub fn opt_min_exec(a: Option<TimeIndexEntry>, b: Option<TimeIndexEntry>) -> (r: Option<TimeIndexEntry>)
    ensures
        r == opt_min(a, b),
{
    match (a, b) {
        (None, y) => y,
        (x, None) => x,
        (Some(x), Some(y)) => if y.lt(&x) {
            Some(y)
        } else {
            Some(x)
        },
    }
}

pub fn opt_max_exec(a: Option<TimeIndexEntry>, b: Option<TimeIndexEntry>) -> (r: Option<TimeIndexEntry>)
    ensures
        r == opt_max(a, b),
{
    match (a, b) {
        (None, y) => y,
        (x, None) => x,
        (Some(x), Some(y)) => if x.lt(&y) {
            Some(y)
        } else {
            Some(x)
        },
    }
}

/// The additions, or with `dels` the deletions, of layer `l`.
pub open spec fn layer_entries(e: &EdgeStore, l: int, dels: bool) -> Seq<TimeIndexEntry> {
    if dels {
        e.dels(l)
    } else {
        e.adds(l)
    }
}

/// The earliest entry in `[lo, hi)` over the selected layers below `n`.
pub open spec fn first_over(e: &EdgeStore, layers: &LayerIds, dels: bool, lo: int, hi: int, n: int) -> Option<TimeIndexEntry>
    decreases n,
{
    if n <= 0 {
        None
    } else if layers.selects((n - 1) as usize) {
        opt_min(first_over(e, layers, dels, lo, hi, n - 1), first_in(layer_entries(e, n - 1, dels), lo, hi))
    } else {
        first_over(e, layers, dels, lo, hi, n - 1)
    }
}

/// The latest entry in `[lo, hi)` over the selected layers below `n`.
pub open spec fn last_over(e: &EdgeStore, layers: &LayerIds, dels: bool, lo: int, hi: int, n: int) -> Option<TimeIndexEntry>
    decreases n,
{
    if n <= 0 {
        None
    } else if layers.selects((n - 1) as usize) {
        opt_max(last_over(e, layers, dels, lo, hi, n - 1), last_in(layer_entries(e, n - 1, dels), lo, hi))
    } else {
        last_over(e, layers, dels, lo, hi, n - 1)
    }
}

/// The earliest addition (or deletion) in the window over the selected layers.
pub fn first_over_layers(e: &EdgeStore, layer_ids: &LayerIds, dels: bool, w: Option<(i64, i64)>) -> (r: Option<TimeIndexEntry>)
    requires
        e.wf(),
    ensures
        r == first_over(e, layer_ids, dels, lo_of(w), hi_of(w), e.span() as int),
{
    let n = e.span_exec();
    let mut l: usize = 0;
    let mut acc: Option<TimeIndexEntry> = None;
    while l < n
        invariant
            e.wf(),
            n == e.span(),
            l <= n,
            acc == first_over(e, layer_ids, dels, lo_of(w), hi_of(w), l as int),
        decreases n - l,
    {
        if layer_ids.contains(l) {
            let found = if dels {
                match e.deletions_of(l) {
                    Some(d) => d.first_in_w(w),
                    None => None,
                }
            } else {
                match e.additions_of(l) {
                    Some(a) => a.first_in_w(w),
                    None => None,
                }
            };
            acc = opt_min_exec(acc, found);
        }
        l += 1;
    }
    acc
}

/// The latest addition (or deletion) in the window over the selected layers.
pub fn last_over_layers(e: &EdgeStore, layer_ids: &LayerIds, dels: bool, w: Option<(i64, i64)>) -> (r: Option<TimeIndexEntry>)
    requires
        e.wf(),
    ensures
        r == last_over(e, layer_ids, dels, lo_of(w), hi_of(w), e.span() as int),
{
    let n = e.span_exec();
    let mut l: usize = 0;
    let mut acc: Option<TimeIndexEntry> = None;
    while l < n
        invariant
            e.wf(),
            n == e.span(),
            l <= n,
            acc == last_over(e, layer_ids, dels, lo_of(w), hi_of(w), l as int),
        decreases n - l,
    {
        if layer_ids.contains(l) {
            let found = if dels {
                match e.deletions_of(l) {
                    Some(d) => d.last_in_w(w),
                    None => None,
                }
            } else {
                match e.additions_of(l) {
                    Some(a) => a.last_in_w(w),
                    None => None,
                }
            };
            acc = opt_max_exec(acc, found);
        }
        l += 1;
    }
    acc
}

/// Order on `(entry, layer)` keys: by entry, then by layer.
pub open spec fn key_lt(a: (TimeIndexEntry, usize), b: (TimeIndexEntry, usize)) -> bool {
    entry_lt(a.0, b.0) || (a.0 == b.0 && a.1 < b.1)
}

pub fn key_lt_exec(a: (TimeIndexEntry, usize), b: (TimeIndexEntry, usize)) -> (r: bool)
    ensures
        r == key_lt(a, b),
{
    a.0.lt(&b.0) || (a.0 == b.0 && a.1 < b.1)
}

/// `s` with `x` placed after every item whose key orders before its own,
/// searching from the back.
pub open spec fn insert_by_key<V>(s: Seq<((TimeIndexEntry, usize), V)>, x: ((TimeIndexEntry, usize), V)) -> Seq<((TimeIndexEntry, usize), V)>
    decreases s.len(),
{
    if s.len() == 0 {
        seq![x]
    } else if key_lt(s.last().0, x.0) {
        s.push(x)
    } else {
        insert_by_key(s.drop_last(), x).push(s.last())
    }
}

/// Placing an item where the search from the back stops.
pub proof fn lemma_insert_at<V>(s: Seq<((TimeIndexEntry, usize), V)>, x: ((TimeIndexEntry, usize), V), i: int)
    requires
        0 <= i <= s.len(),
        i == 0 || key_lt(s[i - 1].0, x.0),
        forall|j: int| i <= j < s.len() ==> !key_lt(#[trigger] s[j].0, x.0),
    ensures
        insert_by_key(s, x) == s.subrange(0, i).push(x) + s.subrange(i, s.len() as int),
    decreases s.len() - i,
{
    if i == s.len() {
        if s.len() == 0 {
            assert(s.subrange(0, i).push(x) + s.subrange(i, s.len() as int) =~= seq![x]);
        } else {
            assert(s.subrange(0, i) =~= s);
            assert(s.subrange(0, i).push(x) + s.subrange(i, s.len() as int) =~= s.push(x));
        }
    } else {
        let d = s.drop_last();
        assert forall|j: int| i <= j < d.len() implies !key_lt(#[trigger] d[j].0, x.0) by {
            assert(d[j] == s[j]);
        }
        lemma_insert_at(d, x, i);
        assert(!key_lt(s.last().0, x.0));
        assert(d.subrange(0, i) =~= s.subrange(0, i));
        assert((d.subrange(0, i).push(x) + d.subrange(i, d.len() as int)).push(s.last())
            =~= s.subrange(0, i).push(x) + s.subrange(i, s.len() as int));
    }
}

/// Adds `x` to `v` as `insert_by_key` places it.
pub fn insert_keyed<V>(v: &mut Vec<((TimeIndexEntry, usize), V)>, x: ((TimeIndexEntry, usize), V))
    ensures
        final(v)@ == insert_by_key(old(v)@, x),
{
    let ghost s = v@;
    let mut i: usize = v.len();
    while i > 0
        invariant
            v@ == s,
            i <= s.len(),
            forall|j: int| i <= j < s.len() ==> !key_lt(#[trigger] s[j].0, x.0),
        ensures
            i <= s.len(),
            i == 0 || key_lt(s[i - 1].0, x.0),
            forall|j: int| i <= j < s.len() ==> !key_lt(#[trigger] s[j].0, x.0),
        decreases i,
    {
        if key_lt_exec(v[i - 1].0, x.0) {
            break;
        }
        i -= 1;
    }
    proof {
        lemma_insert_at(s, x, i as int);
    }
    v.insert(i, x);
    proof {
        assert(v@ =~= s.subrange(0, i as int).push(x) + s.subrange(i as int, s.len() as int));
    }
}

/// The entries of `s` in `[lo, hi)`, in order.
pub open spec fn entries_in(s: Seq<TimeIndexEntry>, lo: int, hi: int) -> Seq<TimeIndexEntry>
    decreases s.len(),
{
    if s.len() == 0 {
        Seq::empty()
    } else if in_window(s.last(), lo, hi) {
        entries_in(s.drop_last(), lo, hi).push(s.last())
    } else {
        entries_in(s.drop_last(), lo, hi)
    }
}

/// `acc` with each entry of `s`, keyed by layer `l`, placed in turn.
pub open spec fn insert_entries(acc: Seq<((TimeIndexEntry, usize), ())>, s: Seq<TimeIndexEntry>, l: usize) -> Seq<((TimeIndexEntry, usize), ())>
    decreases s.len(),
{
    if s.len() == 0 {
        acc
    } else {
        insert_by_key(insert_entries(acc, s.drop_last(), l), ((s.last(), l), ()))
    }
}

/// The additions in `[lo, hi)` of the selected layers below `n`, keyed by
/// `(entry, layer)` and merged in key order.
pub open spec fn merged_additions(e: &EdgeStore, layers: &LayerIds, lo: int, hi: int, n: int) -> Seq<((TimeIndexEntry, usize), ())>
    decreases n,
{
    if n <= 0 {
        Seq::empty()
    } else if layers.selects((n - 1) as usize) {
        insert_entries(merged_additions(e, layers, lo, hi, n - 1), entries_in(e.adds(n - 1), lo, hi), (n - 1) as usize)
    } else {
        merged_additions(e, layers, lo, hi, n - 1)
    }
}

/// The deletions in `[lo, hi)` of the selected layers below `n`, keyed by
/// `(entry, layer)` and merged in key order.
pub open spec fn merged_deletions(e: &EdgeStore, layers: &LayerIds, lo: int, hi: int, n: int) -> Seq<((TimeIndexEntry, usize), ())>
    decreases n,
{
    if n <= 0 {
        Seq::empty()
    } else if layers.selects((n - 1) as usize) {
        insert_entries(merged_deletions(e, layers, lo, hi, n - 1), entries_in(e.dels(n - 1), lo, hi), (n - 1) as usize)
    } else {
        merged_deletions(e, layers, lo, hi, n - 1)
    }
}

/// The deletions in the window over the selected layers, ordered by entry and
/// then by layer.
pub fn merge_deletions(e: &EdgeStore, layer_ids: &LayerIds, w: Option<(i64, i64)>) -> (r: Vec<((TimeIndexEntry, usize), ())>)
    requires
        e.wf(),
    ensures
        r@ == merged_deletions(e, layer_ids, lo_of(w), hi_of(w), e.span() as int),
{
    let n = e.span_exec();
    let mut out: Vec<((TimeIndexEntry, usize), ())> = Vec::new();
    let mut l: usize = 0;
    while l < n
        invariant
            e.wf(),
            n == e.span(),
            l <= n,
            out@ == merged_deletions(e, layer_ids, lo_of(w), hi_of(w), l as int),
        decreases n - l,
    {
        if layer_ids.contains(l) {
            match e.deletions_of(l) {
                Some(d) => insert_index(&mut out, d, l, w),
                None => {
                    assert(entries_in(e.dels(l as int), lo_of(w), hi_of(w)) =~= Seq::<TimeIndexEntry>::empty());
                },
            }
        }
        l += 1;
    }
    out
}

/// Places the entries of `idx` in the window into `out`, keyed by layer `l`.
fn insert_index(out: &mut Vec<((TimeIndexEntry, usize), ())>, idx: &TimeIndex, l: usize, w: Option<(i64, i64)>)
    ensures
        final(out)@ == insert_entries(old(out)@, entries_in(idx@, lo_of(w), hi_of(w)), l),
{
    let ghost s = idx@;
    let ghost acc = out@;
    let entries = idx.entries();
    let mut i: usize = 0;
    while i < entries.len()
        invariant
            entries@ == s,
            i <= s.len(),
            out@ == insert_entries(acc, entries_in(s.subrange(0, i as int), lo_of(w), hi_of(w)), l),
        decreases s.len() - i,
    {
        let x = entries[i];
        assert(s.subrange(0, i + 1).drop_last() =~= s.subrange(0, i as int));
        if crate::time_index::in_opt_window(x.t, w) {
            insert_keyed(out, ((x, l), ()));
            proof {
                let pre = entries_in(s.subrange(0, i as int), lo_of(w), hi_of(w));
                assert(pre.push(x).drop_last() =~= pre);
            }
        }
        i += 1;
    }
    proof {
        assert(s.subrange(0, s.len() as int) =~= s);
    }
}

/// The additions in the window over the selected layers, ordered by entry and
/// then by layer.
pub fn merge_additions(e: &EdgeStore, layer_ids: &LayerIds, w: Option<(i64, i64)>) -> (r: Vec<((TimeIndexEntry, usize), ())>)
    requires
        e.wf(),
    ensures
        r@ == merged_additions(e, layer_ids, lo_of(w), hi_of(w), e.span() as int),
{
    let n = e.span_exec();
    let mut out: Vec<((TimeIndexEntry, usize), ())> = Vec::new();
    let mut l: usize = 0;
    while l < n
        invariant
            e.wf(),
            n == e.span(),
            l <= n,
            out@ == merged_additions(e, layer_ids, lo_of(w), hi_of(w), l as int),
        decreases n - l,
    {
        if layer_ids.contains(l) {
            match e.additions_of(l) {
                Some(a) => insert_index(&mut out, a, l, w),
                None => {
                    assert(entries_in(e.adds(l as int), lo_of(w), hi_of(w)) =~= Seq::<TimeIndexEntry>::empty());
                },
            }
        }
        l += 1;
    }
    out
}

/// What a list of keyed property values holds.
pub open spec fn keyed_view(s: Seq<((TimeIndexEntry, usize), Prop)>) -> Seq<((TimeIndexEntry, usize), PropValue)> {
    Seq::new(s.len(), |i: int| (s[i].0, s[i].1@))
}

/// `acc` with each write of `s` whose time is in `[lo, hi)`, keyed by layer
/// `l`, placed in turn.
pub open spec fn insert_writes(
    acc: Seq<((TimeIndexEntry, usize), PropValue)>,
    s: Seq<(TimeIndexEntry, PropValue)>,
    l: usize,
    lo: int,
    hi: int,
) -> Seq<((TimeIndexEntry, usize), PropValue)>
    decreases s.len(),
{
    if s.len() == 0 {
        acc
    } else if lo <= s.last().0.t < hi {
        insert_by_key(insert_writes(acc, s.drop_last(), l, lo, hi), ((s.last().0, l), s.last().1))
    } else {
        insert_writes(acc, s.drop_last(), l, lo, hi)
    }
}

/// The writes of temporal property `k` in `[lo, hi)` over the selected layers
/// below `n`, keyed by `(entry, layer)` and merged in key order.
pub open spec fn merged_writes(e: &EdgeStore, layers: &LayerIds, k: usize, lo: int, hi: int, n: int) -> Seq<((TimeIndexEntry, usize), PropValue)>
    decreases n,
{
    if n <= 0 {
        Seq::empty()
    } else if layers.selects((n - 1) as usize) {
        insert_writes(merged_writes(e, layers, k, lo, hi, n - 1), e.prop_log(n - 1, k), (n - 1) as usize, lo, hi)
    } else {
        merged_writes(e, layers, k, lo, hi, n - 1)
    }
}

/// Adds a keyed value to `v` as `insert_by_key` places it.
fn insert_keyed_value(v: &mut Vec<((TimeIndexEntry, usize), Prop)>, x: ((TimeIndexEntry, usize), Prop))
    ensures
        keyed_view(final(v)@) == insert_by_key(keyed_view(old(v)@), (x.0, x.1@)),
{
    let ghost s = keyed_view(v@);
    let ghost kx = (x.0, x.1@);
    let mut i: usize = v.len();
    while i > 0
        invariant
            keyed_view(v@) == s,
            kx == (x.0, x.1@),
            v@.len() == s.len(),
            i <= s.len(),
            forall|j: int| i <= j < s.len() ==> !key_lt(#[trigger] s[j].0, kx.0),
        ensures
            i <= s.len(),
            i == 0 || key_lt(s[i - 1].0, kx.0),
            forall|j: int| i <= j < s.len() ==> !key_lt(#[trigger] s[j].0, kx.0),
        decreases i,
    {
        let ki = v[i - 1].0;
        assert(s[i - 1].0 == ki);
        if key_lt_exec(ki, x.0) {
            break;
        }
        i -= 1;
    }
    proof {
        lemma_insert_at(s, kx, i as int);
    }
    let ghost old_v = v@;
    v.insert(i, x);
    proof {
        assert(keyed_view(v@) =~= s.subrange(0, i as int).push(kx) + s.subrange(i as int, s.len() as int)) by {
            assert forall|j: int| 0 <= j < v@.len() implies keyed_view(v@)[j] == (s.subrange(0, i as int).push(kx) + s.subrange(i as int, s.len() as int))[j] by {
                if j < i {
                    assert(v@[j] == old_v[j]);
                } else if j > i {
                    assert(v@[j] == old_v[j - 1]);
                }
            }
        }
    }
}

/// The writes of temporal property `k` in the window over the selected
/// layers, ordered by entry and then by layer.
pub fn merge_writes(e: &EdgeStore, layer_ids: &LayerIds, k: usize, w: Option<(i64, i64)>) -> (r: Vec<((TimeIndexEntry, usize), Prop)>)
    requires
        e.wf(),
    ensures
        keyed_view(r@) == merged_writes(e, layer_ids, k, lo_of(w), hi_of(w), e.props@.len() as int),
{
    let n = e.props.len();
    let mut out: Vec<((TimeIndexEntry, usize), Prop)> = Vec::new();
    let mut l: usize = 0;
    proof {
        assert(keyed_view(out@) =~= Seq::<((TimeIndexEntry, usize), PropValue)>::empty());
    }
    while l < n
        invariant
            e.wf(),
            n == e.props@.len(),
            l <= n,
            keyed_view(out@) == merged_writes(e, layer_ids, k, lo_of(w), hi_of(w), l as int),
        decreases n - l,
    {
        if layer_ids.contains(l) {
            match e.prop_of(l, k) {
                Some(p) => {
                    let ghost s = p@;
                    let ghost acc = keyed_view(out@);
                    let mut i: usize = 0;
                    let count = p.len();
                    while i < count
                        invariant
                            p@ == s,
                            count == s.len(),
                            i <= s.len(),
                            keyed_view(out@) == insert_writes(acc, s.subrange(0, i as int), l, lo_of(w), hi_of(w)),
                        decreases s.len() - i,
                    {
                        let (entry, value) = p.write_at(i);
                        assert(s.subrange(0, i + 1).drop_last() =~= s.subrange(0, i as int));
                        if crate::time_index::in_opt_window(entry.t, w) {
                            insert_keyed_value(&mut out, ((entry, l), value.duplicate()));
                        }
                        i += 1;
                    }
                    proof {
                        assert(s.subrange(0, s.len() as int) =~= s);
                    }
                },
                None => {
                    assert(e.prop_log(l as int, k) =~= Seq::<(TimeIndexEntry, PropValue)>::empty());
                },
            }
        }
        l += 1;
    }
    out
}

} // verus!
