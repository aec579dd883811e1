use vstd::prelude::*;

use crate::entities::EdgeStore;
use crate::layer_ids::LayerIds;
use crate::time_index::{
    any_in, count_in, entry_lt, first_in, first_of, last_in, max_entry, opt_entry_lt, opt_lt,
    TimeIndex, TimeIndexEntry,
};

verus! {

/// `t + 1`, held at the largest time.
pub open spec fn next_t(t: i64) -> int {
    if t == i64::MAX {
        t as int
    } else {
        t + 1
    }
}

pub fn next_t_exec(t: i64) -> (r: i64)
    ensures
        r == next_t(t),
{
    if t == i64::MAX {
        t
    } else {
        t + 1
    }
}

/// Whether the edge is in force strictly before `t`, given the additions `a`
/// and deletions `d` of one layer.  An edge deleted before it was ever added
/// counts as alive from the beginning of time up to that deletion.
pub open spec fn is_alive_before(a: Seq<TimeIndexEntry>, d: Seq<TimeIndexEntry>, t: int) -> bool {
    let only_deleted = match (first_of(a), first_of(d)) {
        (Some(x), Some(y)) => entry_lt(y, x) && y.t >= t,
        (None, Some(y)) => y.t >= t,
        _ => false,
    };
    only_deleted || opt_entry_lt(last_in(d, i64::MIN as int, t), last_in(a, i64::MIN as int, t))
}

/// Whether the first event at `t` is a deletion.
pub open spec fn is_deleted_at(a: Seq<TimeIndexEntry>, d: Seq<TimeIndexEntry>, t: i64) -> bool {
    match (first_in(d, t as int, next_t(t)), first_in(a, t as int, next_t(t))) {
        (Some(x), Some(y)) => entry_lt(x, y),
        (Some(_), None) => true,
        _ => false,
    }
}

/// Whether the edge is in force at `t` itself.
pub open spec fn is_alive_at(a: Seq<TimeIndexEntry>, d: Seq<TimeIndexEntry>, t: i64) -> bool {
    !is_deleted_at(a, d, t) && is_alive_before(a, d, t as int)
}

/// Whether layer `l` keeps the edge alive up to `t`.  A layer with no
/// deletions is alive once it was added; one with no additions until its
/// first deletion.
pub open spec fn layer_alive_at_end(e: &EdgeStore, l: int, t: i64) -> bool {
    if e.dels(l).len() == 0 {
        any_in(e.adds(l), i64::MIN as int, t as int)
    } else if e.adds(l).len() == 0 {
        e.dels(l)[0].t >= t
    } else {
        is_alive_before(e.adds(l), e.dels(l), t as int)
    }
}

/// Whether layer `l` has the edge alive at the start `t` of a window.
/// A layer with no deletions is alive once it was added, by `t` included; one
/// with no additions while its first deletion is still to come.
pub open spec fn layer_alive_at_start(e: &EdgeStore, l: int, t: i64) -> bool {
    if e.dels(l).len() == 0 {
        e.adds(l).len() > 0 && e.adds(l)[0].t <= t
    } else if e.adds(l).len() == 0 {
        e.dels(l)[0].t > t
    } else {
        is_alive_at(e.adds(l), e.dels(l), t)
    }
}

pub open spec fn is_edge_alive_at_end(e: &EdgeStore, t: i64, layers: &LayerIds) -> bool {
    exists|l: usize| layers.selects(l) && #[trigger] layer_alive_at_end(e, l as int, t)
}

pub open spec fn is_edge_alive_at_start(e: &EdgeStore, t: i64, layers: &LayerIds) -> bool {
    exists|l: usize| layers.selects(l) && #[trigger] layer_alive_at_start(e, l as int, t)
}

/// Whether some selected layer has an addition in `[lo, hi)`.
pub open spec fn is_edge_active(e: &EdgeStore, layers: &LayerIds, lo: int, hi: int) -> bool {
    exists|l: usize| layers.selects(l) && #[trigger] any_in(e.adds(l as int), lo, hi)
}

/// Whether a persistent edge belongs in the window `[lo, hi)`: added in it,
/// or alive when it opens.
pub open spec fn persistent_includes(e: &EdgeStore, lo: i64, hi: i64, layers: &LayerIds) -> bool {
    is_edge_active(e, layers, lo as int, hi as int) || is_edge_alive_at_start(e, lo, layers)
}

pub fn alive_before(additions: &TimeIndex, deletions: &TimeIndex, t: i64) -> (r: bool)
    ensures
        r == is_alive_before(additions@, deletions@, t as int),
{
    let first_addition = additions.first();
    let first_deletion = deletions.first();
    let last_addition_before_start = additions.last_in(i64::MIN, t);
    let last_deletion_before_start = deletions.last_in(i64::MIN, t);
    let only_deleted = match (first_addition, first_deletion) {
        (Some(a), Some(d)) => d.lt(&a) && d.t >= t,
        (None, Some(d)) => d.t >= t,
        (Some(_), None) => false,
        (None, None) => false,
    };
    only_deleted || opt_lt(last_deletion_before_start, last_addition_before_start)
}

pub fn alive_at(additions: &TimeIndex, deletions: &TimeIndex, t: i64) -> (r: bool)
    ensures
        r == is_alive_at(additions@, deletions@, t),
{
    let next = next_t_exec(t);
    let deleted_at_start = match (deletions.first_in(t, next), additions.first_in(t, next)) {
        (Some(d), Some(a)) => d.lt(&a),
        (Some(_), None) => true,
        _ => false,
    };
    !deleted_at_start && alive_before(additions, deletions, t)
}

/// Whether some selected layer keeps the edge alive up to `t`.
pub fn edge_alive_at_end(e: &EdgeStore, t: i64, layer_ids: &LayerIds) -> (r: bool)
    requires
        e.wf(),
    ensures
        r == is_edge_alive_at_end(e, t, layer_ids),
{
    let empty = TimeIndex::new();
    let n = e.span_exec();
    let mut l: usize = 0;
    while l < n
        invariant
            e.wf(),
            empty@.len() == 0,
            n == e.span(),
            l <= n,
            forall|k: usize| k < l ==> !(layer_ids.selects(k) && #[trigger] layer_alive_at_end(e, k as int, t)),
        decreases n - l,
    {
        if layer_ids.contains(l) {
            let additions = match e.additions_of(l) {
                Some(a) => a,
                None => &empty,
            };
            let deletions = match e.deletions_of(l) {
                Some(d) => d,
                None => &empty,
            };
            assert(additions@ == e.adds(l as int) && deletions@ == e.dels(l as int));
            let alive = if deletions.len() == 0 {
                additions.active(i64::MIN, t)
            } else if additions.len() == 0 {
                match deletions.first_t() {
                    Some(first_t) => first_t >= t,
                    None => false,
                }
            } else {
                alive_before(additions, deletions, t)
            };
            if alive {
                assert(layer_ids.selects(l) && layer_alive_at_end(e, l as int, t));
                return true;
            }
        }
        l += 1;
    }
    proof {
        assert forall|k: usize| !(layer_ids.selects(k) && #[trigger] layer_alive_at_end(e, k as int, t)) by {
            if k >= n {
                assert(e.adds(k as int).len() == 0 && e.dels(k as int).len() == 0);
            }
        }
    }
    false
}

/// Whether some selected layer has the edge alive at the start `t` of a
/// window.  A first event at `t` that is a deletion leaves it dead there.
pub fn edge_alive_at_start(e: &EdgeStore, t: i64, layer_ids: &LayerIds) -> (r: bool)
    requires
        e.wf(),
    ensures
        r == is_edge_alive_at_start(e, t, layer_ids),
{
    let empty = TimeIndex::new();
    let n = e.span_exec();
    let mut l: usize = 0;
    while l < n
        invariant
            e.wf(),
            empty@.len() == 0,
            n == e.span(),
            l <= n,
            forall|k: usize| k < l ==> !(layer_ids.selects(k) && #[trigger] layer_alive_at_start(e, k as int, t)),
        decreases n - l,
    {
        if layer_ids.contains(l) {
            let additions = match e.additions_of(l) {
                Some(a) => a,
                None => &empty,
            };
            let deletions = match e.deletions_of(l) {
                Some(d) => d,
                None => &empty,
            };
            assert(additions@ == e.adds(l as int) && deletions@ == e.dels(l as int));
            let alive = if deletions.len() == 0 {
                match additions.first_t() {
                    Some(first_t) => first_t <= t,
                    None => false,
                }
            } else if additions.len() == 0 {
                match deletions.first_t() {
                    Some(first_t) => first_t > t,
                    None => false,
                }
            } else {
                alive_at(additions, deletions, t)
            };
            if alive {
                assert(layer_ids.selects(l) && layer_alive_at_start(e, l as int, t));
                return true;
            }
        }
        l += 1;
    }
    proof {
        assert forall|k: usize| !(layer_ids.selects(k) && #[trigger] layer_alive_at_start(e, k as int, t)) by {
            if k >= n {
                assert(e.adds(k as int).len() == 0 && e.dels(k as int).len() == 0);
            }
        }
    }
    false
}

/// Whether some selected layer has an addition in `[lo, hi)`.
pub fn edge_active(e: &EdgeStore, layer_ids: &LayerIds, lo: i64, hi: i64) -> (r: bool)
    requires
        e.wf(),
    ensures
        r == is_edge_active(e, layer_ids, lo as int, hi as int),
{
    let n = e.additions.len();
    let mut l: usize = 0;
    while l < n
        invariant
            e.wf(),
            n == e.additions@.len(),
            l <= n,
            forall|k: usize| k < l ==> !(layer_ids.selects(k) && #[trigger] any_in(e.adds(k as int), lo as int, hi as int)),
        decreases n - l,
    {
        if layer_ids.contains(l) && e.additions[l].active(lo, hi) {
            assert(layer_ids.selects(l) && any_in(e.adds(l as int), lo as int, hi as int));
            return true;
        }
        l += 1;
    }
    false
}

/// Whether the persistent edge belongs in the window `[lo, hi)`.
pub fn include_edge_window(e: &EdgeStore, lo: i64, hi: i64, layer_ids: &LayerIds) -> (r: bool)
    requires
        e.wf(),
    ensures
        r == persistent_includes(e, lo, hi, layer_ids),
{
    edge_active(e, layer_ids, lo, hi) || edge_alive_at_start(e, lo, layer_ids)
}

/// The first entry of `s`, or the greatest entry where it is empty.
pub open spec fn first_or_max(s: Seq<TimeIndexEntry>) -> TimeIndexEntry {
    if s.len() > 0 {
        s[0]
    } else {
        max_entry()
    }
}

/// Whether layer `l` was deleted before it was ever added: it then holds an
/// interval that starts at the beginning of time.
pub open spec fn starts_alive(e: &EdgeStore, l: int) -> bool {
    entry_lt(first_or_max(e.dels(l)), first_or_max(e.adds(l)))
}

/// The exploded edges of layer `l`: one per addition, and one for an interval
/// that starts at the beginning of time.
pub open spec fn layer_exploded_count(e: &EdgeStore, l: int) -> nat {
    e.adds(l).len() + if starts_alive(e, l) {
        1nat
    } else {
        0nat
    }
}

/// The exploded edges of layer `l` in `[lo, hi)`: one per addition in it, and
/// one for an interval in force when it opens.
pub open spec fn layer_exploded_count_window(e: &EdgeStore, l: int, lo: i64, hi: i64) -> nat {
    count_in(e.adds(l), lo as int, hi as int) + if is_alive_at(e.adds(l), e.dels(l), lo) {
        1nat
    } else {
        0nat
    }
}

/// The sum of `layer_exploded_count` over the selected layers below `n`.
pub open spec fn exploded_count_upto(e: &EdgeStore, layers: &LayerIds, n: int) -> nat
    decreases n,
{
    if n <= 0 {
        0
    } else {
        exploded_count_upto(e, layers, n - 1) + if layers.selects((n - 1) as usize) {
            layer_exploded_count(e, n - 1)
        } else {
            0nat
        }
    }
}

/// The sum of `layer_exploded_count_window` over the selected layers below `n`.
pub open spec fn exploded_count_window_upto(e: &EdgeStore, layers: &LayerIds, lo: i64, hi: i64, n: int) -> nat
    decreases n,
{
    if n <= 0 {
        0
    } else {
        exploded_count_window_upto(e, layers, lo, hi, n - 1) + if layers.selects((n - 1) as usize) {
            layer_exploded_count_window(e, n - 1, lo, hi)
        } else {
            0nat
        }
    }
}

/// `n`, held at the largest `usize`.
pub open spec fn clamp(n: nat) -> nat {
    if n > usize::MAX {
        usize::MAX as nat
    } else {
        n
    }
}

/// The number of exploded edges over the selected layers; a count beyond
/// `usize` is held at its largest value.
pub fn edge_exploded_count(e: &EdgeStore, layer_ids: &LayerIds) -> (r: usize)
    requires
        e.wf(),
    ensures
        r == clamp(exploded_count_upto(e, layer_ids, e.span() as int)),
{
    let n = e.span_exec();
    let mut l: usize = 0;
    let mut total: usize = 0;
    while l < n
        invariant
            e.wf(),
            n == e.span(),
            l <= n,
            total == clamp(exploded_count_upto(e, layer_ids, l as int)),
        decreases n - l,
    {
        if layer_ids.contains(l) {
            let a_len = match e.additions_of(l) {
                Some(additions) => additions.len(),
                None => 0,
            };
            let a_first = match e.additions_of(l) {
                Some(additions) => additions.first(),
                None => None,
            };
            let d_first = match e.deletions_of(l) {
                Some(deletions) => deletions.first(),
                None => None,
            };
            let max = TimeIndexEntry { t: i64::MAX, seq: u64::MAX };
            let a_first = match a_first {
                Some(a) => a,
                None => max,
            };
            let d_first = match d_first {
                Some(d) => d,
                None => max,
            };
            let extra: usize = if d_first.lt(&a_first) {
                1
            } else {
                0
            };
            total = total.saturating_add(a_len).saturating_add(extra);
        }
        l += 1;
    }
    total
}

/// The number of exploded edges over the selected layers in `[lo, hi)`; a
/// count beyond `usize` is held at its largest value.
pub fn edge_exploded_count_window(e: &EdgeStore, layer_ids: &LayerIds, lo: i64, hi: i64) -> (r: usize)
    requires
        e.wf(),
    ensures
        r == clamp(exploded_count_window_upto(e, layer_ids, lo, hi, e.span() as int)),
{
    let n = e.span_exec();
    let mut l: usize = 0;
    let mut total: usize = 0;
    let empty = TimeIndex::new();
    while l < n
        invariant
            e.wf(),
            n == e.span(),
            l <= n,
            empty@.len() == 0,
            empty.wf(),
            total == clamp(exploded_count_window_upto(e, layer_ids, lo, hi, l as int)),
        decreases n - l,
    {
        if layer_ids.contains(l) {
            let additions = match e.additions_of(l) {
                Some(additions) => additions,
                None => &empty,
            };
            let deletions = match e.deletions_of(l) {
                Some(deletions) => deletions,
                None => &empty,
            };
            assert(additions@ == e.adds(l as int));
            assert(deletions@ == e.dels(l as int));
            let mut len = additions.len_window(lo, hi);
            let extra: usize = if alive_at(additions, deletions, lo) {
                1
            } else {
                0
            };
            total = total.saturating_add(len).saturating_add(extra);
        }
        l += 1;
    }
    total
}

/// The number of deletions in the window over the selected layers.
pub open spec fn deletions_count(e: &EdgeStore, layers: &LayerIds, w: Option<(i64, i64)>) -> nat {
    crate::layered::merged_deletions(e, layers, crate::time_index::lo_of(w), crate::time_index::hi_of(w), e.span() as int).len()
}

/// The deletion times in the window over the selected layers, ordered by
/// entry and then by layer.
pub fn deletion_history(e: &EdgeStore, layer_ids: &LayerIds, w: Option<(i64, i64)>) -> (r: Vec<i64>)
    requires
        e.wf(),
    ensures
        r@.len() == deletions_count(e, layer_ids, w),
        forall|i: int| 0 <= i < r@.len() ==> #[trigger] r@[i]
            == crate::layered::merged_deletions(e, layer_ids, crate::time_index::lo_of(w), crate::time_index::hi_of(w), e.span() as int)[i].0.0.t,
{
    let m = crate::layered::merge_deletions(e, layer_ids, w);
    let mut out: Vec<i64> = Vec::new();
    let mut i: usize = 0;
    while i < m.len()
        invariant
            i <= m@.len(),
            out@.len() == i,
            forall|j: int| 0 <= j < i ==> #[trigger] out@[j] == m@[j].0.0.t,
        decreases m@.len() - i,
    {
        out.push(m[i].0.0.t);
        i += 1;
    }
    out
}

/// The number of additions in `[lo, hi)` over the selected layers below `n`.
pub open spec fn count_in_layers(e: &EdgeStore, layers: &LayerIds, lo: int, hi: int, n: int) -> nat
    decreases n,
{
    if n <= 0 {
        0
    } else {
        count_in_layers(e, layers, lo, hi, n - 1) + if layers.selects((n - 1) as usize) {
            count_in(e.adds(n - 1), lo, hi)
        } else {
            0nat
        }
    }
}

/// The number of additions in the window over the selected layers: the
/// exploded edges of an event edge.  A count beyond `usize` is held at its
/// largest value.
pub fn edge_additions_count(e: &EdgeStore, layer_ids: &LayerIds, w: Option<(i64, i64)>) -> (r: usize)
    requires
        e.wf(),
    ensures
        r == clamp(count_in_layers(e, layer_ids, crate::time_index::lo_of(w), crate::time_index::hi_of(w), e.span() as int)),
{
    let n = e.span_exec();
    let mut l: usize = 0;
    let mut total: usize = 0;
    while l < n
        invariant
            e.wf(),
            n == e.span(),
            l <= n,
            total == clamp(count_in_layers(e, layer_ids, crate::time_index::lo_of(w), crate::time_index::hi_of(w), l as int)),
        decreases n - l,
    {
        if layer_ids.contains(l) {
            let c = match e.additions_of(l) {
                Some(a) => match w {
                    Some((lo, hi)) => a.len_window(lo, hi),
                    None => {
                        proof {
                            crate::time_index::lemma_count_all(a@);
                        }
                        a.len()
                    },
                },
                None => 0,
            };
            total = total.saturating_add(c);
        }
        l += 1;
    }
    total
}

} // verus!
