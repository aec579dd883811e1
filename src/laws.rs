use vstd::prelude::*;

use crate::entities::EdgeStore;
use crate::layer_ids::LayerIds;
use crate::layered::{entries_in, insert_by_key, insert_entries, key_lt, merged_additions};
use crate::persistent::{
    exploded_count_upto, exploded_count_window_upto, is_alive_at, is_deleted_at, is_edge_active, is_edge_alive_at_start, layer_alive_at_start, next_t,
};
use crate::storage::GraphStorage;
use crate::time_index::{
    any_in, entry_lt, first_in, first_of, in_window, last_in, lemma_any_in_mono, lemma_first_in,
    strictly_sorted, TimeIndexEntry,
};
use crate::view::{count_in_view, edge_in_view, edges_in_view, has_update, layer_has_update, narrow};

verus! {

/// A view at `t` is the view of the window `[t, t + 1)`: both narrow the
/// view's window in the same way, so every query answers alike.
pub proof fn at_is_window(w: Option<(i64, i64)>, t: i64)
    requires
        t < i64::MAX,
    ensures
        narrow(w, t, next_t(t) as i64) == narrow(w, t, (t + 1) as i64),
{
}

/// Selecting the layers of `l1` and of `l2` together includes an edge exactly
/// when selecting `l1` or selecting `l2` does.
pub proof fn layer_union_edge(e: &EdgeStore, persistent: bool, w: Option<(i64, i64)>, l1: &LayerIds, l2: &LayerIds, both: &LayerIds)
    requires
        forall|l: usize| both.selects(l) == (l1.selects(l) || l2.selects(l)),
    ensures
        edge_in_view(e, persistent, w, both) == (edge_in_view(e, persistent, w, l1) || edge_in_view(e, persistent, w, l2)),
{
    match w {
        None => {
            if has_update(e, both, persistent) {
                let l = choose|l: usize| both.selects(l) && #[trigger] layer_has_update(e, l as int, persistent);
                if l1.selects(l) {
                    assert(has_update(e, l1, persistent));
                } else {
                    assert(has_update(e, l2, persistent));
                }
            }
            if has_update(e, l1, persistent) {
                let l = choose|l: usize| l1.selects(l) && #[trigger] layer_has_update(e, l as int, persistent);
                assert(both.selects(l));
            }
            if has_update(e, l2, persistent) {
                let l = choose|l: usize| l2.selects(l) && #[trigger] layer_has_update(e, l as int, persistent);
                assert(both.selects(l));
            }
        },
        Some((lo, hi)) => {
            active_union(e, lo as int, hi as int, l1, l2, both);
            alive_start_union(e, lo, l1, l2, both);
        },
    }
}

proof fn active_union(e: &EdgeStore, lo: int, hi: int, l1: &LayerIds, l2: &LayerIds, both: &LayerIds)
    requires
        forall|l: usize| both.selects(l) == (l1.selects(l) || l2.selects(l)),
    ensures
        is_edge_active(e, both, lo, hi) == (is_edge_active(e, l1, lo, hi) || is_edge_active(e, l2, lo, hi)),
{
    if is_edge_active(e, both, lo, hi) {
        let l = choose|l: usize| both.selects(l) && #[trigger] any_in(e.adds(l as int), lo, hi);
        if l1.selects(l) {
            assert(is_edge_active(e, l1, lo, hi));
        } else {
            assert(is_edge_active(e, l2, lo, hi));
        }
    }
    if is_edge_active(e, l1, lo, hi) {
        let l = choose|l: usize| l1.selects(l) && #[trigger] any_in(e.adds(l as int), lo, hi);
        assert(both.selects(l));
    }
    if is_edge_active(e, l2, lo, hi) {
        let l = choose|l: usize| l2.selects(l) && #[trigger] any_in(e.adds(l as int), lo, hi);
        assert(both.selects(l));
    }
}

proof fn alive_start_union(e: &EdgeStore, t: i64, l1: &LayerIds, l2: &LayerIds, both: &LayerIds)
    requires
        forall|l: usize| both.selects(l) == (l1.selects(l) || l2.selects(l)),
    ensures
        is_edge_alive_at_start(e, t, both) == (is_edge_alive_at_start(e, t, l1) || is_edge_alive_at_start(e, t, l2)),
{
    if is_edge_alive_at_start(e, t, both) {
        let l = choose|l: usize| both.selects(l) && #[trigger] layer_alive_at_start(e, l as int, t);
        if l1.selects(l) {
            assert(is_edge_alive_at_start(e, t, l1));
        } else {
            assert(is_edge_alive_at_start(e, t, l2));
        }
    }
    if is_edge_alive_at_start(e, t, l1) {
        let l = choose|l: usize| l1.selects(l) && #[trigger] layer_alive_at_start(e, l as int, t);
        assert(both.selects(l));
    }
    if is_edge_alive_at_start(e, t, l2) {
        let l = choose|l: usize| l2.selects(l) && #[trigger] layer_alive_at_start(e, l as int, t);
        assert(both.selects(l));
    }
}

/// Which edges a view holds: those below `n` that belong in it.
pub proof fn edges_in_view_members(g: &GraphStorage, persistent: bool, w: Option<(i64, i64)>, layers: &LayerIds, n: int, i: usize)
    requires
        0 <= n <= g.edges@.len(),
    ensures
        edges_in_view(g, persistent, w, layers, n).contains(i) <==> (i < n && edge_in_view(&g.edges@[i as int], persistent, w, layers)),
    decreases n,
{
    assert(g.edges@.len() == g.edges.len());
    if n > 0 {
        edges_in_view_members(g, persistent, w, layers, n - 1, i);
        let s = edges_in_view(g, persistent, w, layers, n - 1);
        if edge_in_view(&g.edges@[n - 1], persistent, w, layers) {
            crate::layer_ids::lemma_contains_push(s, (n - 1) as usize, i);
        }
    }
}

/// The edges of a view over the union of two layer selections are the
/// edges of the view over either.
pub proof fn layer_distributivity(g: &GraphStorage, persistent: bool, w: Option<(i64, i64)>, l1: &LayerIds, l2: &LayerIds, both: &LayerIds)
    requires
        forall|l: usize| both.selects(l) == (l1.selects(l) || l2.selects(l)),
    ensures
        forall|i: usize| #[trigger] edges_in_view(g, persistent, w, both, g.edges@.len() as int).contains(i)
            <==> (edges_in_view(g, persistent, w, l1, g.edges@.len() as int).contains(i)
                || edges_in_view(g, persistent, w, l2, g.edges@.len() as int).contains(i)),
{
    let n = g.edges@.len() as int;
    assert forall|i: usize| #[trigger] edges_in_view(g, persistent, w, both, n).contains(i)
        <==> (edges_in_view(g, persistent, w, l1, n).contains(i) || edges_in_view(g, persistent, w, l2, n).contains(i)) by {
        edges_in_view_members(g, persistent, w, both, n, i);
        edges_in_view_members(g, persistent, w, l1, n, i);
        edges_in_view_members(g, persistent, w, l2, n, i);
        if i < n {
            layer_union_edge(&g.edges@[i as int], persistent, w, l1, l2, both);
        }
    }
}

/// Keys that never decrease.
pub open spec fn keys_ordered<V>(s: Seq<((TimeIndexEntry, usize), V)>) -> bool {
    forall|i: int, j: int| 0 <= i < j < s.len() ==> !key_lt((#[trigger] s[j]).0, (#[trigger] s[i]).0)
}

proof fn insert_members<V>(s: Seq<((TimeIndexEntry, usize), V)>, x: ((TimeIndexEntry, usize), V))
    ensures
        insert_by_key(s, x).len() == s.len() + 1,
        forall|k: int| 0 <= k < insert_by_key(s, x).len() ==> #[trigger] insert_by_key(s, x)[k] == x || s.contains(insert_by_key(s, x)[k]),
    decreases s.len(),
{
    if s.len() > 0 && !key_lt(s.last().0, x.0) {
        let d = s.drop_last();
        insert_members(d, x);
        let r = insert_by_key(s, x);
        assert forall|k: int| 0 <= k < r.len() implies #[trigger] r[k] == x || s.contains(r[k]) by {
            if k < r.len() - 1 {
                let q = insert_by_key(d, x);
                assert(r[k] == q[k]);
                if q[k] != x {
                    let m = choose|m: int| 0 <= m < d.len() && d[m] == q[k];
                    assert(s[m] == q[k]);
                }
            } else {
                assert(r[k] == s.last());
                assert(s[s.len() - 1] == s.last());
            }
        }
    } else if s.len() > 0 {
        let r = insert_by_key(s, x);
        assert forall|k: int| 0 <= k < r.len() implies #[trigger] r[k] == x || s.contains(r[k]) by {
            if k < s.len() {
                assert(r[k] == s[k]);
            }
        }
    }
}

/// Placing an item by key keeps keys in order.
pub proof fn insert_keeps_order<V>(s: Seq<((TimeIndexEntry, usize), V)>, x: ((TimeIndexEntry, usize), V))
    requires
        keys_ordered(s),
    ensures
        keys_ordered(insert_by_key(s, x)),
    decreases s.len(),
{
    if s.len() > 0 {
        let r = insert_by_key(s, x);
        if key_lt(s.last().0, x.0) {
            assert forall|i: int, j: int| 0 <= i < j < r.len() implies !key_lt((#[trigger] r[j]).0, (#[trigger] r[i]).0) by {
                if j == s.len() {
                    assert(r[i] == s[i]);
                    if i < s.len() - 1 {
                        assert(!key_lt(s[s.len() - 1].0, s[i].0));
                    }
                } else {
                    assert(r[i] == s[i] && r[j] == s[j]);
                }
            }
        } else {
            let d = s.drop_last();
            assert(keys_ordered(d)) by {
                assert forall|i: int, j: int| 0 <= i < j < d.len() implies !key_lt((#[trigger] d[j]).0, (#[trigger] d[i]).0) by {
                    assert(d[i] == s[i] && d[j] == s[j]);
                }
            }
            insert_keeps_order(d, x);
            insert_members(d, x);
            let q = insert_by_key(d, x);
            assert forall|i: int, j: int| 0 <= i < j < r.len() implies !key_lt((#[trigger] r[j]).0, (#[trigger] r[i]).0) by {
                if j == r.len() - 1 {
                    assert(r[j] == s.last());
                    assert(r[i] == q[i]);
                    if q[i] != x {
                        let m = choose|m: int| 0 <= m < d.len() && d[m] == q[i];
                        assert(s[m] == d[m]);
                        assert(!key_lt(s[s.len() - 1].0, s[m].0));
                    }
                } else {
                    assert(r[i] == q[i] && r[j] == q[j]);
                }
            }
        }
    }
}

proof fn insert_entries_keeps_order(acc: Seq<((TimeIndexEntry, usize), ())>, s: Seq<TimeIndexEntry>, l: usize)
    requires
        keys_ordered(acc),
    ensures
        keys_ordered(insert_entries(acc, s, l)),
    decreases s.len(),
{
    if s.len() > 0 {
        insert_entries_keeps_order(acc, s.drop_last(), l);
        insert_keeps_order(insert_entries(acc, s.drop_last(), l), ((s.last(), l), ()));
    }
}

proof fn merged_additions_ordered(e: &EdgeStore, layers: &LayerIds, lo: int, hi: int, n: int)
    ensures
        keys_ordered(merged_additions(e, layers, lo, hi, n)),
    decreases n,
{
    if n > 0 {
        merged_additions_ordered(e, layers, lo, hi, n - 1);
        if layers.selects((n - 1) as usize) {
            insert_entries_keeps_order(merged_additions(e, layers, lo, hi, n - 1), entries_in(e.adds(n - 1), lo, hi), (n - 1) as usize);
        }
    }
}

/// The history of an edge in any view is ordered: its entries never
/// decrease in `(t, seq)`, so its times never decrease.
pub proof fn history_ordered(e: &EdgeStore, layers: &LayerIds, lo: int, hi: int)
    ensures
        forall|i: int, j: int| 0 <= i < j < merged_additions(e, layers, lo, hi, e.span() as int).len() ==> (#[trigger] merged_additions(e, layers, lo, hi, e.span() as int)[i]).0.0.t
            <= (#[trigger] merged_additions(e, layers, lo, hi, e.span() as int)[j]).0.0.t,
{
    merged_additions_ordered(e, layers, lo, hi, e.span() as int);
}

/// Where `last_in` finds its entry: the last position in the window.
proof fn last_in_position(s: Seq<TimeIndexEntry>, lo: int, hi: int)
    ensures
        match last_in(s, lo, hi) {
            Some(x) => exists|k: int| 0 <= k < s.len() && s[k] == x && in_window(x, lo, hi)
                && forall|j: int| k < j < s.len() ==> !in_window(#[trigger] s[j], lo, hi),
            None => forall|j: int| 0 <= j < s.len() ==> !in_window(#[trigger] s[j], lo, hi),
        },
    decreases s.len(),
{
    if s.len() > 0 {
        let d = s.drop_last();
        last_in_position(d, lo, hi);
        if !in_window(s.last(), lo, hi) {
            match last_in(d, lo, hi) {
                Some(x) => {
                    let k = choose|k: int| 0 <= k < d.len() && d[k] == x && in_window(x, lo, hi)
                        && forall|j: int| k < j < d.len() ==> !in_window(#[trigger] d[j], lo, hi);
                    assert(s[k] == x);
                    assert forall|j: int| k < j < s.len() implies !in_window(#[trigger] s[j], lo, hi) by {
                        if j < d.len() {
                            assert(s[j] == d[j]);
                        }
                    }
                },
                None => {
                    assert forall|j: int| 0 <= j < s.len() implies !in_window(#[trigger] s[j], lo, hi) by {
                        if j < d.len() {
                            assert(s[j] == d[j]);
                        }
                    }
                },
            }
        } else {
            assert(s[s.len() - 1] == s.last());
        }
    }
}

/// The entry at the last position in a window is what `last_in` finds.
proof fn last_in_at(s: Seq<TimeIndexEntry>, lo: int, hi: int, k: int)
    requires
        0 <= k < s.len(),
        in_window(s[k], lo, hi),
        forall|j: int| k < j < s.len() ==> !in_window(#[trigger] s[j], lo, hi),
    ensures
        last_in(s, lo, hi) == Some(s[k]),
{
    last_in_position(s, lo, hi);
    match last_in(s, lo, hi) {
        Some(x) => {
            let m = choose|m: int| 0 <= m < s.len() && s[m] == x && in_window(x, lo, hi)
                && forall|j: int| m < j < s.len() ==> !in_window(#[trigger] s[j], lo, hi);
            if m < k {
                assert(!in_window(s[k], lo, hi));
            } else if m > k {
                assert(!in_window(s[m], lo, hi));
            }
        },
        None => {
            assert(!in_window(s[k], lo, hi));
        },
    }
}

/// Alive at the start `lo1` of a window: then added in, or alive at the
/// start of, any window `[lo2, hi2)` around it.
proof fn alive_at_widens(a: Seq<TimeIndexEntry>, d: Seq<TimeIndexEntry>, lo1: i64, lo2: i64, hi2: int)
    requires
        strictly_sorted(a),
        strictly_sorted(d),
        lo2 <= lo1,
        lo1 < hi2,
        is_alive_at(a, d, lo1),
    ensures
        any_in(a, lo2 as int, hi2) || is_alive_at(a, d, lo2),
{
    if lo2 == lo1 {
        return;
    }
    let mn = i64::MIN as int;
    lemma_first_in(d, lo2 as int, lo2 + 1);
    let only_deleted = match (first_of(a), first_of(d)) {
        (Some(x), Some(y)) => entry_lt(y, x) && y.t >= lo1,
        (None, Some(y)) => y.t >= lo1,
        _ => false,
    };
    if only_deleted {
        let y = d[0];
        if let Some(w) = first_in(d, lo2 as int, lo2 + 1) {
            let k = choose|k: int| 0 <= k < d.len() && d[k] == w;
            if k > 0 {
                assert(entry_lt(d[0], d[k]));
            }
        }
        assert(!is_deleted_at(a, d, lo2));
    } else {
        last_in_position(a, mn, lo1 as int);
        last_in_position(d, mn, lo1 as int);
        let x = last_in(a, mn, lo1 as int).unwrap();
        let kx = choose|k: int| 0 <= k < a.len() && a[k] == x && in_window(x, mn, lo1 as int)
            && forall|j: int| k < j < a.len() ==> !in_window(#[trigger] a[j], mn, lo1 as int);
        if x.t >= lo2 {
            assert(in_window(a[kx], lo2 as int, hi2));
        } else {
            assert forall|j: int| kx < j < a.len() implies !in_window(#[trigger] a[j], mn, lo2 as int) by {
                assert(!in_window(a[j], mn, lo1 as int));
            }
            last_in_at(a, mn, lo2 as int, kx);
            last_in_position(d, mn, lo2 as int);
            if let Some(z) = last_in(d, mn, lo2 as int) {
                let kz = choose|k: int| 0 <= k < d.len() && d[k] == z && in_window(z, mn, lo2 as int)
                    && forall|j: int| k < j < d.len() ==> !in_window(#[trigger] d[j], mn, lo2 as int);
                let u = last_in(d, mn, lo1 as int).unwrap();
                let ku = choose|k: int| 0 <= k < d.len() && d[k] == u && in_window(u, mn, lo1 as int)
                    && forall|j: int| k < j < d.len() ==> !in_window(#[trigger] d[j], mn, lo1 as int);
                if kz > ku {
                    assert(!in_window(d[kz], mn, lo1 as int));
                }
                if kz < ku {
                    assert(entry_lt(d[kz], d[ku]));
                }
            }
            if let Some(w) = first_in(d, lo2 as int, lo2 + 1) {
                let kw = choose|k: int| 0 <= k < d.len() && d[k] == w;
                assert(in_window(d[kw], mn, lo1 as int));
                let u = last_in(d, mn, lo1 as int).unwrap();
                let ku = choose|k: int| 0 <= k < d.len() && d[k] == u && in_window(u, mn, lo1 as int)
                    && forall|j: int| k < j < d.len() ==> !in_window(#[trigger] d[j], mn, lo1 as int);
                if kw > ku {
                    assert(!in_window(d[kw], mn, lo1 as int));
                }
                if kw < ku {
                    assert(entry_lt(d[kw], d[ku]));
                }
            }
            assert(!is_deleted_at(a, d, lo2));
        }
    }
}

/// A persistent edge in the window `[lo1, hi1)` is in any window
/// `[lo2, hi2)` around it; so is an event edge.
pub proof fn edge_window_widens(e: &EdgeStore, persistent: bool, layers: &LayerIds, lo1: i64, hi1: i64, lo2: i64, hi2: i64)
    requires
        e.wf(),
        lo2 <= lo1,
        hi1 <= hi2,
        edge_in_view(e, persistent, Some((lo1, hi1)), layers),
    ensures
        edge_in_view(e, persistent, Some((lo2, hi2)), layers),
{
    if is_edge_active(e, layers, lo1 as int, hi1 as int) {
        let l = choose|l: usize| layers.selects(l) && #[trigger] any_in(e.adds(l as int), lo1 as int, hi1 as int);
        lemma_any_in_mono(e.adds(l as int), lo1 as int, hi1 as int, lo2 as int, hi2 as int);
        assert(is_edge_active(e, layers, lo2 as int, hi2 as int));
    } else {
        assert(persistent);
        let l = choose|l: usize| layers.selects(l) && #[trigger] layer_alive_at_start(e, l as int, lo1);
        let li = l as int;
        if e.dels(li).len() == 0 {
            if e.adds(li)[0].t > lo2 {
                assert(in_window(e.adds(li)[0], lo2 as int, hi2 as int));
                assert(any_in(e.adds(l as int), lo2 as int, hi2 as int));
                assert(is_edge_active(e, layers, lo2 as int, hi2 as int));
            } else {
                assert(layer_alive_at_start(e, li, lo2));
            }
        } else if e.adds(li).len() == 0 {
            assert(layer_alive_at_start(e, li, lo2));
        } else {
            assert(e.has_adds(li) && e.has_dels(li));
            assert(e.additions@[li].wf() && e.deletions@[li].wf());
            alive_at_widens(e.adds(li), e.dels(li), lo1, lo2, hi2 as int);
            if any_in(e.adds(li), lo2 as int, hi2 as int) {
                assert(is_edge_active(e, layers, lo2 as int, hi2 as int));
            } else {
                assert(layer_alive_at_start(e, li, lo2));
            }
        }
    }
}

/// Window monotonicity: every edge of a view over `[lo1, hi1)` is an edge of
/// the view over any window `[lo2, hi2)` around it, and the first view
/// counts no more edges than the second.
pub proof fn window_monotonicity(g: &GraphStorage, persistent: bool, layers: &LayerIds, lo1: i64, hi1: i64, lo2: i64, hi2: i64)
    requires
        g.wf(),
        lo2 <= lo1,
        hi1 <= hi2,
    ensures
        forall|i: usize| #[trigger] edges_in_view(g, persistent, Some((lo1, hi1)), layers, g.edges@.len() as int).contains(i)
            ==> edges_in_view(g, persistent, Some((lo2, hi2)), layers, g.edges@.len() as int).contains(i),
        count_in_view(g, persistent, Some((lo1, hi1)), layers, g.edges@.len() as int)
            <= count_in_view(g, persistent, Some((lo2, hi2)), layers, g.edges@.len() as int),
{
    let n = g.edges@.len() as int;
    assert forall|i: usize| #[trigger] edges_in_view(g, persistent, Some((lo1, hi1)), layers, n).contains(i)
        implies edges_in_view(g, persistent, Some((lo2, hi2)), layers, n).contains(i) by {
        edges_in_view_members(g, persistent, Some((lo1, hi1)), layers, n, i);
        edges_in_view_members(g, persistent, Some((lo2, hi2)), layers, n, i);
        edge_window_widens(&g.edges@[i as int], persistent, layers, lo1, hi1, lo2, hi2);
    }
    count_widens(g, persistent, layers, lo1, hi1, lo2, hi2, n);
}

proof fn count_widens(g: &GraphStorage, persistent: bool, layers: &LayerIds, lo1: i64, hi1: i64, lo2: i64, hi2: i64, n: int)
    requires
        g.wf(),
        lo2 <= lo1,
        hi1 <= hi2,
        n <= g.edges@.len(),
    ensures
        count_in_view(g, persistent, Some((lo1, hi1)), layers, n) <= count_in_view(g, persistent, Some((lo2, hi2)), layers, n),
    decreases n,
{
    if n > 0 {
        count_widens(g, persistent, layers, lo1, hi1, lo2, hi2, n - 1);
        if edge_in_view(&g.edges@[n - 1], persistent, Some((lo1, hi1)), layers) {
            edge_window_widens(&g.edges@[n - 1], persistent, layers, lo1, hi1, lo2, hi2);
        }
    }
}

/// The exploded edges of an edge over two disjoint layer selections add up:
/// counting over their union gives the sum, and no layer gives none.
pub proof fn exploded_count_additive(e: &EdgeStore, l1: &LayerIds, l2: &LayerIds, both: &LayerIds, n: int)
    requires
        forall|l: usize| both.selects(l) == (l1.selects(l) || l2.selects(l)),
        forall|l: usize| !(l1.selects(l) && l2.selects(l)),
    ensures
        exploded_count_upto(e, both, n) == exploded_count_upto(e, l1, n) + exploded_count_upto(e, l2, n),
        exploded_count_upto(e, &LayerIds::Empty, n) == 0,
    decreases n,
{
    if n > 0 {
        exploded_count_additive(e, l1, l2, both, n - 1);
    }
}

/// The same within a window `[lo, hi)`.
pub proof fn exploded_count_window_additive(e: &EdgeStore, l1: &LayerIds, l2: &LayerIds, both: &LayerIds, lo: i64, hi: i64, n: int)
    requires
        forall|l: usize| both.selects(l) == (l1.selects(l) || l2.selects(l)),
        forall|l: usize| !(l1.selects(l) && l2.selects(l)),
    ensures
        exploded_count_window_upto(e, both, lo, hi, n)
            == exploded_count_window_upto(e, l1, lo, hi, n) + exploded_count_window_upto(e, l2, lo, hi, n),
        exploded_count_window_upto(e, &LayerIds::Empty, lo, hi, n) == 0,
    decreases n,
{
    if n > 0 {
        exploded_count_window_additive(e, l1, l2, both, lo, hi, n - 1);
    }
}

/// The event view of a persistent graph's records holds the same additions:
/// an edge seen with event semantics has exactly the history it has with
/// persistent semantics, in the same window and layers.
pub proof fn event_view_same_additions(p: &crate::edge_view::EdgeView, q: &crate::edge_view::EdgeView)
    requires
        p.view.graph == q.view.graph,
        p.eid == q.eid,
        p.view.window == q.view.window,
        p.view.layers == q.view.layers,
        p.view.persistent,
        !q.view.persistent,
    ensures
        p.merged() == q.merged(),
{
}

} // verus!
