use vstd::prelude::*;

use crate::edge_view::opt_value;
use crate::persistent::{next_t, next_t_exec};
use crate::prop::{last_write_before, writes_in, writes_match, Prop, PropValue};
use crate::time_index::{first_in, first_of, hi_of, last_in, last_of, lo_of, t_of, times_in, TimeIndexEntry};
use crate::view::GraphView;

verus! {

/// The first time of a node in a view.  A persistent node exists from its
/// first event on, so a window that opens later starts with it.
pub open spec fn node_earliest(ts: Seq<TimeIndexEntry>, persistent: bool, w: Option<(i64, i64)>) -> Option<i64> {
    match w {
        None => t_of(first_of(ts)),
        Some((lo, hi)) => if lo >= hi {
            None
        } else if !persistent {
            t_of(first_in(ts, lo as int, hi as int))
        } else {
            match first_of(ts) {
                Some(f) => if f.t <= lo {
                    Some(lo)
                } else if f.t < hi {
                    Some(f.t)
                } else {
                    None
                },
                None => None,
            }
        },
    }
}

/// The last time of a node in a view.  A persistent node never expires: it
/// lasts to the end of the view.
pub open spec fn node_latest(ts: Seq<TimeIndexEntry>, persistent: bool, w: Option<(i64, i64)>) -> Option<i64> {
    match w {
        None => if persistent {
            Some(i64::MAX)
        } else {
            t_of(last_of(ts))
        },
        Some((lo, hi)) => if lo >= hi {
            None
        } else if !persistent {
            t_of(last_in(ts, lo as int, hi as int))
        } else {
            match first_of(ts) {
                Some(f) => if f.t < hi {
                    Some((hi - 1) as i64)
                } else {
                    None
                },
                None => None,
            }
        },
    }
}

/// The values of a node's temporal property with log `log` in a view.  In a
/// persistent window the value in force at its start shows at the start.
pub open spec fn node_prop_values(log: Seq<(TimeIndexEntry, PropValue)>, persistent: bool, w: Option<(i64, i64)>) -> Seq<(i64, PropValue)> {
    match w {
        None => writes_in(log, lo_of(w), hi_of(w)),
        Some((lo, hi)) => if lo >= hi {
            Seq::empty()
        } else if persistent {
            let start: Seq<(i64, PropValue)> = match last_write_before(log, next_t(lo)) {
                Some(x) => seq![(lo, x.1)],
                None => Seq::empty(),
            };
            start + writes_in(log, next_t(lo), hi as int)
        } else {
            writes_in(log, lo as int, hi as int)
        },
    }
}

/// The decimal digits of `n`.
pub open spec fn decimal(n: nat) -> Seq<char>
    decreases n,
{
    if n < 10 {
        seq![digit_char(n)]
    } else {
        decimal(n / 10).push(digit_char(n % 10))
    }
}

pub open spec fn digit_char(d: nat) -> char {
    if d == 0 {
        '0'
    } else if d == 1 {
        '1'
    } else if d == 2 {
        '2'
    } else if d == 3 {
        '3'
    } else if d == 4 {
        '4'
    } else if d == 5 {
        '5'
    } else if d == 6 {
        '6'
    } else if d == 7 {
        '7'
    } else if d == 8 {
        '8'
    } else {
        '9'
    }
}

fn digit(d: u64) -> (r: char)
    requires
        d < 10,
    ensures
        r == digit_char(d as nat),
{
    if d == 0 {
        '0'
    } else if d == 1 {
        '1'
    } else if d == 2 {
        '2'
    } else if d == 3 {
        '3'
    } else if d == 4 {
        '4'
    } else if d == 5 {
        '5'
    } else if d == 6 {
        '6'
    } else if d == 7 {
        '7'
    } else if d == 8 {
        '8'
    } else {
        '9'
    }
}

/// Relies on `String::push`, which appends one character to the string.
#[verifier::external_body]
fn push_char(s: &mut String, c: char)
    ensures
        final(s)@ == old(s)@.push(c),
{
    s.push(c)
}

/// The decimal digits of `n`.
pub fn decimal_string(n: u64) -> (r: String)
    ensures
        r@ == decimal(n as nat),
{
    let mut digits: Vec<char> = Vec::new();
    let mut m = n;
    loop
        invariant_except_break
            decimal(n as nat) == decimal(m as nat) + digits@.reverse(),
        ensures
            decimal(n as nat) == digits@.reverse(),
        decreases m,
    {
        digits.push(digit(m % 10));
        proof {
            let d = digits@;
            assert(d.reverse() =~= seq![digit_char((m % 10) as nat)] + d.drop_last().reverse()) by {
                assert forall|i: int| 0 <= i < d.len() implies d.reverse()[i] == (seq![digit_char((m % 10) as nat)] + d.drop_last().reverse())[i] by {
                    if i > 0 {
                        assert(d.reverse()[i] == d[d.len() - 1 - i]);
                    }
                }
            }
        }
        if m < 10 {
            proof {
                assert(decimal(n as nat) =~= digits@.reverse()) by {
                    assert(decimal(m as nat) == seq![digit_char(m as nat)]);
                }
            }
            break;
        }
        proof {
            assert(decimal(m as nat) == decimal((m / 10) as nat).push(digit_char((m % 10) as nat)));
            assert(decimal(m as nat) + digits@.drop_last().reverse() =~= decimal((m / 10) as nat) + digits@.reverse());
        }
        m = m / 10;
    }
    let mut out = String::new();
    let mut i: usize = digits.len();
    while i > 0
        invariant
            i <= digits@.len(),
            out@ == digits@.subrange(i as int, digits@.len() as int).reverse(),
        decreases i,
    {
        push_char(&mut out, digits[i - 1]);
        proof {
            assert(digits@.subrange(i - 1, digits@.len() as int).reverse() =~= digits@.subrange(i as int, digits@.len() as int).reverse().push(digits@[i - 1]));
        }
        i -= 1;
    }
    proof {
        assert(digits@.subrange(0, digits@.len() as int) =~= digits@);
    }
    out
}

/// A view of one node.
pub struct NodeView<'a> {
    pub view: GraphView<'a>,
    pub vid: usize,
}

impl<'a> NodeView<'a> {
    pub open spec fn wf(&self) -> bool {
        self.view.wf() && self.vid < self.view.graph.nodes@.len()
    }

    pub open spec fn times(&self) -> Seq<TimeIndexEntry> {
        self.view.graph.nodes@[self.vid as int].timestamps@
    }

    /// The number of edges in the view that leave this node.
    pub fn out_degree(&self) -> (r: usize)
        requires
            self.wf(),
        ensures
            r == crate::view::out_count(self.view.graph, self.view.persistent, self.view.window, &self.view.layers, self.vid, self.view.graph.edges@.len() as int),
    {
        self.view.out_degree(self.vid)
    }

    /// The node's external id.
    pub fn id(&self) -> (r: u64)
        requires
            self.wf(),
        ensures
            r == self.view.graph.nodes@[self.vid as int].gid,
    {
        self.view.graph.nodes[self.vid].gid
    }

    /// The node's name: its external id in decimal.
    pub fn name(&self) -> (r: String)
        requires
            self.wf(),
        ensures
            r@ == decimal(self.view.graph.nodes@[self.vid as int].gid as nat),
    {
        decimal_string(self.id())
    }

    fn with_view(&self, view: GraphView<'a>) -> (r: NodeView<'a>)
        ensures
            r.view == view,
            r.vid == self.vid,
    {
        NodeView { view, vid: self.vid }
    }

    pub fn window(&self, lo: i64, hi: i64) -> (r: NodeView<'a>)
        requires
            self.wf(),
        ensures
            r.wf(),
            r.vid == self.vid,
            r.view.graph == self.view.graph && r.view.persistent == self.view.persistent,
            r.view.window == crate::view::narrow(self.view.window, lo, hi),
    {
        self.with_view(self.view.window(lo, hi))
    }

    pub fn at(&self, t: i64) -> (r: NodeView<'a>)
        requires
            self.wf(),
        ensures
            r.wf(),
            r.vid == self.vid,
            r.view.graph == self.view.graph && r.view.persistent == self.view.persistent,
            r.view.window == crate::view::narrow(self.view.window, t, if t == i64::MAX { t } else { (t + 1) as i64 }),
    {
        self.with_view(self.view.at(t))
    }

    pub fn before(&self, t: i64) -> (r: NodeView<'a>)
        requires
            self.wf(),
        ensures
            r.wf(),
            r.vid == self.vid,
            r.view.graph == self.view.graph && r.view.persistent == self.view.persistent,
            r.view.window == crate::view::narrow(self.view.window, i64::MIN, t),
    {
        self.with_view(self.view.before(t))
    }

    pub fn after(&self, t: i64) -> (r: NodeView<'a>)
        requires
            self.wf(),
        ensures
            r.wf(),
            r.vid == self.vid,
            r.view.graph == self.view.graph && r.view.persistent == self.view.persistent,
            r.view.window == crate::view::narrow(self.view.window, if t == i64::MAX { t } else { (t + 1) as i64 }, i64::MAX),
    {
        self.with_view(self.view.after(t))
    }

    pub fn earliest_time(&self) -> (r: Option<i64>)
        requires
            self.wf(),
        ensures
            r == node_earliest(self.times(), self.view.persistent, self.view.window),
    {
        let ts = &self.view.graph.nodes[self.vid].timestamps;
        match self.view.window {
            None => ts.first_t(),
            Some((lo, hi)) => if lo >= hi {
                None
            } else if !self.view.persistent {
                match ts.first_in(lo, hi) {
                    Some(x) => Some(x.t),
                    None => None,
                }
            } else {
                match ts.first_t() {
                    Some(f) => if f <= lo {
                        Some(lo)
                    } else if f < hi {
                        Some(f)
                    } else {
                        None
                    },
                    None => None,
                }
            },
        }
    }

    pub fn latest_time(&self) -> (r: Option<i64>)
        requires
            self.wf(),
        ensures
            r == node_latest(self.times(), self.view.persistent, self.view.window),
    {
        let ts = &self.view.graph.nodes[self.vid].timestamps;
        match self.view.window {
            None => if self.view.persistent {
                Some(i64::MAX)
            } else {
                ts.last_t()
            },
            Some((lo, hi)) => if lo >= hi {
                None
            } else if !self.view.persistent {
                match ts.last_in(lo, hi) {
                    Some(x) => Some(x.t),
                    None => None,
                }
            } else {
                match ts.first_t() {
                    Some(f) => if f < hi {
                        Some(hi - 1)
                    } else {
                        None
                    },
                    None => None,
                }
            },
        }
    }

    /// The times of the node's events in the view.
    pub fn history(&self) -> (r: Vec<i64>)
        requires
            self.wf(),
        ensures
            r@ == times_in(self.times(), lo_of(self.view.window), hi_of(self.view.window)),
    {
        let ts = &self.view.graph.nodes[self.vid].timestamps;
        match self.view.window {
            Some((lo, hi)) => ts.times_window(lo, hi),
            None => {
                let r = ts.times();
                proof {
                    lemma_times_all(self.times(), r@);
                }
                r
            },
        }
    }

    /// The values of temporal property `name` in the view, as `(t, value)`.
    pub fn temporal_values(&self, name: &str) -> (r: Vec<(i64, Prop)>)
        requires
            self.wf(),
        ensures
            match self.view.graph.node_temporal_keys.find_spec(name@) {
                Some(k) => writes_match(r@, node_prop_values(self.view.graph.nodes@[self.vid as int].props.temporal_log(k), self.view.persistent, self.view.window)),
                None => r@.len() == 0,
            },
    {
        let k = match self.view.graph.node_temporal_keys.find(name) {
            Some(k) => k,
            None => {
                return Vec::new();
            },
        };
        let node = &self.view.graph.nodes[self.vid];
        let log = match node.props.temporal(k) {
            Some(log) => log,
            None => {
                proof {
                    let v = node_prop_values(node.props.temporal_log(k), self.view.persistent, self.view.window);
                    lemma_empty_log_values(node.props.temporal_log(k), self.view.persistent, self.view.window);
                }
                return Vec::new();
            },
        };
        match self.view.window {
            None => log.window_all(),
            Some((lo, hi)) => if lo >= hi {
                Vec::new()
            } else if self.view.persistent {
                let mut out: Vec<(i64, Prop)> = Vec::new();
                let next = next_t_exec(lo);
                match log.last_before(next) {
                    Some((_, v)) => out.push((lo, v)),
                    None => {},
                }
                let rest = log.window(next, hi);
                let ghost head = out@;
                let base = out.len();
                let mut i: usize = 0;
                let mut rest = rest;
                let ghost all_rest = rest@;
                let total = rest.len();
                while rest.len() > 0
                    invariant
                        all_rest.len() == total,
                        rest@ == all_rest.subrange(i as int, all_rest.len() as int),
                        i <= all_rest.len(),
                        out@.len() == base + i,
                        out@.subrange(0, base as int) == head,
                        forall|j: int| 0 <= j < i ==> #[trigger] out@[base + j] == all_rest[j],
                    decreases rest@.len(),
                {
                    let x = rest.remove(0);
                    out.push(x);
                    proof {
                        assert(out@.subrange(0, base as int) =~= head);
                        assert(rest@ =~= all_rest.subrange(i + 1, all_rest.len() as int));
                    }
                    i += 1;
                }
                proof {
                    let v = node_prop_values(log@, true, self.view.window);
                    let tail = writes_in(log@, next_t(lo), hi as int);
                    assert forall|j: int| 0 <= j < out@.len() implies (#[trigger] out@[j]).0 == v[j].0 && out@[j].1@ == v[j].1 by {
                        if j >= base {
                            assert(out@[base + (j - base)] == all_rest[j - base]);
                        } else {
                            assert(out@[j] == head[j]);
                        }
                    }
                }
                out
            } else {
                log.window(lo, hi)
            },
        }
    }

    /// The value of property `name` in the view: its last temporal value, or
    /// else its constant value.
    pub fn property(&self, name: &str) -> (r: Option<Prop>)
        requires
            self.wf(),
        ensures
            opt_value(r) == node_property(
                self.view.graph.nodes@[self.vid as int].props,
                self.view.persistent,
                self.view.window,
                self.view.graph.node_temporal_keys.find_spec(name@),
                self.view.graph.node_const_keys.find_spec(name@),
            ),
    {
        let values = self.temporal_values(name);
        if values.len() > 0 {
            return Some(values[values.len() - 1].1.duplicate());
        }
        match self.view.graph.node_const_keys.find(name) {
            Some(kc) => match self.view.graph.nodes[self.vid].props.constant(kc) {
                Some(p) => Some(p.duplicate()),
                None => None,
            },
            None => None,
        }
    }
}

/// The value of a property of a node in a view: its last temporal value
/// (temporal key `kt`), or else its constant value (constant key `kc`).
pub open spec fn node_property(
    props: crate::entities::PropStore,
    persistent: bool,
    w: Option<(i64, i64)>,
    kt: Option<usize>,
    kc: Option<usize>,
) -> Option<PropValue> {
    let values = match kt {
        Some(k) => node_prop_values(props.temporal_log(k), persistent, w),
        None => Seq::empty(),
    };
    if values.len() > 0 {
        Some(values.last().1)
    } else {
        match kc {
            Some(k) => props.constant_value(k),
            None => None,
        }
    }
}

proof fn lemma_empty_log_values(log: Seq<(TimeIndexEntry, PropValue)>, persistent: bool, w: Option<(i64, i64)>)
    requires
        log.len() == 0,
    ensures
        node_prop_values(log, persistent, w).len() == 0,
{
    assert(writes_in(log, lo_of(w), hi_of(w)).len() == 0);
    match w {
        Some((lo, hi)) => {
            assert(writes_in(log, next_t(lo), hi as int).len() == 0);
            assert(writes_in(log, lo as int, hi as int).len() == 0);
        },
        None => {},
    }
}

/// Without a window every time is in view.
proof fn lemma_times_all(s: Seq<TimeIndexEntry>, r: Seq<i64>)
    requires
        r == s.map_values(|e: TimeIndexEntry| e.t),
    ensures
        r == times_in(s, lo_of(None), hi_of(None)),
    decreases s.len(),
{
    if s.len() > 0 {
        let d = s.drop_last();
        lemma_times_all(d, d.map_values(|e: TimeIndexEntry| e.t));
        assert(r =~= d.map_values(|e: TimeIndexEntry| e.t).push(s.last().t));
    } else {
        assert(r =~= Seq::<i64>::empty());
    }
}

} // verus!
