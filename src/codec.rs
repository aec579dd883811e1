use vstd::prelude::*;

use vstd::bytes::{
    lemma_auto_spec_u16_to_from_le_bytes, lemma_auto_spec_u32_to_from_le_bytes, lemma_auto_spec_u64_to_from_le_bytes,
    spec_u16_to_le_bytes, spec_u32_to_le_bytes, spec_u64_to_le_bytes, u16_from_le_bytes, u16_to_le_bytes, u32_from_le_bytes,
    u32_to_le_bytes, u64_from_le_bytes, u64_to_le_bytes,
};
use vstd::slice::{slice_subrange, slice_to_vec};
use vstd::utf8::{decode_utf8, decode_utf8_encode_utf8, encode_utf8, valid_utf8};

use crate::entities::{EdgeStore, NodeStore, PropStore};
use crate::entities::keys_unique;
use crate::prop::{writes_as_log, Prop, PropValue, TProp};
use crate::storage::{GraphStorage, KeyRegistry};
use crate::time_index::{TimeIndex, TimeIndexEntry};

verus! {

/// The first bytes of every snapshot.
pub open spec fn magic() -> Seq<u8> {
    seq![0x52u8, 0x41, 0x50, 0x48, 0x53, 0x4e, 0x41, 0x50]
}

/// The format version this library writes and reads.
pub open spec fn format_version() -> u16 {
    1
}

/// The marker of little-endian numbers.
pub open spec fn little_endian() -> u8 {
    1
}

pub open spec fn enc_u64(x: u64) -> Seq<u8> {
    spec_u64_to_le_bytes(x)
}

pub open spec fn enc_i64(x: i64) -> Seq<u8> {
    spec_u64_to_le_bytes(x as u64)
}

/// A string: its UTF-8 length as a `u32`, then its UTF-8 bytes.
pub open spec fn enc_str(s: Seq<char>) -> Seq<u8> {
    spec_u32_to_le_bytes(encode_utf8(s).len() as u32) + encode_utf8(s)
}

/// Whether a string's UTF-8 length fits its `u32` prefix.
pub open spec fn str_fits(s: Seq<char>) -> bool {
    encode_utf8(s).len() <= u32::MAX
}

/// Whether a value's strings fit their length prefixes.
pub open spec fn prop_fits(p: PropValue) -> bool {
    match p {
        PropValue::Str(s) => str_fits(s),
        _ => true,
    }
}

pub open spec fn log_fits(s: Seq<(TimeIndexEntry, PropValue)>) -> bool {
    forall|i: int| 0 <= i < s.len() ==> prop_fits(#[trigger] s[i].1)
}

pub open spec fn keys_fit(s: Seq<String>) -> bool {
    forall|i: int| 0 <= i < s.len() ==> str_fits((#[trigger] s[i])@)
}

pub open spec fn store_fits(p: PropStore) -> bool {
    &&& forall|i: int| 0 <= i < p.constant@.len() ==> prop_fits((#[trigger] p.constant@[i]).1@)
    &&& forall|i: int| 0 <= i < p.temporal@.len() ==> log_fits((#[trigger] p.temporal@[i]).1@)
}

pub open spec fn edge_fits(e: EdgeStore) -> bool {
    forall|l: int| 0 <= l < e.props@.len() ==> store_fits(#[trigger] e.props@[l])
}

/// Whether every name and string value of a graph fits its `u32` length prefix.
pub open spec fn graph_fits(g: &GraphStorage) -> bool {
    &&& keys_fit(g.layers.names@)
    &&& keys_fit(g.node_const_keys.names@)
    &&& keys_fit(g.node_temporal_keys.names@)
    &&& keys_fit(g.edge_const_keys.names@)
    &&& keys_fit(g.edge_temporal_keys.names@)
    &&& keys_fit(g.graph_const_keys.names@)
    &&& keys_fit(g.graph_temporal_keys.names@)
    &&& forall|i: int| 0 <= i < g.nodes@.len() ==> store_fits((#[trigger] g.nodes@[i]).props)
    &&& forall|i: int| 0 <= i < g.edges@.len() ==> edge_fits(#[trigger] g.edges@[i])
    &&& store_fits(g.graph_props)
}

/// A value: a tag byte, then its payload.
pub open spec fn enc_prop(p: PropValue) -> Seq<u8> {
    match p {
        PropValue::Bool(b) => seq![0u8, if b { 1u8 } else { 0u8 }],
        PropValue::I64(v) => seq![1u8] + enc_i64(v),
        PropValue::U64(v) => seq![2u8] + enc_u64(v),
        PropValue::Str(s) => seq![3u8] + enc_str(s),
    }
}

pub open spec fn enc_entry(e: TimeIndexEntry) -> Seq<u8> {
    enc_i64(e.t) + enc_u64(e.seq)
}

pub open spec fn enc_entries_items(s: Seq<TimeIndexEntry>) -> Seq<u8>
    decreases s.len(),
{
    if s.len() == 0 {
        Seq::empty()
    } else {
        enc_entries_items(s.drop_last()) + enc_entry(s.last())
    }
}

/// A time index: its length, then its entries.
pub open spec fn enc_index(s: Seq<TimeIndexEntry>) -> Seq<u8> {
    enc_u64(s.len() as u64) + enc_entries_items(s)
}

pub open spec fn enc_writes_items(s: Seq<(TimeIndexEntry, PropValue)>) -> Seq<u8>
    decreases s.len(),
{
    if s.len() == 0 {
        Seq::empty()
    } else {
        enc_writes_items(s.drop_last()) + enc_entry(s.last().0) + enc_prop(s.last().1)
    }
}

/// A temporal property log: its length, then each write.
pub open spec fn enc_log(s: Seq<(TimeIndexEntry, PropValue)>) -> Seq<u8> {
    enc_u64(s.len() as u64) + enc_writes_items(s)
}

pub open spec fn enc_keys_items(s: Seq<String>) -> Seq<u8>
    decreases s.len(),
{
    if s.len() == 0 {
        Seq::empty()
    } else {
        enc_keys_items(s.drop_last()) + enc_str(s.last()@)
    }
}

/// A name table: its length, then each name.
pub open spec fn enc_keys(s: Seq<String>) -> Seq<u8> {
    enc_u64(s.len() as u64) + enc_keys_items(s)
}

pub open spec fn enc_consts_items(s: Seq<(usize, Prop)>) -> Seq<u8>
    decreases s.len(),
{
    if s.len() == 0 {
        Seq::empty()
    } else {
        enc_consts_items(s.drop_last()) + enc_u64(s.last().0 as u64) + enc_prop(s.last().1@)
    }
}

pub open spec fn enc_temps_items(s: Seq<(usize, TProp)>) -> Seq<u8>
    decreases s.len(),
{
    if s.len() == 0 {
        Seq::empty()
    } else {
        enc_temps_items(s.drop_last()) + enc_u64(s.last().0 as u64) + enc_log(s.last().1@)
    }
}

/// Properties: the constant ones (count, then key and value each), then the
/// temporal ones (count, then key and log each).
pub open spec fn enc_store(p: PropStore) -> Seq<u8> {
    enc_u64(p.constant@.len() as u64) + enc_consts_items(p.constant@) + enc_u64(p.temporal@.len() as u64) + enc_temps_items(p.temporal@)
}

pub open spec fn enc_node(n: NodeStore) -> Seq<u8> {
    enc_u64(n.gid) + enc_index(n.timestamps@) + enc_store(n.props)
}

pub open spec fn enc_indices_items(s: Seq<TimeIndex>) -> Seq<u8>
    decreases s.len(),
{
    if s.len() == 0 {
        Seq::empty()
    } else {
        enc_indices_items(s.drop_last()) + enc_index(s.last()@)
    }
}

pub open spec fn enc_stores_items(s: Seq<PropStore>) -> Seq<u8>
    decreases s.len(),
{
    if s.len() == 0 {
        Seq::empty()
    } else {
        enc_stores_items(s.drop_last()) + enc_store(s.last())
    }
}

pub open spec fn enc_edge(e: EdgeStore) -> Seq<u8> {
    enc_u64(e.src as u64) + enc_u64(e.dst as u64)
        + enc_u64(e.additions@.len() as u64) + enc_indices_items(e.additions@)
        + enc_u64(e.deletions@.len() as u64) + enc_indices_items(e.deletions@)
        + enc_u64(e.props@.len() as u64) + enc_stores_items(e.props@)
}

pub open spec fn enc_nodes_items(s: Seq<NodeStore>) -> Seq<u8>
    decreases s.len(),
{
    if s.len() == 0 {
        Seq::empty()
    } else {
        enc_nodes_items(s.drop_last()) + enc_node(s.last())
    }
}

pub open spec fn enc_edges_items(s: Seq<EdgeStore>) -> Seq<u8>
    decreases s.len(),
{
    if s.len() == 0 {
        Seq::empty()
    } else {
        enc_edges_items(s.drop_last()) + enc_edge(s.last())
    }
}

/// Whether `b` starts with neither variant's header.
pub open spec fn not_a_header(b: Seq<u8>) -> bool {
    b.len() < 12 || (b.subrange(0, 12) != enc_header(true) && b.subrange(0, 12) != enc_header(false))
}

/// The header: magic, format version, variant (0 event, 1 persistent),
/// endianness marker.
pub open spec fn enc_header(persistent: bool) -> Seq<u8> {
    magic() + spec_u16_to_le_bytes(format_version()) + seq![if persistent { 1u8 } else { 0u8 }, little_endian()]
}

/// A snapshot: the header, then the name tables, the nodes, the edges, the
/// graph's properties and the sequence counter.
pub open spec fn enc_graph(g: &GraphStorage, persistent: bool) -> Seq<u8> {
    enc_header(persistent) + enc_body(g)
}

/// What follows the header.
pub open spec fn enc_body(g: &GraphStorage) -> Seq<u8> {
    enc_tables(g) + enc_nodes(g.nodes@) + enc_edges(g.edges@) + enc_store(g.graph_props) + enc_u64(g.seq)
}

/// The name tables: layers, then node, edge and graph property keys (constant,
/// then temporal).
pub open spec fn enc_tables(g: &GraphStorage) -> Seq<u8> {
    enc_keys(g.layers.names@)
        + enc_keys(g.node_const_keys.names@) + enc_keys(g.node_temporal_keys.names@)
        + enc_keys(g.edge_const_keys.names@) + enc_keys(g.edge_temporal_keys.names@)
        + enc_keys(g.graph_const_keys.names@) + enc_keys(g.graph_temporal_keys.names@)
}

pub open spec fn enc_nodes(s: Seq<NodeStore>) -> Seq<u8> {
    enc_u64(s.len() as u64) + enc_nodes_items(s)
}

pub open spec fn enc_edges(s: Seq<EdgeStore>) -> Seq<u8> {
    enc_u64(s.len() as u64) + enc_edges_items(s)
}

fn put_bytes(out: &mut Vec<u8>, b: &[u8])
    ensures
        final(out)@ == old(out)@ + b@,
{
    let mut i: usize = 0;
    while i < b.len()
        invariant
            i <= b@.len(),
            out@ == old(out)@ + b@.subrange(0, i as int),
        decreases b@.len() - i,
    {
        out.push(b[i]);
        i += 1;
        proof {
            assert(out@ =~= old(out)@ + b@.subrange(0, i as int));
        }
    }
    proof {
        assert(b@.subrange(0, b@.len() as int) =~= b@);
    }
}

fn put_u64(out: &mut Vec<u8>, x: u64)
    ensures
        final(out)@ == old(out)@ + enc_u64(x),
{
    let b = u64_to_le_bytes(x);
    put_bytes(out, b.as_slice());
}

fn put_i64(out: &mut Vec<u8>, x: i64)
    ensures
        final(out)@ == old(out)@ + enc_i64(x),
{
    put_u64(out, x as u64);
}

/// Writes `s`; `false` where its UTF-8 length does not fit a `u32`.
fn put_str(out: &mut Vec<u8>, s: &str) -> (r: bool)
    ensures
        r == str_fits(s@),
        r ==> final(out)@ == old(out)@ + enc_str(s@),
        !r ==> final(out)@ == old(out)@,
{
    let b = s.as_bytes();
    if b.len() > 0xffff_ffffusize {
        return false;
    }
    let n = u32_to_le_bytes(b.len() as u32);
    put_bytes(out, n.as_slice());
    put_bytes(out, b);
    proof {
        assert(final(out)@ =~= old(out)@ + enc_str(s@)) by {
            assert(b@ == encode_utf8(s@));
        }
    }
    true
}

/// Writes a value; `false` where a string in it does not fit.
fn put_prop(out: &mut Vec<u8>, p: &Prop) -> (r: bool)
    ensures
        r == prop_fits(p@),
        r ==> final(out)@ == old(out)@ + enc_prop(p@),
{
    match p {
        Prop::Bool(b) => {
            out.push(0u8);
            out.push(if *b {
                1u8
            } else {
                0u8
            });
            proof {
                assert(out@ =~= old(out)@ + enc_prop(p@));
            }
            true
        },
        Prop::I64(v) => {
            out.push(1u8);
            put_i64(out, *v);
            proof {
                assert(out@ =~= old(out)@ + enc_prop(p@));
            }
            true
        },
        Prop::U64(v) => {
            out.push(2u8);
            put_u64(out, *v);
            proof {
                assert(out@ =~= old(out)@ + enc_prop(p@));
            }
            true
        },
        Prop::Str(v) => {
            out.push(3u8);
            let ok = put_str(out, v.as_str());
            proof {
                if ok {
                    assert(out@ =~= old(out)@ + enc_prop(p@));
                }
            }
            ok
        },
    }
}

fn put_entry(out: &mut Vec<u8>, e: TimeIndexEntry)
    ensures
        final(out)@ == old(out)@ + enc_entry(e),
{
    put_i64(out, e.t);
    put_u64(out, e.seq);
    proof {
        assert(out@ =~= old(out)@ + enc_entry(e));
    }
}

fn put_index(out: &mut Vec<u8>, idx: &TimeIndex)
    ensures
        final(out)@ == old(out)@ + enc_index(idx@),
{
    let entries = idx.entries();
    put_u64(out, entries.len() as u64);
    let ghost base = out@;
    let mut i: usize = 0;
    while i < entries.len()
        invariant
            i <= entries@.len(),
            out@ == base + enc_entries_items(entries@.subrange(0, i as int)),
        decreases entries@.len() - i,
    {
        put_entry(out, entries[i]);
        proof {
            assert(entries@.subrange(0, i + 1).drop_last() =~= entries@.subrange(0, i as int));
            assert(out@ =~= base + enc_entries_items(entries@.subrange(0, i + 1)));
        }
        i += 1;
    }
    proof {
        assert(entries@.subrange(0, entries@.len() as int) =~= entries@);
        assert(out@ =~= old(out)@ + enc_index(idx@));
    }
}

fn put_log(out: &mut Vec<u8>, log: &TProp) -> (r: bool)
    ensures
        r == log_fits(log@),
        r ==> final(out)@ == old(out)@ + enc_log(log@),
{
    let n = log.len();
    put_u64(out, n as u64);
    let ghost base = out@;
    let ghost s = log@;
    let mut i: usize = 0;
    while i < n
        invariant
            n == s.len(),
            s == log@,
            i <= n,
            out@ == base + enc_writes_items(s.subrange(0, i as int)),
            forall|j: int| 0 <= j < i ==> prop_fits(#[trigger] s[j].1),
        decreases n - i,
    {
        let (e, v) = log.write_at(i);
        put_entry(out, e);
        if !put_prop(out, v) {
            return false;
        }
        proof {
            assert(s.subrange(0, i + 1).drop_last() =~= s.subrange(0, i as int));
            assert(out@ =~= base + enc_writes_items(s.subrange(0, i + 1)));
        }
        i += 1;
    }
    proof {
        assert(s.subrange(0, n as int) =~= s);
        assert(out@ =~= old(out)@ + enc_log(log@));
    }
    true
}

fn put_keys(out: &mut Vec<u8>, keys: &KeyRegistry) -> (r: bool)
    ensures
        r == keys_fit(keys.names@),
        r ==> final(out)@ == old(out)@ + enc_keys(keys.names@),
{
    let names = &keys.names;
    put_u64(out, names.len() as u64);
    let ghost base = out@;
    let mut i: usize = 0;
    while i < names.len()
        invariant
            i <= names@.len(),
            out@ == base + enc_keys_items(names@.subrange(0, i as int)),
            names@ == keys.names@,
            forall|j: int| 0 <= j < i ==> str_fits((#[trigger] names@[j])@),
        decreases names@.len() - i,
    {
        if !put_str(out, names[i].as_str()) {
            proof {
                assert(!str_fits((names@[i as int])@));
                assert(!keys_fit(keys.names@));
            }
            return false;
        }
        proof {
            assert(names@.subrange(0, i + 1).drop_last() =~= names@.subrange(0, i as int));
            assert(out@ =~= base + enc_keys_items(names@.subrange(0, i + 1)));
        }
        i += 1;
    }
    proof {
        assert(names@.subrange(0, names@.len() as int) =~= names@);
        assert(out@ =~= old(out)@ + enc_keys(keys.names@));
    }
    true
}

fn put_store(out: &mut Vec<u8>, p: &PropStore) -> (r: bool)
    ensures
        r == store_fits(*p),
        r ==> final(out)@ == old(out)@ + enc_store(*p),
{
    let cs = &p.constant;
    put_u64(out, cs.len() as u64);
    let ghost base = out@;
    let mut i: usize = 0;
    while i < cs.len()
        invariant
            i <= cs@.len(),
            out@ == base + enc_consts_items(cs@.subrange(0, i as int)),
            cs@ == p.constant@,
            forall|j: int| 0 <= j < i ==> prop_fits((#[trigger] cs@[j]).1@),
        decreases cs@.len() - i,
    {
        put_u64(out, cs[i].0 as u64);
        if !put_prop(out, &cs[i].1) {
            proof {
                assert(!prop_fits((cs@[i as int]).1@));
                assert(!store_fits(*p));
            }
            return false;
        }
        proof {
            assert(cs@.subrange(0, i + 1).drop_last() =~= cs@.subrange(0, i as int));
            assert(out@ =~= base + enc_consts_items(cs@.subrange(0, i + 1)));
        }
        i += 1;
    }
    proof {
        assert(cs@.subrange(0, cs@.len() as int) =~= cs@);
    }
    let ts = &p.temporal;
    put_u64(out, ts.len() as u64);
    let ghost base2 = out@;
    let mut i: usize = 0;
    while i < ts.len()
        invariant
            i <= ts@.len(),
            out@ == base2 + enc_temps_items(ts@.subrange(0, i as int)),
            cs@ == p.constant@,
            ts@ == p.temporal@,
            forall|j: int| 0 <= j < cs@.len() ==> prop_fits((#[trigger] cs@[j]).1@),
            forall|j: int| 0 <= j < i ==> log_fits((#[trigger] ts@[j]).1@),
        decreases ts@.len() - i,
    {
        put_u64(out, ts[i].0 as u64);
        if !put_log(out, &ts[i].1) {
            proof {
                assert(!log_fits((ts@[i as int]).1@));
                assert(!store_fits(*p));
            }
            return false;
        }
        proof {
            assert(ts@.subrange(0, i + 1).drop_last() =~= ts@.subrange(0, i as int));
            assert(out@ =~= base2 + enc_temps_items(ts@.subrange(0, i + 1)));
        }
        i += 1;
    }
    proof {
        assert(ts@.subrange(0, ts@.len() as int) =~= ts@);
        assert(out@ =~= old(out)@ + enc_store(*p));
    }
    true
}

fn put_indices(out: &mut Vec<u8>, v: &Vec<TimeIndex>)
    ensures
        final(out)@ == old(out)@ + enc_u64(v@.len() as u64) + enc_indices_items(v@),
{
    put_u64(out, v.len() as u64);
    let ghost base = out@;
    let mut i: usize = 0;
    while i < v.len()
        invariant
            i <= v@.len(),
            out@ == base + enc_indices_items(v@.subrange(0, i as int)),
        decreases v@.len() - i,
    {
        put_index(out, &v[i]);
        proof {
            assert(v@.subrange(0, i + 1).drop_last() =~= v@.subrange(0, i as int));
            assert(out@ =~= base + enc_indices_items(v@.subrange(0, i + 1)));
        }
        i += 1;
    }
    proof {
        assert(v@.subrange(0, v@.len() as int) =~= v@);
        assert(out@ =~= old(out)@ + enc_u64(v@.len() as u64) + enc_indices_items(v@));
    }
}

fn put_edge(out: &mut Vec<u8>, e: &EdgeStore) -> (r: bool)
    ensures
        r == edge_fits(*e),
        r ==> final(out)@ == old(out)@ + enc_edge(*e),
{
    put_u64(out, e.src as u64);
    put_u64(out, e.dst as u64);
    put_indices(out, &e.additions);
    put_indices(out, &e.deletions);
    let ps = &e.props;
    put_u64(out, ps.len() as u64);
    let ghost base = out@;
    let mut i: usize = 0;
    while i < ps.len()
        invariant
            i <= ps@.len(),
            out@ == base + enc_stores_items(ps@.subrange(0, i as int)),
            ps@ == e.props@,
            forall|j: int| 0 <= j < i ==> store_fits(#[trigger] ps@[j]),
        decreases ps@.len() - i,
    {
        if !put_store(out, &ps[i]) {
            proof {
                assert(!store_fits(ps@[i as int]));
                assert(!edge_fits(*e));
            }
            return false;
        }
        proof {
            assert(ps@.subrange(0, i + 1).drop_last() =~= ps@.subrange(0, i as int));
            assert(out@ =~= base + enc_stores_items(ps@.subrange(0, i + 1)));
        }
        i += 1;
    }
    proof {
        assert(ps@.subrange(0, ps@.len() as int) =~= ps@);
        assert(out@ =~= old(out)@ + enc_edge(*e));
    }
    true
}

fn put_tables(out: &mut Vec<u8>, g: &GraphStorage) -> (r: bool)
    ensures
        r == (keys_fit(g.layers.names@) && keys_fit(g.node_const_keys.names@) && keys_fit(g.node_temporal_keys.names@)
            && keys_fit(g.edge_const_keys.names@) && keys_fit(g.edge_temporal_keys.names@)
            && keys_fit(g.graph_const_keys.names@) && keys_fit(g.graph_temporal_keys.names@)),
        r ==> final(out)@ == old(out)@ + enc_tables(g),
{
    if !put_keys(out, &g.layers) {
        return false;
    }
    if !put_keys(out, &g.node_const_keys) {
        return false;
    }
    if !put_keys(out, &g.node_temporal_keys) {
        return false;
    }
    if !put_keys(out, &g.edge_const_keys) {
        return false;
    }
    if !put_keys(out, &g.edge_temporal_keys) {
        return false;
    }
    if !put_keys(out, &g.graph_const_keys) {
        return false;
    }
    if !put_keys(out, &g.graph_temporal_keys) {
        return false;
    }
    proof {
        assert(out@ =~= old(out)@ + enc_tables(g));
    }
    true
}

fn put_nodes(out: &mut Vec<u8>, nodes: &Vec<NodeStore>) -> (r: bool)
    ensures
        r == forall|i: int| 0 <= i < nodes@.len() ==> store_fits((#[trigger] nodes@[i]).props),
        r ==> final(out)@ == old(out)@ + enc_nodes(nodes@),
{
    put_u64(out, nodes.len() as u64);
    let ghost base = out@;
    let mut i: usize = 0;
    while i < nodes.len()
        invariant
            i <= nodes@.len(),
            out@ == base + enc_nodes_items(nodes@.subrange(0, i as int)),
            forall|j: int| 0 <= j < i ==> store_fits((#[trigger] nodes@[j]).props),
        decreases nodes@.len() - i,
    {
        let n = &nodes[i];
        let ghost o0 = out@;
        put_u64(out, n.gid);
        put_index(out, &n.timestamps);
        if !put_store(out, &n.props) {
            return false;
        }
        proof {
            assert(out@ =~= o0 + enc_node(*n));
            assert(nodes@.subrange(0, i + 1).drop_last() =~= nodes@.subrange(0, i as int));
            assert(out@ =~= base + enc_nodes_items(nodes@.subrange(0, i + 1)));
        }
        i += 1;
    }
    proof {
        assert(nodes@.subrange(0, nodes@.len() as int) =~= nodes@);
        assert(out@ =~= old(out)@ + enc_nodes(nodes@));
    }
    true
}

fn put_edges(out: &mut Vec<u8>, edges: &Vec<EdgeStore>) -> (r: bool)
    ensures
        r == forall|i: int| 0 <= i < edges@.len() ==> edge_fits(#[trigger] edges@[i]),
        r ==> final(out)@ == old(out)@ + enc_edges(edges@),
{
    put_u64(out, edges.len() as u64);
    let ghost base = out@;
    let mut i: usize = 0;
    while i < edges.len()
        invariant
            i <= edges@.len(),
            out@ == base + enc_edges_items(edges@.subrange(0, i as int)),
            forall|j: int| 0 <= j < i ==> edge_fits(#[trigger] edges@[j]),
        decreases edges@.len() - i,
    {
        if !put_edge(out, &edges[i]) {
            return false;
        }
        proof {
            assert(edges@.subrange(0, i + 1).drop_last() =~= edges@.subrange(0, i as int));
            assert(out@ =~= base + enc_edges_items(edges@.subrange(0, i + 1)));
        }
        i += 1;
    }
    proof {
        assert(edges@.subrange(0, edges@.len() as int) =~= edges@);
        assert(out@ =~= old(out)@ + enc_edges(edges@));
    }
    true
}

fn put_body(out: &mut Vec<u8>, g: &GraphStorage) -> (r: bool)
    ensures
        r == graph_fits(g),
        r ==> final(out)@ == old(out)@ + enc_body(g),
{
    if !put_tables(out, g) {
        return false;
    }
    if !put_nodes(out, &g.nodes) {
        return false;
    }
    if !put_edges(out, &g.edges) {
        return false;
    }
    if !put_store(out, &g.graph_props) {
        return false;
    }
    put_u64(out, g.seq);
    proof {
        assert(out@ =~= old(out)@ + enc_body(g));
    }
    true
}

/// The snapshot of `g`, tagged with its variant; `SnapshotFormatError` where
/// a name or a string value is too long for its `u32` length prefix.
pub fn encode(g: &GraphStorage, persistent: bool) -> (r: Result<Vec<u8>, crate::storage::GraphError>)
    ensures
        match r {
            Ok(b) => b@ == enc_graph(g, persistent),
            Err(e) => e == crate::storage::GraphError::SnapshotFormatError,
        },
        r is Ok <==> graph_fits(g),
{
    let mut out: Vec<u8> = Vec::new();
    out.push(0x52u8);
    out.push(0x41u8);
    out.push(0x50u8);
    out.push(0x48u8);
    out.push(0x53u8);
    out.push(0x4eu8);
    out.push(0x41u8);
    out.push(0x50u8);
    let v = u16_to_le_bytes(1u16);
    put_bytes(&mut out, v.as_slice());
    out.push(if persistent {
        1u8
    } else {
        0u8
    });
    out.push(1u8);
    proof {
        assert(out@ =~= enc_header(persistent));
    }
    if !put_body(&mut out, g) {
        return Err(crate::storage::GraphError::SnapshotFormatError);
    }
    Ok(out)
}

/// Relies on `String::from_utf8`: the string the bytes encode, where they
/// are valid UTF-8.
#[verifier::external_body]
fn string_from_utf8(v: Vec<u8>) -> (r: Option<String>)
    ensures
        r.is_some() == valid_utf8(v@),
        r.is_some() ==> r.unwrap()@ == decode_utf8(v@),
{
    String::from_utf8(v).ok()
}

fn get_u8(b: &Vec<u8>, pos: usize) -> (r: Option<(u8, usize)>)
    ensures
        match r {
            Some((x, p)) => p == pos + 1 && p <= b@.len() && b@.subrange(pos as int, p as int) == seq![x],
            None => pos + 1 > b@.len(),
        },
{
    if pos >= b.len() {
        return None;
    }
    proof {
        assert(b@.subrange(pos as int, pos + 1) =~= seq![b@[pos as int]]);
    }
    Some((b[pos], pos + 1))
}

fn get_u16(b: &Vec<u8>, pos: usize) -> (r: Option<(u16, usize)>)
    ensures
        match r {
            Some((x, p)) => p == pos + 2 && p <= b@.len() && b@.subrange(pos as int, p as int) == spec_u16_to_le_bytes(x),
            None => pos + 2 > b@.len(),
        },
{
    if pos > b.len() || b.len() - pos < 2 {
        return None;
    }
    let s = slice_subrange(b.as_slice(), pos, pos + 2);
    let x = u16_from_le_bytes(s);
    proof {
        lemma_auto_spec_u16_to_from_le_bytes();
    }
    Some((x, pos + 2))
}

fn get_u32(b: &Vec<u8>, pos: usize) -> (r: Option<(u32, usize)>)
    ensures
        match r {
            Some((x, p)) => p == pos + 4 && p <= b@.len() && b@.subrange(pos as int, p as int) == spec_u32_to_le_bytes(x),
            None => pos + 4 > b@.len(),
        },
{
    if pos > b.len() || b.len() - pos < 4 {
        return None;
    }
    let s = slice_subrange(b.as_slice(), pos, pos + 4);
    let x = u32_from_le_bytes(s);
    proof {
        lemma_auto_spec_u32_to_from_le_bytes();
    }
    Some((x, pos + 4))
}

fn get_u64(b: &Vec<u8>, pos: usize) -> (r: Option<(u64, usize)>)
    ensures
        match r {
            Some((x, p)) => p == pos + 8 && p <= b@.len() && b@.subrange(pos as int, p as int) == enc_u64(x),
            None => pos + 8 > b@.len(),
        },
{
    if pos > b.len() || b.len() - pos < 8 {
        return None;
    }
    let s = slice_subrange(b.as_slice(), pos, pos + 8);
    let x = u64_from_le_bytes(s);
    proof {
        lemma_auto_spec_u64_to_from_le_bytes();
    }
    Some((x, pos + 8))
}

fn get_i64(b: &Vec<u8>, pos: usize) -> (r: Option<(i64, usize)>)
    ensures
        match r {
            Some((x, p)) => p == pos + 8 && p <= b@.len() && b@.subrange(pos as int, p as int) == enc_i64(x),
            None => pos + 8 > b@.len(),
        },
{
    match get_u64(b, pos) {
        Some((x, p)) => {
            let y = x as i64;
            assert((y as u64) == x) by (bit_vector)
                requires
                    y == x as i64,
            ;
            Some((y, p))
        },
        None => None,
    }
}

fn get_str(b: &Vec<u8>, pos: usize) -> (r: Option<(String, usize)>)
    ensures
        match r {
            Some((x, p)) => pos <= p <= b@.len() && b@.subrange(pos as int, p as int) == enc_str(x@),
            None => true,
        },
{
    let (n, p) = match get_u32(b, pos) {
        Some(x) => x,
        None => {
            return None;
        },
    };
    if b.len() - p < n as usize {
        return None;
    }
    let q = p + n as usize;
    let v = slice_to_vec(slice_subrange(b.as_slice(), p, q));
    let ghost bytes = v@;
    match string_from_utf8(v) {
        Some(st) => {
            proof {
                decode_utf8_encode_utf8(bytes);
                assert(b@.subrange(pos as int, q as int) =~= b@.subrange(pos as int, p as int) + b@.subrange(p as int, q as int));
                assert(encode_utf8(st@) == bytes);
            }
            Some((st, q))
        },
        None => None,
    }
}

fn get_prop(b: &Vec<u8>, pos: usize) -> (r: Option<(Prop, usize)>)
    ensures
        match r {
            Some((x, p)) => pos <= p <= b@.len() && b@.subrange(pos as int, p as int) == enc_prop(x@),
            None => true,
        },
{
    let (tag, p) = match get_u8(b, pos) {
        Some(x) => x,
        None => {
            return None;
        },
    };
    if tag == 0 {
        match get_u8(b, p) {
            Some((v, q)) => {
                if v > 1 {
                    return None;
                }
                proof {
                    assert(b@.subrange(pos as int, q as int) =~= b@.subrange(pos as int, p as int) + b@.subrange(p as int, q as int));
                }
                Some((Prop::Bool(v == 1), q))
            },
            None => None,
        }
    } else if tag == 1 {
        match get_i64(b, p) {
            Some((v, q)) => {
                proof {
                    assert(b@.subrange(pos as int, q as int) =~= b@.subrange(pos as int, p as int) + b@.subrange(p as int, q as int));
                }
                Some((Prop::I64(v), q))
            },
            None => None,
        }
    } else if tag == 2 {
        match get_u64(b, p) {
            Some((v, q)) => {
                proof {
                    assert(b@.subrange(pos as int, q as int) =~= b@.subrange(pos as int, p as int) + b@.subrange(p as int, q as int));
                }
                Some((Prop::U64(v), q))
            },
            None => None,
        }
    } else if tag == 3 {
        match get_str(b, p) {
            Some((v, q)) => {
                proof {
                    assert(b@.subrange(pos as int, q as int) =~= b@.subrange(pos as int, p as int) + b@.subrange(p as int, q as int));
                }
                Some((Prop::Str(v), q))
            },
            None => None,
        }
    } else {
        None
    }
}

fn get_entry(b: &Vec<u8>, pos: usize) -> (r: Option<(TimeIndexEntry, usize)>)
    ensures
        match r {
            Some((x, p)) => pos <= p <= b@.len() && b@.subrange(pos as int, p as int) == enc_entry(x),
            None => true,
        },
{
    let (t, p) = match get_i64(b, pos) {
        Some(x) => x,
        None => {
            return None;
        },
    };
    let (seq, q) = match get_u64(b, p) {
        Some(x) => x,
        None => {
            return None;
        },
    };
    proof {
        assert(b@.subrange(pos as int, q as int) =~= b@.subrange(pos as int, p as int) + b@.subrange(p as int, q as int));
    }
    Some((TimeIndexEntry { t, seq }, q))
}

/// A count read from the bytes, where it cannot exceed what is left.
fn get_count(b: &Vec<u8>, pos: usize) -> (r: Option<(usize, usize)>)
    ensures
        match r {
            Some((n, p)) => p == pos + 8 && p <= b@.len() && n <= b@.len() && b@.subrange(pos as int, p as int) == enc_u64(n as u64),
            None => true,
        },
{
    match get_u64(b, pos) {
        Some((n, p)) => {
            if n > (b.len() - p) as u64 {
                None
            } else {
                Some((n as usize, p))
            }
        },
        None => None,
    }
}

fn get_index(b: &Vec<u8>, pos: usize) -> (r: Option<(TimeIndex, usize)>)
    ensures
        match r {
            Some((x, p)) => pos <= p <= b@.len() && b@.subrange(pos as int, p as int) == enc_index(x@) && x.wf(),
            None => true,
        },
{
    let (n, at0) = match get_count(b, pos) {
        Some(x) => x,
        None => {
            return None;
        },
    };
    let mut v: Vec<TimeIndexEntry> = Vec::new();
    let mut p = at0;
    let mut i: usize = 0;
    while i < n
        invariant
            at0 <= p <= b@.len(),
            i <= n,
            v@.len() == i,
            b@.subrange(at0 as int, p as int) == enc_entries_items(v@),
        decreases n - i,
    {
        let (e, q) = match get_entry(b, p) {
            Some(x) => x,
            None => {
                return None;
            },
        };
        let ghost before = v@;
        v.push(e);
        proof {
            assert(v@.drop_last() =~= before);
            assert(b@.subrange(at0 as int, q as int) =~= b@.subrange(at0 as int, p as int) + b@.subrange(p as int, q as int));
        }
        p = q;
        i += 1;
    }
    match TimeIndex::from_entries(v) {
        Some(idx) => {
            proof {
                assert(b@.subrange(pos as int, p as int) =~= b@.subrange(pos as int, at0 as int) + b@.subrange(at0 as int, p as int));
            }
            Some((idx, p))
        },
        None => None,
    }
}

fn get_log(b: &Vec<u8>, pos: usize) -> (r: Option<(TProp, usize)>)
    ensures
        match r {
            Some((x, p)) => pos <= p <= b@.len() && b@.subrange(pos as int, p as int) == enc_log(x@) && x.wf(),
            None => true,
        },
{
    let (n, at0) = match get_count(b, pos) {
        Some(x) => x,
        None => {
            return None;
        },
    };
    let mut v: Vec<(TimeIndexEntry, Prop)> = Vec::new();
    let mut p = at0;
    let mut i: usize = 0;
    while i < n
        invariant
            at0 <= p <= b@.len(),
            i <= n,
            v@.len() == i,
            b@.subrange(at0 as int, p as int) == enc_writes_items(writes_as_log(v@)),
        decreases n - i,
    {
        let (e, q) = match get_entry(b, p) {
            Some(x) => x,
            None => {
                return None;
            },
        };
        let (x, q2) = match get_prop(b, q) {
            Some(x) => x,
            None => {
                return None;
            },
        };
        let ghost before = v@;
        let ghost xv = x@;
        v.push((e, x));
        proof {
            assert(writes_as_log(v@).drop_last() =~= writes_as_log(before));
            assert(writes_as_log(v@).last() == (e, xv));
            assert(b@.subrange(at0 as int, q2 as int) =~= b@.subrange(at0 as int, p as int) + b@.subrange(p as int, q as int) + b@.subrange(q as int, q2 as int));
        }
        p = q2;
        i += 1;
    }
    match TProp::from_writes(v) {
        Some(t) => {
            proof {
                assert(b@.subrange(pos as int, p as int) =~= b@.subrange(pos as int, at0 as int) + b@.subrange(at0 as int, p as int));
            }
            Some((t, p))
        },
        None => None,
    }
}

fn names_distinct(v: &Vec<String>) -> (r: bool)
    ensures
        r == forall|i: int, j: int| 0 <= i < j < v@.len() ==> (#[trigger] v@[i])@ != (#[trigger] v@[j])@,
{
    let mut j: usize = 0;
    while j < v.len()
        invariant
            j <= v@.len(),
            forall|a: int, c: int| 0 <= a < c < j ==> (#[trigger] v@[a])@ != (#[trigger] v@[c])@,
        decreases v@.len() - j,
    {
        let mut i: usize = 0;
        while i < j
            invariant
                i <= j < v@.len(),
                forall|a: int, c: int| 0 <= a < c < j ==> (#[trigger] v@[a])@ != (#[trigger] v@[c])@,
                forall|a: int| 0 <= a < i ==> (#[trigger] v@[a])@ != v@[j as int]@,
            decreases j - i,
        {
            if v[i] == v[j] {
                return false;
            }
            i += 1;
        }
        j += 1;
    }
    true
}

fn get_keys(b: &Vec<u8>, pos: usize) -> (r: Option<(KeyRegistry, usize)>)
    ensures
        match r {
            Some((x, p)) => pos <= p <= b@.len() && b@.subrange(pos as int, p as int) == enc_keys(x.names@) && x.wf(),
            None => true,
        },
{
    let (n, at0) = match get_count(b, pos) {
        Some(x) => x,
        None => {
            return None;
        },
    };
    let mut v: Vec<String> = Vec::new();
    let mut p = at0;
    let mut i: usize = 0;
    while i < n
        invariant
            at0 <= p <= b@.len(),
            i <= n,
            v@.len() == i,
            b@.subrange(at0 as int, p as int) == enc_keys_items(v@),
        decreases n - i,
    {
        let (x, q) = match get_str(b, p) {
            Some(x) => x,
            None => {
                return None;
            },
        };
        let ghost before = v@;
        v.push(x);
        proof {
            assert(v@.drop_last() =~= before);
            assert(b@.subrange(at0 as int, q as int) =~= b@.subrange(at0 as int, p as int) + b@.subrange(p as int, q as int));
        }
        p = q;
        i += 1;
    }
    if !names_distinct(&v) {
        return None;
    }
    proof {
        assert(b@.subrange(pos as int, p as int) =~= b@.subrange(pos as int, at0 as int) + b@.subrange(at0 as int, p as int));
    }
    Some((KeyRegistry { names: v }, p))
}

fn keys_distinct<V>(v: &Vec<(usize, V)>) -> (r: bool)
    ensures
        r == keys_unique(v@),
{
    let mut j: usize = 0;
    while j < v.len()
        invariant
            j <= v@.len(),
            forall|a: int, c: int| 0 <= a < c < j ==> (#[trigger] v@[a]).0 != (#[trigger] v@[c]).0,
        decreases v@.len() - j,
    {
        let mut i: usize = 0;
        while i < j
            invariant
                i <= j < v@.len(),
                forall|a: int, c: int| 0 <= a < c < j ==> (#[trigger] v@[a]).0 != (#[trigger] v@[c]).0,
                forall|a: int| 0 <= a < i ==> (#[trigger] v@[a]).0 != v@[j as int].0,
            decreases j - i,
        {
            if v[i].0 == v[j].0 {
                return false;
            }
            i += 1;
        }
        j += 1;
    }
    true
}

/// A key, where it fits a `usize`.
fn get_key(b: &Vec<u8>, pos: usize) -> (r: Option<(usize, usize)>)
    ensures
        match r {
            Some((k, p)) => p == pos + 8 && p <= b@.len() && b@.subrange(pos as int, p as int) == enc_u64(k as u64),
            None => true,
        },
{
    match get_u64(b, pos) {
        Some((k, p)) => {
            if k > usize::MAX as u64 {
                None
            } else {
                Some((k as usize, p))
            }
        },
        None => None,
    }
}

fn get_store(b: &Vec<u8>, pos: usize) -> (r: Option<(PropStore, usize)>)
    ensures
        match r {
            Some((x, p)) => pos <= p <= b@.len() && b@.subrange(pos as int, p as int) == enc_store(x) && x.wf(),
            None => true,
        },
{
    let (n, at0) = match get_count(b, pos) {
        Some(x) => x,
        None => {
            return None;
        },
    };
    let mut cs: Vec<(usize, Prop)> = Vec::new();
    let mut p = at0;
    let mut i: usize = 0;
    while i < n
        invariant
            at0 <= p <= b@.len(),
            i <= n,
            cs@.len() == i,
            b@.subrange(at0 as int, p as int) == enc_consts_items(cs@),
        decreases n - i,
    {
        let (k, q) = match get_key(b, p) {
            Some(x) => x,
            None => {
                return None;
            },
        };
        let (x, q2) = match get_prop(b, q) {
            Some(x) => x,
            None => {
                return None;
            },
        };
        let ghost before = cs@;
        cs.push((k, x));
        proof {
            assert(cs@.drop_last() =~= before);
            assert(b@.subrange(at0 as int, q2 as int) =~= b@.subrange(at0 as int, p as int) + b@.subrange(p as int, q as int) + b@.subrange(q as int, q2 as int));
        }
        p = q2;
        i += 1;
    }
    let (m, at1) = match get_count(b, p) {
        Some(x) => x,
        None => {
            return None;
        },
    };
    let mut ts: Vec<(usize, TProp)> = Vec::new();
    let mut at2 = at1;
    let mut i: usize = 0;
    while i < m
        invariant
            at1 <= at2 <= b@.len(),
            i <= m,
            ts@.len() == i,
            b@.subrange(at1 as int, at2 as int) == enc_temps_items(ts@),
            forall|a: int| 0 <= a < ts@.len() ==> (#[trigger] ts@[a]).1.wf(),
        decreases m - i,
    {
        let (k, q) = match get_key(b, at2) {
            Some(x) => x,
            None => {
                return None;
            },
        };
        let (x, q2) = match get_log(b, q) {
            Some(x) => x,
            None => {
                return None;
            },
        };
        let ghost before = ts@;
        ts.push((k, x));
        proof {
            assert(ts@.drop_last() =~= before);
            assert(b@.subrange(at1 as int, q2 as int) =~= b@.subrange(at1 as int, at2 as int) + b@.subrange(at2 as int, q as int) + b@.subrange(q as int, q2 as int));
        }
        at2 = q2;
        i += 1;
    }
    if !keys_distinct(&cs) || !keys_distinct(&ts) {
        return None;
    }
    let store = PropStore { constant: cs, temporal: ts };
    proof {
        assert(b@.subrange(pos as int, at2 as int) =~= b@.subrange(pos as int, at0 as int) + b@.subrange(at0 as int, p as int)
            + b@.subrange(p as int, at1 as int) + b@.subrange(at1 as int, at2 as int));
    }
    Some((store, at2))
}

fn get_node(b: &Vec<u8>, pos: usize) -> (r: Option<(NodeStore, usize)>)
    ensures
        match r {
            Some((x, p)) => pos <= p <= b@.len() && b@.subrange(pos as int, p as int) == enc_node(x) && x.wf(),
            None => true,
        },
{
    let (gid, at0) = match get_u64(b, pos) {
        Some(x) => x,
        None => {
            return None;
        },
    };
    let (timestamps, at1) = match get_index(b, at0) {
        Some(x) => x,
        None => {
            return None;
        },
    };
    let (props, at2) = match get_store(b, at1) {
        Some(x) => x,
        None => {
            return None;
        },
    };
    proof {
        assert(b@.subrange(pos as int, at2 as int) =~= b@.subrange(pos as int, at0 as int) + b@.subrange(at0 as int, at1 as int) + b@.subrange(at1 as int, at2 as int));
    }
    Some((NodeStore { gid, timestamps, props }, at2))
}

fn get_indices(b: &Vec<u8>, pos: usize) -> (r: Option<(Vec<TimeIndex>, usize)>)
    ensures
        match r {
            Some((x, p)) => pos <= p <= b@.len() && b@.subrange(pos as int, p as int) == enc_u64(x@.len() as u64) + enc_indices_items(x@)
                && forall|i: int| 0 <= i < x@.len() ==> (#[trigger] x@[i]).wf(),
            None => true,
        },
{
    let (n, at0) = match get_count(b, pos) {
        Some(x) => x,
        None => {
            return None;
        },
    };
    let mut v: Vec<TimeIndex> = Vec::new();
    let mut p = at0;
    let mut i: usize = 0;
    while i < n
        invariant
            at0 <= p <= b@.len(),
            i <= n,
            v@.len() == i,
            b@.subrange(at0 as int, p as int) == enc_indices_items(v@),
            forall|a: int| 0 <= a < v@.len() ==> (#[trigger] v@[a]).wf(),
        decreases n - i,
    {
        let (x, q) = match get_index(b, p) {
            Some(x) => x,
            None => {
                return None;
            },
        };
        let ghost before = v@;
        v.push(x);
        proof {
            assert(v@.drop_last() =~= before);
            assert(b@.subrange(at0 as int, q as int) =~= b@.subrange(at0 as int, p as int) + b@.subrange(p as int, q as int));
        }
        p = q;
        i += 1;
    }
    proof {
        assert(b@.subrange(pos as int, p as int) =~= b@.subrange(pos as int, at0 as int) + b@.subrange(at0 as int, p as int));
    }
    Some((v, p))
}

fn get_edge(b: &Vec<u8>, pos: usize) -> (r: Option<(EdgeStore, usize)>)
    ensures
        match r {
            Some((x, p)) => pos <= p <= b@.len() && b@.subrange(pos as int, p as int) == enc_edge(x) && x.wf(),
            None => true,
        },
{
    let (src, at0) = match get_key(b, pos) {
        Some(x) => x,
        None => {
            return None;
        },
    };
    let (dst, at1) = match get_key(b, at0) {
        Some(x) => x,
        None => {
            return None;
        },
    };
    let (additions, at2) = match get_indices(b, at1) {
        Some(x) => x,
        None => {
            return None;
        },
    };
    let (deletions, at3) = match get_indices(b, at2) {
        Some(x) => x,
        None => {
            return None;
        },
    };
    let (n, at4) = match get_count(b, at3) {
        Some(x) => x,
        None => {
            return None;
        },
    };
    let mut props: Vec<PropStore> = Vec::new();
    let mut p = at4;
    let mut i: usize = 0;
    while i < n
        invariant
            at4 <= p <= b@.len(),
            i <= n,
            props@.len() == i,
            b@.subrange(at4 as int, p as int) == enc_stores_items(props@),
            forall|a: int| 0 <= a < props@.len() ==> (#[trigger] props@[a]).wf(),
        decreases n - i,
    {
        let (x, q) = match get_store(b, p) {
            Some(x) => x,
            None => {
                return None;
            },
        };
        let ghost before = props@;
        props.push(x);
        proof {
            assert(props@.drop_last() =~= before);
            assert(b@.subrange(at4 as int, q as int) =~= b@.subrange(at4 as int, p as int) + b@.subrange(p as int, q as int));
        }
        p = q;
        i += 1;
    }
    let e = EdgeStore { src, dst, additions, deletions, props };
    proof {
        assert(b@.subrange(pos as int, p as int) =~= b@.subrange(pos as int, at0 as int) + b@.subrange(at0 as int, at1 as int)
            + b@.subrange(at1 as int, at2 as int) + b@.subrange(at2 as int, at3 as int) + b@.subrange(at3 as int, at4 as int)
            + b@.subrange(at4 as int, p as int));
    }
    Some((e, p))
}

fn gids_distinct(v: &Vec<NodeStore>) -> (r: bool)
    ensures
        r == forall|i: int, j: int| 0 <= i < j < v@.len() ==> (#[trigger] v@[i]).gid != (#[trigger] v@[j]).gid,
{
    let mut j: usize = 0;
    while j < v.len()
        invariant
            j <= v@.len(),
            forall|a: int, c: int| 0 <= a < c < j ==> (#[trigger] v@[a]).gid != (#[trigger] v@[c]).gid,
        decreases v@.len() - j,
    {
        let mut i: usize = 0;
        while i < j
            invariant
                i <= j < v@.len(),
                forall|a: int, c: int| 0 <= a < c < j ==> (#[trigger] v@[a]).gid != (#[trigger] v@[c]).gid,
                forall|a: int| 0 <= a < i ==> (#[trigger] v@[a]).gid != v@[j as int].gid,
            decreases j - i,
        {
            if v[i].gid == v[j].gid {
                return false;
            }
            i += 1;
        }
        j += 1;
    }
    true
}

fn pairs_distinct(v: &Vec<EdgeStore>) -> (r: bool)
    ensures
        r == forall|i: int, j: int| 0 <= i < j < v@.len() ==> !((#[trigger] v@[i]).src == (#[trigger] v@[j]).src && v@[i].dst == v@[j].dst),
{
    let mut j: usize = 0;
    while j < v.len()
        invariant
            j <= v@.len(),
            forall|a: int, c: int| 0 <= a < c < j ==> !((#[trigger] v@[a]).src == (#[trigger] v@[c]).src && v@[a].dst == v@[c].dst),
        decreases v@.len() - j,
    {
        let mut i: usize = 0;
        while i < j
            invariant
                i <= j < v@.len(),
                forall|a: int, c: int| 0 <= a < c < j ==> !((#[trigger] v@[a]).src == (#[trigger] v@[c]).src && v@[a].dst == v@[c].dst),
                forall|a: int| 0 <= a < i ==> !((#[trigger] v@[a]).src == v@[j as int].src && v@[a].dst == v@[j as int].dst),
            decreases j - i,
        {
            if v[i].src == v[j].src && v[i].dst == v[j].dst {
                return false;
            }
            i += 1;
        }
        j += 1;
    }
    true
}

/// Checks the header: `VariantMismatch` where it is the header of the other
/// variant, `SnapshotFormatError` where it is no header this library reads.
fn check_header(b: &Vec<u8>, persistent: bool) -> (r: Result<(), crate::storage::GraphError>)
    ensures
        r is Ok ==> b@.len() >= 12 && b@.subrange(0, 12) == enc_header(persistent),
        match r {
            Ok(_) => true,
            Err(e) => e == crate::storage::GraphError::SnapshotFormatError || e == crate::storage::GraphError::VariantMismatch,
        },
        b@.len() >= 12 && b@.subrange(0, 12) == enc_header(!persistent) ==> r == Err::<(), crate::storage::GraphError>(crate::storage::GraphError::VariantMismatch),
        not_a_header(b@) ==> r == Err::<(), crate::storage::GraphError>(crate::storage::GraphError::SnapshotFormatError),
{
    if b.len() < 12 {
        return Err(crate::storage::GraphError::SnapshotFormatError);
    }
    let ok_magic = b[0] == 0x52u8 && b[1] == 0x41u8 && b[2] == 0x50u8 && b[3] == 0x48u8 && b[4] == 0x53u8 && b[5] == 0x4eu8
        && b[6] == 0x41u8 && b[7] == 0x50u8;
    let (version, p) = match get_u16(b, 8) {
        Some(x) => x,
        None => {
            return Err(crate::storage::GraphError::SnapshotFormatError);
        },
    };
    let variant = b[10];
    let endian = b[11];
    proof {
        lemma_auto_spec_u16_to_from_le_bytes();
        let h = b@.subrange(0, 12);
        if h == enc_header(!persistent) || h == enc_header(persistent) {
            let hh = if h == enc_header(persistent) { enc_header(persistent) } else { enc_header(!persistent) };
            assert(b@[0] == h[0] && b@[1] == h[1] && b@[2] == h[2] && b@[3] == h[3]);
            assert(b@[4] == h[4] && b@[5] == h[5] && b@[6] == h[6] && b@[7] == h[7]);
            assert(b@[10] == h[10] && b@[11] == h[11]);
            assert(b@.subrange(8, 10) =~= h.subrange(8, 10));
            assert(hh.subrange(8, 10) =~= spec_u16_to_le_bytes(format_version()));
        }
    }
    if !ok_magic || version != 1 || endian != 1 || variant > 1 {
        return Err(crate::storage::GraphError::SnapshotFormatError);
    }
    if (variant == 1) != persistent {
        proof {
            assert(b@.subrange(8, 10) == spec_u16_to_le_bytes(1u16));
            assert(b@.subrange(0, 12) =~= enc_header(!persistent));
        }
        return Err(crate::storage::GraphError::VariantMismatch);
    }
    proof {
        assert(b@.subrange(8, 10) == spec_u16_to_le_bytes(1u16));
        assert(b@.subrange(0, 12) =~= enc_header(persistent));
    }
    Ok(())
}

/// Reads the name tables, starting at `pos`.
fn get_tables(b: &Vec<u8>, pos: usize) -> (r: Option<((KeyRegistry, KeyRegistry, KeyRegistry, KeyRegistry, KeyRegistry, KeyRegistry, KeyRegistry), usize)>)
    ensures
        match r {
            Some((t, p)) => pos <= p <= b@.len() && t.0.wf() && t.1.wf() && t.2.wf() && t.3.wf() && t.4.wf() && t.5.wf() && t.6.wf()
                && b@.subrange(pos as int, p as int) == enc_keys(t.0.names@) + enc_keys(t.1.names@) + enc_keys(t.2.names@)
                    + enc_keys(t.3.names@) + enc_keys(t.4.names@) + enc_keys(t.5.names@) + enc_keys(t.6.names@),
            None => true,
        },
{
    let (k0, at0) = match get_keys(b, pos) {
        Some(x) => x,
        None => {
            return None;
        },
    };
    let (k1, at1) = match get_keys(b, at0) {
        Some(x) => x,
        None => {
            return None;
        },
    };
    let (k2, at2) = match get_keys(b, at1) {
        Some(x) => x,
        None => {
            return None;
        },
    };
    let (k3, at3) = match get_keys(b, at2) {
        Some(x) => x,
        None => {
            return None;
        },
    };
    let (k4, at4) = match get_keys(b, at3) {
        Some(x) => x,
        None => {
            return None;
        },
    };
    let (k5, at5) = match get_keys(b, at4) {
        Some(x) => x,
        None => {
            return None;
        },
    };
    let (k6, at6) = match get_keys(b, at5) {
        Some(x) => x,
        None => {
            return None;
        },
    };
    let t = (k0, k1, k2, k3, k4, k5, k6);
    proof {
        assert(b@.subrange(pos as int, at6 as int) =~= b@.subrange(pos as int, at0 as int) + b@.subrange(at0 as int, at1 as int)
            + b@.subrange(at1 as int, at2 as int) + b@.subrange(at2 as int, at3 as int) + b@.subrange(at3 as int, at4 as int)
            + b@.subrange(at4 as int, at5 as int) + b@.subrange(at5 as int, at6 as int));
    }
    Some((t, at6))
}
fn get_nodes(b: &Vec<u8>, pos: usize) -> (r: Option<(Vec<NodeStore>, usize)>)
    ensures
        match r {
            Some((x, p)) => pos <= p <= b@.len() && b@.subrange(pos as int, p as int) == enc_nodes(x@)
                && (forall|a: int| 0 <= a < x@.len() ==> (#[trigger] x@[a]).wf())
                && (forall|i: int, j: int| 0 <= i < j < x@.len() ==> (#[trigger] x@[i]).gid != (#[trigger] x@[j]).gid),
            None => true,
        },
{
    let (n, at0) = match get_count(b, pos) {
        Some(x) => x,
        None => {
            return None;
        },
    };
    let mut nodes: Vec<NodeStore> = Vec::new();
    let mut p = at0;
    let mut i: usize = 0;
    while i < n
        invariant
            at0 <= p <= b@.len(),
            i <= n,
            nodes@.len() == i,
            b@.subrange(at0 as int, p as int) == enc_nodes_items(nodes@),
            forall|a: int| 0 <= a < nodes@.len() ==> (#[trigger] nodes@[a]).wf(),
        decreases n - i,
    {
        let (x, q) = match get_node(b, p) {
            Some(x) => x,
            None => {
                return None;
            },
        };
        let ghost before = nodes@;
        nodes.push(x);
        proof {
            assert(nodes@.drop_last() =~= before);
            assert(b@.subrange(at0 as int, q as int) =~= b@.subrange(at0 as int, p as int) + b@.subrange(p as int, q as int));
        }
        p = q;
        i += 1;
    }
    if !gids_distinct(&nodes) {
        return None;
    }
    proof {
        assert(b@.subrange(pos as int, p as int) =~= b@.subrange(pos as int, at0 as int) + b@.subrange(at0 as int, p as int));
    }
    Some((nodes, p))
}

fn get_edges(b: &Vec<u8>, pos: usize, n_nodes: usize, n_layers: usize) -> (r: Option<(Vec<EdgeStore>, usize)>)
    ensures
        match r {
            Some((x, p)) => pos <= p <= b@.len() && b@.subrange(pos as int, p as int) == enc_edges(x@)
                && (forall|a: int| 0 <= a < x@.len() ==> (#[trigger] x@[a]).wf()
                    && x@[a].src < n_nodes && x@[a].dst < n_nodes
                    && x@[a].additions@.len() <= n_layers && x@[a].deletions@.len() <= n_layers && x@[a].props@.len() <= n_layers)
                && (forall|i: int, j: int| 0 <= i < j < x@.len() ==> !((#[trigger] x@[i]).src == (#[trigger] x@[j]).src && x@[i].dst == x@[j].dst)),
            None => true,
        },
{
    let (m, at0) = match get_count(b, pos) {
        Some(x) => x,
        None => {
            return None;
        },
    };
    let mut edges: Vec<EdgeStore> = Vec::new();
    let mut p = at0;
    let mut i: usize = 0;
    while i < m
        invariant
            at0 <= p <= b@.len(),
            i <= m,
            edges@.len() == i,
            b@.subrange(at0 as int, p as int) == enc_edges_items(edges@),
            forall|a: int| 0 <= a < edges@.len() ==> (#[trigger] edges@[a]).wf()
                && edges@[a].src < n_nodes && edges@[a].dst < n_nodes
                && edges@[a].additions@.len() <= n_layers && edges@[a].deletions@.len() <= n_layers && edges@[a].props@.len() <= n_layers,
        decreases m - i,
    {
        let (x, q) = match get_edge(b, p) {
            Some(x) => x,
            None => {
                return None;
            },
        };
        if x.src >= n_nodes || x.dst >= n_nodes || x.additions.len() > n_layers || x.deletions.len() > n_layers || x.props.len() > n_layers {
            return None;
        }
        let ghost before = edges@;
        edges.push(x);
        proof {
            assert(edges@.drop_last() =~= before);
            assert(b@.subrange(at0 as int, q as int) =~= b@.subrange(at0 as int, p as int) + b@.subrange(p as int, q as int));
        }
        p = q;
        i += 1;
    }
    if !pairs_distinct(&edges) {
        return None;
    }
    proof {
        assert(b@.subrange(pos as int, p as int) =~= b@.subrange(pos as int, at0 as int) + b@.subrange(at0 as int, p as int));
    }
    Some((edges, p))
}

/// The graph a snapshot holds.  `VariantMismatch` where it is a snapshot of
/// the other variant; `SnapshotFormatError` where it is not a snapshot this
/// library reads, or its records break the graph's invariants.  What is
/// returned encodes to exactly the bytes read.
pub fn decode(b: &Vec<u8>, persistent: bool) -> (r: Result<GraphStorage, crate::storage::GraphError>)
    ensures
        match r {
            Ok(g) => g.wf() && enc_graph(&g, persistent) == b@,
            Err(e) => e == crate::storage::GraphError::SnapshotFormatError || e == crate::storage::GraphError::VariantMismatch,
        },
        b@.len() >= 12 && b@.subrange(0, 12) == enc_header(!persistent) ==> r == Err::<GraphStorage, crate::storage::GraphError>(crate::storage::GraphError::VariantMismatch),
        not_a_header(b@) ==> r == Err::<GraphStorage, crate::storage::GraphError>(crate::storage::GraphError::SnapshotFormatError),
{
    match check_header(b, persistent) {
        Ok(_) => {},
        Err(e) => {
            return Err(e);
        },
    }
    proof {
        if b@.len() >= 12 && b@.subrange(0, 12) == enc_header(!persistent) {
            assert(enc_header(persistent)[10] != enc_header(!persistent)[10]);
        }
    }
    match decode_body(b) {
        Some(g) => {
            proof {
                assert(b@ =~= b@.subrange(0, 12) + b@.subrange(12, b@.len() as int));
            }
            Ok(g)
        },
        None => Err(crate::storage::GraphError::SnapshotFormatError),
    }
}

#[verifier::rlimit(50)]
#[verifier::spinoff_prover]
fn decode_body(b: &Vec<u8>) -> (r: Option<GraphStorage>)
    requires
        b@.len() >= 12,
    ensures
        r.is_some() ==> r.unwrap().wf() && enc_body(&r.unwrap()) == b@.subrange(12, b@.len() as int),
{
    let (t, at0) = match get_tables(b, 12) {
        Some(x) => x,
        None => {
            return None;
        },
    };
    let (layers, node_const_keys, node_temporal_keys, edge_const_keys, edge_temporal_keys, graph_const_keys, graph_temporal_keys) = t;
    if layers.names.len() == 0 {
        return None;
    }
    let (nodes, at1) = match get_nodes(b, at0) {
        Some(x) => x,
        None => {
            return None;
        },
    };
    let (edges, at2) = match get_edges(b, at1, nodes.len(), layers.names.len()) {
        Some(x) => x,
        None => {
            return None;
        },
    };
    let (graph_props, at3) = match get_store(b, at2) {
        Some(x) => x,
        None => {
            return None;
        },
    };
    let (seq, at4) = match get_u64(b, at3) {
        Some(x) => x,
        None => {
            return None;
        },
    };
    if at4 != b.len() {
        return None;
    }
    let g = GraphStorage {
        nodes,
        edges,
        layers,
        node_const_keys,
        node_temporal_keys,
        edge_const_keys,
        edge_temporal_keys,
        graph_const_keys,
        graph_temporal_keys,
        graph_props,
        seq,
    };
    proof {
        assert(b@.subrange(12, at0 as int) == enc_tables(&g));
        assert(b@.subrange(12, b@.len() as int) =~= b@.subrange(12, at0 as int) + b@.subrange(at0 as int, at1 as int)
            + b@.subrange(at1 as int, at2 as int) + b@.subrange(at2 as int, at3 as int) + b@.subrange(at3 as int, at4 as int));
    }
    Some(g)
}

} // verus!
