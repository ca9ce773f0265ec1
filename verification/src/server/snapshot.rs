//! The nodes and conversations of both tables as messages.

use vstd::prelude::*;

use crate::model::conv_table::ConvTable;
use crate::model::nodes::{node_totals, NodeStats};
use crate::model::packet::{IpAddr, Mac};
use crate::model::tables::{ConvStats, L2Key, L3Key, Tables, TablesView};
use crate::resolve::oui::{label, OuiDb};
use crate::server::graph::{Address, PairKey};
use crate::wsproto::{Delta, View as Graph};

verus! {

/// A message that describes a conversation between two nodes: its totals and
/// a protocol that has the most bytes.
pub open spec fn is_edge_of(
    delta: crate::wsproto::DeltaView,
    view: Graph,
    source: Seq<char>,
    target: Seq<char>,
    conv: crate::model::tables::ConvView,
) -> bool {
    &&& delta is UpsertEdge
    &&& delta->UpsertEdge_view == view
    &&& delta->UpsertEdge_id == crate::server::graph::edge_id(source, target)
    &&& delta->UpsertEdge_source == source
    &&& delta->UpsertEdge_target == target
    &&& delta->UpsertEdge_bytes == conv.bytes
    &&& delta->UpsertEdge_packets == conv.packets
    &&& exists|p: crate::model::packet::ProtoView|
        crate::model::tables::is_dominant(conv.proto_bytes, p) && delta->UpsertEdge_proto
            == #[trigger] crate::model::packet::proto_text(p)
}

/// The message that describes a conversation between two nodes.
pub fn edge_delta(view: Graph, source: String, target: String, conv: &ConvStats) -> (r: Delta)
    requires
        conv.wf(),
    ensures
        is_edge_of(r@, view, source@, target@, conv@),
{
    let mut id = source.clone();
    id.push('|');
    id.append(target.as_str());
    let proto = conv.dominant_proto();
    let r = Delta::UpsertEdge {
        view,
        id,
        source,
        target,
        bytes: conv.bytes,
        packets: conv.packets,
        proto: proto.to_text(),
    };
    assert(r@->UpsertEdge_proto == crate::model::packet::proto_text(proto@));
    r
}

/// The views of several messages.
pub open spec fn delta_views(s: Seq<Delta>) -> Seq<crate::wsproto::DeltaView> {
    s.map_values(|d: Delta| d@)
}

/// A message that describes a node: its label, its totals and a protocol that
/// has the most bytes.
pub open spec fn is_node_of(
    delta: crate::wsproto::DeltaView,
    view: Graph,
    id: Seq<char>,
    label: Seq<char>,
    node: crate::model::nodes::NodeView,
) -> bool {
    &&& delta is UpsertNode
    &&& delta->UpsertNode_view == view
    &&& delta->UpsertNode_id == id
    &&& delta->UpsertNode_label == label
    &&& delta->UpsertNode_bytes == node.bytes
    &&& delta->UpsertNode_packets == node.packets
    &&& exists|p: crate::model::packet::ProtoView|
        crate::model::tables::is_dominant(node.proto_bytes, p) && delta->UpsertNode_proto
            == #[trigger] crate::model::packet::proto_text(p)
}

/// The message that describes a node.
pub fn node_delta(view: Graph, id: String, label: String, node: &NodeStats) -> (r: Delta)
    requires
        node.wf(),
    ensures
        is_node_of(r@, view, id@, label@, node@),
{
    let proto = node.dominant_proto();
    let r = Delta::UpsertNode {
        view,
        id,
        label,
        bytes: node.bytes,
        packets: node.packets,
        proto: proto.to_text(),
    };
    assert(r@->UpsertNode_proto == crate::model::packet::proto_text(proto@));
    r
}

/// The labels of Ethernet addresses: the vendor and the device.
pub open spec fn mac_labels(vendors: crate::resolve::oui::OuiView) -> spec_fn(Mac) -> Seq<char> {
    |mac: Mac| crate::resolve::oui::label_of(vendors, mac)
}

/// The labels of IP addresses: the names that were found.
pub open spec fn ip_labels(t: TablesView) -> spec_fn(IpAddr) -> Seq<char> {
    |ip: IpAddr| crate::model::tables::l3_label_of(t, ip)
}

/// Where the nodes of a graph have their labels from.
pub trait Labels<E> {
    /// The label of each address.
    spec fn labels(&self) -> spec_fn(E) -> Seq<char>;

    /// Writes the label of an address.
    fn write_label(&self, end: &E) -> (r: String)
        ensures
            r@ == (self.labels())(*end),
    ;
}

impl Labels<Mac> for OuiDb {
    open spec fn labels(&self) -> spec_fn(Mac) -> Seq<char> {
        mac_labels(self@)
    }

    fn write_label(&self, end: &Mac) -> (r: String) {
        label(self, end)
    }
}

impl Labels<IpAddr> for Tables {
    open spec fn labels(&self) -> spec_fn(IpAddr) -> Seq<char> {
        ip_labels(self@)
    }

    fn write_label(&self, end: &IpAddr) -> (r: String) {
        self.l3_label(end)
    }
}

/// A message that describes a conversation of a table.
pub open spec fn is_edge<K: PairKey>(
    delta: crate::wsproto::DeltaView,
    entry: (K, crate::model::tables::ConvView),
) -> bool {
    is_edge_of(
        delta,
        K::End::graph(),
        entry.0.ends().0.id(),
        entry.0.ends().1.id(),
        entry.1,
    )
}

/// A message that describes an address of a table.
pub open spec fn is_node<E: Address>(
    labels: spec_fn(E) -> Seq<char>,
    delta: crate::wsproto::DeltaView,
    entry: (E, crate::model::nodes::NodeView),
) -> bool {
    is_node_of(delta, E::graph(), entry.0.id(), labels(entry.0), entry.1)
}

/// Conversations with their two ends.
pub open spec fn with_ends<K: PairKey>(a: Seq<(K, crate::model::tables::ConvView)>) -> Seq<
    (K::End, K::End, crate::model::tables::ConvView),
> {
    a.map_values(
        |e: (K, crate::model::tables::ConvView)| (e.0.ends().0, e.0.ends().1, e.1),
    )
}

/// `s` describes every address of a table, listed by `n`, and then every
/// conversation, listed by `a`, each once.
pub open spec fn describes<K: PairKey>(
    m: Map<K, crate::model::tables::ConvView>,
    labels: spec_fn(K::End) -> Seq<char>,
    s: Seq<crate::wsproto::DeltaView>,
    n: Seq<(K::End, crate::model::nodes::NodeView)>,
    a: Seq<(K, crate::model::tables::ConvView)>,
) -> bool {
    &&& crate::model::coded_map::lists(m, a)
    &&& crate::model::coded_map::lists(crate::model::nodes::nodes_of(with_ends(a)), n)
    &&& s.len() == n.len() + a.len()
    &&& forall|i: int| 0 <= i < n.len() ==> is_node(labels, s[i], #[trigger] n[i])
    &&& forall|i: int| 0 <= i < a.len() ==> is_edge(s[n.len() + i], #[trigger] a[i])
}

/// `s` describes the addresses and the conversations of a table, each once.
pub open spec fn is_part<K: PairKey>(
    m: Map<K, crate::model::tables::ConvView>,
    labels: spec_fn(K::End) -> Seq<char>,
    s: Seq<crate::wsproto::DeltaView>,
) -> bool {
    exists|
        n: Seq<(K::End, crate::model::nodes::NodeView)>,
        a: Seq<(K, crate::model::tables::ConvView)>,
    | #[trigger] describes(m, labels, s, n, a)
}

/// `s` describes every address and every conversation of both tables, each
/// once: first those of layer two, then those of layer three.
pub open spec fn is_snapshot(
    t: TablesView,
    vendors: crate::resolve::oui::OuiView,
    s: Seq<crate::wsproto::DeltaView>,
) -> bool {
    exists|k: int|
        0 <= k <= s.len() && is_part(t.l2, mac_labels(vendors), #[trigger] s.take(k)) && is_part(
            t.l3,
            ip_labels(t),
            s.skip(k),
        )
}

proof fn lemma_node_list<E: crate::model::coded_map::CodedKey>(
    m: Map<E, NodeStats>,
    s: Seq<(&E, &NodeStats)>,
)
    requires
        crate::model::coded_map::lists(m, crate::model::coded_map::unref(s)),
    ensures
        crate::model::coded_map::lists(
            crate::model::nodes::node_views(m),
            s.map_values(|e: (&E, &NodeStats)| (*e.0, e.1@)),
        ),
        forall|i: int|
            0 <= i < s.len() ==> m.contains_key(*(#[trigger] s[i]).0) && m[*s[i].0] == *s[i].1,
{
    let plain = crate::model::coded_map::unref(s);
    let views = s.map_values(|e: (&E, &NodeStats)| (*e.0, e.1@));
    let nodes = crate::model::nodes::node_views(m);
    assert(nodes.dom() =~= m.dom());
    assert forall|i: int| 0 <= i < s.len() implies m.contains_key(*(#[trigger] s[i]).0)
        && m[*s[i].0] == *s[i].1 by {
        assert(plain[i] == (*s[i].0, *s[i].1));
    }
    assert forall|i: int| 0 <= i < views.len() implies nodes.contains_key((#[trigger] views[i]).0)
        && nodes[views[i].0] == views[i].1 by {
        assert(plain[i] == (*s[i].0, *s[i].1));
    }
    assert forall|i: int, j: int| 0 <= i < j < views.len() implies views[i].0 != views[j].0 by {
        assert(plain[i].0 != plain[j].0);
    }
    assert forall|k: E| #[trigger] nodes.contains_key(k) implies exists|i: int|
        0 <= i < views.len() && (#[trigger] views[i]).0 == k by {
        assert(m.contains_key(k));
        let i = choose|i: int| 0 <= i < plain.len() && (#[trigger] plain[i]).0 == k;
        assert(views[i].0 == k);
    }
}

fn table_part<K: PairKey, L: Labels<K::End>>(table: &ConvTable<K>, labels: &L) -> (r: Vec<Delta>)
    ensures
        is_part(table@, labels.labels(), delta_views(r@)),
{
    let convs = table.all();
    let ghost a = crate::model::conv_table::entry_views(convs@);
    let mut ends: Vec<(K::End, K::End, &ConvStats)> = Vec::new();
    let mut i: usize = 0;
    while i < convs.len()
        invariant
            i <= convs@.len(),
            ends@.len() == i,
            forall|j: int|
                0 <= j < i ==> #[trigger] ends@[j] == (
                    convs@[j].0.ends().0,
                    convs@[j].0.ends().1,
                    convs@[j].1,
                ),
        decreases convs@.len() - i,
    {
        let (key, conv) = convs[i];
        let (source, target) = key.both_ends();
        ends.push((source, target, conv));
        i += 1;
    }
    proof {
        assert(crate::model::nodes::conv_views(ends@) =~= with_ends(a));
        assert forall|j: int| 0 <= j < ends@.len() implies (#[trigger] ends@[j]).2.wf() by {
            assert(convs@[j].1.wf());
        }
    }
    let totals = node_totals(&ends);
    let nodes = totals.all();
    let ghost n = nodes@.map_values(|e: (&K::End, &NodeStats)| (*e.0, e.1@));
    proof {
        lemma_node_list(totals@, nodes@);
    }
    let mut r: Vec<Delta> = Vec::new();
    let mut j: usize = 0;
    while j < nodes.len()
        invariant
            j <= nodes@.len(),
            r@.len() == j,
            n == nodes@.map_values(|e: (&K::End, &NodeStats)| (*e.0, e.1@)),
            forall|k: int|
                0 <= k < nodes@.len() ==> totals@.contains_key(*(#[trigger] nodes@[k]).0)
                    && totals@[*nodes@[k].0] == *nodes@[k].1,
            forall|e: K::End| #[trigger] totals@.contains_key(e) ==> totals@[e].wf(),
            forall|k: int| 0 <= k < j ==> is_node(labels.labels(), r@[k]@, #[trigger] n[k]),
        decreases nodes@.len() - j,
    {
        let (end, node) = nodes[j];
        assert(totals@.contains_key(*nodes@[j as int].0));
        assert(n[j as int] == (*end, node@));
        r.push(node_delta(K::End::which_graph(), end.write_id(), labels.write_label(end), node));
        j += 1;
    }
    let mut k: usize = 0;
    while k < convs.len()
        invariant
            k <= convs@.len(),
            r@.len() == n.len() + k,
            n.len() == nodes@.len(),
            a == crate::model::conv_table::entry_views(convs@),
            forall|i: int| 0 <= i < convs@.len() ==> (#[trigger] convs@[i]).1.wf(),
            forall|i: int| 0 <= i < n.len() ==> is_node(labels.labels(), r@[i]@, #[trigger] n[i]),
            forall|i: int| 0 <= i < k ==> is_edge(r@[n.len() + i]@, #[trigger] a[i]),
        decreases convs@.len() - k,
    {
        let (key, conv) = convs[k];
        let (source, target) = key.both_ends();
        assert(convs@[k as int].1.wf());
        assert(a[k as int] == (*key, conv@));
        r.push(edge_delta(K::End::which_graph(), source.write_id(), target.write_id(), conv));
        k += 1;
    }
    assert(describes(table@, labels.labels(), delta_views(r@), n, a));
    r
}

impl Tables {
    /// Messages that describe everything that the tables hold.
    pub fn snapshot_deltas(&self, vendors: &OuiDb) -> (r: Vec<Delta>)
        ensures
            is_snapshot(self@, vendors@, delta_views(r@)),
    {
        let mut r = table_part(&self.l2, vendors);
        let mut l3 = table_part(&self.l3, self);
        let ghost x = delta_views(r@);
        let ghost y = delta_views(l3@);
        r.append(&mut l3);
        proof {
            let s = delta_views(r@);
            assert(s.take(x.len() as int) =~= x);
            assert(s.skip(x.len() as int) =~= y);
        }
        r
    }
}

/// Every message describes something, and no two the same thing.
spec fn is_distinct(s: Seq<crate::wsproto::DeltaView>) -> bool {
    &&& forall|i: int|
        0 <= i < s.len() ==> (#[trigger] s[i]) is UpsertNode || s[i] is UpsertEdge
    &&& forall|i: int, j: int|
        0 <= i < j < s.len() ==> crate::wsproto::target_of(#[trigger] s[i])
            != crate::wsproto::target_of(#[trigger] s[j])
}

proof fn lemma_part_distinct<K: PairKey>(
    m: Map<K, crate::model::tables::ConvView>,
    labels: spec_fn(K::End) -> Seq<char>,
    s: Seq<crate::wsproto::DeltaView>,
    n: Seq<(K::End, crate::model::nodes::NodeView)>,
    a: Seq<(K, crate::model::tables::ConvView)>,
)
    requires
        describes(m, labels, s, n, a),
    ensures
        forall|i: int|
            0 <= i < n.len() ==> crate::wsproto::target_of(s[i])
                == crate::server::graph::node_target((#[trigger] n[i]).0),
        forall|i: int|
            0 <= i < a.len() ==> crate::wsproto::target_of(s[n.len() + i])
                == crate::server::graph::edge_target((#[trigger] a[i]).0),
        forall|i: int|
            0 <= i < s.len() ==> crate::wsproto::target_of(#[trigger] s[i]).view
                == K::End::graph(),
        is_distinct(s),
{
    assert forall|i: int| 0 <= i < n.len() implies crate::wsproto::target_of(s[i])
        == crate::server::graph::node_target((#[trigger] n[i]).0) && s[i] is UpsertNode by {
        assert(is_node(labels, s[i], n[i]));
    }
    assert forall|i: int| 0 <= i < a.len() implies crate::wsproto::target_of(s[n.len() + i])
        == crate::server::graph::edge_target((#[trigger] a[i]).0) && s[n.len() + i] is UpsertEdge by {
        assert(is_edge(s[n.len() + i], a[i]));
    }
    assert forall|i: int| 0 <= i < s.len() implies ((#[trigger] s[i]) is UpsertNode
        || s[i] is UpsertEdge) && crate::wsproto::target_of(s[i]).view == K::End::graph() by {
        if i < n.len() {
            assert(is_node(labels, s[i], n[i]));
        } else {
            let k = i - n.len();
            assert(is_edge(s[n.len() + k], a[k]));
        }
    }
    assert forall|i: int, j: int| 0 <= i < j < s.len() implies crate::wsproto::target_of(
        #[trigger] s[i],
    ) != crate::wsproto::target_of(#[trigger] s[j]) by {
        if j < n.len() {
            assert(n[i].0 != n[j].0);
            if crate::wsproto::target_of(s[i]) == crate::wsproto::target_of(s[j]) {
                crate::server::graph::law_nodes_tell_addresses(n[i].0, n[j].0);
            }
        } else if i >= n.len() {
            let k = i - n.len();
            let l = j - n.len();
            assert(a[k].0 != a[l].0);
            assert(s[i] == s[n.len() + k] && s[j] == s[n.len() + l]);
            if crate::wsproto::target_of(s[i]) == crate::wsproto::target_of(s[j]) {
                crate::server::graph::law_edges_tell_conversations(a[k].0, a[l].0);
            }
        } else {
            let l = j - n.len();
            assert(is_node(labels, s[i], n[i]));
            assert(is_edge(s[n.len() + l], a[l]));
        }
    }
}

/// What a reader knows of a table's graph is every address and every
/// conversation of the table, listed by `a`, with its label and totals.
pub open spec fn knows<K: PairKey>(
    m: Map<K, crate::model::tables::ConvView>,
    labels: spec_fn(K::End) -> Seq<char>,
    known: Map<crate::wsproto::Target, crate::wsproto::DeltaView>,
    a: Seq<(K, crate::model::tables::ConvView)>,
) -> bool {
    let nodes = crate::model::nodes::nodes_of(with_ends(a));
    &&& crate::model::coded_map::lists(m, a)
    &&& forall|k: K| #[trigger]
        m.contains_key(k) ==> known.contains_key(crate::server::graph::edge_target(k)) && is_edge(
            known[crate::server::graph::edge_target(k)],
            (k, m[k]),
        )
    &&& forall|e: K::End| #[trigger]
        nodes.contains_key(e) ==> known.contains_key(crate::server::graph::node_target(e))
            && is_node(labels, known[crate::server::graph::node_target(e)], (e, nodes[e]))
    &&& forall|target: crate::wsproto::Target| #[trigger]
        known.contains_key(target) && target.view == K::End::graph() ==> (exists|k: K|
            m.contains_key(k) && target == #[trigger] crate::server::graph::edge_target(k)) || (
        exists|e: K::End|
            nodes.contains_key(e) && target == #[trigger] crate::server::graph::node_target(e))
}

proof fn lemma_knows<K: PairKey>(
    m: Map<K, crate::model::tables::ConvView>,
    labels: spec_fn(K::End) -> Seq<char>,
    s: Seq<crate::wsproto::DeltaView>,
    from: int,
    to: int,
)
    requires
        is_distinct(s),
        0 <= from <= to <= s.len(),
        is_part(m, labels, s.subrange(from, to)),
        forall|i: int|
            0 <= i < s.len() && !(from <= i < to) ==> crate::wsproto::target_of(
                #[trigger] s[i],
            ).view != K::End::graph(),
    ensures
        exists|a: Seq<(K, crate::model::tables::ConvView)>| #[trigger]
            knows(m, labels, crate::wsproto::applied_all(Map::empty(), s), a),
{
    let part = s.subrange(from, to);
    let (n, a) = choose|
        n: Seq<(K::End, crate::model::nodes::NodeView)>,
        a: Seq<(K, crate::model::tables::ConvView)>,
    | #[trigger] describes(m, labels, part, n, a);
    let known = crate::wsproto::applied_all(Map::empty(), s);
    let nodes = crate::model::nodes::nodes_of(with_ends(a));
    lemma_part_distinct(m, labels, part, n, a);
    crate::wsproto::lemma_applied_upserts(s);
    assert forall|k: K| #[trigger] m.contains_key(k) implies known.contains_key(
        crate::server::graph::edge_target(k),
    ) && is_edge(known[crate::server::graph::edge_target(k)], (k, m[k])) by {
        let i = choose|i: int| 0 <= i < a.len() && (#[trigger] a[i]).0 == k;
        let at = from + n.len() + i;
        assert(a[i] == (k, m[k]));
        assert(is_edge(part[n.len() + i], a[i]));
        assert(part[n.len() + i] == s[at]);
        assert(known[crate::wsproto::target_of(s[at])] == s[at]);
    }
    assert forall|e: K::End| #[trigger] nodes.contains_key(e) implies known.contains_key(
        crate::server::graph::node_target(e),
    ) && is_node(labels, known[crate::server::graph::node_target(e)], (e, nodes[e])) by {
        let i = choose|i: int| 0 <= i < n.len() && (#[trigger] n[i]).0 == e;
        assert(n[i] == (e, nodes[e]));
        assert(is_node(labels, part[i], n[i]));
        assert(part[i] == s[from + i]);
        assert(known[crate::wsproto::target_of(s[from + i])] == s[from + i]);
    }
    assert forall|target: crate::wsproto::Target| #[trigger]
        known.contains_key(target) && target.view == K::End::graph() implies (exists|k: K|
        m.contains_key(k) && target == #[trigger] crate::server::graph::edge_target(k)) || (exists|
        e: K::End,
    | nodes.contains_key(e) && target == #[trigger] crate::server::graph::node_target(e)) by {
        let i = choose|i: int|
            0 <= i < s.len() && crate::wsproto::target_of(#[trigger] s[i]) == target;
        let at = i - from;
        assert(part[at] == s[i]);
        if at < n.len() {
            assert(nodes.contains_key(n[at].0));
            assert(target == crate::server::graph::node_target(n[at].0));
        } else {
            let k = at - n.len();
            assert(part[n.len() + k] == s[i]);
            assert(m.contains_key(a[k].0));
            assert(target == crate::server::graph::edge_target(a[k].0));
        }
    }
    assert(knows(m, labels, known, a));
}

/// A reader that is sent a snapshot knows every address and every conversation
/// of both tables, with their labels and totals, and nothing else.
pub proof fn law_snapshot_is_complete(
    t: TablesView,
    vendors: crate::resolve::oui::OuiView,
    s: Seq<crate::wsproto::DeltaView>,
)
    requires
        is_snapshot(t, vendors, s),
    ensures
        exists|a: Seq<(L2Key, crate::model::tables::ConvView)>| #[trigger]
            knows(t.l2, mac_labels(vendors), crate::wsproto::applied_all(Map::empty(), s), a),
        exists|a: Seq<(L3Key, crate::model::tables::ConvView)>| #[trigger]
            knows(t.l3, ip_labels(t), crate::wsproto::applied_all(Map::empty(), s), a),
{
    let cut = choose|k: int|
        0 <= k <= s.len() && is_part(t.l2, mac_labels(vendors), #[trigger] s.take(k)) && is_part(
            t.l3,
            ip_labels(t),
            s.skip(k),
        );
    let x = s.take(cut);
    let y = s.skip(cut);
    let (n, a) = choose|
        n: Seq<(Mac, crate::model::nodes::NodeView)>,
        a: Seq<(L2Key, crate::model::tables::ConvView)>,
    | #[trigger] describes(t.l2, mac_labels(vendors), x, n, a);
    let (o, b) = choose|
        n: Seq<(IpAddr, crate::model::nodes::NodeView)>,
        a: Seq<(L3Key, crate::model::tables::ConvView)>,
    | #[trigger] describes(t.l3, ip_labels(t), y, n, a);
    lemma_part_distinct(t.l2, mac_labels(vendors), x, n, a);
    lemma_part_distinct(t.l3, ip_labels(t), y, o, b);
    assert forall|i: int| 0 <= i < cut implies crate::wsproto::target_of(#[trigger] s[i]).view
        == Graph::Ether && (s[i] is UpsertNode || s[i] is UpsertEdge) by {
        assert(x[i] == s[i]);
    }
    assert forall|i: int| cut <= i < s.len() implies crate::wsproto::target_of(
        #[trigger] s[i],
    ).view == Graph::Inter && (s[i] is UpsertNode || s[i] is UpsertEdge) by {
        assert(y[i - cut] == s[i]);
    }
    assert(is_distinct(s)) by {
        assert forall|i: int, j: int| 0 <= i < j < s.len() implies crate::wsproto::target_of(
            #[trigger] s[i],
        ) != crate::wsproto::target_of(#[trigger] s[j]) by {
            if j < cut {
                assert(x[i] == s[i] && x[j] == s[j]);
            } else if i >= cut {
                assert(y[i - cut] == s[i] && y[j - cut] == s[j]);
            }
        }
    }
    assert(s.subrange(0, cut) =~= x);
    assert(s.subrange(cut, s.len() as int) =~= y);
    lemma_knows(t.l2, mac_labels(vendors), s, 0, cut);
    lemma_knows(t.l3, ip_labels(t), s, cut, s.len() as int);
}

/// A message that describes a conversation tells its ends, its own counters
/// and a protocol with the most bytes; its identifier is made of its ends.
pub proof fn law_edge_messages(
    delta: Delta,
    view: Graph,
    source: Seq<char>,
    target: Seq<char>,
    conv: ConvStats,
)
    requires
        is_edge_of(delta@, view, source, target, conv@),
    ensures
        delta matches Delta::UpsertEdge {
            view: v,
            id,
            source: from,
            target: to,
            bytes,
            packets,
            proto,
        } && {
            &&& v == view
            &&& id@ == source + seq!['|'] + target
            &&& from@ == source
            &&& to@ == target
            &&& bytes == conv.bytes
            &&& packets == conv.packets
            &&& exists|p: crate::model::packet::ProtoView|
                crate::model::tables::is_dominant(conv@.proto_bytes, p) && proto@
                    == #[trigger] crate::model::packet::proto_text(p)
        },
{
    assert(crate::server::graph::edge_id(source, target) =~= source + seq!['|'] + target);
}

/// A message that describes a node tells its identifier, its label, its own
/// counters and a protocol with the most bytes.
pub proof fn law_node_messages(
    delta: Delta,
    view: Graph,
    id: Seq<char>,
    label: Seq<char>,
    node: NodeStats,
)
    requires
        is_node_of(delta@, view, id, label, node@),
    ensures
        delta matches Delta::UpsertNode { view: v, id: i, label: l, bytes, packets, proto } && {
            &&& v == view
            &&& i@ == id
            &&& l@ == label
            &&& bytes == node.bytes
            &&& packets == node.packets
            &&& exists|p: crate::model::packet::ProtoView|
                crate::model::tables::is_dominant(node@.proto_bytes, p) && proto@
                    == #[trigger] crate::model::packet::proto_text(p)
        },
{
}

/// Messages are seen as they are, in order.
pub proof fn law_messages_in_order(s: Seq<Delta>, i: int)
    ensures
        delta_views(s).len() == s.len(),
        0 <= i < s.len() ==> delta_views(s)[i] == s[i]@,
{
}

/// A reader knows an edge between two nodes, with the counters of `conv` and a
/// protocol of it with the most bytes.
pub open spec fn tells_edge(
    known: Map<crate::wsproto::Target, crate::wsproto::DeltaView>,
    view: Graph,
    source: Seq<char>,
    target: Seq<char>,
    conv: crate::model::tables::ConvView,
) -> bool {
    let at = crate::wsproto::Target { edge: true, view, id: source + seq!['|'] + target };
    let delta = known[at];
    &&& known.contains_key(at)
    &&& delta is UpsertEdge
    &&& delta->UpsertEdge_view == view
    &&& delta->UpsertEdge_id == source + seq!['|'] + target
    &&& delta->UpsertEdge_source == source
    &&& delta->UpsertEdge_target == target
    &&& delta->UpsertEdge_bytes == conv.bytes
    &&& delta->UpsertEdge_packets == conv.packets
    &&& exists|p: crate::model::packet::ProtoView|
        crate::model::tables::is_dominant(conv.proto_bytes, p) && delta->UpsertEdge_proto
            == #[trigger] crate::model::packet::proto_text(p)
}

/// A reader knows a node, with a label, the counters of `node` and a protocol
/// of it with the most bytes.
pub open spec fn tells_node(
    known: Map<crate::wsproto::Target, crate::wsproto::DeltaView>,
    view: Graph,
    id: Seq<char>,
    label: Seq<char>,
    node: crate::model::nodes::NodeView,
) -> bool {
    let at = crate::wsproto::Target { edge: false, view, id };
    let delta = known[at];
    &&& known.contains_key(at)
    &&& delta is UpsertNode
    &&& delta->UpsertNode_view == view
    &&& delta->UpsertNode_id == id
    &&& delta->UpsertNode_label == label
    &&& delta->UpsertNode_bytes == node.bytes
    &&& delta->UpsertNode_packets == node.packets
    &&& exists|p: crate::model::packet::ProtoView|
        crate::model::tables::is_dominant(node.proto_bytes, p) && delta->UpsertNode_proto
            == #[trigger] crate::model::packet::proto_text(p)
}

/// A reader knows these nodes of a graph, each by its identifier and with its
/// label, and no others.
pub open spec fn tells_nodes<E>(
    known: Map<crate::wsproto::Target, crate::wsproto::DeltaView>,
    view: Graph,
    nodes: Map<E, crate::model::nodes::NodeView>,
    id: spec_fn(E) -> Seq<char>,
    label: spec_fn(E) -> Seq<char>,
) -> bool {
    &&& forall|e: E| #[trigger]
        nodes.contains_key(e) ==> tells_node(known, view, id(e), label(e), nodes[e])
    &&& forall|at: crate::wsproto::Target| #[trigger]
        known.contains_key(at) && at.view == view && !at.edge ==> exists|e: E| #[trigger]
            nodes.contains_key(e) && at.id == id(e)
}

proof fn lemma_tells<K: PairKey>(
    m: Map<K, crate::model::tables::ConvView>,
    labels: spec_fn(K::End) -> Seq<char>,
    id: spec_fn(K::End) -> Seq<char>,
    known: Map<crate::wsproto::Target, crate::wsproto::DeltaView>,
    a: Seq<(K, crate::model::tables::ConvView)>,
)
    requires
        knows(m, labels, known, a),
        forall|e: K::End| #[trigger] id(e) == e.id(),
    ensures
        forall|k: K| #[trigger]
            m.contains_key(k) ==> tells_edge(
                known,
                K::End::graph(),
                k.ends().0.id(),
                k.ends().1.id(),
                m[k],
            ),
        forall|at: crate::wsproto::Target| #[trigger]
            known.contains_key(at) && at.view == K::End::graph() && at.edge ==> exists|k: K| #[trigger]
                m.contains_key(k) && at.id == k.ends().0.id() + seq!['|'] + k.ends().1.id(),
        tells_nodes(
            known,
            K::End::graph(),
            crate::model::nodes::nodes_of(with_ends(a)),
            id,
            labels,
        ),
{
    let nodes = crate::model::nodes::nodes_of(with_ends(a));
    assert forall|x: Seq<char>, y: Seq<char>| #[trigger]
        crate::server::graph::edge_id(x, y) == x + seq!['|'] + y by {
        assert(crate::server::graph::edge_id(x, y) =~= x + seq!['|'] + y);
    }
    assert forall|k: K| #[trigger] m.contains_key(k) implies tells_edge(
        known,
        K::End::graph(),
        k.ends().0.id(),
        k.ends().1.id(),
        m[k],
    ) by {
        assert(is_edge(known[crate::server::graph::edge_target(k)], (k, m[k])));
    }
    assert forall|e: K::End| #[trigger] nodes.contains_key(e) implies tells_node(
        known,
        K::End::graph(),
        id(e),
        labels(e),
        nodes[e],
    ) by {
        assert(id(e) == e.id());
        assert(is_node(labels, known[crate::server::graph::node_target(e)], (e, nodes[e])));
    }
    assert forall|at: crate::wsproto::Target| #[trigger]
        known.contains_key(at) && at.view == K::End::graph() implies (at.edge ==> exists|k: K| #[trigger]
        m.contains_key(k) && at.id == k.ends().0.id() + seq!['|'] + k.ends().1.id()) && (!at.edge
        ==> exists|e: K::End| #[trigger] nodes.contains_key(e) && at.id == id(e)) by {
        if exists|k: K| m.contains_key(k) && at == #[trigger] crate::server::graph::edge_target(k) {
            let k = choose|k: K|
                m.contains_key(k) && at == #[trigger] crate::server::graph::edge_target(k);
            assert(m.contains_key(k));
        } else {
            let e = choose|e: K::End|
                nodes.contains_key(e) && at == #[trigger] crate::server::graph::node_target(e);
            assert(nodes.contains_key(e));
            assert(id(e) == e.id());
        }
    }
}

/// Of each layer-two conversation a snapshot tells the edge between its two
/// ends, with its own counters, and no other edge of that graph; and of each
/// Ethernet address the node, with vendor and device as its label and with
/// what its conversations hold together.
pub proof fn law_snapshot_tells_layer_two(
    t: TablesView,
    vendors: crate::resolve::oui::OuiView,
    s: Seq<crate::wsproto::DeltaView>,
)
    requires
        is_snapshot(t, vendors, s),
    ensures
        forall|k: L2Key| #[trigger]
            t.l2.contains_key(k) ==> tells_edge(
                crate::wsproto::applied_all(Map::empty(), s),
                Graph::Ether,
                crate::model::packet::mac_text(k.0),
                crate::model::packet::mac_text(k.1),
                t.l2[k],
            ),
        forall|at: crate::wsproto::Target| #[trigger]
            crate::wsproto::applied_all(Map::empty(), s).contains_key(at) && at.view == Graph::Ether
                && at.edge ==> exists|k: L2Key| #[trigger]
                t.l2.contains_key(k) && at.id == crate::model::packet::mac_text(k.0) + seq!['|']
                    + crate::model::packet::mac_text(k.1),
        exists|a: Seq<(L2Key, crate::model::tables::ConvView)>| #[trigger]
            crate::model::coded_map::lists(t.l2, a) && tells_nodes(
                crate::wsproto::applied_all(Map::empty(), s),
                Graph::Ether,
                crate::model::nodes::nodes_of(
                    a.map_values(
                        |e: (L2Key, crate::model::tables::ConvView)| (e.0.0, e.0.1, e.1),
                    ),
                ),
                |mac: Mac| crate::model::packet::mac_text(mac),
                |mac: Mac| crate::resolve::oui::label_of(vendors, mac),
            ),
{
    law_snapshot_is_complete(t, vendors, s);
    let known = crate::wsproto::applied_all(Map::empty(), s);
    let a = choose|a: Seq<(L2Key, crate::model::tables::ConvView)>| #[trigger]
        knows(t.l2, mac_labels(vendors), known, a);
    let id = |mac: Mac| crate::model::packet::mac_text(mac);
    let label = |mac: Mac| crate::resolve::oui::label_of(vendors, mac);
    lemma_tells(t.l2, mac_labels(vendors), id, known, a);
    assert(label =~= mac_labels(vendors));
    assert(with_ends(a) =~= a.map_values(
        |e: (L2Key, crate::model::tables::ConvView)| (e.0.0, e.0.1, e.1),
    ));
    assert(crate::model::coded_map::lists(t.l2, a));
}

/// Of each layer-three conversation a snapshot tells the edge between its two
/// ends, with its own counters, and no other edge of that graph; and of each
/// IP address the node, with its name or the address itself as its label and
/// with what its conversations hold together.
pub proof fn law_snapshot_tells_layer_three(
    t: TablesView,
    vendors: crate::resolve::oui::OuiView,
    s: Seq<crate::wsproto::DeltaView>,
)
    requires
        is_snapshot(t, vendors, s),
    ensures
        forall|k: L3Key| #[trigger]
            t.l3.contains_key(k) ==> tells_edge(
                crate::wsproto::applied_all(Map::empty(), s),
                Graph::Inter,
                crate::model::address::ip_text(k.0),
                crate::model::address::ip_text(k.1),
                t.l3[k],
            ),
        forall|at: crate::wsproto::Target| #[trigger]
            crate::wsproto::applied_all(Map::empty(), s).contains_key(at) && at.view == Graph::Inter
                && at.edge ==> exists|k: L3Key| #[trigger]
                t.l3.contains_key(k) && at.id == crate::model::address::ip_text(k.0) + seq!['|']
                    + crate::model::address::ip_text(k.1),
        exists|a: Seq<(L3Key, crate::model::tables::ConvView)>| #[trigger]
            crate::model::coded_map::lists(t.l3, a) && tells_nodes(
                crate::wsproto::applied_all(Map::empty(), s),
                Graph::Inter,
                crate::model::nodes::nodes_of(
                    a.map_values(
                        |e: (L3Key, crate::model::tables::ConvView)| (e.0.0, e.0.1, e.1),
                    ),
                ),
                |ip: IpAddr| crate::model::address::ip_text(ip),
                |ip: IpAddr| crate::model::tables::l3_label_of(t, ip),
            ),
{
    law_snapshot_is_complete(t, vendors, s);
    let known = crate::wsproto::applied_all(Map::empty(), s);
    let a = choose|a: Seq<(L3Key, crate::model::tables::ConvView)>| #[trigger]
        knows(t.l3, ip_labels(t), known, a);
    let id = |ip: IpAddr| crate::model::address::ip_text(ip);
    let label = |ip: IpAddr| crate::model::tables::l3_label_of(t, ip);
    lemma_tells(t.l3, ip_labels(t), id, known, a);
    assert(label =~= ip_labels(t));
    assert(with_ends(a) =~= a.map_values(
        |e: (L3Key, crate::model::tables::ConvView)| (e.0.0, e.0.1, e.1),
    ));
    assert(crate::model::coded_map::lists(t.l3, a));
}

/// A snapshot removes nothing. Ethernet comes before IP, and of each graph the
/// nodes come before the edges between them.
pub proof fn law_snapshot_order(
    t: TablesView,
    vendors: crate::resolve::oui::OuiView,
    s: Seq<crate::wsproto::DeltaView>,
    i: int,
    j: int,
)
    requires
        is_snapshot(t, vendors, s),
        0 <= i < j < s.len(),
    ensures
        s[i] is UpsertNode || s[i] is UpsertEdge,
        s[j] is UpsertNode || s[j] is UpsertEdge,
        crate::wsproto::target_of(s[j]).view == Graph::Ether ==> crate::wsproto::target_of(
            s[i],
        ).view == Graph::Ether,
        s[i] is UpsertEdge && s[j] is UpsertNode ==> crate::wsproto::target_of(s[i]).view
            == Graph::Ether && crate::wsproto::target_of(s[j]).view == Graph::Inter,
{
    let cut = choose|k: int|
        0 <= k <= s.len() && is_part(t.l2, mac_labels(vendors), #[trigger] s.take(k)) && is_part(
            t.l3,
            ip_labels(t),
            s.skip(k),
        );
    let x = s.take(cut);
    let y = s.skip(cut);
    if i < cut {
        assert(x[i] == s[i]);
        lemma_part_order(t.l2, mac_labels(vendors), x, i);
    } else {
        assert(y[i - cut] == s[i]);
        lemma_part_order(t.l3, ip_labels(t), y, i - cut);
    }
    if j < cut {
        assert(x[j] == s[j]);
        lemma_part_order(t.l2, mac_labels(vendors), x, j);
    } else {
        assert(y[j - cut] == s[j]);
        lemma_part_order(t.l3, ip_labels(t), y, j - cut);
    }
}

proof fn lemma_part_order<K: PairKey>(
    m: Map<K, crate::model::tables::ConvView>,
    labels: spec_fn(K::End) -> Seq<char>,
    s: Seq<crate::wsproto::DeltaView>,
    i: int,
)
    requires
        is_part(m, labels, s),
        0 <= i < s.len(),
    ensures
        s[i] is UpsertNode || s[i] is UpsertEdge,
        crate::wsproto::target_of(s[i]).view == K::End::graph(),
        s[i] is UpsertEdge ==> forall|j: int| i < j < s.len() ==> (#[trigger] s[j]) is UpsertEdge,
        s[i] is UpsertNode ==> forall|j: int| 0 <= j < i ==> (#[trigger] s[j]) is UpsertNode,
{
    let (n, a) = choose|
        n: Seq<(K::End, crate::model::nodes::NodeView)>,
        a: Seq<(K, crate::model::tables::ConvView)>,
    | #[trigger] describes(m, labels, s, n, a);
    assert forall|j: int| 0 <= j < s.len() implies ((#[trigger] s[j]) is UpsertNode <==> j
        < n.len()) && (s[j] is UpsertEdge <==> j >= n.len()) && crate::wsproto::target_of(
        s[j],
    ).view == K::End::graph() by {
        if j < n.len() {
            assert(is_node(labels, s[j], n[j]));
        } else {
            let k = j - n.len();
            assert(is_edge(s[n.len() + k], a[k]));
        }
    }
}

} // verus!
