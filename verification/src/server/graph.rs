//! A table as a graph: what its nodes and edges are called.

use vstd::prelude::*;

use crate::model::coded_map::CodedKey;
use crate::model::packet::{IpAddr, Mac};
use crate::model::tables::{L2Key, L3Key};
use crate::wsproto::View as Graph;

verus! {

/// An address that is a node of a graph.
pub trait Address: CodedKey {
    /// The graph of such addresses.
    spec fn graph() -> Graph;

    /// The identifier of the node: the address as text.
    spec fn id(self) -> Seq<char>;

    /// Tells the graph.
    fn which_graph() -> (r: Graph)
        ensures
            r == Self::graph(),
    ;

    /// Writes the identifier.
    fn write_id(&self) -> (r: String)
        ensures
            r@ == self.id(),
    ;

    /// Different addresses have different identifiers.
    proof fn id_injective(a: Self, b: Self)
        requires
            a.id() == b.id(),
        ensures
            a == b,
    ;

    /// An identifier holds no vertical bar.
    proof fn id_has_no_bar(a: Self)
        ensures
            forall|i: int| 0 <= i < a.id().len() ==> #[trigger] a.id()[i] != '|',
    ;
}

impl Address for Mac {
    open spec fn graph() -> Graph {
        Graph::Ether
    }

    open spec fn id(self) -> Seq<char> {
        crate::model::packet::mac_text(self)
    }

    fn which_graph() -> (r: Graph) {
        Graph::Ether
    }

    fn write_id(&self) -> (r: String) {
        self.to_text()
    }

    proof fn id_injective(a: Self, b: Self) {
        crate::model::packet::law_mac_text_injective(a, b);
    }

    proof fn id_has_no_bar(a: Self) {
        crate::model::packet::lemma_mac_text_chars(a);
    }
}

impl Address for IpAddr {
    open spec fn graph() -> Graph {
        Graph::Inter
    }

    open spec fn id(self) -> Seq<char> {
        crate::model::address::ip_text(self)
    }

    fn which_graph() -> (r: Graph) {
        Graph::Inter
    }

    fn write_id(&self) -> (r: String) {
        self.to_text()
    }

    proof fn id_injective(a: Self, b: Self) {
        crate::model::address::law_ip_text_injective(a, b);
    }

    proof fn id_has_no_bar(a: Self) {
        crate::model::address::lemma_ip_text_chars(a);
    }
}

/// A conversation's key, the pair of its two ends: an edge of a graph.
pub trait PairKey: CodedKey {
    type End: Address;

    /// The two ends.
    spec fn ends(self) -> (Self::End, Self::End);

    /// Gives the two ends.
    fn both_ends(&self) -> (r: (Self::End, Self::End))
        ensures
            r == self.ends(),
    ;

    /// A key is its two ends.
    proof fn ends_injective(a: Self, b: Self)
        requires
            a.ends() == b.ends(),
        ensures
            a == b,
    ;
}

impl PairKey for L2Key {
    type End = Mac;

    open spec fn ends(self) -> (Mac, Mac) {
        (self.0, self.1)
    }

    fn both_ends(&self) -> (r: (Mac, Mac)) {
        (self.0, self.1)
    }

    proof fn ends_injective(a: Self, b: Self) {
    }
}

impl PairKey for L3Key {
    type End = IpAddr;

    open spec fn ends(self) -> (IpAddr, IpAddr) {
        (self.0, self.1)
    }

    fn both_ends(&self) -> (r: (IpAddr, IpAddr)) {
        (self.0, self.1)
    }

    proof fn ends_injective(a: Self, b: Self) {
    }
}

/// The identifier of an edge between two nodes.
pub open spec fn edge_id(source: Seq<char>, target: Seq<char>) -> Seq<char> {
    source.push('|') + target
}

/// The node of an address.
pub open spec fn node_target<E: Address>(end: E) -> crate::wsproto::Target {
    crate::wsproto::Target { edge: false, view: E::graph(), id: end.id() }
}

/// The edge of a conversation.
pub open spec fn edge_target<K: PairKey>(key: K) -> crate::wsproto::Target {
    crate::wsproto::Target {
        edge: true,
        view: K::End::graph(),
        id: edge_id(key.ends().0.id(), key.ends().1.id()),
    }
}

proof fn lemma_edge_id_injective(a: Seq<char>, b: Seq<char>, c: Seq<char>, d: Seq<char>)
    requires
        edge_id(a, b) == edge_id(c, d),
        forall|i: int| 0 <= i < a.len() ==> #[trigger] a[i] != '|',
        forall|i: int| 0 <= i < c.len() ==> #[trigger] c[i] != '|',
    ensures
        a == c,
        b == d,
{
    let z = edge_id(a, b);
    if a.len() < c.len() {
        assert(z[a.len() as int] == '|');
        assert(z[a.len() as int] == c[a.len() as int]);
    } else if c.len() < a.len() {
        assert(z[c.len() as int] == '|');
        assert(z[c.len() as int] == a[c.len() as int]);
    }
    crate::text::lemma_same_length_prefix(a.push('|'), b, c.push('|'), d);
    assert(a =~= a.push('|').drop_last());
    assert(c =~= c.push('|').drop_last());
}

/// Different conversations of one table are different edges.
pub proof fn law_edges_tell_conversations<K: PairKey>(a: K, b: K)
    requires
        edge_target(a) == edge_target(b),
    ensures
        a == b,
{
    let (p, q) = a.ends();
    let (r, s) = b.ends();
    Address::id_has_no_bar(p);
    Address::id_has_no_bar(r);
    lemma_edge_id_injective(p.id(), q.id(), r.id(), s.id());
    Address::id_injective(p, r);
    Address::id_injective(q, s);
    PairKey::ends_injective(a, b);
}

/// Different addresses of one table are different nodes.
pub proof fn law_nodes_tell_addresses<E: Address>(a: E, b: E)
    requires
        node_target(a) == node_target(b),
    ensures
        a == b,
{
    Address::id_injective(a, b);
}

/// The two tables share no node and no edge.
pub proof fn law_tables_share_nothing(mac: Mac, ip: IpAddr, a: L2Key, b: L3Key)
    ensures
        node_target(mac) != node_target(ip),
        edge_target(a) != edge_target(b),
{
}

/// A node is called by the written form of its address, and an edge by those
/// of its two ends with a bar between. Ethernet addresses stand in one graph,
/// IP addresses in the other.
pub proof fn law_names_of_nodes_and_edges(mac: Mac, ip: IpAddr, a: L2Key, b: L3Key)
    ensures
        node_target(mac) == (crate::wsproto::Target {
            edge: false,
            view: Graph::Ether,
            id: crate::model::packet::mac_text(mac),
        }),
        node_target(ip) == (crate::wsproto::Target {
            edge: false,
            view: Graph::Inter,
            id: crate::model::address::ip_text(ip),
        }),
        edge_target(a) == (crate::wsproto::Target {
            edge: true,
            view: Graph::Ether,
            id: crate::model::packet::mac_text(a.0) + seq!['|'] + crate::model::packet::mac_text(
                a.1,
            ),
        }),
        edge_target(b) == (crate::wsproto::Target {
            edge: true,
            view: Graph::Inter,
            id: crate::model::address::ip_text(b.0) + seq!['|'] + crate::model::address::ip_text(
                b.1,
            ),
        }),
{
    lemma_bar(
        crate::model::packet::mac_text(a.0),
        crate::model::packet::mac_text(a.1),
    );
    lemma_bar(
        crate::model::address::ip_text(b.0),
        crate::model::address::ip_text(b.1),
    );
}

proof fn lemma_bar(source: Seq<char>, target: Seq<char>)
    ensures
        edge_id(source, target) == source + seq!['|'] + target,
{
    assert(edge_id(source, target) =~= source + seq!['|'] + target);
}

/// The identifier of an edge is made of those of its ends.
pub proof fn law_edge_identifiers(source: Seq<char>, target: Seq<char>)
    ensures
        edge_id(source, target).len() == source.len() + 1 + target.len(),
        edge_id(source, target).take(source.len() as int) == source,
        edge_id(source, target)[source.len() as int] == '|',
        edge_id(source, target).skip(source.len() as int + 1) == target,
{
    assert(edge_id(source, target).take(source.len() as int) =~= source);
    assert(edge_id(source, target).skip(source.len() as int + 1) =~= target);
}

} // verus!
