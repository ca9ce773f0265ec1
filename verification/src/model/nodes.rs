//! Nodes: what all conversations of one address count together.

use vstd::prelude::*;

use crate::model::coded_map::{CodedKey, CodedMap};
use crate::model::packet::{Proto, ProtoView};
use crate::model::tables::{dominant, ConvStats, ConvView};

verus! {

/// A count, or the largest that a counter holds.
pub open spec fn capped(n: nat) -> nat {
    if n <= u64::MAX {
        n
    } else {
        u64::MAX as nat
    }
}

/// What a node has counted, in counters that stay at their largest value.
#[verifier::ext_equal]
pub struct NodeView {
    pub bytes: nat,
    pub packets: nat,
    pub proto_bytes: Map<ProtoView, nat>,
}

/// A node that has counted nothing.
pub open spec fn node_new() -> NodeView {
    NodeView { bytes: 0, packets: 0, proto_bytes: Map::empty() }
}

/// The bytes of one protocol, zero where it does not stand.
pub open spec fn bytes_of(m: Map<ProtoView, nat>, p: ProtoView) -> nat {
    if m.contains_key(p) {
        m[p]
    } else {
        0
    }
}

/// The bytes by protocol of two lists together.
pub open spec fn summed(a: Map<ProtoView, nat>, b: Map<ProtoView, nat>) -> Map<ProtoView, nat> {
    Map::new(
        |p: ProtoView| a.contains_key(p) || b.contains_key(p),
        |p: ProtoView| capped(bytes_of(a, p) + bytes_of(b, p)),
    )
}

/// A node with one more conversation.
pub open spec fn node_with(node: NodeView, conv: ConvView) -> NodeView {
    NodeView {
        bytes: capped(node.bytes + conv.bytes),
        packets: capped(node.packets + conv.packets),
        proto_bytes: summed(node.proto_bytes, conv.proto_bytes),
    }
}

/// The nodes with one more conversation at `end`.
pub open spec fn joined<E>(nodes: Map<E, NodeView>, end: E, conv: ConvView) -> Map<E, NodeView> {
    nodes.insert(
        end,
        node_with(
            if nodes.contains_key(end) {
                nodes[end]
            } else {
                node_new()
            },
            conv,
        ),
    )
}

/// The nodes of some conversations, each with its two ends. A conversation of
/// an address with itself counts once.
pub open spec fn nodes_of<E>(convs: Seq<(E, E, ConvView)>) -> Map<E, NodeView>
    decreases convs.len(),
{
    if convs.len() == 0 {
        Map::empty()
    } else {
        let (a, b, conv) = convs.last();
        let one = joined(nodes_of(convs.drop_last()), a, conv);
        if a == b {
            one
        } else {
            joined(one, b, conv)
        }
    }
}

/// Counters of one node.
#[derive(Debug)]
pub struct NodeStats {
    pub bytes: u64,
    pub packets: u64,
    /// Bytes by protocol, each protocol once.
    pub proto_bytes: Vec<(Proto, u64)>,
}

impl View for NodeStats {
    type V = NodeView;

    open spec fn view(&self) -> NodeView {
        NodeView {
            bytes: self.bytes as nat,
            packets: self.packets as nat,
            proto_bytes: crate::model::tables::tally(self.proto_bytes@),
        }
    }
}

impl NodeStats {
    /// Each protocol stands once.
    pub open spec fn wf(&self) -> bool {
        crate::model::tables::each_once(self.proto_bytes@)
    }

    fn new() -> (r: Self)
        ensures
            r@ == node_new(),
            r.wf(),
    {
        let r = NodeStats { bytes: 0, packets: 0, proto_bytes: Vec::new() };
        assert(r@ =~= node_new());
        r
    }

    fn add_bytes(&mut self, proto: Proto, bytes: u64)
        requires
            old(self).wf(),
        ensures
            final(self).wf(),
            final(self).bytes == old(self).bytes,
            final(self).packets == old(self).packets,
            final(self)@.proto_bytes == old(self)@.proto_bytes.insert(
                proto@,
                capped(bytes_of(old(self)@.proto_bytes, proto@) + bytes as nat),
            ),
    {
        let ghost before = self.proto_bytes@;
        let ghost counted = self@.proto_bytes;
        proof {
            crate::model::tables::lemma_tally(before);
        }
        let mut i: usize = 0;
        while i < self.proto_bytes.len() && !self.proto_bytes[i].0.same(&proto)
            invariant
                i <= self.proto_bytes@.len(),
                self.proto_bytes@ == before,
                self.bytes == old(self).bytes,
                self.packets == old(self).packets,
                forall|j: int| 0 <= j < i ==> before[j].0@ != proto@,
            decreases self.proto_bytes@.len() - i,
        {
            i += 1;
        }
        if i < self.proto_bytes.len() {
            let (tag, count) = self.proto_bytes[i];
            proof {
                assert(counted.contains_key(before[i as int].0@));
                assert(counted[before[i as int].0@] == count);
            }
            let sum: u64 = count.saturating_add(bytes);
            self.proto_bytes.set(i, (tag, sum));
            proof {
                crate::model::tables::lemma_tally_update(before, i as int, sum);
            }
        } else {
            self.proto_bytes.push((proto, bytes));
            proof {
                if counted.contains_key(proto@) {
                    let j = choose|j: int| 0 <= j < before.len() && before[j].0@ == proto@;
                    assert(before[j].0@ != proto@);
                }
                assert(self.proto_bytes@.drop_last() =~= before);
            }
        }
    }

    /// Counts one more conversation.
    fn absorb(&mut self, conv: &ConvStats)
        requires
            old(self).wf(),
            conv.wf(),
        ensures
            final(self).wf(),
            final(self)@ == node_with(old(self)@, conv@),
    {
        let ghost start = self@;
        let ghost pairs = conv.proto_bytes@;
        self.bytes = self.bytes.saturating_add(conv.bytes);
        self.packets = self.packets.saturating_add(conv.packets);
        let mut i: usize = 0;
        proof {
            assert(self@.proto_bytes =~= summed(
                start.proto_bytes,
                crate::model::tables::tally(pairs.take(0)),
            )) by {
                lemma_capped_list(self.proto_bytes@);
            }
        }
        while i < conv.proto_bytes.len()
            invariant
                i <= conv.proto_bytes@.len(),
                pairs == conv.proto_bytes@,
                crate::model::tables::each_once(pairs),
                self.wf(),
                self.bytes == capped(start.bytes + conv@.bytes),
                self.packets == capped(start.packets + conv@.packets),
                self@.proto_bytes == summed(
                    start.proto_bytes,
                    crate::model::tables::tally(pairs.take(i as int)),
                ),
            decreases conv.proto_bytes@.len() - i,
        {
            let (proto, bytes) = conv.proto_bytes[i];
            let ghost done = crate::model::tables::tally(pairs.take(i as int));
            let ghost now = crate::model::tables::tally(pairs.take(i + 1));
            let ghost before = self@.proto_bytes;
            self.add_bytes(proto, bytes);
            proof {
                assert(pairs.take(i + 1).drop_last() =~= pairs.take(i as int));
                assert(now == done.insert(proto@, bytes as nat));
                assert(crate::model::tables::each_once(pairs.take(i as int)));
                crate::model::tables::lemma_tally(pairs.take(i as int));
                if done.contains_key(proto@) {
                    let j = choose|j: int|
                        0 <= j < pairs.take(i as int).len() && pairs.take(i as int)[j].0@ == proto@;
                    assert(pairs[j].0@ != pairs[i as int].0@);
                }
                assert(bytes_of(before, proto@) == capped(bytes_of(start.proto_bytes, proto@)));
                assert(self@.proto_bytes =~= summed(start.proto_bytes, now));
            }
            i += 1;
        }
        assert(pairs.take(i as int) =~= pairs);
    }

    /// The protocol with the most bytes.
    pub fn dominant_proto(&self) -> (r: Proto)
        requires
            self.wf(),
        ensures
            crate::model::tables::is_dominant(self@.proto_bytes, r@),
    {
        dominant(&self.proto_bytes)
    }
}

/// The counts of a list fit in their counters.
proof fn lemma_capped_list(s: Seq<(Proto, u64)>)
    requires
        crate::model::tables::each_once(s),
    ensures
        forall|p: ProtoView| #[trigger]
            crate::model::tables::tally(s).contains_key(p) ==> crate::model::tables::tally(s)[p]
                <= u64::MAX,
{
    crate::model::tables::lemma_tally(s);
    assert forall|p: ProtoView| #[trigger]
        crate::model::tables::tally(s).contains_key(p) implies crate::model::tables::tally(s)[p]
        <= u64::MAX by {
        let i = choose|i: int| 0 <= i < s.len() && s[i].0@ == p;
        assert(crate::model::tables::tally(s)[s[i].0@] == s[i].1);
    }
}

/// Conversations with their two ends, as views.
pub open spec fn conv_views<E>(s: Seq<(E, E, &ConvStats)>) -> Seq<(E, E, ConvView)> {
    s.map_values(|c: (E, E, &ConvStats)| (c.0, c.1, c.2@))
}

/// Nodes as views.
pub open spec fn node_views<E>(m: Map<E, NodeStats>) -> Map<E, NodeView> {
    m.map_values(|n: NodeStats| n@)
}

fn same_key<E: CodedKey>(a: &E, b: &E) -> (r: bool)
    ensures
        r == (*a == *b),
{
    let x = a.encode();
    let y = b.encode();
    let r = x.0 == y.0 && x.1 == y.1 && x.2 == y.2 && x.3 == y.3;
    proof {
        if r {
            E::code_injective(*a, *b);
        }
    }
    r
}

fn join<E: CodedKey>(nodes: &mut CodedMap<E, NodeStats>, end: E, conv: &ConvStats)
    requires
        conv.wf(),
        forall|e: E| #[trigger] old(nodes)@.contains_key(e) ==> old(nodes)@[e].wf(),
    ensures
        node_views(final(nodes)@) == joined(node_views(old(nodes)@), end, conv@),
        forall|e: E| #[trigger] final(nodes)@.contains_key(e) ==> final(nodes)@[e].wf(),
{
    let mut node = match nodes.take(&end) {
        Some(node) => node,
        None => NodeStats::new(),
    };
    node.absorb(conv);
    nodes.put(end, node);
    assert(node_views(nodes@) =~= joined(node_views(old(nodes)@), end, conv@));
}

/// The nodes of some conversations, each with its two ends.
pub fn node_totals<E: CodedKey>(convs: &Vec<(E, E, &ConvStats)>) -> (r: CodedMap<E, NodeStats>)
    requires
        forall|i: int| 0 <= i < convs@.len() ==> (#[trigger] convs@[i]).2.wf(),
    ensures
        node_views(r@) == nodes_of(conv_views(convs@)),
        forall|e: E| #[trigger] r@.contains_key(e) ==> r@[e].wf(),
{
    let ghost views = conv_views(convs@);
    let mut nodes: CodedMap<E, NodeStats> = CodedMap::new();
    let mut i: usize = 0;
    assert(node_views(nodes@) =~= nodes_of(views.take(0)));
    while i < convs.len()
        invariant
            i <= convs@.len(),
            views == conv_views(convs@),
            forall|j: int| 0 <= j < convs@.len() ==> (#[trigger] convs@[j]).2.wf(),
            forall|e: E| #[trigger] nodes@.contains_key(e) ==> nodes@[e].wf(),
            node_views(nodes@) == nodes_of(views.take(i as int)),
        decreases convs@.len() - i,
    {
        let (a, b, conv) = convs[i];
        proof {
            assert(convs@[i as int].2.wf());
            assert(views.take(i + 1).drop_last() =~= views.take(i as int));
            assert(views.take(i + 1).last() == (a, b, conv@));
        }
        join(&mut nodes, a, conv);
        if !same_key(&a, &b) {
            join(&mut nodes, b, conv);
        }
        i += 1;
    }
    assert(views.take(i as int) =~= views);
    nodes
}

/// The conversations that have an end at `end`.
pub open spec fn at_end<E>(convs: Seq<(E, E, ConvView)>, end: E) -> Seq<(E, E, ConvView)> {
    convs.filter(|c: (E, E, ConvView)| c.0 == end || c.1 == end)
}

/// The bytes of some conversations together.
pub open spec fn bytes_together<E>(convs: Seq<(E, E, ConvView)>) -> nat
    decreases convs.len(),
{
    if convs.len() == 0 {
        0
    } else {
        bytes_together(convs.drop_last()) + convs.last().2.bytes
    }
}

/// The packets of some conversations together.
pub open spec fn packets_together<E>(convs: Seq<(E, E, ConvView)>) -> nat
    decreases convs.len(),
{
    if convs.len() == 0 {
        0
    } else {
        packets_together(convs.drop_last()) + convs.last().2.packets
    }
}

/// The bytes of one protocol in some conversations together.
pub open spec fn proto_together<E>(convs: Seq<(E, E, ConvView)>, p: ProtoView) -> nat
    decreases convs.len(),
{
    if convs.len() == 0 {
        0
    } else {
        proto_together(convs.drop_last(), p) + bytes_of(convs.last().2.proto_bytes, p)
    }
}

/// A node stands where a conversation has an end. Its counters hold what its
/// conversations hold together, or their largest value.
pub proof fn law_node_counts<E>(convs: Seq<(E, E, ConvView)>, end: E)
    ensures
        nodes_of(convs).contains_key(end) == (at_end(convs, end).len() > 0),
        nodes_of(convs).contains_key(end) ==> {
            let node = nodes_of(convs)[end];
            let own = at_end(convs, end);
            &&& node.bytes == capped(bytes_together(own))
            &&& node.packets == capped(packets_together(own))
            &&& forall|p: ProtoView|
                bytes_of(node.proto_bytes, p) == capped(#[trigger] proto_together(own, p))
        },
    decreases convs.len(),
{
    reveal(Seq::filter);
    if convs.len() > 0 {
        let head = convs.drop_last();
        let last = convs.last();
        law_node_counts(head, end);
        let own = at_end(convs, end);
        let before = at_end(head, end);
        if last.0 == end || last.1 == end {
            assert(own == before.push(last));
            assert(own.drop_last() =~= before);
            assert(own.last() == last);
            let old_node = if nodes_of(head).contains_key(end) {
                nodes_of(head)[end]
            } else {
                node_new()
            };
            assert(nodes_of(convs)[end] == node_with(old_node, last.2));
            assert(old_node.bytes == capped(bytes_together(before)));
            assert(old_node.packets == capped(packets_together(before)));
            assert(bytes_together(own) == bytes_together(before) + last.2.bytes);
            assert(packets_together(own) == packets_together(before) + last.2.packets);
            assert forall|p: ProtoView| bytes_of(nodes_of(convs)[end].proto_bytes, p) == capped(
                #[trigger] proto_together(own, p),
            ) by {
                assert(bytes_of(old_node.proto_bytes, p) == capped(proto_together(before, p)));
                assert(proto_together(own, p) == proto_together(before, p) + bytes_of(
                    last.2.proto_bytes,
                    p,
                ));
            }
        } else {
            assert(own == before);
            if nodes_of(head).contains_key(end) {
                assert(nodes_of(convs)[end] == nodes_of(head)[end]);
            }
        }
    }
}

/// What the conversations of a node hold together, it holds, as long as that
/// fits in 64 bits; otherwise its counter stays at the largest value.
pub proof fn law_node_totals<E>(convs: Seq<(E, E, ConvView)>, end: E, p: ProtoView)
    requires
        nodes_of(convs).contains_key(end),
    ensures
        ({
            let node = nodes_of(convs)[end];
            let own = convs.filter(|c: (E, E, ConvView)| c.0 == end || c.1 == end);
            let shown = |n: nat| {
                if n < 0x1_0000_0000_0000_0000 {
                    n
                } else {
                    0xffff_ffff_ffff_ffff
                }
            };
            &&& own.len() > 0
            &&& node.bytes == shown(bytes_together(own))
            &&& node.packets == shown(packets_together(own))
            &&& node.proto_bytes.contains_key(p) ==> node.proto_bytes[p] == shown(
                proto_together(own, p),
            )
            &&& !node.proto_bytes.contains_key(p) ==> proto_together(own, p) == 0
        }),
{
    law_node_counts(convs, end);
    assert(at_end(convs, end) == convs.filter(
        |c: (E, E, ConvView)| c.0 == end || c.1 == end,
    ));
    assert(bytes_of(nodes_of(convs)[end].proto_bytes, p) == capped(
        proto_together(at_end(convs, end), p),
    ));
}

/// A node counts the protocols of its conversations and no others.
pub proof fn law_node_protocols<E>(convs: Seq<(E, E, ConvView)>, end: E, p: ProtoView)
    ensures
        nodes_of(convs).contains_key(end) && nodes_of(convs)[end].proto_bytes.contains_key(p)
            <==> exists|i: int|
            0 <= i < convs.len() && ((#[trigger] convs[i]).0 == end || convs[i].1 == end)
                && convs[i].2.proto_bytes.contains_key(p),
    decreases convs.len(),
{
    if convs.len() > 0 {
        let head = convs.drop_last();
        let last = convs.last();
        let at = convs.len() - 1;
        law_node_protocols(head, end, p);
        assert(convs[at] == last);
        assert forall|i: int| 0 <= i < head.len() implies head[i] == #[trigger] convs[i] by {}
        if exists|i: int|
            0 <= i < head.len() && ((#[trigger] head[i]).0 == end || head[i].1 == end)
                && head[i].2.proto_bytes.contains_key(p) {
            let i = choose|i: int|
                0 <= i < head.len() && ((#[trigger] head[i]).0 == end || head[i].1 == end)
                    && head[i].2.proto_bytes.contains_key(p);
            assert(convs[i] == head[i]);
        }
        if exists|i: int|
            0 <= i < convs.len() && ((#[trigger] convs[i]).0 == end || convs[i].1 == end)
                && convs[i].2.proto_bytes.contains_key(p) {
            let i = choose|i: int|
                0 <= i < convs.len() && ((#[trigger] convs[i]).0 == end || convs[i].1 == end)
                    && convs[i].2.proto_bytes.contains_key(p);
            if i < head.len() {
                assert(head[i] == convs[i]);
            }
        }
    }
}

/// The counters of a node are seen as they are.
pub proof fn law_node_views<E>(
    node: NodeStats,
    convs: Seq<(E, E, &ConvStats)>,
    i: int,
    m: Map<E, NodeStats>,
    end: E,
)
    ensures
        node@.bytes == node.bytes,
        node@.packets == node.packets,
        node@.proto_bytes == crate::model::tables::tally(node.proto_bytes@),
        conv_views(convs).len() == convs.len(),
        0 <= i < convs.len() ==> conv_views(convs)[i] == (convs[i].0, convs[i].1, convs[i].2@),
        node_views(m).contains_key(end) == m.contains_key(end),
        m.contains_key(end) ==> node_views(m)[end] == m[end]@,
{
}

} // verus!
