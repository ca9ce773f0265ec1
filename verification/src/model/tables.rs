//! The two conversation tables: one by pair of Ethernet addresses, one by
//! pair of IP addresses.
//!
//! A key is ordered, so both directions of a conversation share one entry.

use std::time::Instant;

use vstd::prelude::*;

use crate::bytes::{be_u128, bytes_le};
use crate::model::coded_map::{CodedKey, CodedMap};
use crate::model::conv_table::ConvTable;
use crate::model::packet::{IpAddr, Mac, PacketMeta, PacketMetaView, Proto, ProtoView};

verus! {

/// `std::time::Instant`, carried as it is.
#[verifier::external_type_specification]
#[verifier::external_body]
pub struct ExInstant(Instant);

/// Layer-two conversation: ordered pair of Ethernet addresses.
#[derive(Clone, Copy, PartialEq, Eq, Hash, Debug)]
pub struct L2Key(pub Mac, pub Mac);

/// Layer-three conversation: ordered pair of IP addresses.
#[derive(Clone, Copy, PartialEq, Eq, Hash, Debug)]
pub struct L3Key(pub IpAddr, pub IpAddr);

/// The order of Ethernet addresses: byte by byte.
pub open spec fn mac_le(a: Mac, b: Mac) -> bool {
    crate::bytes::lex_le(a@, b@)
}

/// The order of IP addresses: IPv4 before IPv6, then byte by byte.
pub open spec fn ip_le(a: IpAddr, b: IpAddr) -> bool {
    match (a, b) {
        (IpAddr::V4(x), IpAddr::V4(y)) => crate::bytes::lex_le(x@, y@),
        (IpAddr::V4(_), IpAddr::V6(_)) => true,
        (IpAddr::V6(_), IpAddr::V4(_)) => false,
        (IpAddr::V6(x), IpAddr::V6(y)) => crate::bytes::lex_le(x@, y@),
    }
}

/// The key of the conversation between two Ethernet addresses.
pub open spec fn l2_key(a: Mac, b: Mac) -> L2Key {
    if mac_le(a, b) {
        L2Key(a, b)
    } else {
        L2Key(b, a)
    }
}

/// The key of the conversation between two IP addresses.
pub open spec fn l3_key(a: IpAddr, b: IpAddr) -> L3Key {
    if ip_le(a, b) {
        L3Key(a, b)
    } else {
        L3Key(b, a)
    }
}

fn ip_before(a: &IpAddr, b: &IpAddr) -> (r: bool)
    ensures
        r == ip_le(*a, *b),
{
    match (a, b) {
        (IpAddr::V4(x), IpAddr::V4(y)) => bytes_le(x.as_slice(), y.as_slice()),
        (IpAddr::V4(_), IpAddr::V6(_)) => true,
        (IpAddr::V6(_), IpAddr::V4(_)) => false,
        (IpAddr::V6(x), IpAddr::V6(y)) => bytes_le(x.as_slice(), y.as_slice()),
    }
}

impl L2Key {
    /// The key of the conversation between two addresses, in either order.
    pub fn new(a: Mac, b: Mac) -> (r: Self)
        ensures
            r == l2_key(a, b),
    {
        if bytes_le(a.0.as_slice(), b.0.as_slice()) {
            L2Key(a, b)
        } else {
            L2Key(b, a)
        }
    }
}

impl L3Key {
    /// The key of the conversation between two addresses, in either order.
    pub fn new(a: IpAddr, b: IpAddr) -> (r: Self)
        ensures
            r == l3_key(a, b),
    {
        if ip_before(&a, &b) {
            L3Key(a, b)
        } else {
            L3Key(b, a)
        }
    }
}

/// Both directions of a layer-two conversation have one key, which holds the
/// two addresses in order.
pub proof fn law_l2_key_symmetric(a: Mac, b: Mac)
    ensures
        l2_key(a, b) == l2_key(b, a),
        mac_le(l2_key(a, b).0, l2_key(a, b).1),
        l2_key(a, b) == L2Key(a, b) || l2_key(a, b) == L2Key(b, a),
{
    crate::bytes::lemma_lex_total(a@, b@);
    if mac_le(a, b) && mac_le(b, a) {
        crate::bytes::lemma_lex_antisymmetric(a@, b@);
        assert(a.0 =~= b.0);
    }
}

/// Both directions of a layer-three conversation have one key, which holds
/// the two addresses in order.
pub proof fn law_l3_key_symmetric(a: IpAddr, b: IpAddr)
    ensures
        l3_key(a, b) == l3_key(b, a),
        ip_le(l3_key(a, b).0, l3_key(a, b).1),
        l3_key(a, b) == L3Key(a, b) || l3_key(a, b) == L3Key(b, a),
{
    match (a, b) {
        (IpAddr::V4(x), IpAddr::V4(y)) => {
            crate::bytes::lemma_lex_total(x@, y@);
            if ip_le(a, b) && ip_le(b, a) {
                crate::bytes::lemma_lex_antisymmetric(x@, y@);
                assert(x =~= y);
            }
        },
        (IpAddr::V6(x), IpAddr::V6(y)) => {
            crate::bytes::lemma_lex_total(x@, y@);
            if ip_le(a, b) && ip_le(b, a) {
                crate::bytes::lemma_lex_antisymmetric(x@, y@);
                assert(x =~= y);
            }
        },
        _ => {},
    }
}

/// Conversations between different pairs of addresses have different keys,
/// whatever the versions of the addresses.
pub proof fn law_l3_key_injective(a: IpAddr, b: IpAddr, c: IpAddr, d: IpAddr)
    requires
        l3_key(a, b) == l3_key(c, d),
    ensures
        (a == c && b == d) || (a == d && b == c),
{
}

/// Conversations between different pairs of addresses have different keys.
pub proof fn law_l2_key_injective(a: Mac, b: Mac, c: Mac, d: Mac)
    requires
        l2_key(a, b) == l2_key(c, d),
    ensures
        (a == c && b == d) || (a == d && b == c),
{
}

/// The sum of the values of a finite map.
pub open spec fn total<K>(m: Map<K, nat>) -> nat
    decreases m.dom().len(),
    when m.dom().finite()
{
    if m.dom().is_empty() {
        0
    } else {
        let k = m.dom().choose();
        m[k] + total(m.remove(k))
    }
}

/// Any one value can be taken out of the sum first.
pub proof fn lemma_total_remove<K>(m: Map<K, nat>, k: K)
    requires
        m.dom().finite(),
        m.contains_key(k),
    ensures
        total(m) == m[k] + total(m.remove(k)),
    decreases m.dom().len(),
{
    let c = m.dom().choose();
    assert(m.dom().contains(k));
    if c != k {
        lemma_total_remove(m.remove(c), k);
        lemma_total_remove(m.remove(k), c);
        assert(m.remove(c).remove(k) =~= m.remove(k).remove(c));
    }
}

/// Writing a value replaces the one that was there, or adds it.
pub proof fn lemma_total_insert<K>(m: Map<K, nat>, k: K, v: nat)
    requires
        m.dom().finite(),
    ensures
        total(m.insert(k, v)) == total(m) + v - (if m.contains_key(k) {
            m[k]
        } else {
            0
        }),
{
    lemma_total_remove(m.insert(k, v), k);
    if m.contains_key(k) {
        lemma_total_remove(m, k);
        assert(m.insert(k, v).remove(k) =~= m.remove(k));
    } else {
        assert(m.insert(k, v).remove(k) =~= m);
    }
}

/// What a conversation has counted.
#[verifier::ext_equal]
pub struct ConvView {
    pub bytes: nat,
    pub packets: nat,
    pub last_seen: Instant,
    pub proto_bytes: Map<ProtoView, nat>,
}

/// A conversation that has counted nothing.
pub open spec fn conv_new(now: Instant) -> ConvView {
    ConvView { bytes: 0, packets: 0, last_seen: now, proto_bytes: Map::empty() }
}

/// A conversation after one more frame.
pub open spec fn conv_add(conv: ConvView, bytes: nat, proto: ProtoView, now: Instant) -> ConvView {
    ConvView {
        bytes: conv.bytes + bytes,
        packets: conv.packets + 1,
        last_seen: now,
        proto_bytes: conv.proto_bytes.insert(
            proto,
            bytes + if conv.proto_bytes.contains_key(proto) {
                conv.proto_bytes[proto]
            } else {
                0
            },
        ),
    }
}

/// The bytes by protocol add up to the bytes.
pub open spec fn conv_balanced(conv: ConvView) -> bool {
    conv.proto_bytes.dom().finite() && total(conv.proto_bytes) == conv.bytes
}

/// `proto` has at least the bytes of every other protocol; it is `?` where
/// nothing was counted.
pub open spec fn is_dominant(proto_bytes: Map<ProtoView, nat>, proto: ProtoView) -> bool {
    if proto_bytes.dom().is_empty() {
        proto == ProtoView::Named("?"@)
    } else {
        proto_bytes.contains_key(proto) && forall|q: ProtoView| #[trigger]
            proto_bytes.contains_key(q) ==> proto_bytes[q] <= proto_bytes[proto]
    }
}

/// Counters of one conversation.
#[derive(Debug)]
pub struct ConvStats {
    pub bytes: u64,
    pub packets: u64,
    pub last_seen: Instant,
    /// Bytes by protocol, each protocol once.
    pub proto_bytes: Vec<(Proto, u64)>,
}

/// The bytes by protocol that a list of pairs counts.
pub open spec fn tally(s: Seq<(Proto, u64)>) -> Map<ProtoView, nat>
    decreases s.len(),
{
    if s.len() == 0 {
        Map::empty()
    } else {
        tally(s.drop_last()).insert(s.last().0@, s.last().1 as nat)
    }
}

/// No protocol stands twice.
pub open spec fn each_once(s: Seq<(Proto, u64)>) -> bool {
    forall|i: int, j: int| 0 <= i < j < s.len() ==> s[i].0@ != s[j].0@
}

/// What a list counts when each protocol stands once.
pub proof fn lemma_tally(s: Seq<(Proto, u64)>)
    requires
        each_once(s),
    ensures
        tally(s).dom().finite(),
        forall|i: int| 0 <= i < s.len() ==> #[trigger] tally(s).contains_key(s[i].0@),
        forall|i: int| 0 <= i < s.len() ==> tally(s)[(#[trigger] s[i]).0@] == s[i].1,
        forall|p: ProtoView| #[trigger]
            tally(s).contains_key(p) ==> exists|i: int| 0 <= i < s.len() && s[i].0@ == p,
    decreases s.len(),
{
    if s.len() > 0 {
        let head = s.drop_last();
        lemma_tally(head);
        assert forall|i: int| 0 <= i < s.len() implies #[trigger] tally(s).contains_key(s[i].0@)
            && tally(s)[s[i].0@] == s[i].1 by {
            if i < head.len() {
                assert(s[i] == head[i]);
                assert(tally(head).contains_key(head[i].0@));
                assert(s[i].0@ != s[s.len() - 1].0@);
            }
        }
        assert forall|i: int| 0 <= i < s.len() implies tally(s)[(#[trigger] s[i]).0@]
            == s[i].1 by {
            assert(tally(s).contains_key(s[i].0@));
        }
        assert forall|p: ProtoView| #[trigger] tally(s).contains_key(p) implies exists|i: int|
            0 <= i < s.len() && s[i].0@ == p by {
            if p == s.last().0@ {
                assert(s[s.len() - 1].0@ == p);
            } else {
                assert(tally(head).contains_key(p));
                let i = choose|i: int| 0 <= i < head.len() && head[i].0@ == p;
                assert(s[i].0@ == p);
            }
        }
    }
}

/// A new count for one protocol of a list.
pub proof fn lemma_tally_update(s: Seq<(Proto, u64)>, i: int, v: u64)
    requires
        each_once(s),
        0 <= i < s.len(),
    ensures
        each_once(s.update(i, (s[i].0, v))),
        tally(s.update(i, (s[i].0, v))) == tally(s).insert(s[i].0@, v as nat),
{
    let t = s.update(i, (s[i].0, v));
    assert forall|a: int, b: int| 0 <= a < b < t.len() implies t[a].0@ != t[b].0@ by {
        assert(t[a].0 == s[a].0 && t[b].0 == s[b].0);
    }
    lemma_tally(s);
    lemma_tally(t);
    let want = tally(s).insert(s[i].0@, v as nat);
    assert forall|p: ProtoView| #[trigger] tally(t).contains_key(p) == want.contains_key(p) by {
        if tally(t).contains_key(p) {
            let j = choose|j: int| 0 <= j < t.len() && t[j].0@ == p;
            assert(s[j].0 == t[j].0);
            assert(tally(s).contains_key(s[j].0@));
        }
        if want.contains_key(p) {
            if p == s[i].0@ {
                assert(t[i].0@ == p);
                assert(tally(t).contains_key(t[i].0@));
            } else {
                let j = choose|j: int| 0 <= j < s.len() && s[j].0@ == p;
                assert(s[j].0 == t[j].0);
                assert(tally(t).contains_key(t[j].0@));
            }
        }
    }
    assert forall|p: ProtoView| #[trigger] tally(t).contains_key(p) implies tally(t)[p]
        == want[p] by {
        let j = choose|j: int| 0 <= j < t.len() && t[j].0@ == p;
        assert(tally(t)[t[j].0@] == t[j].1);
        assert(tally(s)[s[j].0@] == s[j].1);
        if j != i {
            assert(s[j].0@ != s[i].0@);
        }
    }
    assert(tally(t) =~= want);
}

impl View for ConvStats {
    type V = ConvView;

    open spec fn view(&self) -> ConvView {
        ConvView {
            bytes: self.bytes as nat,
            packets: self.packets as nat,
            last_seen: self.last_seen,
            proto_bytes: tally(self.proto_bytes@),
        }
    }
}

impl Clone for ConvStats {
    fn clone(&self) -> (r: Self)
        ensures
            r@ == self@,
            r.wf() == self.wf(),
    {
        let mut proto_bytes: Vec<(Proto, u64)> = Vec::new();
        let mut i: usize = 0;
        while i < self.proto_bytes.len()
            invariant
                i <= self.proto_bytes@.len(),
                proto_bytes@ == self.proto_bytes@.take(i as int),
            decreases self.proto_bytes@.len() - i,
        {
            proto_bytes.push(self.proto_bytes[i]);
            proof {
                assert(proto_bytes@ =~= self.proto_bytes@.take(i + 1));
            }
            i += 1;
        }
        assert(proto_bytes@ =~= self.proto_bytes@);
        ConvStats {
            bytes: self.bytes,
            packets: self.packets,
            last_seen: self.last_seen,
            proto_bytes,
        }
    }
}

impl ConvStats {
    /// Each protocol stands once, and the bytes by protocol add up.
    pub open spec fn wf(&self) -> bool {
        each_once(self.proto_bytes@) && conv_balanced(self@)
    }

    /// A conversation that has counted nothing.
    pub fn new(now: Instant) -> (r: Self)
        ensures
            r@ == conv_new(now),
            r.wf(),
    {
        let r = ConvStats { bytes: 0, packets: 0, last_seen: now, proto_bytes: Vec::new() };
        assert(r@ =~= conv_new(now));
        r
    }

    /// Counts one frame.
    pub fn add(&mut self, bytes: u64, proto: Proto, now: Instant)
        requires
            old(self).wf(),
            old(self)@.bytes + bytes <= u64::MAX,
            old(self)@.packets < u64::MAX,
        ensures
            final(self)@ == conv_add(old(self)@, bytes as nat, proto@, now),
            final(self).wf(),
    {
        let ghost before = self.proto_bytes@;
        let ghost start = self@;
        proof {
            lemma_tally(before);
        }
        self.bytes = self.bytes + bytes;
        self.packets = self.packets + 1;
        self.last_seen = now;
        let mut i: usize = 0;
        while i < self.proto_bytes.len() && !self.proto_bytes[i].0.same(&proto)
            invariant
                i <= self.proto_bytes@.len(),
                self.proto_bytes@ == before,
                forall|j: int| 0 <= j < i ==> before[j].0@ != proto@,
                self.bytes == start.bytes + bytes,
                self.packets == start.packets + 1,
                self.last_seen == now,
            decreases self.proto_bytes@.len() - i,
        {
            i += 1;
        }
        if i < self.proto_bytes.len() {
            let (tag, count) = self.proto_bytes[i];
            proof {
                lemma_total_remove(tally(before), tag@);
                assert(tally(before)[before[i as int].0@] == count);
            }
            self.proto_bytes.set(i, (tag, count + bytes));
            proof {
                lemma_tally_update(before, i as int, (count + bytes) as u64);
                lemma_total_insert(tally(before), proto@, (count + bytes) as nat);
            }
        } else {
            self.proto_bytes.push((proto, bytes));
            proof {
                if tally(before).contains_key(proto@) {
                    let j = choose|j: int| 0 <= j < before.len() && before[j].0@ == proto@;
                    assert(before[j].0@ != proto@);
                }
                assert(self.proto_bytes@.drop_last() =~= before);
                lemma_total_insert(tally(before), proto@, bytes as nat);
            }
        }
        assert(self@ =~= conv_add(start, bytes as nat, proto@, now));
    }

    /// The protocol with the most bytes.
    pub fn dominant_proto(&self) -> (r: Proto)
        requires
            self.wf(),
        ensures
            is_dominant(self@.proto_bytes, r@),
    {
        dominant(&self.proto_bytes)
    }
}

/// The protocol that a list counts the most bytes for.
pub fn dominant(counts: &Vec<(Proto, u64)>) -> (r: Proto)
    requires
        each_once(counts@),
    ensures
        is_dominant(tally(counts@), r@),
{
    proof {
        lemma_tally(counts@);
    }
    if counts.len() == 0 {
        assert(tally(counts@).dom() =~= Set::empty());
        return Proto::Named("?");
    }
    let mut best: usize = 0;
    let mut i: usize = 1;
    while i < counts.len()
        invariant
            best < i <= counts@.len(),
            forall|j: int| 0 <= j < i ==> counts@[j].1 <= counts@[best as int].1,
        decreases counts@.len() - i,
    {
        if counts[i].1 >= counts[best].1 {
            best = i;
        }
        i += 1;
    }
    proof {
        let m = tally(counts@);
        let p = counts@[best as int].0@;
        assert(m.contains_key(p));
        assert(m.dom().contains(p));
        assert forall|q: ProtoView| #[trigger] m.contains_key(q) implies m[q] <= m[p] by {
            let j = choose|j: int|
                0 <= j < counts@.len() && counts@[j].0@ == q;
            assert(m[counts@[j].0@] == counts@[j].1);
        }
    }
    counts[best].0
}

/// The kind and the number of an IP address.
pub open spec fn ip_code(ip: IpAddr) -> (u8, u128) {
    match ip {
        IpAddr::V4(octets) => (4, crate::bytes::be_value(octets@) as u128),
        IpAddr::V6(octets) => (6, crate::bytes::be_value(octets@) as u128),
    }
}

/// Computes the kind and the number of an IP address.
pub fn encode_ip(ip: &IpAddr) -> (r: (u8, u128))
    ensures
        r == ip_code(*ip),
{
    match ip {
        IpAddr::V4(octets) => (4, be_u128(octets.as_slice())),
        IpAddr::V6(octets) => (6, be_u128(octets.as_slice())),
    }
}

/// Different addresses have different kinds or numbers.
pub proof fn lemma_ip_code_injective(a: IpAddr, b: IpAddr)
    requires
        ip_code(a) == ip_code(b),
    ensures
        a == b,
{
    match (a, b) {
        (IpAddr::V4(x), IpAddr::V4(y)) => {
            lemma_number_injective(x@, y@);
            assert(x =~= y);
        },
        (IpAddr::V6(x), IpAddr::V6(y)) => {
            lemma_number_injective(x@, y@);
            assert(x =~= y);
        },
        _ => {},
    }
}

proof fn lemma_number_injective(a: Seq<u8>, b: Seq<u8>)
    requires
        a.len() == b.len() <= 16,
        crate::bytes::be_value(a) as u128 == crate::bytes::be_value(b) as u128,
    ensures
        a == b,
{
    crate::bytes::lemma_be_value_fits(a);
    crate::bytes::lemma_be_value_fits(b);
    crate::bytes::lemma_be_value_injective(a, b);
}

impl CodedKey for Mac {
    open spec fn code(self) -> (u8, u128, u8, u128) {
        (0, crate::bytes::be_value(self@) as u128, 0, 0)
    }

    fn encode(&self) -> (r: (u8, u128, u8, u128)) {
        (0, be_u128(self.0.as_slice()), 0, 0)
    }

    proof fn code_injective(a: Self, b: Self) {
        lemma_number_injective(a@, b@);
        assert(a.0 =~= b.0);
    }
}

impl CodedKey for IpAddr {
    open spec fn code(self) -> (u8, u128, u8, u128) {
        (ip_code(self).0, ip_code(self).1, 0, 0)
    }

    fn encode(&self) -> (r: (u8, u128, u8, u128)) {
        let c = encode_ip(self);
        (c.0, c.1, 0, 0)
    }

    proof fn code_injective(a: Self, b: Self) {
        lemma_ip_code_injective(a, b);
    }
}

impl CodedKey for L2Key {
    open spec fn code(self) -> (u8, u128, u8, u128) {
        (
            0,
            crate::bytes::be_value(self.0@) as u128,
            0,
            crate::bytes::be_value(self.1@) as u128,
        )
    }

    fn encode(&self) -> (r: (u8, u128, u8, u128)) {
        (0, be_u128(self.0.0.as_slice()), 0, be_u128(self.1.0.as_slice()))
    }

    proof fn code_injective(a: Self, b: Self) {
        lemma_number_injective(a.0@, b.0@);
        lemma_number_injective(a.1@, b.1@);
        assert(a.0.0 =~= b.0.0);
        assert(a.1.0 =~= b.1.0);
    }
}

impl CodedKey for L3Key {
    open spec fn code(self) -> (u8, u128, u8, u128) {
        (ip_code(self.0).0, ip_code(self.0).1, ip_code(self.1).0, ip_code(self.1).1)
    }

    fn encode(&self) -> (r: (u8, u128, u8, u128)) {
        let a = encode_ip(&self.0);
        let b = encode_ip(&self.1);
        (a.0, a.1, b.0, b.1)
    }

    proof fn code_injective(a: Self, b: Self) {
        lemma_ip_code_injective(a.0, b.0);
        lemma_ip_code_injective(a.1, b.1);
    }
}

/// The conversations of both tables, and the names of IP addresses.
#[verifier::ext_equal]
pub struct TablesView {
    pub l2: Map<L2Key, ConvView>,
    pub l3: Map<L3Key, ConvView>,
    pub l3_labels: Map<IpAddr, Seq<char>>,
}

/// Tables without conversations or names.
pub open spec fn no_tables() -> TablesView {
    TablesView { l2: Map::empty(), l3: Map::empty(), l3_labels: Map::empty() }
}

/// Both tables after one more frame: the layer-two table always counts it,
/// the layer-three table where it carries IP.
pub open spec fn ingested(t: TablesView, meta: PacketMetaView, now: Instant) -> TablesView {
    TablesView {
        l2: crate::model::conv_table::recorded(
            t.l2,
            l2_key(meta.src_mac, meta.dst_mac),
            meta.wire_len as nat,
            meta.l2_proto,
            now,
        ),
        l3: match meta.l3 {
            Some(l3) => crate::model::conv_table::recorded(
                t.l3,
                l3_key(l3.src, l3.dst),
                meta.wire_len as nat,
                l3.proto,
                now,
            ),
            None => t.l3,
        },
        ..t
    }
}

/// The label of an IP address: its name where one was learnt, else its written
/// form.
pub open spec fn l3_label_of(t: TablesView, ip: IpAddr) -> Seq<char> {
    if t.l3_labels.contains_key(ip) {
        t.l3_labels[ip]
    } else {
        crate::model::address::ip_text(ip)
    }
}

/// One more frame fits in the counters of its conversations.
pub open spec fn has_room(t: TablesView, meta: PacketMetaView) -> bool {
    &&& crate::model::conv_table::room_in(t.l2, l2_key(meta.src_mac, meta.dst_mac), meta.wire_len)
    &&& meta.l3 matches Some(l3) ==> crate::model::conv_table::room_in(
        t.l3,
        l3_key(l3.src, l3.dst),
        meta.wire_len,
    )
}

/// Both tables, and the names of IP addresses that were learnt.
pub struct Tables {
    pub l2: ConvTable<L2Key>,
    pub l3: ConvTable<L3Key>,
    pub l3_labels: CodedMap<IpAddr, String>,
}

impl View for Tables {
    type V = TablesView;

    open spec fn view(&self) -> TablesView {
        TablesView {
            l2: self.l2@,
            l3: self.l3@,
            l3_labels: self.l3_labels@.map_values(|s: String| s@),
        }
    }
}

impl Default for Tables {
    fn default() -> (r: Self)
        ensures
            r@ == no_tables(),
    {
        Tables::new()
    }
}

impl Tables {
    /// Tables without conversations.
    pub fn new() -> (r: Self)
        ensures
            r@ == no_tables(),
    {
        let r = Tables {
            l2: ConvTable::new(),
            l3: ConvTable::new(),
            l3_labels: CodedMap::new(),
        };
        assert(r@ =~= no_tables());
        r
    }

    /// Whether `ingest` can count the frame without a counter running over.
    pub fn can_ingest(&self, meta: &PacketMeta) -> (r: bool)
        ensures
            r == has_room(self@, meta@),
    {
        if !self.l2.has_room(&L2Key::new(meta.src_mac, meta.dst_mac), meta.wire_len) {
            return false;
        }
        match &meta.l3 {
            Some(l3) => self.l3.has_room(&L3Key::new(l3.src, l3.dst), meta.wire_len),
            None => true,
        }
    }

    /// Projects a frame on both tables.
    pub fn ingest(&mut self, meta: &PacketMeta, now: Instant)
        requires
            has_room(old(self)@, meta@),
        ensures
            final(self)@ == ingested(old(self)@, meta@, now),
    {
        self.l2.record(
            L2Key::new(meta.src_mac, meta.dst_mac),
            meta.wire_len,
            meta.l2_proto,
            now,
        );
        if let Some(l3) = &meta.l3 {
            self.l3.record(L3Key::new(l3.src, l3.dst), meta.wire_len, l3.proto, now);
        }
    }

    /// Keeps the name of an IP address.
    pub fn learn_name(&mut self, ip: IpAddr, name: String)
        ensures
            final(self)@ == (TablesView {
                l3_labels: old(self)@.l3_labels.insert(ip, name@),
                ..old(self)@
            }),
    {
        self.l3_labels.put(ip, name);
        assert(self@.l3_labels =~= old(self)@.l3_labels.insert(ip, name@));
    }

    /// The label of an IP address.
    pub fn l3_label(&self, ip: &IpAddr) -> (r: String)
        ensures
            r@ == l3_label_of(self@, *ip),
    {
        match self.l3_labels.get(ip) {
            Some(name) => name.clone(),
            None => ip.to_text(),
        }
    }

    /// The first `n` layer-two conversations by bytes, largest first.
    pub fn top_l2(&self, n: usize) -> (r: Vec<(&L2Key, &ConvStats)>)
        ensures
            crate::model::conv_table::is_top(
                self@.l2,
                crate::model::conv_table::entry_views(r@),
                n as nat,
            ),
            forall|i: int| 0 <= i < r@.len() ==> (#[trigger] r@[i]).1.wf(),
    {
        self.l2.top(n)
    }

    /// The first `n` layer-three conversations by bytes, largest first.
    pub fn top_l3(&self, n: usize) -> (r: Vec<(&L3Key, &ConvStats)>)
        ensures
            crate::model::conv_table::is_top(
                self@.l3,
                crate::model::conv_table::entry_views(r@),
                n as nat,
            ),
            forall|i: int| 0 <= i < r@.len() ==> (#[trigger] r@[i]).1.wf(),
    {
        self.l3.top(n)
    }
}

/// Both tables after `frames`, in order, from nothing.
pub open spec fn ingested_all(frames: Seq<(PacketMetaView, Instant)>) -> TablesView {
    ingested_after(no_tables(), frames)
}

/// A frame as the layer-two table counts it.
pub open spec fn l2_counted(
    meta: PacketMetaView,
    now: Instant,
) -> crate::model::conv_table::Counted<L2Key> {
    crate::model::conv_table::Counted {
        key: l2_key(meta.src_mac, meta.dst_mac),
        bytes: meta.wire_len as nat,
        proto: meta.l2_proto,
        at: now,
    }
}

/// The frames as the layer-two table counts them: all of them.
pub open spec fn l2_frames(
    frames: Seq<(PacketMetaView, Instant)>,
) -> Seq<crate::model::conv_table::Counted<L2Key>> {
    frames.map_values(|f: (PacketMetaView, Instant)| l2_counted(f.0, f.1))
}

/// The frames as the layer-three table counts them: those that carry IP.
pub open spec fn l3_frames(
    frames: Seq<(PacketMetaView, Instant)>,
) -> Seq<crate::model::conv_table::Counted<L3Key>>
    decreases frames.len(),
{
    if frames.len() == 0 {
        Seq::empty()
    } else {
        let (meta, now) = frames.last();
        match meta.l3 {
            Some(l3) => l3_frames(frames.drop_last()).push(
                crate::model::conv_table::Counted {
                    key: l3_key(l3.src, l3.dst),
                    bytes: meta.wire_len as nat,
                    proto: l3.proto,
                    at: now,
                },
            ),
            None => l3_frames(frames.drop_last()),
        }
    }
}

/// The tables are two projections of one stream of frames: the layer-two
/// table counts every frame, the layer-three table every frame with IP.
pub proof fn law_two_projections(frames: Seq<(PacketMetaView, Instant)>)
    ensures
        ingested_all(frames).l2 == crate::model::conv_table::recorded_all(l2_frames(frames)),
        ingested_all(frames).l3 == crate::model::conv_table::recorded_all(l3_frames(frames)),
    decreases frames.len(),
{
    if frames.len() > 0 {
        law_two_projections(frames.drop_last());
        assert(l2_frames(frames).drop_last() =~= l2_frames(frames.drop_last()));
        if frames.last().0.l3 is Some {
            assert(l3_frames(frames).drop_last() =~= l3_frames(frames.drop_last()));
        }
    }
}

/// Every frame is counted once in the layer-two table, and the layer-three
/// table never holds more bytes or packets than it.
pub proof fn law_tables_conserve(frames: Seq<(PacketMetaView, Instant)>)
    ensures
        crate::model::conv_table::table_packets(ingested_all(frames).l2) == frames.len(),
        crate::model::conv_table::table_bytes(ingested_all(frames).l2)
            == crate::model::conv_table::bytes_in(l2_frames(frames)),
        crate::model::conv_table::table_packets(ingested_all(frames).l3)
            == l3_frames(frames).len() <= frames.len(),
        crate::model::conv_table::table_bytes(ingested_all(frames).l3)
            == crate::model::conv_table::bytes_in(l3_frames(frames))
            <= crate::model::conv_table::bytes_in(l2_frames(frames)),
{
    law_two_projections(frames);
    crate::model::conv_table::law_table_conserves(l2_frames(frames));
    crate::model::conv_table::law_table_conserves(l3_frames(frames));
    lemma_l3_within_l2(frames);
}

proof fn lemma_l3_within_l2(frames: Seq<(PacketMetaView, Instant)>)
    ensures
        l3_frames(frames).len() <= frames.len(),
        crate::model::conv_table::bytes_in(l3_frames(frames))
            <= crate::model::conv_table::bytes_in(l2_frames(frames)),
    decreases frames.len(),
{
    if frames.len() > 0 {
        lemma_l3_within_l2(frames.drop_last());
        assert(l2_frames(frames).drop_last() =~= l2_frames(frames.drop_last()));
        if frames.last().0.l3 is Some {
            assert(l3_frames(frames).drop_last() =~= l3_frames(frames.drop_last()));
        }
    }
}

/// A frame that goes the other way: both pairs of addresses swapped.
pub open spec fn turned(meta: PacketMetaView) -> PacketMetaView {
    PacketMetaView {
        src_mac: meta.dst_mac,
        dst_mac: meta.src_mac,
        l3: match meta.l3 {
            Some(l3) => Some(
                crate::model::packet::L3MetaView { src: l3.dst, dst: l3.src, proto: l3.proto },
            ),
            None => None,
        },
        ..meta
    }
}

/// Both directions of a conversation are counted as one: a frame and the same
/// frame turned around change the tables alike.
pub proof fn law_directions_merge(t: TablesView, meta: PacketMetaView, now: Instant)
    ensures
        ingested(t, turned(meta), now) == ingested(t, meta, now),
{
    law_l2_key_symmetric(meta.src_mac, meta.dst_mac);
    if let Some(l3) = meta.l3 {
        law_l3_key_symmetric(l3.src, l3.dst);
    }
}

/// A frame without IP leaves the layer-three table as it was, and no frame
/// removes a conversation from either table or a name.
pub proof fn law_ingest_only_adds(t: TablesView, meta: PacketMetaView, now: Instant)
    ensures
        meta.l3 is None ==> ingested(t, meta, now).l3 == t.l3,
        t.l2.dom().subset_of(ingested(t, meta, now).l2.dom()),
        t.l3.dom().subset_of(ingested(t, meta, now).l3.dom()),
        ingested(t, meta, now).l3_labels == t.l3_labels,
{
}

/// As long as all the bytes and frames together fit in 64 bits, there is room
/// for the next frame.
pub proof fn law_room_while_totals_fit(
    frames: Seq<(PacketMetaView, Instant)>,
    meta: PacketMetaView,
)
    requires
        crate::model::conv_table::bytes_in(l2_frames(frames)) + meta.wire_len <= u64::MAX,
        frames.len() < u64::MAX,
    ensures
        has_room(ingested_all(frames), meta),
{
    let key = l2_key(meta.src_mac, meta.dst_mac);
    law_two_projections(frames);
    lemma_l3_within_l2(frames);
    crate::model::conv_table::law_conversation_counts(l2_frames(frames), key);
    crate::model::conv_table::lemma_part_within_whole(l2_frames(frames), key);
    if let Some(l3) = meta.l3 {
        let key = l3_key(l3.src, l3.dst);
        crate::model::conv_table::law_conversation_counts(l3_frames(frames), key);
        crate::model::conv_table::lemma_part_within_whole(l3_frames(frames), key);
    }
}

/// A name that was learnt serves from then on: no frame changes the label of an
/// address.
pub proof fn law_names_stay(
    t: TablesView,
    frames: Seq<(PacketMetaView, Instant)>,
    ip: IpAddr,
    name: Seq<char>,
)
    requires
        t.l3_labels.contains_key(ip),
        t.l3_labels[ip] == name,
    ensures
        l3_label_of(ingested_after(t, frames), ip) == name,
{
    lemma_labels_stay(t, frames);
}

/// Tables after `frames`, in order, from `t` on.
pub open spec fn ingested_after(
    t: TablesView,
    frames: Seq<(PacketMetaView, Instant)>,
) -> TablesView
    decreases frames.len(),
{
    if frames.len() == 0 {
        t
    } else {
        ingested(ingested_after(t, frames.drop_last()), frames.last().0, frames.last().1)
    }
}

proof fn lemma_labels_stay(t: TablesView, frames: Seq<(PacketMetaView, Instant)>)
    ensures
        ingested_after(t, frames).l3_labels == t.l3_labels,
    decreases frames.len(),
{
    if frames.len() > 0 {
        lemma_labels_stay(t, frames.drop_last());
    }
}

proof fn lemma_l3_take_out(s: Seq<(PacketMetaView, Instant)>, i: int)
    requires
        0 <= i < s.len(),
    ensures
        l3_frames(s).to_multiset() == l3_frames(s.remove(i)).to_multiset().add(
            l3_frames(seq![s[i]]).to_multiset(),
        ),
    decreases s.len(),
{
    broadcast use vstd::seq_lib::group_to_multiset_ensures;

    let head = s.drop_last();
    let last = s.last();
    let none = Seq::<(PacketMetaView, Instant)>::empty();
    assert(seq![s[i]].drop_last() =~= none);
    assert(seq![last].drop_last() =~= none);
    reveal_with_fuel(l3_frames, 2);
    if i < s.len() - 1 {
        lemma_l3_take_out(head, i);
        assert(s.remove(i).drop_last() =~= head.remove(i));
        assert(s.remove(i).last() == last);
        assert(l3_frames(s).to_multiset() =~= l3_frames(s.remove(i)).to_multiset().add(
            l3_frames(seq![s[i]]).to_multiset(),
        ));
    } else {
        assert(s.remove(i) =~= head);
        assert(l3_frames(none).to_multiset() =~= vstd::multiset::Multiset::empty());
        assert(l3_frames(s).to_multiset() =~= l3_frames(head).to_multiset().add(
            l3_frames(seq![last]).to_multiset(),
        ));
    }
}

proof fn lemma_frames_order(
    a: Seq<(PacketMetaView, Instant)>,
    b: Seq<(PacketMetaView, Instant)>,
)
    requires
        a.to_multiset() == b.to_multiset(),
    ensures
        l2_frames(a).to_multiset() == l2_frames(b).to_multiset(),
        l3_frames(a).to_multiset() == l3_frames(b).to_multiset(),
    decreases a.len(),
{
    broadcast use vstd::seq_lib::group_to_multiset_ensures;

    vstd::seq_lib::to_multiset_len(a);
    vstd::seq_lib::to_multiset_len(b);
    if a.len() > 0 {
        let x = a.last();
        assert(a[a.len() - 1] == x);
        assert(a.contains(x));
        assert(a.to_multiset().count(x) > 0);
        assert(b.contains(x));
        let i = choose|i: int| 0 <= i < b.len() && b[i] == x;
        assert(a.remove(a.len() - 1) =~= a.drop_last());
        assert(a.drop_last().to_multiset() == a.to_multiset().remove(x));
        assert(b.remove(i).to_multiset() == b.to_multiset().remove(x));
        lemma_frames_order(a.drop_last(), b.remove(i));
        lemma_l3_take_out(a, a.len() - 1);
        lemma_l3_take_out(b, i);
        assert(l2_frames(a).remove(a.len() - 1) =~= l2_frames(a.drop_last()));
        assert(l2_frames(b).remove(i) =~= l2_frames(b.remove(i)));
        let f = l2_counted(x.0, x.1);
        assert(l2_frames(a)[a.len() - 1] == f && l2_frames(b)[i] == f);
        assert(l2_frames(a).contains(f));
        assert(l2_frames(b).contains(f));
        assert(l2_frames(a).to_multiset().count(f) > 0);
        assert(l2_frames(b).to_multiset().count(f) > 0);
        assert(l2_frames(a).to_multiset() =~= l2_frames(a).remove(a.len() - 1).to_multiset().insert(
            f,
        ));
        assert(l2_frames(b).to_multiset() =~= l2_frames(b).remove(i).to_multiset().insert(f));
    } else {
        assert(a =~= b);
    }
}

/// The order in which frames come shows in the times of the last frames alone:
/// the same frames in another order give both tables the same conversations
/// with the same counters.
pub proof fn law_order_of_frames(
    a: Seq<(PacketMetaView, Instant)>,
    b: Seq<(PacketMetaView, Instant)>,
    l2: L2Key,
    l3: L3Key,
)
    requires
        a.to_multiset() == b.to_multiset(),
    ensures
        ({
            let x = ingested_all(a);
            let y = ingested_all(b);
            &&& x.l2.contains_key(l2) == y.l2.contains_key(l2)
            &&& x.l2.contains_key(l2) ==> x.l2[l2] == (ConvView {
                last_seen: x.l2[l2].last_seen,
                ..y.l2[l2]
            })
            &&& x.l3.contains_key(l3) == y.l3.contains_key(l3)
            &&& x.l3.contains_key(l3) ==> x.l3[l3] == (ConvView {
                last_seen: x.l3[l3].last_seen,
                ..y.l3[l3]
            })
        }),
{
    law_two_projections(a);
    law_two_projections(b);
    lemma_frames_order(a, b);
    crate::model::conv_table::law_order_shows_in_time_alone(l2_frames(a), l2_frames(b), l2);
    crate::model::conv_table::law_order_shows_in_time_alone(l3_frames(a), l3_frames(b), l3);
}

/// The key of a conversation holds the address with the smaller number first;
/// an IPv4 address comes before an IPv6 address.
pub proof fn law_smaller_address_first(
    a: Mac,
    b: Mac,
    x: [u8; 4],
    y: [u8; 4],
    v: [u8; 16],
    w: [u8; 16],
)
    ensures
        l2_key(a, b) == (if crate::bytes::be_value(a@) <= crate::bytes::be_value(b@) {
            L2Key(a, b)
        } else {
            L2Key(b, a)
        }),
        l3_key(IpAddr::V4(x), IpAddr::V4(y)) == (if crate::bytes::be_value(x@)
            <= crate::bytes::be_value(y@) {
            L3Key(IpAddr::V4(x), IpAddr::V4(y))
        } else {
            L3Key(IpAddr::V4(y), IpAddr::V4(x))
        }),
        l3_key(IpAddr::V6(v), IpAddr::V6(w)) == (if crate::bytes::be_value(v@)
            <= crate::bytes::be_value(w@) {
            L3Key(IpAddr::V6(v), IpAddr::V6(w))
        } else {
            L3Key(IpAddr::V6(w), IpAddr::V6(v))
        }),
        l3_key(IpAddr::V4(x), IpAddr::V6(v)) == L3Key(IpAddr::V4(x), IpAddr::V6(v)),
        l3_key(IpAddr::V6(v), IpAddr::V4(x)) == L3Key(IpAddr::V4(x), IpAddr::V6(v)),
{
    crate::bytes::law_order_of_bytes(a@, b@);
    crate::bytes::law_order_of_bytes(x@, y@);
    crate::bytes::law_order_of_bytes(v@, w@);
}

/// The dominant protocol was counted, and no other has more bytes; where
/// nothing was counted it is a question mark.
pub proof fn law_dominant_has_most(counts: Map<ProtoView, nat>, best: ProtoView, other: ProtoView)
    requires
        is_dominant(counts, best),
    ensures
        counts.contains_key(other) ==> counts.contains_key(best) && counts[best] >= counts[other],
        counts == Map::<ProtoView, nat>::empty() ==> best == ProtoView::Named("?"@),
        !counts.contains_key(best) ==> counts == Map::<ProtoView, nat>::empty(),
{
    if counts.contains_key(other) {
        assert(counts.dom().contains(other));
    }
    if !counts.contains_key(best) {
        assert(counts =~= Map::<ProtoView, nat>::empty());
    }
}

/// A protocol that has more bytes than every other one is the dominant one.
pub proof fn law_largest_is_dominant(counts: Map<ProtoView, nat>, best: ProtoView, largest: ProtoView)
    requires
        is_dominant(counts, best),
        counts.contains_key(largest),
        forall|q: ProtoView| #[trigger]
            counts.contains_key(q) && q != largest ==> counts[q] < counts[largest],
    ensures
        best == largest,
{
    assert(counts.dom().contains(largest));
}

/// The counters of a conversation are seen as they are: each protocol with its
/// bytes.
pub proof fn law_conversation_views(conv: ConvStats, i: int, p: ProtoView)
    requires
        conv.wf(),
    ensures
        conv@.bytes == conv.bytes,
        conv@.packets == conv.packets,
        conv@.last_seen == conv.last_seen,
        0 <= i < conv.proto_bytes@.len() ==> conv@.proto_bytes.contains_key(
            conv.proto_bytes@[i].0@,
        ) && conv@.proto_bytes[conv.proto_bytes@[i].0@] == conv.proto_bytes@[i].1,
        conv@.proto_bytes.contains_key(p) ==> exists|j: int|
            0 <= j < conv.proto_bytes@.len() && conv.proto_bytes@[j].0@ == p,
{
    lemma_tally(conv.proto_bytes@);
}

/// A frame adds its length to the conversation of its two Ethernet addresses,
/// and to that of its two IP addresses where it has them, each under its own
/// protocol. It leaves every other conversation, and every name, as it was.
pub proof fn law_frame_in_both_tables(
    t: TablesView,
    meta: PacketMetaView,
    now: Instant,
    l2: L2Key,
    l3: L3Key,
)
    ensures
        ({
            let after = ingested(t, meta, now);
            let key = l2_key(meta.src_mac, meta.dst_mac);
            &&& after.l2.contains_key(key)
            &&& after.l2[key].bytes == meta.wire_len + (if t.l2.contains_key(key) {
                t.l2[key].bytes
            } else {
                0
            })
            &&& after.l2[key].packets == 1 + (if t.l2.contains_key(key) {
                t.l2[key].packets
            } else {
                0
            })
            &&& after.l2[key].last_seen == now
            &&& after.l2[key].proto_bytes.contains_key(meta.l2_proto)
            &&& after.l2[key].proto_bytes[meta.l2_proto] == meta.wire_len + (if t.l2.contains_key(
                key,
            ) && t.l2[key].proto_bytes.contains_key(meta.l2_proto) {
                t.l2[key].proto_bytes[meta.l2_proto]
            } else {
                0
            })
            &&& l2 != key ==> after.l2.contains_key(l2) == t.l2.contains_key(l2) && (
            t.l2.contains_key(l2) ==> after.l2[l2] == t.l2[l2])
            &&& after.l3_labels == t.l3_labels
            &&& meta.l3 is None ==> after.l3 == t.l3
            &&& meta.l3 matches Some(ip) ==> {
                let pair = l3_key(ip.src, ip.dst);
                &&& after.l3.contains_key(pair)
                &&& after.l3[pair].bytes == meta.wire_len + (if t.l3.contains_key(pair) {
                    t.l3[pair].bytes
                } else {
                    0
                })
                &&& after.l3[pair].packets == 1 + (if t.l3.contains_key(pair) {
                    t.l3[pair].packets
                } else {
                    0
                })
                &&& after.l3[pair].last_seen == now
                &&& after.l3[pair].proto_bytes.contains_key(ip.proto)
                &&& after.l3[pair].proto_bytes[ip.proto] == meta.wire_len + (
                if t.l3.contains_key(pair) && t.l3[pair].proto_bytes.contains_key(ip.proto) {
                    t.l3[pair].proto_bytes[ip.proto]
                } else {
                    0
                })
                &&& l3 != pair ==> after.l3.contains_key(l3) == t.l3.contains_key(l3) && (
                t.l3.contains_key(l3) ==> after.l3[l3] == t.l3[l3])
            }
        }),
{
}

/// There is room for a frame exactly where the sums of its conversations fit
/// in 64 bits, in both tables.
pub proof fn law_room_for_frames(t: TablesView, meta: PacketMetaView)
    ensures
        ({
            let key = l2_key(meta.src_mac, meta.dst_mac);
            let limit = 0x1_0000_0000_0000_0000int;
            has_room(t, meta) <==> {
                &&& t.l2.contains_key(key) ==> t.l2[key].bytes + meta.wire_len < limit
                    && t.l2[key].packets + 1 < limit
                &&& meta.l3 matches Some(ip) ==> {
                    let pair = l3_key(ip.src, ip.dst);
                    t.l3.contains_key(pair) ==> t.l3[pair].bytes + meta.wire_len < limit
                        && t.l3[pair].packets + 1 < limit
                }
            }
        }),
{
}

/// An address is labelled with the name that was learnt last, or with its
/// written form; a name of another address has no effect on it.
pub proof fn law_labels(t: TablesView, ip: IpAddr, name: Seq<char>, other: IpAddr)
    requires
        other != ip,
    ensures
        ({
            let after = TablesView { l3_labels: t.l3_labels.insert(ip, name), ..t };
            &&& l3_label_of(after, ip) == name
            &&& l3_label_of(after, other) == l3_label_of(t, other)
            &&& !t.l3_labels.contains_key(ip) ==> l3_label_of(t, ip)
                == crate::model::address::ip_text(ip)
            &&& l3_label_of(no_tables(), ip) == crate::model::address::ip_text(ip)
        }),
{
}

/// The tables start empty.
pub proof fn law_tables_start_empty(l2: L2Key, l3: L3Key, ip: IpAddr)
    ensures
        !no_tables().l2.contains_key(l2),
        !no_tables().l3.contains_key(l3),
        !no_tables().l3_labels.contains_key(ip),
{
}

/// A conversation starts with nothing counted and the time at which it starts;
/// a frame adds its bytes, one packet, its time, and its bytes to its
/// protocol.
pub proof fn law_conversation_starts_and_grows(
    conv: ConvView,
    bytes: nat,
    proto: ProtoView,
    now: Instant,
    other: ProtoView,
)
    ensures
        conv_new(now).bytes == 0,
        conv_new(now).packets == 0,
        conv_new(now).last_seen == now,
        conv_new(now).proto_bytes == Map::<ProtoView, nat>::empty(),
        ({
            let after = conv_add(conv, bytes, proto, now);
            &&& after.bytes == conv.bytes + bytes
            &&& after.packets == conv.packets + 1
            &&& after.last_seen == now
            &&& after.proto_bytes.contains_key(proto)
            &&& conv.proto_bytes.contains_key(proto) ==> after.proto_bytes[proto]
                == conv.proto_bytes[proto] + bytes
            &&& !conv.proto_bytes.contains_key(proto) ==> after.proto_bytes[proto] == bytes
            &&& other != proto ==> after.proto_bytes.contains_key(other)
                == conv.proto_bytes.contains_key(other)
            &&& other != proto && conv.proto_bytes.contains_key(other) ==> after.proto_bytes[other]
                == conv.proto_bytes[other]
        }),
{
}

} // verus!
