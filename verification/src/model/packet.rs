//! From a raw frame to its metadata.
//!
//! One frame gives one compact value, projected afterwards on both tables.
//! Nothing is resolved here and nothing waits.

use etherparse::{LinkSlice, NetSlice, SlicedPacket, TransportSlice};
use vstd::prelude::*;

use crate::text::{push_colon_hex, push_decimal, push_hex4, same_text};

verus! {

/// Ethernet address.
#[derive(Clone, Copy, PartialEq, Eq, PartialOrd, Ord, Hash, Debug)]
pub struct Mac(pub [u8; 6]);

impl View for Mac {
    type V = Seq<u8>;

    open spec fn view(&self) -> Seq<u8> {
        self.0@
    }
}

/// IP address, as the bytes on the wire.
#[derive(Clone, Copy, PartialEq, Eq, PartialOrd, Ord, Hash, Debug)]
pub enum IpAddr {
    V4([u8; 4]),
    V6([u8; 16]),
}

/// Protocol tag.
#[derive(Clone, Copy, PartialEq, Eq, Hash, Debug)]
pub enum Proto {
    /// A known EtherType, a known transport, or an application told by its port.
    Named(&'static str),
    /// Unknown EtherType.
    Ether(u16),
    /// Unknown IP protocol number.
    Ip(u8),
}

/// A protocol tag with its name as characters.
pub enum ProtoView {
    Named(Seq<char>),
    Ether(u16),
    Ip(u8),
}

impl View for Proto {
    type V = ProtoView;

    open spec fn view(&self) -> ProtoView {
        match self {
            Proto::Named(name) => ProtoView::Named(name@),
            Proto::Ether(v) => ProtoView::Ether(*v),
            Proto::Ip(v) => ProtoView::Ip(*v),
        }
    }
}

/// Network-layer metadata.
#[derive(Clone, Copy, Debug)]
pub struct L3Meta {
    pub src: IpAddr,
    pub dst: IpAddr,
    pub proto: Proto,
}

/// Network-layer metadata with the protocol as a view.
pub struct L3MetaView {
    pub src: IpAddr,
    pub dst: IpAddr,
    pub proto: ProtoView,
}

impl View for L3Meta {
    type V = L3MetaView;

    open spec fn view(&self) -> L3MetaView {
        L3MetaView { src: self.src, dst: self.dst, proto: self.proto@ }
    }
}

/// Metadata of one frame, read once and projected on both tables.
#[derive(Clone, Copy, Debug)]
pub struct PacketMeta {
    /// Length on the wire.
    pub wire_len: u64,
    pub src_mac: Mac,
    pub dst_mac: Mac,
    /// Protocol seen from layer 2.
    pub l2_proto: Proto,
    /// Present for IPv4 and IPv6 alone.
    pub l3: Option<L3Meta>,
    /// Pair learnt passively from ARP.
    pub arp_pair: Option<(IpAddr, Mac)>,
}

/// Metadata of one frame with the protocols as views.
pub struct PacketMetaView {
    pub wire_len: u64,
    pub src_mac: Mac,
    pub dst_mac: Mac,
    pub l2_proto: ProtoView,
    pub l3: Option<L3MetaView>,
    pub arp_pair: Option<(IpAddr, Mac)>,
}

impl View for PacketMeta {
    type V = PacketMetaView;

    open spec fn view(&self) -> PacketMetaView {
        PacketMetaView {
            wire_len: self.wire_len,
            src_mac: self.src_mac,
            dst_mac: self.dst_mac,
            l2_proto: self.l2_proto@,
            l3: match self.l3 {
                Some(l3) => Some(l3@),
                None => None,
            },
            arp_pair: self.arp_pair,
        }
    }
}

/// Link layer of a frame.
#[derive(Clone, Copy, PartialEq, Eq, Debug)]
pub enum LinkLayer {
    /// Source, destination and the number behind them: an EtherType, or the
    /// length of an IEEE 802.3 frame.
    Ethernet2(Mac, Mac, u16),
    Other,
}

/// Network layer of a frame.
#[derive(PartialEq, Eq, Debug)]
pub enum NetLayer {
    /// Source, destination and protocol number of the payload.
    Ipv4([u8; 4], [u8; 4], u8),
    /// Source, destination and protocol number behind the extension headers.
    Ipv6([u8; 16], [u8; 16], u8),
    /// Hardware and protocol address of the sender.
    Arp(Vec<u8>, Vec<u8>),
    Absent,
}

/// A network layer with the ARP addresses as sequences.
pub enum NetLayerView {
    Ipv4([u8; 4], [u8; 4], u8),
    Ipv6([u8; 16], [u8; 16], u8),
    Arp(Seq<u8>, Seq<u8>),
    Absent,
}

impl View for NetLayer {
    type V = NetLayerView;

    open spec fn view(&self) -> NetLayerView {
        match self {
            NetLayer::Ipv4(src, dst, number) => NetLayerView::Ipv4(*src, *dst, *number),
            NetLayer::Ipv6(src, dst, number) => NetLayerView::Ipv6(*src, *dst, *number),
            NetLayer::Arp(hw, protocol) => NetLayerView::Arp(hw@, protocol@),
            NetLayer::Absent => NetLayerView::Absent,
        }
    }
}

/// Transport layer of a frame.
#[derive(Clone, Copy, PartialEq, Eq, Debug)]
pub enum TransportLayer {
    /// Source and destination port.
    Tcp(u16, u16),
    /// Source and destination port.
    Udp(u16, u16),
    Icmpv4,
    Icmpv6,
    Absent,
}

/// The layers of a frame that can be told apart.
#[derive(PartialEq, Eq, Debug)]
pub struct Layers {
    pub link: LinkLayer,
    pub net: NetLayer,
    pub transport: TransportLayer,
}

/// The layers of a frame with the ARP addresses as sequences.
pub struct LayersView {
    pub link: LinkLayer,
    pub net: NetLayerView,
    pub transport: TransportLayer,
}

impl View for Layers {
    type V = LayersView;

    open spec fn view(&self) -> LayersView {
        LayersView { link: self.link, net: self.net@, transport: self.transport }
    }
}

/// The address that four bytes write.
pub open spec fn v4_of(s: Seq<u8>) -> IpAddr {
    IpAddr::V4([s[0], s[1], s[2], s[3]])
}

/// The address that sixteen bytes write.
pub open spec fn v6_of(s: Seq<u8>) -> IpAddr {
    IpAddr::V6(
        [
            s[0],
            s[1],
            s[2],
            s[3],
            s[4],
            s[5],
            s[6],
            s[7],
            s[8],
            s[9],
            s[10],
            s[11],
            s[12],
            s[13],
            s[14],
            s[15],
        ],
    )
}

/// The Ethernet address that six bytes write.
pub open spec fn mac_of(s: Seq<u8>) -> Mac {
    Mac([s[0], s[1], s[2], s[3], s[4], s[5]])
}

/// The four bytes of an address write it back.
pub proof fn lemma_v4_of(octets: [u8; 4])
    ensures
        v4_of(octets@) == IpAddr::V4(octets),
{
    let s = octets@;
    let rebuilt: [u8; 4] = [s[0], s[1], s[2], s[3]];
    assert(rebuilt@ =~= octets@);
    assert(rebuilt =~= octets);
}

/// The sixteen bytes of an address write it back.
pub proof fn lemma_v6_of(octets: [u8; 16])
    ensures
        v6_of(octets@) == IpAddr::V6(octets),
{
    let rebuilt = v6_of(octets@)->V6_0;
    assert(rebuilt@ =~= octets@);
    assert(rebuilt =~= octets);
}

/// The sixteen-bit number at `i`, most significant byte first.
pub open spec fn be16(data: Seq<u8>, i: int) -> u16 {
    (data[i] * 256 + data[i + 1]) as u16
}

/// The largest length of an IEEE 802.3 frame. A larger number behind the
/// addresses is an EtherType, and the frame is Ethernet II.
pub const MAX_LENGTH: u16 = 1500;

/// EtherTypes behind which another EtherType follows: VLAN tags and MACsec.
pub open spec fn is_link_extension(ether_type: u16) -> bool {
    ether_type == 0x8100 || ether_type == 0x88a8 || ether_type == 0x9100 || ether_type == 0x88e5
}

/// EtherTypes of the network layers that are read: IPv4, IPv6 and ARP.
pub open spec fn is_read_network(ether_type: u16) -> bool {
    ether_type == 0x0800 || ether_type == 0x86dd || ether_type == 0x0806
}

/// A frame with one VLAN tag: a tag that fits, with no other tag or MACsec
/// header behind it.
pub open spec fn has_vlan_tag(data: Seq<u8>) -> bool {
    &&& data.len() >= 18
    &&& be16(data, 12) == 0x8100 || be16(data, 12) == 0x88a8 || be16(data, 12) == 0x9100
    &&& !is_link_extension(be16(data, 16))
}

/// A frame without the four bytes of its VLAN tag.
pub open spec fn untagged(data: Seq<u8>) -> Seq<u8> {
    data.take(12) + data.skip(16)
}

/// An untagged IPv4 frame that holds a part of a packet: more fragments
/// follow, or the offset is not zero.
pub open spec fn is_v4_fragment(data: Seq<u8>) -> bool {
    data[20] % 64 >= 32 || data[20] % 32 != 0 || data[21] != 0
}

/// Where the payload of an untagged IPv4 frame starts.
pub open spec fn v4_payload_at(data: Seq<u8>) -> int {
    14 + 4 * (data[14] as int % 16)
}

/// The protocol numbers of the IPv6 extension headers that are read through:
/// hop-by-hop, routing, fragment, authentication, destination options.
pub open spec fn is_v6_extension(number: u8) -> bool {
    number == 0 || number == 43 || number == 44 || number == 51 || number == 60
}

/// The transport that the protocol number tells, its header at `at`.
pub open spec fn transport_at(number: u8, data: Seq<u8>, at: int) -> TransportLayer {
    if number == 6 {
        TransportLayer::Tcp(be16(data, at), be16(data, at + 2))
    } else if number == 17 {
        TransportLayer::Udp(be16(data, at), be16(data, at + 2))
    } else if number == 1 {
        TransportLayer::Icmpv4
    } else if number == 58 {
        TransportLayer::Icmpv6
    } else {
        TransportLayer::Absent
    }
}

/// What `etherparse::SlicedPacket::from_ethernet` tells of the layers of a
/// frame, `None` where it reports an error.
pub uninterp spec fn sliced_frame(data: Seq<u8>) -> Option<LayersView>;

/// `etherparse::SlicedPacket::from_ethernet`, its link and transport fields.
///
/// The link and the transport are those of `sliced_frame`. A frame shorter
/// than an Ethernet II header is an error; otherwise the link is that header:
/// destination, source, EtherType. Where no VLAN tag or MACsec header stands
/// between: a whole IPv4 packet, unless an authentication header (51) follows,
/// and an IPv6 packet without extension headers give the transport that the
/// protocol number tells, with the ports at the start of the payload; a
/// fragment of an IPv4 packet gives no transport. A frame with one VLAN tag
/// has the transport of the frame without it.
#[verifier::external_body]
fn slice_link_and_transport(data: &[u8]) -> (r: Option<(LinkLayer, TransportLayer)>)
    ensures
        (r is Some) == (sliced_frame(data@) is Some),
        r matches Some(ends) ==> ends.0 == sliced_frame(data@)->0.link && ends.1 == sliced_frame(
            data@,
        )->0.transport,
        data@.len() < 14 ==> r is None,
        r matches Some(ends) ==> ends.0 == LinkLayer::Ethernet2(
            mac_of(data@.subrange(6, 12)),
            mac_of(data@.subrange(0, 6)),
            be16(data@, 12),
        ),
        r matches Some(ends) ==> be16(data@, 12) == 0x0800 && data@[23] != 51 && !is_v4_fragment(
            data@,
        ) ==> ends.1 == transport_at(data@[23], data@, v4_payload_at(data@)),
        r matches Some(ends) ==> be16(data@, 12) == 0x0800 && is_v4_fragment(data@) ==> ends.1
            == TransportLayer::Absent,
        r matches Some(ends) ==> be16(data@, 12) == 0x86dd && !is_v6_extension(data@[20]) ==> ends.1
            == transport_at(data@[20], data@, 54),
        has_vlan_tag(data@) ==> (r matches Some(ends) ==> ends.1 == sliced_frame(
            untagged(data@),
        )->0.transport),
{
    let packet = SlicedPacket::from_ethernet(data).ok()?;
    let link = match &packet.link {
        Some(LinkSlice::Ethernet2(e)) => LinkLayer::Ethernet2(Mac(e.source()), Mac(e.destination()), e.ether_type().0),
        _ => LinkLayer::Other,
    };
    let transport = match &packet.transport {
        Some(TransportSlice::Tcp(t)) => TransportLayer::Tcp(t.source_port(), t.destination_port()),
        Some(TransportSlice::Udp(u)) => TransportLayer::Udp(u.source_port(), u.destination_port()),
        Some(TransportSlice::Icmpv4(_)) => TransportLayer::Icmpv4,
        Some(TransportSlice::Icmpv6(_)) => TransportLayer::Icmpv6,
        None => TransportLayer::Absent,
    };
    Some((link, transport))
}

/// `etherparse::SlicedPacket::from_ethernet`, its network field.
///
/// The network layer is that of `sliced_frame`. Where no VLAN tag or MACsec
/// header stands between: an IPv4 or IPv6 EtherType gives the addresses that
/// follow at their fixed places, and the protocol number at its place unless
/// an authentication header (51) follows in IPv4 or an extension header in
/// IPv6; an ARP EtherType succeeds where both address pairs fit and gives the
/// sender's; any other EtherType gives no network layer. A frame with one VLAN
/// tag succeeds where the frame without it does, and has its network layer.
#[verifier::external_body]
fn slice_net(data: &[u8]) -> (r: Option<NetLayer>)
    ensures
        (r is Some) == (sliced_frame(data@) is Some),
        r matches Some(net) ==> net@ == sliced_frame(data@)->0.net,
        data@.len() < 14 ==> r is None,
        r matches Some(net) ==> be16(data@, 12) == 0x0800 ==> data@.len() >= 34
            && net is Ipv4 && net->Ipv4_0@ == data@.subrange(26, 30) && net->Ipv4_1@
            == data@.subrange(30, 34) && (data@[23] != 51 ==> net->Ipv4_2 == data@[23]),
        r matches Some(net) ==> be16(data@, 12) == 0x86dd ==> data@.len() >= 54
            && net is Ipv6 && net->Ipv6_0@ == data@.subrange(22, 38) && net->Ipv6_1@
            == data@.subrange(38, 54) && (!is_v6_extension(data@[20]) ==> net->Ipv6_2
            == data@[20]),
        data@.len() >= 14 && be16(data@, 12) == 0x0806 ==> ((r is Some) == arp_fits(data@)),
        r matches Some(net) ==> be16(data@, 12) == 0x0806 ==> net@ == NetLayerView::Arp(
            arp_sender_hw(data@),
            arp_sender_protocol(data@),
        ),
        data@.len() >= 14 && !is_link_extension(be16(data@, 12)) && !is_read_network(
            be16(data@, 12),
        ) ==> r == Some(NetLayer::Absent),
        has_vlan_tag(data@) ==> ((r is Some) == (sliced_frame(untagged(data@)) is Some)),
        has_vlan_tag(data@) ==> (r matches Some(net) ==> net@ == sliced_frame(
            untagged(data@),
        )->0.net),
{
    let packet = SlicedPacket::from_ethernet(data).ok()?;
    Some(match &packet.net {
        Some(NetSlice::Ipv4(ip)) => NetLayer::Ipv4(
            ip.header().source(), ip.header().destination(), ip.payload_ip_number().0),
        Some(NetSlice::Ipv6(ip)) => NetLayer::Ipv6(
            ip.header().source(), ip.header().destination(), ip.payload().ip_number.0),
        Some(NetSlice::Arp(arp)) => NetLayer::Arp(
            arp.sender_hw_addr().to_vec(), arp.sender_protocol_addr().to_vec()),
        None => NetLayer::Absent,
    })
}

/// An untagged ARP frame holds the eight fixed bytes and both address pairs
/// at the lengths that it declares.
pub open spec fn arp_fits(data: Seq<u8>) -> bool {
    data.len() >= 22 && data.len() >= 22 + 2 * data[18] + 2 * data[19]
}

/// Sender hardware address of an untagged ARP frame.
pub open spec fn arp_sender_hw(data: Seq<u8>) -> Seq<u8> {
    data.subrange(22, 22 + data[18])
}

/// Sender protocol address of an untagged ARP frame.
pub open spec fn arp_sender_protocol(data: Seq<u8>) -> Seq<u8> {
    data.subrange(22 + data[18], 22 + data[18] + data[19])
}

/// The application that a port tells, over TCP or UDP.
pub open spec fn well_known(tcp: bool, port: u16) -> Option<Seq<char>> {
    if port == 53 {
        Some("DNS"@)
    } else if tcp {
        if port == 80 || port == 8080 || port == 8000 {
            Some("HTTP"@)
        } else if port == 443 || port == 8443 {
            Some("HTTPS"@)
        } else if port == 22 {
            Some("SSH"@)
        } else if port == 21 {
            Some("FTP"@)
        } else if port == 23 {
            Some("Telnet"@)
        } else if port == 25 || port == 465 || port == 587 {
            Some("SMTP"@)
        } else if port == 110 || port == 995 {
            Some("POP3"@)
        } else if port == 143 || port == 993 {
            Some("IMAP"@)
        } else if port == 139 || port == 445 {
            Some("SMB"@)
        } else if port == 3389 {
            Some("RDP"@)
        } else {
            None
        }
    } else {
        if port == 443 {
            Some("QUIC"@)
        } else if port == 67 || port == 68 {
            Some("DHCP"@)
        } else if port == 546 || port == 547 {
            Some("DHCPv6"@)
        } else if port == 123 {
            Some("NTP"@)
        } else if port == 5353 {
            Some("mDNS"@)
        } else if port == 5355 {
            Some("LLMNR"@)
        } else if port == 1900 {
            Some("SSDP"@)
        } else if port == 137 || port == 138 {
            Some("NetBIOS"@)
        } else if port == 514 {
            Some("Syslog"@)
        } else if port == 161 || port == 162 {
            Some("SNMP"@)
        } else if port == 500 || port == 4500 {
            Some("IPsec-IKE"@)
        } else if port == 51820 {
            Some("WireGuard"@)
        } else {
            None
        }
    }
}

/// The application of a segment: the destination port tells first, then the
/// source port; otherwise the transport itself.
pub open spec fn app_of(tcp: bool, sport: u16, dport: u16) -> ProtoView {
    match well_known(tcp, dport) {
        Some(name) => ProtoView::Named(name),
        None => match well_known(tcp, sport) {
            Some(name) => ProtoView::Named(name),
            None => ProtoView::Named(
                if tcp {
                    "TCP"@
                } else {
                    "UDP"@
                },
            ),
        },
    }
}

/// The tag of an IP protocol number whose transport header was not read.
pub open spec fn ip_number_of(number: u8) -> ProtoView {
    if number == 2 {
        ProtoView::Named("IGMP"@)
    } else if number == 6 {
        ProtoView::Named("TCP"@)
    } else if number == 17 {
        ProtoView::Named("UDP"@)
    } else if number == 50 {
        ProtoView::Named("ESP"@)
    } else if number == 58 {
        ProtoView::Named("ICMPv6"@)
    } else if number == 132 {
        ProtoView::Named("SCTP"@)
    } else {
        ProtoView::Ip(number)
    }
}

/// The tag of an IP packet: the application, the transport or the number.
pub open spec fn l4_of(transport: TransportLayer, ip_number: u8) -> ProtoView {
    match transport {
        TransportLayer::Tcp(sport, dport) => app_of(true, sport, dport),
        TransportLayer::Udp(sport, dport) => app_of(false, sport, dport),
        TransportLayer::Icmpv4 => ProtoView::Named("ICMP"@),
        TransportLayer::Icmpv6 => ProtoView::Named("ICMPv6"@),
        TransportLayer::Absent => ip_number_of(ip_number),
    }
}

/// The address pair that an ARP sender teaches: an IPv4 address other than
/// 0.0.0.0 and an Ethernet address.
pub open spec fn arp_pair_of(hw: Seq<u8>, protocol: Seq<u8>) -> Option<(IpAddr, Mac)> {
    if protocol.len() == 4 && hw.len() == 6 && protocol != seq![0u8, 0, 0, 0] {
        Some((v4_of(protocol), mac_of(hw)))
    } else {
        None
    }
}

/// The frame is Ethernet II: its header holds an EtherType, not a length.
pub open spec fn is_ethernet2(link: LinkLayer) -> bool {
    link is Ethernet2 && link->Ethernet2_2 > MAX_LENGTH
}

/// The metadata of a frame whose layers are `layers`, `None` where the link
/// is not Ethernet II.
pub open spec fn meta_of(layers: LayersView, wire_len: u32) -> Option<PacketMetaView> {
    if !is_ethernet2(layers.link) {
        None
    } else {
        Some(
            PacketMetaView {
                wire_len: wire_len as u64,
                src_mac: layers.link->Ethernet2_0,
                dst_mac: layers.link->Ethernet2_1,
                l2_proto: match layers.net {
                    NetLayerView::Ipv4(..) => ProtoView::Named("IPv4"@),
                    NetLayerView::Ipv6(..) => ProtoView::Named("IPv6"@),
                    NetLayerView::Arp(..) => ProtoView::Named("ARP"@),
                    NetLayerView::Absent => ProtoView::Ether(layers.link->Ethernet2_2),
                },
                l3: match layers.net {
                    NetLayerView::Ipv4(src, dst, number) => Some(
                        L3MetaView {
                            src: IpAddr::V4(src),
                            dst: IpAddr::V4(dst),
                            proto: l4_of(layers.transport, number),
                        },
                    ),
                    NetLayerView::Ipv6(src, dst, number) => Some(
                        L3MetaView {
                            src: IpAddr::V6(src),
                            dst: IpAddr::V6(dst),
                            proto: l4_of(layers.transport, number),
                        },
                    ),
                    NetLayerView::Arp(..) => None,
                    NetLayerView::Absent => None,
                },
                arp_pair: match layers.net {
                    NetLayerView::Arp(hw, protocol) => arp_pair_of(hw, protocol),
                    _ => None,
                },
            },
        )
    }
}

/// The view of an optional metadata value.
pub open spec fn meta_view(meta: Option<PacketMeta>) -> Option<PacketMetaView> {
    match meta {
        Some(m) => Some(m@),
        None => None,
    }
}

/// The application that a known port tells.
pub fn well_known_port(tcp: bool, port: u16) -> (r: Option<Proto>)
    ensures
        match well_known(tcp, port) {
            Some(name) => r matches Some(p) && p@ == ProtoView::Named(name),
            None => r is None,
        },
{
    let name = match (tcp, port) {
        (_, 53) => "DNS",
        (true, 80) => "HTTP",
        (true, 443) => "HTTPS",
        (false, 443) => "QUIC",
        (true, 22) => "SSH",
        (true, 21) => "FTP",
        (true, 23) => "Telnet",
        (true, 25) | (true, 465) | (true, 587) => "SMTP",
        (true, 110) | (true, 995) => "POP3",
        (true, 143) | (true, 993) => "IMAP",
        (false, 67) | (false, 68) => "DHCP",
        (false, 546) | (false, 547) => "DHCPv6",
        (false, 123) => "NTP",
        (false, 5353) => "mDNS",
        (false, 5355) => "LLMNR",
        (false, 1900) => "SSDP",
        (false, 137) | (false, 138) => "NetBIOS",
        (true, 139) | (true, 445) => "SMB",
        (true, 3389) => "RDP",
        (false, 514) => "Syslog",
        (false, 161) | (false, 162) => "SNMP",
        (false, 500) | (false, 4500) => "IPsec-IKE",
        (false, 51820) => "WireGuard",
        (true, 8080) | (true, 8000) => "HTTP",
        (true, 8443) => "HTTPS",
        _ => return None,
    };
    Some(Proto::Named(name))
}

/// The application of a segment, told by its ports.
pub fn app_proto(tcp: bool, sport: u16, dport: u16) -> (r: Proto)
    ensures
        r@ == app_of(tcp, sport, dport),
{
    if let Some(proto) = well_known_port(tcp, dport) {
        return proto;
    }
    if let Some(proto) = well_known_port(tcp, sport) {
        return proto;
    }
    Proto::Named(
        if tcp {
            "TCP"
        } else {
            "UDP"
        },
    )
}

/// The tag of an IP packet, refined to the application where ports tell it.
pub fn l4_proto(transport: &TransportLayer, ip_number: u8) -> (r: Proto)
    ensures
        r@ == l4_of(*transport, ip_number),
{
    match transport {
        TransportLayer::Tcp(sport, dport) => app_proto(true, *sport, *dport),
        TransportLayer::Udp(sport, dport) => app_proto(false, *sport, *dport),
        TransportLayer::Icmpv4 => Proto::Named("ICMP"),
        TransportLayer::Icmpv6 => Proto::Named("ICMPv6"),
        TransportLayer::Absent => match ip_number {
            2 => Proto::Named("IGMP"),
            6 => Proto::Named("TCP"),
            17 => Proto::Named("UDP"),
            50 => Proto::Named("ESP"),
            58 => Proto::Named("ICMPv6"),
            132 => Proto::Named("SCTP"),
            other => Proto::Ip(other),
        },
    }
}

/// The address pair that an ARP sender teaches.
fn learn_pair(hw: &Vec<u8>, protocol: &Vec<u8>) -> (r: Option<(IpAddr, Mac)>)
    ensures
        r == arp_pair_of(hw@, protocol@),
{
    if protocol.len() != 4 || hw.len() != 6 {
        return None;
    }
    if protocol[0] == 0 && protocol[1] == 0 && protocol[2] == 0 && protocol[3] == 0 {
        assert(protocol@ =~= seq![0u8, 0, 0, 0]);
        return None;
    }
    assert(protocol@ != seq![0u8, 0, 0, 0]);
    Some(
        (
            IpAddr::V4([protocol[0], protocol[1], protocol[2], protocol[3]]),
            Mac([hw[0], hw[1], hw[2], hw[3], hw[4], hw[5]]),
        ),
    )
}

/// The metadata of a frame whose layers are known, `None` where the link is
/// not Ethernet II.
pub fn frame_meta(layers: &Layers, wire_len: u32) -> (r: Option<PacketMeta>)
    ensures
        meta_view(r) == meta_of(layers@, wire_len),
{
    let (src_mac, dst_mac, ether_type) = match layers.link {
        LinkLayer::Ethernet2(src, dst, ether_type) => (src, dst, ether_type),
        LinkLayer::Other => return None,
    };
    if ether_type <= MAX_LENGTH {
        return None;
    }
    let mut l2_proto = Proto::Ether(ether_type);
    let mut l3: Option<L3Meta> = None;
    let mut arp_pair: Option<(IpAddr, Mac)> = None;
    match &layers.net {
        NetLayer::Ipv4(src, dst, number) => {
            l2_proto = Proto::Named("IPv4");
            l3 = Some(
                L3Meta {
                    src: IpAddr::V4(*src),
                    dst: IpAddr::V4(*dst),
                    proto: l4_proto(&layers.transport, *number),
                },
            );
        },
        NetLayer::Ipv6(src, dst, number) => {
            l2_proto = Proto::Named("IPv6");
            l3 = Some(
                L3Meta {
                    src: IpAddr::V6(*src),
                    dst: IpAddr::V6(*dst),
                    proto: l4_proto(&layers.transport, *number),
                },
            );
        },
        NetLayer::Arp(hw, protocol) => {
            l2_proto = Proto::Named("ARP");
            arp_pair = learn_pair(hw, protocol);
        },
        NetLayer::Absent => {},
    }
    Some(
        PacketMeta {
            wire_len: wire_len as u64,
            src_mac,
            dst_mac,
            l2_proto,
            l3,
            arp_pair,
        },
    )
}

/// Decodes an Ethernet frame, `None` where it cannot be used: it cannot be
/// read, or it is not Ethernet II.
pub fn parse_frame(data: &[u8], wire_len: u32) -> (r: Option<PacketMeta>)
    ensures
        meta_view(r) == (match sliced_frame(data@) {
            Some(layers) => meta_of(layers, wire_len),
            None => None,
        }),
        (r is Some) == (sliced_frame(data@) is Some && be16(data@, 12) > MAX_LENGTH),
        data@.len() < 14 ==> r is None,
        data@.len() >= 14 && be16(data@, 12) <= MAX_LENGTH ==> r is None,
        r matches Some(m) ==> m.wire_len == wire_len && m.src_mac@ == data@.subrange(6, 12)
            && m.dst_mac@ == data@.subrange(0, 6),
        r matches Some(m) ==> be16(data@, 12) == 0x0800 ==> m.l2_proto@ == ProtoView::Named("IPv4"@)
            && m.l3 is Some && m.l3->0.src == v4_of(data@.subrange(26, 30)) && m.l3->0.dst == v4_of(
            data@.subrange(30, 34),
        ),
        r matches Some(m) ==> be16(data@, 12) == 0x86dd ==> m.l2_proto@ == ProtoView::Named("IPv6"@)
            && m.l3 is Some && m.l3->0.src == v6_of(data@.subrange(22, 38)) && m.l3->0.dst == v6_of(
            data@.subrange(38, 54),
        ),
        r matches Some(m) ==> be16(data@, 12) == 0x0800 && data@[23] != 51 ==> m.l3->0.proto@ == (
        if is_v4_fragment(data@) {
            ip_number_of(data@[23])
        } else {
            l4_of(transport_at(data@[23], data@, v4_payload_at(data@)), data@[23])
        }),
        r matches Some(m) ==> be16(data@, 12) == 0x86dd && !is_v6_extension(data@[20])
            ==> m.l3->0.proto@ == l4_of(transport_at(data@[20], data@, 54), data@[20]),
        data@.len() >= 14 && be16(data@, 12) == 0x0806 ==> meta_view(r) == (if arp_fits(data@) {
            Some(
                PacketMetaView {
                    wire_len: wire_len as u64,
                    src_mac: mac_of(data@.subrange(6, 12)),
                    dst_mac: mac_of(data@.subrange(0, 6)),
                    l2_proto: ProtoView::Named("ARP"@),
                    l3: None,
                    arp_pair: arp_pair_of(arp_sender_hw(data@), arp_sender_protocol(data@)),
                },
            )
        } else {
            None
        }),
        data@.len() >= 14 && be16(data@, 12) > MAX_LENGTH && !is_link_extension(be16(data@, 12))
            && !is_read_network(be16(data@, 12)) ==> meta_view(r) == Some(
            PacketMetaView {
                wire_len: wire_len as u64,
                src_mac: mac_of(data@.subrange(6, 12)),
                dst_mac: mac_of(data@.subrange(0, 6)),
                l2_proto: ProtoView::Ether(be16(data@, 12)),
                l3: None,
                arp_pair: None,
            },
        ),
        has_vlan_tag(data@) ==> meta_view(r) == (match sliced_frame(untagged(data@)) {
            Some(inner) => meta_of(
                LayersView {
                    link: LinkLayer::Ethernet2(
                        mac_of(data@.subrange(6, 12)),
                        mac_of(data@.subrange(0, 6)),
                        be16(data@, 12),
                    ),
                    ..inner
                },
                wire_len,
            ),
            None => None,
        }),
{
    let net = match slice_net(data) {
        Some(net) => net,
        None => return None,
    };
    let (link, transport) = match slice_link_and_transport(data) {
        Some(ends) => ends,
        None => return None,
    };
    let layers = Layers { link, net, transport };
    proof {
        match layers.net {
            NetLayer::Ipv4(src, dst, _) => {
                lemma_v4_of(src);
                lemma_v4_of(dst);
            },
            NetLayer::Ipv6(src, dst, _) => {
                lemma_v6_of(src);
                lemma_v6_of(dst);
            },
            _ => {},
        }
    }
    frame_meta(&layers, wire_len)
}

/// The written form of an Ethernet address.
pub open spec fn mac_text(mac: Mac) -> Seq<char> {
    crate::text::colon_hex(mac@)
}

/// The written form of a protocol tag.
pub open spec fn proto_text(proto: ProtoView) -> Seq<char> {
    match proto {
        ProtoView::Named(name) => name,
        ProtoView::Ether(v) => "ethertype-0x"@ + crate::text::hex4(v),
        ProtoView::Ip(v) => "ipproto-"@ + crate::text::decimal(v as nat),
    }
}

impl Mac {
    /// Six pairs of hexadecimal digits with colons between.
    pub fn to_text(&self) -> (r: String)
        ensures
            r@ == mac_text(*self),
    {
        let mut out = String::new();
        push_colon_hex(&mut out, self.0.as_slice());
        assert(out@ =~= mac_text(*self));
        out
    }
}

impl Proto {
    /// The name, or the number behind its kind.
    pub fn to_text(&self) -> (r: String)
        ensures
            r@ == proto_text(self@),
    {
        match self {
            Proto::Named(name) => (*name).to_string(),
            Proto::Ether(v) => {
                let mut out = "ethertype-0x".to_string();
                push_hex4(&mut out, *v);
                out
            },
            Proto::Ip(v) => {
                let mut out = "ipproto-".to_string();
                push_decimal(&mut out, *v as u64);
                out
            },
        }
    }

    /// Whether two tags are the same.
    pub fn same(&self, other: &Proto) -> (r: bool)
        ensures
            r == (self@ == other@),
    {
        match (self, other) {
            (Proto::Named(a), Proto::Named(b)) => same_text(a, b),
            (Proto::Ether(a), Proto::Ether(b)) => *a == *b,
            (Proto::Ip(a), Proto::Ip(b)) => *a == *b,
            _ => false,
        }
    }
}

/// Two addresses that are written alike are equal.
pub proof fn law_mac_text_injective(a: Mac, b: Mac)
    requires
        mac_text(a) == mac_text(b),
    ensures
        a == b,
{
    crate::text::lemma_colon_hex_injective(a@, b@);
    assert(a.0 =~= b.0);
}

/// A written Ethernet address holds hexadecimal digits and colons alone.
pub proof fn lemma_mac_text_chars(mac: Mac)
    ensures
        forall|i: int| 0 <= i < mac_text(mac).len() ==> #[trigger] mac_text(mac)[i] != '|',
{
    crate::text::lemma_colon_hex_chars(mac@);
}

/// A written Ethernet address takes seventeen characters.
pub proof fn law_mac_text_len(mac: Mac)
    ensures
        mac_text(mac).len() == 17,
{
    crate::text::lemma_colon_hex_len(mac@);
}

/// A frame that carries ARP feeds no network-layer conversation, and only a
/// frame that carries ARP teaches an address pair.
pub proof fn law_arp_stays_in_layer_two(layers: LayersView, wire_len: u32)
    ensures
        layers.net is Arp ==> (meta_of(layers, wire_len) matches Some(m) ==> m.l3 is None),
        meta_of(layers, wire_len) matches Some(m) ==> m.arp_pair is Some ==> layers.net is Arp,
        meta_of(layers, wire_len) matches Some(m) ==> ((m.l3 is Some) == (layers.net is Ipv4
            || layers.net is Ipv6)),
{
}

/// The EtherType of the header, which a VLAN tag replaces, changes nothing but
/// the tag of a frame without a known network layer.
pub proof fn law_tag_changes_no_layer(
    layers: LayersView,
    src: Mac,
    dst: Mac,
    a: u16,
    b: u16,
    wire_len: u32,
)
    requires
        a > MAX_LENGTH,
        b > MAX_LENGTH,
    ensures
        ({
            let x = meta_of(
                LayersView { link: LinkLayer::Ethernet2(src, dst, a), ..layers },
                wire_len,
            );
            let y = meta_of(
                LayersView { link: LinkLayer::Ethernet2(src, dst, b), ..layers },
                wire_len,
            );
            &&& x is Some && y is Some
            &&& x->0.l3 == y->0.l3
            &&& x->0.arp_pair == y->0.arp_pair
            &&& layers.net !is Absent ==> x == y
        }),
{
}

/// A frame whose header holds a length gives nothing, whatever stands behind
/// it.
pub proof fn law_length_frames_give_nothing(layers: LayersView, wire_len: u32)
    ensures
        (meta_of(layers, wire_len) is Some) == is_ethernet2(layers.link),
{
}

/// The two directions of one conversation carry the same application exactly
/// where the two ports do not tell different ones.
pub proof fn law_app_of_both_directions(tcp: bool, sport: u16, dport: u16)
    ensures
        app_of(tcp, sport, dport) == app_of(tcp, dport, sport) <==> (well_known(tcp, sport) is None
            || well_known(tcp, dport) is None || well_known(tcp, sport) == well_known(tcp, dport)),
{
}

/// The ports that tell an application over TCP, each with its name. No other
/// port tells one.
pub proof fn law_tcp_ports(port: u16)
    ensures
        well_known(true, 21) == Some("FTP"@),
        well_known(true, 22) == Some("SSH"@),
        well_known(true, 23) == Some("Telnet"@),
        well_known(true, 25) == Some("SMTP"@),
        well_known(true, 53) == Some("DNS"@),
        well_known(true, 80) == Some("HTTP"@),
        well_known(true, 110) == Some("POP3"@),
        well_known(true, 139) == Some("SMB"@),
        well_known(true, 143) == Some("IMAP"@),
        well_known(true, 443) == Some("HTTPS"@),
        well_known(true, 445) == Some("SMB"@),
        well_known(true, 465) == Some("SMTP"@),
        well_known(true, 587) == Some("SMTP"@),
        well_known(true, 993) == Some("IMAP"@),
        well_known(true, 995) == Some("POP3"@),
        well_known(true, 3389) == Some("RDP"@),
        well_known(true, 8000) == Some("HTTP"@),
        well_known(true, 8080) == Some("HTTP"@),
        well_known(true, 8443) == Some("HTTPS"@),
        well_known(true, port) is Some <==> (port == 21 || port == 22 || port == 23 || port == 25 || port == 53 || port == 80 || port
            == 110 || port == 139 || port == 143 || port == 443 || port == 445 || port == 465 ||
            port == 587 || port == 993 || port == 995 || port == 3389 || port == 8000 || port ==
            8080 || port == 8443),
{
}

/// The ports that tell an application over UDP, each with its name. No other
/// port tells one.
pub proof fn law_udp_ports(port: u16)
    ensures
        well_known(false, 53) == Some("DNS"@),
        well_known(false, 67) == Some("DHCP"@),
        well_known(false, 68) == Some("DHCP"@),
        well_known(false, 123) == Some("NTP"@),
        well_known(false, 137) == Some("NetBIOS"@),
        well_known(false, 138) == Some("NetBIOS"@),
        well_known(false, 161) == Some("SNMP"@),
        well_known(false, 162) == Some("SNMP"@),
        well_known(false, 443) == Some("QUIC"@),
        well_known(false, 500) == Some("IPsec-IKE"@),
        well_known(false, 514) == Some("Syslog"@),
        well_known(false, 546) == Some("DHCPv6"@),
        well_known(false, 547) == Some("DHCPv6"@),
        well_known(false, 1900) == Some("SSDP"@),
        well_known(false, 4500) == Some("IPsec-IKE"@),
        well_known(false, 5353) == Some("mDNS"@),
        well_known(false, 5355) == Some("LLMNR"@),
        well_known(false, 51820) == Some("WireGuard"@),
        well_known(false, port) is Some <==> (port == 53 || port == 67 || port == 68 || port == 123 || port == 137 || port == 138 ||
            port == 161 || port == 162 || port == 443 || port == 500 || port == 514 || port == 546
            || port == 547 || port == 1900 || port == 4500 || port == 5353 || port == 5355 || port
            == 51820),
{
}

/// A segment to a known port carries the application of that port, whatever
/// port it comes from.
pub proof fn law_destination_tells_application(sport: u16)
    ensures
        app_of(true, sport, 21) == ProtoView::Named("FTP"@),
        app_of(true, sport, 22) == ProtoView::Named("SSH"@),
        app_of(true, sport, 23) == ProtoView::Named("Telnet"@),
        app_of(true, sport, 25) == ProtoView::Named("SMTP"@),
        app_of(true, sport, 53) == ProtoView::Named("DNS"@),
        app_of(true, sport, 80) == ProtoView::Named("HTTP"@),
        app_of(true, sport, 110) == ProtoView::Named("POP3"@),
        app_of(true, sport, 139) == ProtoView::Named("SMB"@),
        app_of(true, sport, 143) == ProtoView::Named("IMAP"@),
        app_of(true, sport, 443) == ProtoView::Named("HTTPS"@),
        app_of(true, sport, 445) == ProtoView::Named("SMB"@),
        app_of(true, sport, 465) == ProtoView::Named("SMTP"@),
        app_of(true, sport, 587) == ProtoView::Named("SMTP"@),
        app_of(true, sport, 993) == ProtoView::Named("IMAP"@),
        app_of(true, sport, 995) == ProtoView::Named("POP3"@),
        app_of(true, sport, 3389) == ProtoView::Named("RDP"@),
        app_of(true, sport, 8000) == ProtoView::Named("HTTP"@),
        app_of(true, sport, 8080) == ProtoView::Named("HTTP"@),
        app_of(true, sport, 8443) == ProtoView::Named("HTTPS"@),
        app_of(false, sport, 53) == ProtoView::Named("DNS"@),
        app_of(false, sport, 67) == ProtoView::Named("DHCP"@),
        app_of(false, sport, 68) == ProtoView::Named("DHCP"@),
        app_of(false, sport, 123) == ProtoView::Named("NTP"@),
        app_of(false, sport, 137) == ProtoView::Named("NetBIOS"@),
        app_of(false, sport, 138) == ProtoView::Named("NetBIOS"@),
        app_of(false, sport, 161) == ProtoView::Named("SNMP"@),
        app_of(false, sport, 162) == ProtoView::Named("SNMP"@),
        app_of(false, sport, 443) == ProtoView::Named("QUIC"@),
        app_of(false, sport, 500) == ProtoView::Named("IPsec-IKE"@),
        app_of(false, sport, 514) == ProtoView::Named("Syslog"@),
        app_of(false, sport, 546) == ProtoView::Named("DHCPv6"@),
        app_of(false, sport, 547) == ProtoView::Named("DHCPv6"@),
        app_of(false, sport, 1900) == ProtoView::Named("SSDP"@),
        app_of(false, sport, 4500) == ProtoView::Named("IPsec-IKE"@),
        app_of(false, sport, 5353) == ProtoView::Named("mDNS"@),
        app_of(false, sport, 5355) == ProtoView::Named("LLMNR"@),
        app_of(false, sport, 51820) == ProtoView::Named("WireGuard"@),
{
}

/// A segment between a port that tells an application and one that tells none
/// carries that application, in either direction. Between two ports that tell
/// none it is tagged with its transport, and with a known destination the
/// source has no say.
pub proof fn law_ports_and_applications(tcp: bool, known: u16, other: u16, third: u16)
    requires
        well_known(tcp, known) is Some,
        well_known(tcp, other) is None,
        well_known(tcp, third) is None,
    ensures
        app_of(tcp, known, other) == ProtoView::Named(well_known(tcp, known)->0),
        app_of(tcp, other, known) == ProtoView::Named(well_known(tcp, known)->0),
        forall|sport: u16| #[trigger] app_of(tcp, sport, known) == app_of(tcp, other, known),
        tcp ==> app_of(tcp, other, third) == ProtoView::Named("TCP"@),
        !tcp ==> app_of(tcp, other, third) == ProtoView::Named("UDP"@),
{
}

/// The protocol numbers that have a name without a transport header, and how
/// the others are tagged.
pub proof fn law_protocol_numbers(number: u8)
    ensures
        l4_of(TransportLayer::Absent, 2) == ProtoView::Named("IGMP"@),
        l4_of(TransportLayer::Absent, 6) == ProtoView::Named("TCP"@),
        l4_of(TransportLayer::Absent, 17) == ProtoView::Named("UDP"@),
        l4_of(TransportLayer::Absent, 50) == ProtoView::Named("ESP"@),
        l4_of(TransportLayer::Absent, 58) == ProtoView::Named("ICMPv6"@),
        l4_of(TransportLayer::Absent, 132) == ProtoView::Named("SCTP"@),
        l4_of(TransportLayer::Absent, number) is Named <==> (number == 2 || number == 6 || number
            == 17 || number == 50 || number == 58 || number == 132),
        l4_of(TransportLayer::Absent, number) !is Named ==> l4_of(TransportLayer::Absent, number)
            == ProtoView::Ip(number),
        ip_number_of(number) == l4_of(TransportLayer::Absent, number),
{
}

/// A transport header tells more than the protocol number: the ports tell the
/// application, source and destination each in its role.
pub proof fn law_transport_tells_protocol(sport: u16, dport: u16, number: u8)
    ensures
        l4_of(TransportLayer::Tcp(sport, dport), number) == app_of(true, sport, dport),
        l4_of(TransportLayer::Udp(sport, dport), number) == app_of(false, sport, dport),
        l4_of(TransportLayer::Icmpv4, number) == ProtoView::Named("ICMP"@),
        l4_of(TransportLayer::Icmpv6, number) == ProtoView::Named("ICMPv6"@),
{
}

/// What is read of a frame: its length, both addresses of its header, the name
/// of its network layer or else its EtherType, and both IP addresses with the
/// protocol of the packet. Numbers up to 1500 are lengths, not EtherTypes.
pub proof fn law_frame_fields(layers: Layers, wire_len: u32)
    ensures
        layers.link is Other ==> meta_of(layers@, wire_len) is None,
        layers.link matches LinkLayer::Ethernet2(src, dst, number) ==> match meta_of(
            layers@,
            wire_len,
        ) {
            None => number <= 1500,
            Some(m) => {
                &&& number >= 1501
                &&& m.wire_len == wire_len
                &&& m.src_mac == src
                &&& m.dst_mac == dst
                &&& match layers.net {
                    NetLayer::Ipv4(a, b, n) => {
                        &&& m.l2_proto == ProtoView::Named("IPv4"@)
                        &&& m.l3 == Some(
                            L3MetaView {
                                src: IpAddr::V4(a),
                                dst: IpAddr::V4(b),
                                proto: l4_of(layers.transport, n),
                            },
                        )
                        &&& m.arp_pair is None
                    },
                    NetLayer::Ipv6(a, b, n) => {
                        &&& m.l2_proto == ProtoView::Named("IPv6"@)
                        &&& m.l3 == Some(
                            L3MetaView {
                                src: IpAddr::V6(a),
                                dst: IpAddr::V6(b),
                                proto: l4_of(layers.transport, n),
                            },
                        )
                        &&& m.arp_pair is None
                    },
                    NetLayer::Arp(hw, protocol) => {
                        &&& m.l2_proto == ProtoView::Named("ARP"@)
                        &&& m.l3 is None
                        &&& m.arp_pair == arp_pair_of(hw@, protocol@)
                    },
                    NetLayer::Absent => {
                        &&& m.l2_proto == ProtoView::Ether(number)
                        &&& m.l3 is None
                        &&& m.arp_pair is None
                    },
                }
            },
        },
{
}

/// A value and its view hold the same: no field of the metadata is changed or
/// left out.
pub proof fn law_metadata_views(meta: PacketMeta, name: &'static str, ether: u16, number: u8)
    ensures
        meta@.wire_len == meta.wire_len,
        meta@.src_mac == meta.src_mac,
        meta@.dst_mac == meta.dst_mac,
        meta@.l2_proto == meta.l2_proto@,
        meta@.arp_pair == meta.arp_pair,
        meta@.l3 is Some == meta.l3 is Some,
        meta.l3 matches Some(l3) ==> meta@.l3->0.src == l3.src && meta@.l3->0.dst == l3.dst
            && meta@.l3->0.proto == l3.proto@,
        Proto::Named(name)@ == ProtoView::Named(name@),
        Proto::Ether(ether)@ == ProtoView::Ether(ether),
        Proto::Ip(number)@ == ProtoView::Ip(number),
{
}

/// ARP teaches a pair where the sender has an Ethernet address of six bytes
/// and an IPv4 address of four, not all zero; it teaches these bytes.
pub proof fn law_arp_teaches(hw: Seq<u8>, protocol: Seq<u8>)
    ensures
        arp_pair_of(hw, protocol) is Some <==> (hw.len() == 6 && protocol.len() == 4 && exists|
            i: int,
        |
            0 <= i < 4 && #[trigger] protocol[i] != 0),
        arp_pair_of(hw, protocol) matches Some((ip, mac)) ==> mac@ == hw && ip is V4
            && ip->V4_0@ == protocol,
{
    let zeros = seq![0u8, 0, 0, 0];
    if protocol.len() == 4 {
        if protocol != zeros {
            if protocol[0] == 0 && protocol[1] == 0 && protocol[2] == 0 && protocol[3] == 0 {
                assert(protocol =~= zeros);
            }
            assert(protocol[0] != 0 || protocol[1] != 0 || protocol[2] != 0 || protocol[3] != 0);
        } else {
            assert forall|i: int| 0 <= i < 4 implies #[trigger] protocol[i] == 0 by {}
        }
    }
    if arp_pair_of(hw, protocol) is Some {
        let (ip, mac) = arp_pair_of(hw, protocol)->0;
        assert(mac@ =~= hw);
        assert(ip->V4_0@ =~= protocol);
    }
}

/// The first of two bytes counts 256 times.
pub proof fn law_two_bytes(data: Seq<u8>, i: int)
    ensures
        be16(data, i) as int == 256 * data[i] + data[i + 1],
{
}

/// The bytes of an address are the bytes that write it, in order.
pub proof fn law_addresses_keep_bytes(s: Seq<u8>)
    ensures
        s.len() == 4 ==> v4_of(s) is V4 && v4_of(s)->V4_0@ == s,
        s.len() == 16 ==> v6_of(s) is V6 && v6_of(s)->V6_0@ == s,
        s.len() == 6 ==> mac_of(s)@ == s,
{
    if s.len() == 4 {
        assert(v4_of(s)->V4_0@ =~= s);
    }
    if s.len() == 16 {
        assert(v6_of(s)->V6_0@ =~= s);
    }
    if s.len() == 6 {
        assert(mac_of(s)@ =~= s);
    }
}

/// Every byte of an Ethernet address stands in its written form, as two
/// digits, with a colon before each byte but the first.
pub proof fn law_mac_text_places(mac: Mac, i: int)
    requires
        0 <= i < 6,
    ensures
        mac_text(mac).len() == 17,
        mac_text(mac)[3 * i] == "0123456789abcdef"@[mac.0@[i] as int / 16],
        mac_text(mac)[3 * i + 1] == "0123456789abcdef"@[mac.0@[i] as int % 16],
        i > 0 ==> mac_text(mac)[3 * i - 1] == ':',
{
    crate::text::law_every_byte_is_written(mac@);
    assert(mac@[i] == mac.0@[i]);
}

/// A name is written as it is. An EtherType is written behind its kind with
/// four digits, a protocol number with as many as it takes.
pub proof fn law_proto_text_places(name: &'static str, ether: u16, number: u8)
    ensures
        proto_text(Proto::Named(name)@) == name@,
        proto_text(Proto::Ether(ether)@).len() == 16,
        proto_text(Proto::Ether(ether)@).take(12) == "ethertype-0x"@,
        proto_text(Proto::Ether(ether)@)[12] == "0123456789abcdef"@[ether as int / 4096],
        proto_text(Proto::Ether(ether)@)[13] == "0123456789abcdef"@[ether as int / 256 % 16],
        proto_text(Proto::Ether(ether)@)[14] == "0123456789abcdef"@[ether as int / 16 % 16],
        proto_text(Proto::Ether(ether)@)[15] == "0123456789abcdef"@[ether as int % 16],
        proto_text(Proto::Ip(number)@).take(8) == "ipproto-"@,
        crate::text::number_of(proto_text(Proto::Ip(number)@).skip(8), 10, 255) == Some(
            number as nat,
        ),
        proto_text(Proto::Ip(number)@).len() == 8 + (if number < 10 {
            1int
        } else if number < 100 {
            2
        } else {
            3
        }),
{
    reveal_strlit("ethertype-0x");
    reveal_strlit("ipproto-");
    crate::text::law_hex_halves(0, ether);
    crate::text::law_decimal_reads_back(number as nat, 255);
    reveal_with_fuel(crate::text::decimal, 3);
    let e = proto_text(Proto::Ether(ether)@);
    let n = proto_text(Proto::Ip(number)@);
    assert(e.take(12) =~= "ethertype-0x"@);
    assert(n.take(8) =~= "ipproto-"@);
    assert(n.skip(8) =~= crate::text::decimal(number as nat));
}

/// Where the parts of an untagged frame stand. An IPv4 packet is a fragment
/// where its flag for more or one of the thirteen bits of its offset is set;
/// its header has four bytes for each unit of its length. The sender of an ARP
/// packet over Ethernet and IPv4 stands behind eight fixed bytes.
pub proof fn law_places_in_frames(data: Seq<u8>)
    ensures
        is_v4_fragment(data) <==> (data[20] * 256 + data[21]) % 0x4000 != 0,
        v4_payload_at(data) == 14 + 4 * (data[14] % 16),
        data.len() >= 42 && data[18] == 6 && data[19] == 4 ==> {
            &&& arp_fits(data)
            &&& arp_sender_hw(data) == data.subrange(22, 28)
            &&& arp_sender_protocol(data) == data.subrange(28, 32)
        },
        22 <= data.len() < 42 && data[18] == 6 && data[19] == 4 ==> !arp_fits(data),
{
}

/// A transport header starts with its two ports, source first, for TCP (6) and
/// UDP (17); ICMP is told by 1 and 58, and no other number tells a transport.
pub proof fn law_transport_numbers(number: u8, data: Seq<u8>, at: int)
    ensures
        transport_at(6, data, at) matches TransportLayer::Tcp(source, target) && source == data[at]
            * 256 + data[at + 1] && target == data[at + 2] * 256 + data[at + 3],
        transport_at(17, data, at) matches TransportLayer::Udp(source, target) && source == data[at]
            * 256 + data[at + 1] && target == data[at + 2] * 256 + data[at + 3],
        transport_at(1, data, at) == TransportLayer::Icmpv4,
        transport_at(58, data, at) == TransportLayer::Icmpv6,
        number != 6 && number != 17 && number != 1 && number != 58 ==> transport_at(
            number,
            data,
            at,
        ) == TransportLayer::Absent,
{
}

/// Without its tag a frame lacks the four bytes behind its addresses.
pub proof fn law_untagged(data: Seq<u8>, i: int)
    requires
        data.len() >= 16,
    ensures
        untagged(data).len() == data.len() - 4,
        0 <= i < 12 ==> untagged(data)[i] == data[i],
        12 <= i < data.len() - 4 ==> untagged(data)[i] == data[i + 4],
{
}

} // verus!
