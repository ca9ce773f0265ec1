use etherparse::PacketBuilder;

use netman::model::packet::{
    app_proto, frame_meta, l4_proto, parse_frame, well_known_port, IpAddr, Layers, LinkLayer, Mac,
    NetLayer, Proto, TransportLayer,
};

const MAC_A: [u8; 6] = [0x02, 0x00, 0x00, 0x00, 0x00, 0x0a];
const MAC_B: [u8; 6] = [0x02, 0x00, 0x00, 0x00, 0x00, 0x0b];

fn v6(segments: [u16; 8]) -> [u8; 16] {
    let mut octets = [0u8; 16];
    for (i, s) in segments.iter().enumerate() {
        octets[2 * i] = (s >> 8) as u8;
        octets[2 * i + 1] = (s & 0xff) as u8;
    }
    octets
}

fn arp_frame(hw: &[u8], protocol: &[u8]) -> Vec<u8> {
    let mut frame = Vec::new();
    frame.extend_from_slice(&[0xff; 6]);
    frame.extend_from_slice(&MAC_A);
    frame.extend_from_slice(&[0x08, 0x06]);
    frame.extend_from_slice(&[0x00, 0x01]);
    frame.extend_from_slice(&[0x08, 0x00]);
    frame.extend_from_slice(&[hw.len() as u8, protocol.len() as u8]);
    frame.extend_from_slice(&[0x00, 0x01]);
    frame.extend_from_slice(hw);
    frame.extend_from_slice(protocol);
    frame.extend_from_slice(&vec![0u8; hw.len()]);
    frame.extend_from_slice(&vec![0u8; protocol.len()]);
    frame
}

#[test]
fn parse_ipv4_tcp_https() {
    let builder = PacketBuilder::ethernet2(MAC_A, MAC_B)
        .ipv4([192, 168, 0, 21], [93, 184, 216, 34], 64)
        .tcp(51234, 443, 1000, 64240);
    let mut frame = Vec::new();
    builder.write(&mut frame, &[1, 2, 3]).unwrap();

    let meta = parse_frame(&frame, frame.len() as u32).unwrap();
    assert_eq!(meta.src_mac, Mac(MAC_A));
    assert_eq!(meta.dst_mac, Mac(MAC_B));
    assert_eq!(meta.l2_proto, Proto::Named("IPv4"));
    let l3 = meta.l3.unwrap();
    assert_eq!(l3.src, IpAddr::V4([192, 168, 0, 21]));
    assert_eq!(l3.dst, IpAddr::V4([93, 184, 216, 34]));
    assert_eq!(l3.proto, Proto::Named("HTTPS"));
    assert!(meta.arp_pair.is_none());
}

#[test]
fn parse_ipv6_udp_mdns() {
    let src = v6([0xfe80, 0, 0, 0, 0, 0, 0, 1]);
    let dst = v6([0xff02, 0, 0, 0, 0, 0, 0, 0xfb]);
    let builder = PacketBuilder::ethernet2(MAC_A, MAC_B)
        .ipv6(src, dst, 255)
        .udp(5353, 5353);
    let mut frame = Vec::new();
    builder.write(&mut frame, &[0u8; 10]).unwrap();

    let meta = parse_frame(&frame, frame.len() as u32).unwrap();
    assert_eq!(meta.l2_proto, Proto::Named("IPv6"));
    let l3 = meta.l3.unwrap();
    assert_eq!(l3.src, IpAddr::V6(src));
    assert_eq!(l3.proto, Proto::Named("mDNS"));
}

#[test]
fn parse_arp_request() {
    let mut frame = Vec::new();
    frame.extend_from_slice(&[0xff; 6]); // destination: broadcast
    frame.extend_from_slice(&MAC_A); // source
    frame.extend_from_slice(&[0x08, 0x06]); // EtherType ARP
    frame.extend_from_slice(&[0x00, 0x01]); // hardware type: Ethernet
    frame.extend_from_slice(&[0x08, 0x00]); // protocol type: IPv4
    frame.extend_from_slice(&[6, 4]); // lengths
    frame.extend_from_slice(&[0x00, 0x01]); // request
    frame.extend_from_slice(&MAC_A); // sender hardware address
    frame.extend_from_slice(&[192, 168, 0, 21]); // sender address
    frame.extend_from_slice(&[0u8; 6]); // target hardware address
    frame.extend_from_slice(&[192, 168, 0, 1]); // target address

    let meta = parse_frame(&frame, frame.len() as u32).unwrap();
    assert_eq!(meta.l2_proto, Proto::Named("ARP"));
    assert!(meta.l3.is_none(), "ARP must not feed the L3 table");
    let (ip, mac) = meta.arp_pair.unwrap();
    assert_eq!(ip, IpAddr::V4([192, 168, 0, 21]));
    assert_eq!(mac, Mac(MAC_A));
}

#[test]
fn parse_vlan_tagged_ipv4() {
    let builder = PacketBuilder::ethernet2(MAC_A, MAC_B)
        .single_vlan(42.try_into().unwrap())
        .ipv4([10, 0, 0, 1], [10, 0, 0, 2], 64)
        .udp(12345, 53);
    let mut frame = Vec::new();
    builder.write(&mut frame, &[0u8; 4]).unwrap();

    let meta = parse_frame(&frame, frame.len() as u32).unwrap();
    assert_eq!(meta.l2_proto, Proto::Named("IPv4"));
    let l3 = meta.l3.unwrap();
    assert_eq!(l3.proto, Proto::Named("DNS"));
}

#[test]
fn parse_garbage_returns_none() {
    assert!(parse_frame(&[0u8; 5], 5).is_none());
}

#[test]
fn proto_display() {
    assert_eq!(Proto::Named("DNS").to_text(), "DNS");
    assert_eq!(Proto::Ether(0x88cc).to_text(), "ethertype-0x88cc");
    assert_eq!(Proto::Ip(89).to_text(), "ipproto-89");
    assert_eq!(Mac(MAC_A).to_text(), "02:00:00:00:00:0a");
}

#[test]
fn proto_text_pads_and_does_not_pad() {
    assert_eq!(Proto::Ether(0x0005).to_text(), "ethertype-0x0005");
    assert_eq!(Proto::Ip(0).to_text(), "ipproto-0");
    assert_eq!(Proto::Ip(255).to_text(), "ipproto-255");
    assert_eq!(Mac([0xff; 6]).to_text(), "ff:ff:ff:ff:ff:ff");
    assert_ne!(Mac(MAC_A).to_text(), Mac(MAC_B).to_text());
}

#[test]
fn frames_shorter_than_a_header_are_refused() {
    for len in 0..14 {
        assert!(parse_frame(&vec![0u8; len], len as u32).is_none());
    }
}

#[test]
fn unknown_ethertype_is_kept_as_a_number() {
    let mut frame = Vec::new();
    frame.extend_from_slice(&MAC_B);
    frame.extend_from_slice(&MAC_A);
    frame.extend_from_slice(&[0x88, 0xcc, 1, 2, 3]);
    let meta = parse_frame(&frame, 60).unwrap();
    assert_eq!(meta.wire_len, 60);
    assert_eq!(meta.src_mac, Mac(MAC_A));
    assert_eq!(meta.dst_mac, Mac(MAC_B));
    assert_eq!(meta.l2_proto, Proto::Ether(0x88cc));
    assert!(meta.l3.is_none());
    assert!(meta.arp_pair.is_none());
    // A bare header is enough.
    assert!(parse_frame(&frame[..14], 14).is_some());
}

#[test]
fn arp_teaches_only_full_ethernet_and_ipv4_pairs() {
    let probe = arp_frame(&MAC_A, &[0, 0, 0, 0]);
    let meta = parse_frame(&probe, 42).unwrap();
    assert_eq!(meta.l2_proto, Proto::Named("ARP"));
    assert!(meta.arp_pair.is_none());

    let long = arp_frame(&[1, 2, 3, 4, 5, 6, 7, 8], &[10, 0, 0, 1]);
    assert!(parse_frame(&long, 42).unwrap().arp_pair.is_none());

    let wide = arp_frame(&MAC_A, &[0u8; 16]);
    assert!(parse_frame(&wide, 42).unwrap().arp_pair.is_none());

    let good = arp_frame(&MAC_A, &[10, 0, 0, 1]);
    assert_eq!(
        parse_frame(&good, 42).unwrap().arp_pair,
        Some((IpAddr::V4([10, 0, 0, 1]), Mac(MAC_A)))
    );
    // Cut inside the target address.
    assert!(parse_frame(&good[..good.len() - 1], 42).is_none());
    assert!(parse_frame(&good[..21], 42).is_none());
}

#[test]
fn truncated_ip_is_refused() {
    let mut frame = Vec::new();
    PacketBuilder::ethernet2(MAC_A, MAC_B)
        .ipv4([10, 0, 0, 1], [10, 0, 0, 2], 64)
        .udp(1, 2)
        .write(&mut frame, &[0u8; 8])
        .unwrap();
    assert!(parse_frame(&frame, 50).is_some());
    assert!(parse_frame(&frame[..33], 50).is_none());
}

#[test]
fn icmp_and_unknown_ip_protocols() {
    let mut frame = Vec::new();
    PacketBuilder::ethernet2(MAC_A, MAC_B)
        .ipv4([10, 0, 0, 1], [10, 0, 0, 2], 64)
        .icmpv4_echo_request(7, 1)
        .write(&mut frame, &[0u8; 8])
        .unwrap();
    assert_eq!(
        parse_frame(&frame, 50).unwrap().l3.unwrap().proto,
        Proto::Named("ICMP")
    );
    // OSPF over IPv4: number 89, header only.
    let mut ospf = frame[..34].to_vec();
    ospf[16] = 0;
    ospf[17] = 20;
    ospf[23] = 89;
    assert_eq!(
        parse_frame(&ospf, 34).unwrap().l3.unwrap().proto,
        Proto::Ip(89)
    );
}

#[test]
fn ports_tell_the_application() {
    assert_eq!(well_known_port(true, 443), Some(Proto::Named("HTTPS")));
    assert_eq!(well_known_port(false, 443), Some(Proto::Named("QUIC")));
    assert_eq!(well_known_port(true, 53), Some(Proto::Named("DNS")));
    assert_eq!(well_known_port(false, 53), Some(Proto::Named("DNS")));
    assert_eq!(well_known_port(true, 8443), Some(Proto::Named("HTTPS")));
    assert_eq!(well_known_port(false, 51820), Some(Proto::Named("WireGuard")));
    assert_eq!(well_known_port(false, 8080), None);
    assert_eq!(well_known_port(true, 9999), None);
    // The destination counts before the source.
    assert_eq!(app_proto(true, 22, 443), Proto::Named("HTTPS"));
    assert_eq!(app_proto(true, 443, 22), Proto::Named("SSH"));
    assert_eq!(app_proto(true, 443, 50000), Proto::Named("HTTPS"));
    assert_eq!(app_proto(true, 50000, 443), Proto::Named("HTTPS"));
    assert_eq!(app_proto(true, 50000, 50001), Proto::Named("TCP"));
    assert_eq!(app_proto(false, 50000, 50001), Proto::Named("UDP"));
}

#[test]
fn transport_or_number_gives_the_tag() {
    let absent = TransportLayer::Absent;
    assert_eq!(l4_proto(&TransportLayer::Icmpv4, 1), Proto::Named("ICMP"));
    assert_eq!(l4_proto(&TransportLayer::Icmpv6, 58), Proto::Named("ICMPv6"));
    assert_eq!(l4_proto(&TransportLayer::Udp(1, 123), 17), Proto::Named("NTP"));
    assert_eq!(l4_proto(&absent, 2), Proto::Named("IGMP"));
    assert_eq!(l4_proto(&absent, 6), Proto::Named("TCP"));
    assert_eq!(l4_proto(&absent, 17), Proto::Named("UDP"));
    assert_eq!(l4_proto(&absent, 50), Proto::Named("ESP"));
    assert_eq!(l4_proto(&absent, 58), Proto::Named("ICMPv6"));
    assert_eq!(l4_proto(&absent, 132), Proto::Named("SCTP"));
    assert_eq!(l4_proto(&absent, 1), Proto::Ip(1));
}

#[test]
fn layers_without_ethernet_give_nothing() {
    let layers = Layers {
        link: LinkLayer::Other,
        net: NetLayer::Ipv4([10, 0, 0, 1], [10, 0, 0, 2], 17),
        transport: TransportLayer::Udp(1, 53),
    };
    assert!(frame_meta(&layers, 60).is_none());
    let layers = Layers {
        link: LinkLayer::Ethernet2(Mac(MAC_A), Mac(MAC_B), 0x0800),
        ..layers
    };
    let meta = frame_meta(&layers, 60).unwrap();
    assert_eq!(meta.l3.unwrap().proto, Proto::Named("DNS"));
}

#[test]
fn tags_are_compared_by_content() {
    assert!(Proto::Named("DNS").same(&Proto::Named("DNS")));
    assert!(!Proto::Named("DNS").same(&Proto::Named("mDNS")));
    assert!(!Proto::Named("DNS").same(&Proto::Ip(53)));
    assert!(Proto::Ip(7).same(&Proto::Ip(7)));
    assert!(!Proto::Ether(7).same(&Proto::Ip(7)));
}

#[test]
fn a_tag_hides_nothing() {
    let plain = arp_frame(&MAC_A, &[10, 0, 0, 1]);
    for tag in [[0x81, 0x00], [0x88, 0xa8], [0x91, 0x00]] {
        let mut tagged = plain[..12].to_vec();
        tagged.extend_from_slice(&tag);
        tagged.extend_from_slice(&[0x00, 0x2a]);
        tagged.extend_from_slice(&plain[12..]);
        let meta = parse_frame(&tagged, 46).unwrap();
        assert_eq!(meta.l2_proto, Proto::Named("ARP"));
        assert_eq!(
            meta.arp_pair,
            Some((IpAddr::V4([10, 0, 0, 1]), Mac(MAC_A)))
        );
        assert!(parse_frame(&tagged[..tagged.len() - 1], 46).is_none());
    }
    // Behind a tag, an unknown EtherType is told by the tag.
    let mut unknown = plain[..12].to_vec();
    unknown.extend_from_slice(&[0x81, 0x00, 0x00, 0x2a, 0x88, 0xcc]);
    assert_eq!(
        parse_frame(&unknown, 18).unwrap().l2_proto,
        Proto::Ether(0x8100)
    );
}

#[test]
fn fragments_have_no_ports() {
    let mut frame = Vec::new();
    PacketBuilder::ethernet2(MAC_A, MAC_B)
        .ipv4([10, 0, 0, 1], [10, 0, 0, 2], 64)
        .udp(50000, 53)
        .write(&mut frame, &[0u8; 8])
        .unwrap();
    let proto = |f: &[u8]| parse_frame(f, 50).unwrap().l3.unwrap().proto;
    assert_eq!(proto(&frame), Proto::Named("DNS"));
    let mut first = frame.clone();
    first[20] |= 0x20;
    assert_eq!(proto(&first), Proto::Named("UDP"));
    let mut later = frame.clone();
    later[21] = 1;
    assert_eq!(proto(&later), Proto::Named("UDP"));
}

#[test]
fn ip_options_move_the_ports() {
    let mut frame = Vec::new();
    PacketBuilder::ethernet2(MAC_A, MAC_B)
        .ipv4([10, 0, 0, 1], [10, 0, 0, 2], 64)
        .udp(50000, 53)
        .write(&mut frame, &[0u8; 8])
        .unwrap();
    // One word of padding behind the fixed header.
    frame[14] = 0x46;
    let total = u16::from_be_bytes([frame[16], frame[17]]) + 4;
    frame[16] = (total >> 8) as u8;
    frame[17] = (total & 0xff) as u8;
    let tail = frame.split_off(34);
    frame.extend_from_slice(&[1, 1, 1, 1]);
    frame.extend_from_slice(&tail);
    let l3 = parse_frame(&frame, 54).unwrap().l3.unwrap();
    assert_eq!(l3.proto, Proto::Named("DNS"));
    assert_eq!(l3.src, IpAddr::V4([10, 0, 0, 1]));
}

#[test]
fn frames_with_a_length_are_not_ethernet_two() {
    let mut frame = Vec::new();
    frame.extend_from_slice(&MAC_B);
    frame.extend_from_slice(&MAC_A);
    frame.extend_from_slice(&[0, 0]);
    frame.extend_from_slice(&[0x42, 0x42, 0x03, 0, 0, 0]);
    for (number, wanted) in [
        (0u16, None),
        (38, None),
        (1500, None),
        (1501, Some(Proto::Ether(1501))),
        (1536, Some(Proto::Ether(1536))),
    ] {
        frame[12] = (number >> 8) as u8;
        frame[13] = (number & 0xff) as u8;
        assert_eq!(parse_frame(&frame, 60).map(|m| m.l2_proto), wanted);
    }
    let layers = Layers {
        link: LinkLayer::Ethernet2(Mac(MAC_A), Mac(MAC_B), 1500),
        net: NetLayer::Absent,
        transport: TransportLayer::Absent,
    };
    assert!(frame_meta(&layers, 60).is_none());
}

fn v6_frame(next: u8, behind: &[u8]) -> Vec<u8> {
    let mut frame = Vec::new();
    frame.extend_from_slice(&MAC_B);
    frame.extend_from_slice(&MAC_A);
    frame.extend_from_slice(&[0x86, 0xdd]);
    frame.extend_from_slice(&[0x60, 0, 0, 0, 0, behind.len() as u8, next, 64]);
    frame.extend_from_slice(&v6([0xfe80, 0, 0, 0, 0, 0, 0, 1]));
    frame.extend_from_slice(&v6([0xfe80, 0, 0, 0, 0, 0, 0, 2]));
    frame.extend_from_slice(behind);
    frame
}

#[test]
fn extension_headers_are_read_through() {
    let proto = |f: &[u8]| parse_frame(f, 90).unwrap().l3.unwrap().proto;
    // Hop-by-hop options, padding alone, before each of three numbers.
    let mut behind = vec![132, 0, 1, 4, 0, 0, 0, 0];
    assert_eq!(proto(&v6_frame(0, &behind)), Proto::Named("SCTP"));
    behind[0] = 89;
    assert_eq!(proto(&v6_frame(0, &behind)), Proto::Ip(89));
    behind[0] = 17;
    behind.extend_from_slice(&[0xc3, 0x50, 0, 53, 0, 8, 0, 0]);
    let meta = parse_frame(&v6_frame(0, &behind), 90).unwrap();
    let l3 = meta.l3.unwrap();
    assert_eq!(l3.proto, Proto::Named("DNS"));
    assert_eq!(l3.src, IpAddr::V6(v6([0xfe80, 0, 0, 0, 0, 0, 0, 1])));
    assert_eq!(l3.dst, IpAddr::V6(v6([0xfe80, 0, 0, 0, 0, 0, 0, 2])));
}

#[test]
fn the_number_tells_the_transport_of_both_versions() {
    let proto = |f: &[u8]| parse_frame(f, 90).unwrap().l3.unwrap().proto;
    let echo = [8u8, 0, 0, 0, 0, 1, 0, 1];
    assert_eq!(proto(&v6_frame(58, &echo)), Proto::Named("ICMPv6"));
    assert_eq!(proto(&v6_frame(1, &echo)), Proto::Named("ICMP"));
    assert_eq!(proto(&v6_frame(132, &echo)), Proto::Named("SCTP"));
    assert_eq!(proto(&v6_frame(50, &echo)), Proto::Named("ESP"));
    assert_eq!(proto(&v6_frame(89, &echo)), Proto::Ip(89));
    assert_eq!(
        proto(&v6_frame(17, &[0xc3, 0x50, 0, 123, 0, 8, 0, 0])),
        Proto::Named("NTP")
    );
    let mut v4 = Vec::new();
    PacketBuilder::ethernet2(MAC_A, MAC_B)
        .ipv4([10, 0, 0, 1], [10, 0, 0, 2], 64)
        .udp(1, 2)
        .write(&mut v4, &[])
        .unwrap();
    v4[23] = 58;
    assert_eq!(proto(&v4), Proto::Named("ICMPv6"));
    v4[23] = 1;
    assert_eq!(proto(&v4), Proto::Named("ICMP"));
    v4[23] = 132;
    assert_eq!(proto(&v4), Proto::Named("SCTP"));
}

#[test]
fn both_directions_carry_one_application() {
    for (tcp, a, b, same) in [
        (true, 443, 8443, true),
        (true, 50000, 443, true),
        (true, 22, 443, false),
        (false, 67, 68, true),
    ] {
        assert_eq!(app_proto(tcp, a, b) == app_proto(tcp, b, a), same);
    }
}
