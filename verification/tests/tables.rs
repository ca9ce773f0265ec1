use std::time::{Duration, Instant};

use netman::model::packet::{IpAddr, L3Meta, Mac, PacketMeta, Proto};
use netman::model::tables::{ConvStats, L2Key, L3Key, Tables};

const MAC_A: Mac = Mac([0x02, 0, 0, 0, 0, 0x0a]);
const MAC_B: Mac = Mac([0x02, 0, 0, 0, 0, 0x0b]);

fn v4(last: u8) -> IpAddr {
    IpAddr::V4([10, 0, 0, last])
}

fn v6(first: u16, last: u16) -> IpAddr {
    let mut octets = [0u8; 16];
    octets[0] = (first >> 8) as u8;
    octets[1] = (first & 0xff) as u8;
    octets[14] = (last >> 8) as u8;
    octets[15] = (last & 0xff) as u8;
    IpAddr::V6(octets)
}

fn meta(
    src_mac: Mac,
    dst_mac: Mac,
    bytes: u64,
    l2: Proto,
    l3: Option<(IpAddr, IpAddr, Proto)>,
) -> PacketMeta {
    PacketMeta {
        wire_len: bytes,
        src_mac,
        dst_mac,
        l2_proto: l2,
        l3: l3.map(|(src, dst, proto)| L3Meta { src, dst, proto }),
        arp_pair: None,
    }
}

#[test]
fn both_directions_merge_into_one_conversation() {
    let mut tables = Tables::new();
    let now = Instant::now();
    let ip_a = v4(1);
    let ip_b = v4(2);
    let https = Proto::Named("HTTPS");
    let ipv4 = Proto::Named("IPv4");

    tables.ingest(
        &meta(MAC_A, MAC_B, 100, ipv4, Some((ip_a, ip_b, https))),
        now,
    );
    tables.ingest(
        &meta(MAC_B, MAC_A, 50, ipv4, Some((ip_b, ip_a, https))),
        now,
    );

    assert_eq!(tables.l2.len(), 1, "one layer-two conversation");
    assert_eq!(tables.l3.len(), 1, "one layer-three conversation");
    let conv = tables.l2.get(&L2Key::new(MAC_A, MAC_B)).unwrap();
    assert_eq!(conv.bytes, 150);
    assert_eq!(conv.packets, 2);
}

#[test]
fn arp_only_touches_l2() {
    let mut tables = Tables::new();
    tables.ingest(
        &meta(MAC_A, MAC_B, 42, Proto::Named("ARP"), None),
        Instant::now(),
    );
    assert_eq!(tables.l2.len(), 1);
    assert!(tables.l3.is_empty());
}

#[test]
fn dominant_proto_by_bytes() {
    let mut tables = Tables::new();
    let now = Instant::now();
    let ip_a = v4(1);
    let ip_b = v4(2);
    let ipv4 = Proto::Named("IPv4");

    for _ in 0..3 {
        tables.ingest(
            &meta(
                MAC_A,
                MAC_B,
                80,
                ipv4,
                Some((ip_a, ip_b, Proto::Named("DNS"))),
            ),
            now,
        );
    }
    tables.ingest(
        &meta(
            MAC_A,
            MAC_B,
            1500,
            ipv4,
            Some((ip_a, ip_b, Proto::Named("HTTPS"))),
        ),
        now,
    );

    let conv = tables.l3.get(&L3Key::new(ip_a, ip_b)).unwrap();
    assert_eq!(conv.dominant_proto(), Proto::Named("HTTPS"));
    assert_eq!(conv.packets, 4);
    assert_eq!(conv.bytes, 3 * 80 + 1500);
}

#[test]
fn top_talkers_sorted_by_bytes() {
    let mut tables = Tables::new();
    let now = Instant::now();
    let ipv4 = Proto::Named("IPv4");
    let mac_c = Mac([0x02, 0, 0, 0, 0, 0x0c]);

    tables.ingest(&meta(MAC_A, MAC_B, 100, ipv4, None), now);
    tables.ingest(&meta(MAC_A, mac_c, 500, ipv4, None), now);

    let top = tables.top_l2(10);
    assert_eq!(top.len(), 2);
    assert_eq!(*top[0].0, L2Key::new(MAC_A, mac_c), "largest first");
    assert_eq!(top[0].1.bytes, 500);
}

#[test]
fn ipv4_and_ipv6_coexist() {
    let mut tables = Tables::new();
    let now = Instant::now();
    let v4a = v4(1);
    let v4b = v4(2);
    let v6a = v6(0xfe80, 1);
    let v6b = v6(0xff02, 0xfb);

    tables.ingest(
        &meta(
            MAC_A,
            MAC_B,
            100,
            Proto::Named("IPv4"),
            Some((v4a, v4b, Proto::Named("DNS"))),
        ),
        now,
    );
    tables.ingest(
        &meta(
            MAC_A,
            MAC_B,
            200,
            Proto::Named("IPv6"),
            Some((v6a, v6b, Proto::Named("mDNS"))),
        ),
        now,
    );

    assert_eq!(tables.l3.len(), 2);
    assert_eq!(tables.l2.len(), 1, "one pair of addresses, one conversation");
}

#[test]
fn keys_do_not_see_the_direction() {
    assert_eq!(L2Key::new(MAC_A, MAC_B), L2Key::new(MAC_B, MAC_A));
    assert_eq!(L2Key::new(MAC_B, MAC_A), L2Key(MAC_A, MAC_B));
    assert_eq!(L2Key::new(MAC_A, MAC_A), L2Key(MAC_A, MAC_A));
    assert_eq!(L3Key::new(v4(2), v4(1)), L3Key(v4(1), v4(2)));
    // IPv4 stands before IPv6, whatever the bytes are.
    let high = IpAddr::V4([255, 255, 255, 255]);
    let low = IpAddr::V6([0; 16]);
    assert_eq!(L3Key::new(low, high), L3Key(high, low));
    assert_ne!(L3Key::new(v4(1), v4(2)), L3Key::new(v4(1), v4(3)));
    // The first byte counts most.
    let a = Mac([1, 255, 255, 255, 255, 255]);
    let b = Mac([2, 0, 0, 0, 0, 0]);
    assert_eq!(L2Key::new(b, a), L2Key(a, b));
}

#[test]
fn ipv4_and_ipv6_with_one_number_stay_apart() {
    let mut tables = Tables::new();
    let now = Instant::now();
    let ipv4 = Proto::Named("IPv4");
    let dns = Proto::Named("DNS");
    let zero4 = IpAddr::V4([0; 4]);
    let zero6 = IpAddr::V6([0; 16]);
    tables.ingest(&meta(MAC_A, MAC_B, 1, ipv4, Some((zero4, zero4, dns))), now);
    tables.ingest(&meta(MAC_A, MAC_B, 1, ipv4, Some((zero6, zero6, dns))), now);
    tables.ingest(&meta(MAC_A, MAC_B, 1, ipv4, Some((zero4, zero6, dns))), now);
    assert_eq!(tables.l3.len(), 3);
}

#[test]
fn tables_conserve_bytes_and_packets() {
    let mut tables = Tables::new();
    let now = Instant::now();
    let ipv4 = Proto::Named("IPv4");
    let mut bytes = 0;
    let mut ip_bytes = 0;
    for i in 0..40u8 {
        let other = Mac([2, 0, 0, 0, 1, i % 7]);
        let l3 = if i % 3 == 0 {
            None
        } else {
            Some((v4(i % 5), v4(100), Proto::Named("UDP")))
        };
        bytes += u64::from(i) * 10;
        if l3.is_some() {
            ip_bytes += u64::from(i) * 10;
        }
        let m = meta(other, MAC_A, u64::from(i) * 10, ipv4, l3);
        assert!(tables.can_ingest(&m));
        tables.ingest(&m, now);
    }
    let l2 = tables.l2.all();
    let l3 = tables.l3.all();
    assert_eq!(l2.len(), 7);
    assert_eq!(l3.len(), 5);
    assert_eq!(l2.iter().map(|(_, c)| c.bytes).sum::<u64>(), bytes);
    assert_eq!(l2.iter().map(|(_, c)| c.packets).sum::<u64>(), 40);
    assert_eq!(l3.iter().map(|(_, c)| c.bytes).sum::<u64>(), ip_bytes);
    for (_, conv) in l2 {
        let by_proto: u64 = conv.proto_bytes.iter().map(|(_, n)| *n).sum();
        assert_eq!(by_proto, conv.bytes);
    }
}

#[test]
fn top_is_cut_and_sorted() {
    let mut tables = Tables::new();
    let now = Instant::now();
    let ipv4 = Proto::Named("IPv4");
    for i in 0..20u8 {
        let size = u64::from((i * 7) % 20);
        let l3 = Some((v4(i), v4(200), Proto::Named("TCP")));
        tables.ingest(&meta(MAC_A, Mac([9, 0, 0, 0, 0, i]), size, ipv4, l3), now);
    }
    let sizes: Vec<u64> = tables.top_l2(5).iter().map(|(_, c)| c.bytes).collect();
    assert_eq!(sizes, vec![19, 18, 17, 16, 15]);
    let sizes: Vec<u64> = tables.top_l3(3).iter().map(|(_, c)| c.bytes).collect();
    assert_eq!(sizes, vec![19, 18, 17]);
    assert_eq!(tables.top_l3(100).len(), 20);
    assert!(tables.top_l2(0).is_empty());
}

#[test]
fn an_empty_conversation_has_no_protocol() {
    let conv = ConvStats::new(Instant::now());
    assert_eq!(conv.dominant_proto(), Proto::Named("?"));
    assert_eq!(conv.bytes, 0);
    assert_eq!(conv.packets, 0);
}

#[test]
fn a_conversation_keeps_the_last_time() {
    let start = Instant::now();
    let later = start + Duration::from_secs(3);
    let mut conv = ConvStats::new(start);
    conv.add(10, Proto::Ip(1), start);
    conv.add(20, Proto::Ip(2), later);
    conv.add(5, Proto::Ip(1), later);
    assert_eq!(conv.last_seen, later);
    assert_eq!(conv.bytes, 35);
    assert_eq!(conv.packets, 3);
    assert_eq!(conv.dominant_proto(), Proto::Ip(2));
    let copy = conv.clone();
    assert_eq!(copy.bytes, 35);
    assert_eq!(copy.dominant_proto(), Proto::Ip(2));
}

#[test]
fn full_counters_are_seen_before_they_run_over() {
    let mut tables = Tables::default();
    let now = Instant::now();
    let ipv4 = Proto::Named("IPv4");
    tables.ingest(&meta(MAC_A, MAC_B, u64::MAX - 1, ipv4, None), now);
    assert!(tables.can_ingest(&meta(MAC_B, MAC_A, 1, ipv4, None)));
    assert!(!tables.can_ingest(&meta(MAC_B, MAC_A, 2, ipv4, None)));
    assert!(tables.can_ingest(&meta(MAC_A, MAC_A, 2, ipv4, None)));
}

#[test]
fn unknown_conversations_are_absent() {
    let tables = Tables::new();
    assert!(tables.l2.is_empty());
    assert!(tables.l2.get(&L2Key::new(MAC_A, MAC_B)).is_none());
    assert!(tables.l3.get(&L3Key::new(v4(1), v4(2))).is_none());
    assert!(tables.l2.all().is_empty());
}

#[test]
fn the_order_of_frames_does_not_count() {
    let now = Instant::now();
    let metas: Vec<PacketMeta> = (0..30u8)
        .map(|i| {
            let l3 = Some((v4(i % 4), v4(i % 3), Proto::Ip(i % 5)));
            meta(Mac([2, 0, 0, 0, 0, i % 6]), MAC_A, u64::from(i), Proto::Ip(i % 2), l3)
        })
        .collect();
    let mut forward = Tables::new();
    let mut backward = Tables::new();
    for m in &metas {
        forward.ingest(m, now);
    }
    for m in metas.iter().rev() {
        backward.ingest(m, now);
    }
    assert_eq!(forward.l2.len(), backward.l2.len());
    assert_eq!(forward.l3.len(), backward.l3.len());
    for (key, conv) in forward.l3.all() {
        let other = backward.l3.get(key).unwrap();
        assert_eq!(conv.bytes, other.bytes);
        assert_eq!(conv.packets, other.packets);
        let mut a = conv.proto_bytes.clone();
        let mut b = other.proto_bytes.clone();
        a.sort_by_key(|(p, _)| p.to_text());
        b.sort_by_key(|(p, _)| p.to_text());
        assert_eq!(a, b);
    }
}
