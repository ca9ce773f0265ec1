use std::time::Instant;

use etherparse::PacketBuilder;

use netman::capture::session::{Action, Event, Failure};
use netman::capture::CaptureStats;
use netman::model::packet::{parse_frame, IpAddr, Mac, Proto};
use netman::model::tables::{L2Key, L3Key, Tables};

const MAC_A: [u8; 6] = [0x02, 0, 0, 0, 0, 0x0a];
const MAC_B: [u8; 6] = [0x02, 0, 0, 0, 0, 0x0b];
const MAC_C: [u8; 6] = [0x02, 0, 0, 0, 0, 0x0c];
const BROADCAST: [u8; 6] = [0xff; 6];

const IP_A: [u8; 4] = [10, 0, 0, 1];
const IP_B: [u8; 4] = [10, 0, 0, 2];
const IP_C: [u8; 4] = [10, 0, 0, 53];

const V6_A: [u8; 16] = [0xfe, 0x80, 0, 0, 0, 0, 0, 0, 0, 0, 0, 0, 0, 0, 0, 1];
const V6_M: [u8; 16] = [0xff, 0x02, 0, 0, 0, 0, 0, 0, 0, 0, 0, 0, 0, 0, 0, 0xfb];

fn build_frames() -> Vec<Vec<u8>> {
    let mut frames = Vec::new();

    // ARP request from A to everyone.
    let mut arp = Vec::new();
    arp.extend_from_slice(&BROADCAST);
    arp.extend_from_slice(&MAC_A);
    arp.extend_from_slice(&[0x08, 0x06]);
    arp.extend_from_slice(&[0x00, 0x01, 0x08, 0x00, 6, 4, 0x00, 0x01]);
    arp.extend_from_slice(&MAC_A);
    arp.extend_from_slice(&IP_A);
    arp.extend_from_slice(&[0u8; 6]);
    arp.extend_from_slice(&IP_B);
    frames.push(arp);

    // HTTPS from A to B.
    let mut f = Vec::new();
    PacketBuilder::ethernet2(MAC_A, MAC_B)
        .ipv4(IP_A, IP_B, 64)
        .tcp(51000, 443, 1, 64240)
        .write(&mut f, &[0xAA; 400])
        .expect("build https frame");
    frames.push(f);

    // HTTPS from B back to A.
    let mut f = Vec::new();
    PacketBuilder::ethernet2(MAC_B, MAC_A)
        .ipv4(IP_B, IP_A, 64)
        .tcp(443, 51000, 900, 64240)
        .write(&mut f, &[0xBB; 1200])
        .expect("build https back frame");
    frames.push(f);

    // DNS query from A to C.
    let mut f = Vec::new();
    PacketBuilder::ethernet2(MAC_A, MAC_C)
        .ipv4(IP_A, IP_C, 64)
        .udp(50123, 53)
        .write(&mut f, &[0x11; 30])
        .expect("build dns query frame");
    frames.push(f);

    // DNS answer from C to A.
    let mut f = Vec::new();
    PacketBuilder::ethernet2(MAC_C, MAC_A)
        .ipv4(IP_C, IP_A, 64)
        .udp(53, 50123)
        .write(&mut f, &[0x22; 90])
        .expect("build dns answer frame");
    frames.push(f);

    // mDNS over IPv6 from A to a multicast group.
    let mut f = Vec::new();
    PacketBuilder::ethernet2(MAC_A, [0x33, 0x33, 0, 0, 0, 0xfb])
        .ipv6(V6_A, V6_M, 255)
        .udp(5353, 5353)
        .write(&mut f, &[0x33; 100])
        .expect("build mdns frame");
    frames.push(f);

    // Ping from A to B in a VLAN.
    let mut f = Vec::new();
    PacketBuilder::ethernet2(MAC_A, MAC_B)
        .single_vlan(42.try_into().unwrap())
        .ipv4(IP_A, IP_B, 64)
        .icmpv4_echo_request(7, 1)
        .write(&mut f, &[0x44; 32])
        .expect("build vlan icmp frame");
    frames.push(f);

    frames
}

#[test]
fn replay_fixture_and_aggregate() {
    let frames = build_frames();

    let mut stats = CaptureStats::default();
    let mut tables = Tables::new();
    let now = Instant::now();
    for frame in &frames {
        let wire_len = frame.len() as u32;
        assert_eq!(stats.file_step(Event::Packet(wire_len)), Action::Deliver);
        if let Some(meta) = parse_frame(frame, wire_len) {
            assert!(tables.can_ingest(&meta));
            tables.ingest(&meta, now);
        }
    }
    let end = Event::Failed(Failure::NoMorePackets, "no more packets".to_string());
    assert_eq!(stats.file_step(end), Action::Stop);

    assert_eq!(stats.frames, 7);
    let wire: usize = frames.iter().map(|f| f.len()).sum();
    assert_eq!(stats.bytes, wire as u64);

    assert_eq!(tables.l2.len(), 4, "A-bcast, A-B, A-C, A-mcast(mDNS)");
    let l2_ab = tables.l2.get(&L2Key::new(Mac(MAC_A), Mac(MAC_B))).unwrap();
    assert_eq!(l2_ab.packets, 3);
    assert_eq!(
        l2_ab.bytes,
        (frames[1].len() + frames[2].len() + frames[6].len()) as u64
    );
    assert_eq!(l2_ab.dominant_proto(), Proto::Named("IPv4"));

    let l2_arp = tables
        .l2
        .get(&L2Key::new(Mac(MAC_A), Mac(BROADCAST)))
        .unwrap();
    assert_eq!(l2_arp.dominant_proto(), Proto::Named("ARP"));
    assert_eq!(l2_arp.packets, 1);

    assert_eq!(tables.l3.len(), 3);
    let ip_a = IpAddr::V4(IP_A);
    let ip_b = IpAddr::V4(IP_B);
    let ip_c = IpAddr::V4(IP_C);

    let l3_ab = tables.l3.get(&L3Key::new(ip_a, ip_b)).unwrap();
    assert_eq!(l3_ab.dominant_proto(), Proto::Named("HTTPS"));
    assert_eq!(l3_ab.packets, 3);

    let l3_dns = tables.l3.get(&L3Key::new(ip_a, ip_c)).unwrap();
    assert_eq!(l3_dns.dominant_proto(), Proto::Named("DNS"));
    assert_eq!(l3_dns.packets, 2);
    assert_eq!(l3_dns.bytes, (frames[3].len() + frames[4].len()) as u64);

    let l3_mdns = tables
        .l3
        .get(&L3Key::new(IpAddr::V6(V6_A), IpAddr::V6(V6_M)))
        .unwrap();
    assert_eq!(l3_mdns.dominant_proto(), Proto::Named("mDNS"));
}
