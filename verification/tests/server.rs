use std::time::Instant;

use netman::model::packet::{IpAddr, L3Meta, Mac, PacketMeta, Proto};
use netman::model::tables::{ConvStats, Tables};
use netman::resolve::oui::build_db;
use netman::server::client::{peer_event, ClientAction, ClientEvent, ClientSession};
use netman::server::opening_messages;
use netman::server::snapshot::edge_delta;
use netman::wsproto::{Delta, View};

fn send(text: &str) -> ClientAction {
    ClientAction::Send(text.to_string())
}

fn received(text: &str) -> ClientEvent {
    ClientEvent::Received(text.to_string())
}

#[test]
fn the_snapshot_comes_first() {
    let mut session = ClientSession::new(vec!["a".to_string(), "b".to_string()]);
    assert_eq!(session.proceed(), send("a"));
    assert_eq!(session.step(ClientEvent::SendDone(true)), send("b"));
    assert_eq!(session.step(ClientEvent::SendDone(true)), ClientAction::Wait);
    assert_eq!(session.step(received("c")), send("c"));
    assert_eq!(session.step(ClientEvent::SendDone(true)), ClientAction::Wait);
    assert_eq!(session.step(ClientEvent::Lagged(12)), ClientAction::Wait);
    assert_eq!(session.step(ClientEvent::PeerMessage), ClientAction::Wait);
    assert_eq!(session.step(received("d")), send("d"));
    assert_eq!(session.step(ClientEvent::SendDone(true)), ClientAction::Wait);
    assert_eq!(session.step(ClientEvent::SourceClosed), ClientAction::End);
}

#[test]
fn an_empty_snapshot_waits_at_once() {
    let mut session = ClientSession::new(vec![]);
    assert_eq!(session.proceed(), ClientAction::Wait);
    assert_eq!(session.step(ClientEvent::PeerGone), ClientAction::End);
}

#[test]
fn a_failed_send_ends_the_client() {
    let mut session = ClientSession::new(vec!["a".to_string(), "b".to_string()]);
    assert_eq!(session.proceed(), send("a"));
    assert_eq!(session.step(ClientEvent::SendDone(false)), ClientAction::End);
    let mut session = ClientSession::new(vec![]);
    assert_eq!(session.step(received("x")), send("x"));
    assert_eq!(session.step(ClientEvent::SendDone(false)), ClientAction::End);
}

#[test]
fn an_edge_carries_the_totals() {
    let now = Instant::now();
    let mut conv = ConvStats::new(now);
    conv.add(80, Proto::Named("DNS"), now);
    conv.add(1500, Proto::Named("HTTPS"), now);
    assert_eq!(
        edge_delta(View::Inter, "10.0.0.1".into(), "10.0.0.2".into(), &conv),
        Delta::UpsertEdge {
            view: View::Inter,
            id: "10.0.0.1|10.0.0.2".into(),
            source: "10.0.0.1".into(),
            target: "10.0.0.2".into(),
            bytes: 1580,
            packets: 2,
            proto: "HTTPS".into(),
        }
    );
}

fn frame(src: Mac, dst: Mac, bytes: u64, proto: &'static str) -> PacketMeta {
    PacketMeta {
        wire_len: bytes,
        src_mac: src,
        dst_mac: dst,
        l2_proto: Proto::Named(proto),
        l3: None,
        arp_pair: None,
    }
}

fn node(view: View, id: &str, label: &str, bytes: u64, packets: u64, proto: &str) -> Delta {
    Delta::UpsertNode {
        view,
        id: id.into(),
        label: label.into(),
        bytes,
        packets,
        proto: proto.into(),
    }
}

fn edge(view: View, source: &str, target: &str, bytes: u64, packets: u64, proto: &str) -> Delta {
    Delta::UpsertEdge {
        view,
        id: format!("{source}|{target}"),
        source: source.into(),
        target: target.into(),
        bytes,
        packets,
        proto: proto.into(),
    }
}

#[test]
fn a_snapshot_describes_every_node_and_conversation() {
    let vendors = build_db("00:0C:29\tVMware\n");
    let mut tables = Tables::new();
    assert!(tables.snapshot_deltas(&vendors).is_empty());
    let now = Instant::now();
    let a = Mac([0, 0x0c, 0x29, 0, 0, 1]);
    let b = Mac([2, 0, 0, 0, 0, 2]);
    let c = Mac([2, 0, 0, 0, 0, 3]);
    let v4 = IpAddr::V4([10, 0, 0, 1]);
    let v6 = IpAddr::V6([0xfe, 0x80, 0, 0, 0, 0, 0, 0, 0, 0, 0, 0, 0, 0, 0, 1]);
    tables.ingest(&frame(b, a, 60, "ARP"), now);
    tables.ingest(&frame(c, a, 50, "ARP"), now);
    tables.ingest(&frame(c, c, 5, "LOOP"), now);
    let mut meta = frame(a, b, 1000, "IPv6");
    meta.l3 = Some(L3Meta {
        src: v6,
        dst: v4,
        proto: Proto::Ip(89),
    });
    tables.ingest(&meta, now);
    tables.learn_name(v4, "gateway.lan".to_string());
    let (ta, tb, tc) = (
        "00:0c:29:00:00:01",
        "02:00:00:00:00:02",
        "02:00:00:00:00:03",
    );
    assert_eq!(
        tables.snapshot_deltas(&vendors),
        vec![
            node(View::Ether, ta, "VMware 00:00:01", 1110, 3, "IPv6"),
            node(View::Ether, tb, tb, 1060, 2, "IPv6"),
            node(View::Ether, tc, tc, 55, 2, "ARP"),
            edge(View::Ether, ta, tb, 1060, 2, "IPv6"),
            edge(View::Ether, ta, tc, 50, 1, "ARP"),
            edge(View::Ether, tc, tc, 5, 1, "LOOP"),
            node(View::Inter, "10.0.0.1", "gateway.lan", 1000, 1, "ipproto-89"),
            node(View::Inter, "fe80::1", "fe80::1", 1000, 1, "ipproto-89"),
            edge(View::Inter, "10.0.0.1", "fe80::1", 1000, 1, "ipproto-89"),
        ]
    );
}

#[test]
fn names_serve_every_later_snapshot() {
    let vendors = build_db("");
    let mut tables = Tables::new();
    let ip = IpAddr::V4([10, 0, 0, 9]);
    tables.learn_name(ip, "printer.lan".to_string());
    assert_eq!(tables.l3_label(&ip), "printer.lan");
    assert_eq!(tables.l3_label(&IpAddr::V4([10, 0, 0, 8])), "10.0.0.8");
    let mut meta = frame(Mac([2; 6]), Mac([4; 6]), 60, "IPv4");
    meta.l3 = Some(L3Meta {
        src: ip,
        dst: ip,
        proto: Proto::Named("DNS"),
    });
    for round in 1..=3 {
        tables.ingest(&meta, Instant::now());
        let deltas = tables.snapshot_deltas(&vendors);
        let wanted = node(
            View::Inter,
            "10.0.0.9",
            "printer.lan",
            60 * round,
            round,
            "DNS",
        );
        assert!(deltas.contains(&wanted));
    }
}

#[test]
fn node_totals_stay_at_their_largest() {
    let vendors = build_db("");
    let mut tables = Tables::new();
    let a = Mac([2, 0, 0, 0, 0, 1]);
    let now = Instant::now();
    tables.ingest(&frame(a, Mac([2, 0, 0, 0, 0, 2]), u64::MAX, "IPv4"), now);
    tables.ingest(&frame(a, Mac([2, 0, 0, 0, 0, 3]), 7, "ARP"), now);
    let deltas = tables.snapshot_deltas(&vendors);
    let text = a.to_text();
    assert!(deltas.contains(&node(View::Ether, &text, &text, u64::MAX, 2, "IPv4")));
}

#[test]
fn the_fade_time_opens_every_session() {
    let known = vec![Delta::RemoveNode {
        view: View::Ether,
        id: "a".into(),
    }];
    let opening = opening_messages(60, &known);
    assert_eq!(
        opening,
        vec![
            r#"{"type":"config","fade_secs":60}"#.to_string(),
            known[0].to_json(),
        ]
    );
    assert_eq!(opening_messages(5, &vec![]).len(), 1);
}

#[test]
fn a_new_fade_time_goes_to_everyone() {
    let event = peer_event(r#"{"type":"set_fade","seconds":15}"#);
    assert_eq!(event, ClientEvent::SetFade(15));
    let config = r#"{"type":"config","fade_secs":15}"#;
    let mut asking = ClientSession::new(vec![]);
    assert_eq!(
        asking.step(event),
        ClientAction::Publish(15, config.to_string())
    );
    assert_eq!(asking.step(ClientEvent::Published), ClientAction::Wait);
    assert_eq!(asking.step(received(config)), send(config));
    let mut other = ClientSession::new(vec![]);
    assert_eq!(other.step(received(config)), send(config));
    assert_eq!(peer_event("hello"), ClientEvent::PeerMessage);
    assert_eq!(peer_event(r#"{"type":"config"}"#), ClientEvent::PeerMessage);
}
