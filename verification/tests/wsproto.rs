use netman::server::{encode_all, encode_delta};
use netman::wsproto::{config_json, read_set_fade, Delta, View};

#[test]
fn json_contract_shape() {
    let node = Delta::UpsertNode {
        view: View::Ether,
        id: "aa:bb:cc:dd:ee:ff".into(),
        label: "aa:bb:cc:dd:ee:ff".into(),
        bytes: 1500,
        packets: 10,
        proto: "IPv4".into(),
    };
    assert_eq!(
        node.to_json(),
        r#"{"type":"upsert_node","view":"ether","id":"aa:bb:cc:dd:ee:ff","label":"aa:bb:cc:dd:ee:ff","bytes":1500,"packets":10,"proto":"IPv4"}"#
    );

    let edge = Delta::UpsertEdge {
        view: View::Inter,
        id: "10.0.0.1|10.0.0.2".into(),
        source: "10.0.0.1".into(),
        target: "10.0.0.2".into(),
        bytes: 42,
        packets: 1,
        proto: "DNS".into(),
    };
    assert_eq!(
        edge.to_json(),
        r#"{"type":"upsert_edge","view":"inter","id":"10.0.0.1|10.0.0.2","source":"10.0.0.1","target":"10.0.0.2","bytes":42,"packets":1,"proto":"DNS"}"#
    );

    let rm = Delta::RemoveEdge {
        view: View::Inter,
        id: "10.0.0.1|10.0.0.2".into(),
    };
    assert_eq!(
        rm.to_json(),
        r#"{"type":"remove_edge","view":"inter","id":"10.0.0.1|10.0.0.2"}"#
    );
}

#[test]
fn json_roundtrip() {
    let deltas = vec![
        Delta::UpsertNode {
            view: View::Inter,
            id: "fe80::1".into(),
            label: "fe80::1".into(),
            bytes: 0,
            packets: 0,
            proto: "mDNS".into(),
        },
        Delta::RemoveNode {
            view: View::Ether,
            id: "aa:bb:cc:dd:ee:ff".into(),
        },
    ];
    for d in deltas {
        let json = d.to_json();
        let back: Delta = Delta::read_back(&json).unwrap();
        assert_eq!(back, d);
    }
}

#[test]
fn every_character_survives() {
    let mut odd = String::new();
    for c in 0..0x180u32 {
        odd.push(char::from_u32(c).unwrap());
    }
    odd.push('\u{2028}');
    odd.push('🦀');
    let node = Delta::UpsertNode {
        view: View::Ether,
        id: odd.clone(),
        label: "\"},\"id\":\"".into(),
        bytes: u64::MAX,
        packets: 1,
        proto: String::new(),
    };
    let json = node.to_json();
    assert_eq!(Delta::read_back(&json), Some(node));
    assert!(json.contains(&serde_json::to_string(&odd).unwrap()));
    assert!(json.contains(r#""bytes":18446744073709551615"#));
    let edge = Delta::UpsertEdge {
        view: View::Inter,
        id: odd.clone(),
        source: odd.clone(),
        target: odd,
        bytes: 7,
        packets: 100,
        proto: "\\".into(),
    };
    assert_eq!(Delta::read_back(&edge.to_json()), Some(edge));
}

#[test]
fn escapes_are_exact() {
    let rm = Delta::RemoveNode {
        view: View::Ether,
        id: "\"\\\u{8}\t\n\u{c}\r\u{1f}\u{7f}é".into(),
    };
    assert_eq!(
        rm.to_json(),
        "{\"type\":\"remove_node\",\"view\":\"ether\",\"id\":\"\\\"\\\\\\b\\t\\n\\f\\r\\u001f\u{7f}é\"}"
    );
}

#[test]
fn different_messages_are_written_differently() {
    let all = vec![
        Delta::RemoveNode { view: View::Ether, id: "a".into() },
        Delta::RemoveEdge { view: View::Ether, id: "a".into() },
        Delta::RemoveNode { view: View::Inter, id: "a".into() },
        Delta::RemoveNode { view: View::Ether, id: "a\"".into() },
        Delta::RemoveNode { view: View::Ether, id: "".into() },
    ];
    let texts = encode_all(&all);
    assert_eq!(texts.len(), all.len());
    for i in 0..texts.len() {
        assert_eq!(encode_delta(&all[i]).unwrap(), texts[i]);
        for j in 0..i {
            assert_ne!(texts[i], texts[j]);
        }
    }
    assert_eq!(all[3].clone(), all[3]);
}

#[test]
fn only_the_written_form_is_read_back() {
    let rm = Delta::RemoveNode {
        view: View::Inter,
        id: "a".into(),
    };
    let written = r#"{"type":"remove_node","view":"inter","id":"a"}"#;
    assert_eq!(rm.to_json(), written);
    assert_eq!(Delta::read_back(written), Some(rm));
    for other in [
        r#" {"type":"remove_node","view":"inter","id":"a"}"#,
        r#"{"view":"inter","type":"remove_node","id":"a"}"#,
        r#"{"type":"remove_node","view":"inter","id":"\u0061"}"#,
        r#"{"type":"remove_node","view":"inter","id":"b","id":"a"}"#,
        r#"{"type":"remove_node","view":"inter","id":"a","more":1}"#,
        r#"["remove_node","inter","a"]"#,
    ] {
        assert_eq!(Delta::read_back(other), None, "{other}");
    }
}

#[test]
fn texts_that_are_no_message() {
    for text in [
        "",
        "{}",
        "[]",
        "null",
        "{\"type\":\"remove_node\",\"view\":\"ether\"}",
        "{\"type\":\"remove_node\",\"view\":\"outer\",\"id\":\"a\"}",
        "{\"type\":\"remove\",\"view\":\"ether\",\"id\":\"a\"}",
        "{\"type\":\"remove_node\",\"view\":\"ether\",\"id\":7}",
        "{\"type\":\"remove_node\",\"view\":\"ether\",\"id\":\"a\"",
        "{\"type\":\"upsert_node\",\"view\":\"ether\",\"id\":\"a\",\"label\":\"\",\"bytes\":-1,\"packets\":0,\"proto\":\"\"}",
        "{\"type\":\"upsert_node\",\"view\":\"ether\",\"id\":\"a\",\"label\":\"\",\"bytes\":1.5,\"packets\":0,\"proto\":\"\"}",
    ] {
        assert_eq!(Delta::read_back(text), None, "{text}");
    }
}

#[test]
fn the_fade_time_is_told_and_asked_for() {
    assert_eq!(config_json(60), r#"{"type":"config","fade_secs":60}"#);
    assert_eq!(read_set_fade(r#"{"type":"set_fade","seconds":15}"#), Some(15));
    assert_eq!(read_set_fade(r#"{"seconds": 15, "type": "set_fade"}"#), Some(15));
    assert_eq!(read_set_fade(r#"{"type":"set_fade"}"#), None);
    assert_eq!(read_set_fade(r#"{"type":"set_fade","seconds":-1}"#), None);
    assert_eq!(read_set_fade(r#"{"type":"config","seconds":15}"#), None);
    assert_eq!(read_set_fade("set_fade"), None);
}
