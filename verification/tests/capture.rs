use netman::capture::device::{
    device_menu, invalid_choice, pick_device, read_choice, Choice, LowerNames,
};
use netman::capture::session::{kernel_stats_due, Action, Event, Failure};
use netman::capture::{
    device_label, find_device, list_devices, CaptureError, CaptureStats, Device,
};
use netman::npcap::npcap_dll_path;

fn device(name: &str, desc: Option<&str>, addresses: &[&str]) -> Device {
    Device {
        name: name.to_string(),
        desc: desc.map(|d| d.to_string()),
        addresses: addresses.iter().map(|a| a.to_string()).collect(),
    }
}

fn three() -> Vec<Device> {
    vec![
        device("\\Device\\NPF_{1A}", Some("Intel Wi-Fi"), &["10.0.0.1"]),
        device("eth0", None, &[]),
        device("eth1", Some("Wi-Fi Éther"), &["fe80::1", "10.0.0.2"]),
    ]
}

#[test]
fn labels_prefer_the_readable_name() {
    let devices = three();
    assert_eq!(device_label(&devices[0]), "Intel Wi-Fi [10.0.0.1]");
    assert_eq!(device_label(&devices[1]), "eth0");
    assert_eq!(device_label(&devices[2]), "Wi-Fi Éther [fe80::1, 10.0.0.2]");
}

#[test]
fn an_empty_list_is_an_error() {
    assert_eq!(list_devices(Ok(three())).unwrap().len(), 3);
    assert!(matches!(list_devices(Ok(vec![])), Err(CaptureError::NoDevice)));
    match list_devices(Err("boom".to_string())) {
        Err(e) => assert_eq!(e.to_text(), "pcap: boom"),
        Ok(_) => panic!("an error was expected"),
    }
}

#[test]
fn devices_are_found_by_index_or_name() {
    let devices = three();
    let name = |wanted: &str| find_device(&devices, wanted).map(|d| d.name);
    assert_eq!(name("0").unwrap(), "\\Device\\NPF_{1A}");
    assert_eq!(name("2").unwrap(), "eth1");
    assert_eq!(name("+1").unwrap(), "eth0");
    assert_eq!(name("ETH").unwrap(), "eth0");
    assert_eq!(name("eth1").unwrap(), "eth1");
    assert_eq!(name("wi-fi").unwrap(), "\\Device\\NPF_{1A}");
    assert_eq!(name("npf_{1a}").unwrap(), "\\Device\\NPF_{1A}");
    // Lower case beyond ASCII.
    assert_eq!(name("éTHER").unwrap(), "eth1");
    // Every name holds the empty text.
    assert_eq!(name("").unwrap(), "\\Device\\NPF_{1A}");
}

#[test]
fn an_index_out_of_range_is_a_name() {
    let devices = vec![device("eth7", None, &[]), device("lo", None, &[])];
    assert_eq!(find_device(&devices, "7").unwrap().name, "eth7");
    assert_eq!(
        find_device(&devices, "8").unwrap_err(),
        CaptureError::IfaceNotFound("8".to_string())
    );
}

#[test]
fn found_devices_are_whole() {
    let found = find_device(&three(), "eth1").unwrap();
    assert_eq!(found.desc.as_deref(), Some("Wi-Fi Éther"));
    assert_eq!(found.addresses, vec!["fe80::1", "10.0.0.2"]);
}

#[test]
fn errors_have_their_messages() {
    let e = find_device(&three(), "tun9").unwrap_err();
    assert_eq!(
        e.to_text(),
        "interface 'tun9' not found (use --iface with an index or a name substring)"
    );
    assert_eq!(
        CaptureError::NoDevice.to_text(),
        "no capture interface available"
    );
}

#[test]
fn names_are_picked_in_order() {
    let names = vec![
        LowerNames {
            name: "a".to_string(),
            desc: Some("shared".to_string()),
        },
        LowerNames {
            name: "shared too".to_string(),
            desc: None,
        },
    ];
    assert_eq!(pick_device(&names, "Shared", "shared"), Some(0));
    assert_eq!(pick_device(&names, "Shared T", "shared t"), Some(1));
    assert_eq!(pick_device(&names, "1", "1"), Some(1));
    assert_eq!(pick_device(&names, "2", "2"), None);
}

#[test]
fn the_prompt_reads_numbers() {
    assert_eq!(read_choice("", 3), Choice::Closed);
    assert_eq!(read_choice("\n", 3), Choice::Invalid);
    assert_eq!(read_choice(" 2 \r\n", 3), Choice::Picked(2));
    assert_eq!(read_choice("3\n", 3), Choice::Invalid);
    assert_eq!(read_choice("-1\n", 3), Choice::Invalid);
    assert_eq!(read_choice("two\n", 3), Choice::Invalid);
    assert_eq!(
        read_choice("99999999999999999999999999\n", 3),
        Choice::Invalid
    );
    assert_eq!(invalid_choice(3), "Invalid choice, expected 0..2");
    assert_eq!(
        device_menu(&three()),
        vec![
            "  [0] Intel Wi-Fi [10.0.0.1]",
            "  [1] eth0",
            "  [2] Wi-Fi Éther [fe80::1, 10.0.0.2]",
        ]
    );
}

#[test]
fn frames_are_counted() {
    let mut stats = CaptureStats::default();
    assert_eq!(stats.live_step(Event::Packet(60)), Action::Deliver);
    assert_eq!(stats.live_step(Event::Packet(1500)), Action::Deliver);
    assert_eq!(stats.file_step(Event::Packet(40)), Action::Deliver);
    assert_eq!(stats.frames, 3);
    assert_eq!(stats.bytes, 1600);
    assert_eq!(stats.kernel_drops, 0);
    assert_eq!(stats.parse_errors, 0);
    assert_eq!(stats.chan_drops, 0);
}

#[test]
fn counters_wrap_around() {
    let mut stats = CaptureStats {
        frames: u64::MAX,
        bytes: u64::MAX - 9,
        kernel_drops: 1,
        parse_errors: 2,
        chan_drops: 3,
    };
    stats.live_step(Event::Packet(15));
    assert_eq!(
        stats,
        CaptureStats {
            frames: 0,
            bytes: 5,
            kernel_drops: 1,
            parse_errors: 2,
            chan_drops: 3,
        }
    );
}

#[test]
fn reads_without_a_frame() {
    let mut stats = CaptureStats::default();
    let failed = |failure: Failure| Event::Failed(failure, "words".to_string());
    let fatal = Action::Fail(CaptureError::Pcap("words".to_string()));
    assert_eq!(
        stats.live_step(failed(Failure::TimeoutExpired)),
        Action::RefreshDrops
    );
    assert_eq!(stats.live_step(failed(Failure::NoMorePackets)), fatal);
    assert_eq!(stats.live_step(failed(Failure::Other)), fatal);
    assert_eq!(stats.live_step(Event::Shutdown), Action::Stop);
    assert_eq!(stats.file_step(failed(Failure::TimeoutExpired)), fatal);
    assert_eq!(stats.file_step(failed(Failure::NoMorePackets)), Action::Stop);
    assert_eq!(stats.file_step(failed(Failure::Other)), fatal);
    assert_eq!(stats.file_step(Event::Shutdown), Action::Stop);
    assert_eq!(stats, CaptureStats::default());
}

#[test]
fn kernel_drops_are_kept() {
    let mut stats = CaptureStats::default();
    stats.record_drops(Some(7));
    assert_eq!(stats.kernel_drops, 7);
    stats.record_drops(None);
    assert_eq!(stats.kernel_drops, 7);
    stats.record_drops(Some(3));
    assert_eq!(stats.kernel_drops, 3);
    assert!(!kernel_stats_due(999));
    assert!(kernel_stats_due(1000));
}

#[test]
fn npcap_path_is_wide_and_ends_with_zero() {
    let wide = |s: &str| -> Vec<u16> {
        let mut v: Vec<u16> = s.encode_utf16().collect();
        v.push(0);
        v
    };
    assert_eq!(
        npcap_dll_path(None),
        wide("C:\\Windows\\System32\\Npcap")
    );
    assert_eq!(
        npcap_dll_path(Some("D:\\Système🦀")),
        wide("D:\\Système🦀\\System32\\Npcap")
    );
}
