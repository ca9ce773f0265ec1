use netman::model::packet::Mac;
use netman::resolve::oui::{build_db, label, parse_mac_prefix, vendor, OuiDb};

const MANUF: &str = "# Wireshark register\n\
    \n\
    00:03:93\tApple\tApple, Inc.\n\
    00:0C:29          \tVMware      \tVMware, Inc.\r\n\
    00:1B:C5:00:00:00/36\tConvergingSy\tConverging Systems Inc.\n\
    00:55:DA:50:00:00/28\tNanoSky\tNanoSky Inc.\n\
    00:55:DA\tIeee\tIEEE Registration Authority\n";

fn mac(bytes: [u8; 6]) -> Mac {
    Mac(bytes)
}

fn chars(s: &str) -> Vec<char> {
    s.chars().collect()
}

#[test]
fn known_vendors_resolve() {
    let db = build_db(MANUF);
    let apple = Mac([0x00, 0x03, 0x93, 0x12, 0x34, 0x56]);
    let vmware = Mac([0x00, 0x0c, 0x29, 0xea, 0x4d, 0xf1]);
    assert!(vendor(&db, &apple).is_some(), "Apple OUI should be known");
    assert!(vendor(&db, &vmware).is_some(), "VMware OUI should be known");
    let label = label(&db, &vmware);
    assert!(
        label.ends_with("ea:4d:f1") && !label.starts_with("00:0c:29"),
        "vendor label expected, got {label}"
    );
}

#[test]
fn locally_administered_and_unknown_fall_back_to_mac() {
    let db = build_db(MANUF);
    let random = Mac([0x02, 0x00, 0x00, 0x00, 0x00, 0x0a]);
    assert_eq!(vendor(&db, &random), None);
    assert_eq!(label(&db, &random), "02:00:00:00:00:0a");
    let broadcast = Mac([0xff; 6]);
    assert_eq!(vendor(&db, &broadcast), None);
}

#[test]
fn db_is_populated() {
    let mut text = String::new();
    for i in 0..12_000u32 {
        text.push_str(&format!(
            "{:02X}:{:02X}:{:02X}\tVendor{i}\n",
            (i >> 16) & 0xff,
            (i >> 8) & 0xff,
            i & 0xff
        ));
    }
    let db = build_db(&text);
    assert!(db.h24.len() > 10_000, "a long register should be read whole");
    assert_eq!(db.h24.len(), 12_000);
    assert_eq!(vendor(&db, &mac([0, 0x10, 0x01, 9, 9, 9])), Some("Vendor4097"));
}

#[test]
fn names_and_labels_are_exact() {
    let db = build_db(MANUF);
    assert_eq!(vendor(&db, &mac([0, 3, 0x93, 1, 2, 3])), Some("Apple"));
    assert_eq!(vendor(&db, &mac([0, 0x0c, 0x29, 1, 2, 3])), Some("VMware"));
    assert_eq!(
        label(&db, &mac([0, 0x0c, 0x29, 0xea, 0x4d, 0xf1])),
        "VMware ea:4d:f1"
    );
    assert_eq!(
        label(&db, &mac([0, 0, 0, 1, 2, 3])),
        "00:00:00:01:02:03"
    );
}

#[test]
fn the_longest_prefix_wins() {
    let db = build_db(MANUF);
    assert_eq!(
        vendor(&db, &mac([0, 0x55, 0xda, 0x5f, 2, 3])),
        Some("NanoSky")
    );
    assert_eq!(vendor(&db, &mac([0, 0x55, 0xda, 0x60, 2, 3])), Some("Ieee"));
    assert_eq!(
        vendor(&db, &mac([0, 0x1b, 0xc5, 0, 0x0f, 3])),
        Some("ConvergingSy")
    );
    assert_eq!(vendor(&db, &mac([0, 0x1b, 0xc5, 0, 0x10, 3])), None);
}

#[test]
fn a_later_line_counts() {
    let db = build_db("00:00:01\tOld\n00:00:01\tNew\n");
    assert_eq!(vendor(&db, &mac([0, 0, 1, 0, 0, 0])), Some("New"));
    assert_eq!(db.h24.len(), 1);
}

#[test]
fn lines_that_say_nothing_are_skipped() {
    let text = "#00:00:01\tComment\n\
        00:00:02\n\
        00:00:03\t   \tNo short name\n\
        00:00:0G\tBadDigit\n\
        00:00:05/20\tOddBits\n\
        00:00:06/x\tNoBits\n\
        00:00\tTooShort\n\
        00:00:08/28\tThreeBytesOnly\n\
        100:00:09\tTooLarge\n\
        \n\
        00:00:0A\tLast";
    let db = build_db(text);
    assert_eq!(db.h24.len(), 1);
    assert_eq!(db.h28.len(), 0);
    assert_eq!(db.h36.len(), 0);
    assert_eq!(vendor(&db, &mac([0, 0, 0x0a, 0, 0, 0])), Some("Last"));
}

#[test]
fn declared_bits_are_read() {
    let db = build_db("00:00:01:FF/24\tA\n00:00:02:FF:FF/28\tB\n00:00:03:00:FF:FF/036\tC\n");
    assert_eq!(vendor(&db, &mac([0, 0, 1, 7, 0, 0])), Some("A"));
    assert_eq!(vendor(&db, &mac([0, 0, 2, 0xf7, 0, 0])), Some("B"));
    assert_eq!(vendor(&db, &mac([0, 0, 3, 0, 0xf1, 0])), Some("C"));
    assert_eq!(vendor(&db, &mac([0, 0, 3, 0, 0xe1, 0])), None);
}

#[test]
fn a_carriage_return_is_white_space_anyway() {
    let db = build_db("00:00:01\tA\r\n00:00:02\tB\r");
    assert_eq!(vendor(&db, &mac([0, 0, 1, 0, 0, 0])), Some("A"));
    assert_eq!(vendor(&db, &mac([0, 0, 2, 0, 0, 0])), Some("B"));
    // A line of one carriage return is empty.
    assert_eq!(build_db("\r\n").h24.len(), 0);
}

#[test]
fn appended_registers_add_up() {
    let first = "00:00:01\tA\n00:00:02\tB\n";
    let second = "00:00:02\tC\n";
    let db = build_db(&format!("{first}{second}"));
    assert_eq!(vendor(&db, &mac([0, 0, 1, 0, 0, 0])), Some("A"));
    assert_eq!(vendor(&db, &mac([0, 0, 2, 0, 0, 0])), Some("C"));
}

#[test]
fn registered_local_addresses_have_no_vendor() {
    let db = build_db("02:00:00\tNobody\n");
    assert_eq!(db.h24.len(), 1);
    let local = mac([2, 0, 0, 0, 0, 0x0a]);
    assert_eq!(vendor(&db, &local), None);
    assert_eq!(label(&db, &local), "02:00:00:00:00:0a");
}

#[test]
fn labels_end_with_the_device() {
    let db = build_db(MANUF);
    for m in [
        mac([0, 3, 0x93, 0xaa, 0xbb, 0xcc]),
        mac([2, 3, 0x93, 0xaa, 0xbb, 0xcc]),
        mac([8, 8, 8, 0xaa, 0xbb, 0xcc]),
    ] {
        assert!(label(&db, &m).ends_with("aa:bb:cc"));
    }
    let a = label(&db, &mac([0, 3, 0x93, 1, 2, 3]));
    let b = label(&db, &mac([0, 3, 0x93, 1, 2, 4]));
    assert_ne!(a, b);
}

#[test]
fn prefixes_read_as_bytes() {
    assert_eq!(parse_mac_prefix(&chars("00:1b:C5")), Some(vec![0, 0x1b, 0xc5]));
    assert_eq!(parse_mac_prefix(&chars("f")), Some(vec![15]));
    assert_eq!(parse_mac_prefix(&chars("+f:0")), Some(vec![15, 0]));
    assert_eq!(parse_mac_prefix(&chars("")), None);
    assert_eq!(parse_mac_prefix(&chars("00:")), None);
    assert_eq!(parse_mac_prefix(&chars(":00")), None);
    assert_eq!(parse_mac_prefix(&chars("100")), None);
    assert_eq!(parse_mac_prefix(&chars("-1")), None);
}

#[test]
fn an_empty_register_knows_nobody() {
    let db = OuiDb::new();
    assert_eq!(vendor(&db, &mac([0, 0, 1, 0, 0, 0])), None);
    assert_eq!(build_db("").h24.len(), 0);
}
