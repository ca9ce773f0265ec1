use netman::model::packet::IpAddr;

fn v6(segments: [u16; 8]) -> String {
    let mut octets = [0u8; 16];
    for (i, s) in segments.iter().enumerate() {
        octets[2 * i] = (s >> 8) as u8;
        octets[2 * i + 1] = (s & 0xff) as u8;
    }
    IpAddr::V6(octets).to_text()
}

#[test]
fn ipv4_is_dotted() {
    assert_eq!(IpAddr::V4([0, 0, 0, 0]).to_text(), "0.0.0.0");
    assert_eq!(IpAddr::V4([192, 168, 0, 21]).to_text(), "192.168.0.21");
    assert_eq!(IpAddr::V4([255, 10, 100, 9]).to_text(), "255.10.100.9");
}

#[test]
fn ipv6_is_canonical() {
    assert_eq!(v6([0; 8]), "::");
    assert_eq!(v6([0, 0, 0, 0, 0, 0, 0, 1]), "::1");
    assert_eq!(v6([1, 0, 0, 0, 0, 0, 0, 0]), "1::");
    assert_eq!(v6([0xfe80, 0, 0, 0, 0, 0, 0, 1]), "fe80::1");
    assert_eq!(v6([0x2001, 0xdb8, 0, 0, 0, 0, 2, 1]), "2001:db8::2:1");
    // One zero group is written out.
    assert_eq!(v6([0x2001, 0xdb8, 0, 1, 1, 1, 1, 1]), "2001:db8:0:1:1:1:1:1");
    // The first of two longest runs.
    assert_eq!(v6([0x2001, 0xdb8, 0, 0, 1, 0, 0, 1]), "2001:db8::1:0:0:1");
    // The longest run, not the first.
    assert_eq!(v6([0x2001, 0, 0, 1, 0, 0, 0, 1]), "2001:0:0:1::1");
    assert_eq!(v6([8, 0x800, 0x20c, 0x417a, 0xabcd, 0xef01, 0x1000, 0xf]), "8:800:20c:417a:abcd:ef01:1000:f");
    // IPv4 inside IPv6.
    assert_eq!(v6([0, 0, 0, 0, 0, 0xffff, 0xc000, 0x0280]), "::ffff:192.0.2.128");
    assert_eq!(v6([0, 0, 0, 0, 0, 0, 0xc000, 0x0280]), "::c000:280");
}

#[test]
fn different_addresses_are_written_differently() {
    let mut seen = Vec::new();
    for pattern in 0..256u32 {
        let mut segments = [0u16; 8];
        for (i, s) in segments.iter_mut().enumerate() {
            if pattern >> i & 1 == 1 {
                *s = 0xffff;
            }
        }
        let text = v6(segments);
        assert!(!seen.contains(&text), "{text}");
        seen.push(text);
    }
}
