use netman::model::packet::IpAddr;
use netman::resolve::dns::{
    accept_name, is_resolvable, may_start, Attempted, Resolver, CONCURRENT_LOOKUPS, REQUEST_QUEUE,
};

fn v6(segments: [u16; 8]) -> IpAddr {
    let mut octets = [0u8; 16];
    for (i, s) in segments.iter().enumerate() {
        octets[2 * i] = (s >> 8) as u8;
        octets[2 * i + 1] = (s & 0xff) as u8;
    }
    IpAddr::V6(octets)
}

#[test]
fn resolvable_filter() {
    let yes = [
        ("192.168.0.21", IpAddr::V4([192, 168, 0, 21])),
        ("8.8.8.8", IpAddr::V4([8, 8, 8, 8])),
        ("2a01:e0a::1", v6([0x2a01, 0x0e0a, 0, 0, 0, 0, 0, 1])),
        ("fd00::1", v6([0xfd00, 0, 0, 0, 0, 0, 0, 1])),
    ];
    let no = [
        ("224.0.0.251", IpAddr::V4([224, 0, 0, 251])),
        ("255.255.255.255", IpAddr::V4([255, 255, 255, 255])),
        ("0.0.0.0", IpAddr::V4([0, 0, 0, 0])),
        ("127.0.0.1", IpAddr::V4([127, 0, 0, 1])),
        ("169.254.1.2", IpAddr::V4([169, 254, 1, 2])),
        ("ff02::fb", v6([0xff02, 0, 0, 0, 0, 0, 0, 0xfb])),
        ("fe80::1", v6([0xfe80, 0, 0, 0, 0, 0, 0, 1])),
        ("::", v6([0; 8])),
    ];
    for (ip, addr) in yes {
        assert!(is_resolvable(&addr), "{ip} should resolve");
    }
    for (ip, addr) in no {
        assert!(!is_resolvable(&addr), "{ip} should be skipped");
    }
}

#[test]
fn resolvable_edges() {
    assert!(is_resolvable(&IpAddr::V4([223, 255, 255, 255])));
    assert!(!is_resolvable(&IpAddr::V4([239, 255, 255, 255])));
    assert!(is_resolvable(&IpAddr::V4([240, 0, 0, 0])));
    assert!(is_resolvable(&IpAddr::V4([255, 255, 255, 254])));
    assert!(is_resolvable(&IpAddr::V4([0, 0, 0, 1])));
    assert!(is_resolvable(&IpAddr::V4([169, 253, 1, 2])));
    assert!(!is_resolvable(&v6([0, 0, 0, 0, 0, 0, 0, 1])));
    assert!(is_resolvable(&v6([0, 0, 0, 0, 0, 0, 0, 2])));
    assert!(is_resolvable(&v6([0, 0, 0, 0, 0, 0, 1, 1])));
    assert!(!is_resolvable(&v6([0xfebf, 0, 0, 0, 0, 0, 0, 1])));
    assert!(is_resolvable(&v6([0xfec0, 0, 0, 0, 0, 0, 0, 1])));
    assert!(is_resolvable(&v6([0xfe7f, 0, 0, 0, 0, 0, 0, 1])));
}

#[test]
fn each_address_is_tried_once() {
    let mut attempted = Attempted::new();
    let requests = [
        IpAddr::V4([8, 8, 8, 8]),
        IpAddr::V4([127, 0, 0, 1]),
        IpAddr::V4([8, 8, 4, 4]),
        IpAddr::V4([8, 8, 8, 8]),
        v6([0, 0, 0, 0, 0, 0, 0x0808, 0x0808]),
        IpAddr::V4([127, 0, 0, 1]),
        IpAddr::V4([8, 8, 4, 4]),
    ];
    let tried: Vec<bool> = requests.iter().map(|ip| attempted.try_once(ip)).collect();
    assert_eq!(tried, vec![true, false, true, false, true, false, false]);
}

#[test]
fn the_written_address_is_no_name() {
    let ip = IpAddr::V4([8, 8, 8, 8]);
    assert_eq!(
        accept_name(&ip, Some("dns.google".to_string())),
        Some("dns.google".to_string())
    );
    assert_eq!(accept_name(&ip, Some("8.8.8.8".to_string())), None);
    assert_eq!(accept_name(&ip, None), None);
    let ip = v6([0x2a01, 0xe0a, 0, 0, 0, 0, 0, 1]);
    assert_eq!(accept_name(&ip, Some("2a01:e0a::1".to_string())), None);
    assert!(accept_name(&ip, Some("2a01:0e0a::1".to_string())).is_some());
}

#[test]
fn limits_of_the_resolver() {
    assert_eq!(CONCURRENT_LOOKUPS, 8);
    assert_eq!(REQUEST_QUEUE, 1024);
}

#[test]
fn at_most_eight_lookups_run() {
    assert!(may_start(7));
    assert!(!may_start(8));
    let mut resolver = Resolver::new();
    let ip = |n: u8| IpAddr::V4([8, 8, 8, n]);
    for n in 0..8 {
        assert_eq!(resolver.request(&ip(n)), Some(ip(n)));
    }
    assert_eq!(resolver.running(), 8);
    // Known or useless addresses take no slot and do not wait.
    assert_eq!(resolver.request(&ip(0)), None);
    assert_eq!(resolver.request(&IpAddr::V4([127, 0, 0, 1])), None);
    assert!(!resolver.is_waiting());
    assert_eq!(resolver.request(&ip(8)), None);
    assert!(resolver.is_waiting());
    assert_eq!(resolver.finished(), Some(ip(8)));
    assert_eq!(resolver.running(), 8);
    assert!(!resolver.is_waiting());
    assert_eq!(resolver.finished(), None);
    assert_eq!(resolver.running(), 7);
    // What waited counts as tried.
    assert_eq!(resolver.request(&ip(8)), None);
    assert_eq!(resolver.request(&ip(9)), Some(ip(9)));
}
