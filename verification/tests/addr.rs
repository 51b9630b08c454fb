use csgo_scanner::addr::{addr_to_string, parse_ipv4, parse_socket_addr};
use csgo_scanner::model::Addr;

#[test]
fn parses_known_good_address() {
    let a = parse_socket_addr("51.77.47.244:27015").unwrap();
    assert_eq!(a, Addr::new(51, 77, 47, 244, 27015));
    assert_eq!(a.octets(), [51, 77, 47, 244]);
    assert_eq!(a.port, 27015);
}

#[test]
fn rejects_malformed_addresses() {
    for s in [
        "", "1.2.3.4", "1.2.3.4:", "1.2.3:80", "1.2.3.4.5:80", "01.2.3.4:80", "256.1.1.1:80",
        "1.2.3.4:65536", "1.2.3.4:8a", " 1.2.3.4:80", "1.2.3.4:80 ", "1.2.3.4:-1", "1234.1.1.1:80",
        "a.b.c.d:80", "1..3.4:80",
    ] {
        assert_eq!(parse_socket_addr(s), None, "{s:?}");
    }
}

#[test]
fn accepts_zero_padded_ports_and_extremes() {
    assert_eq!(parse_socket_addr("0.0.0.0:0"), Some(Addr::new(0, 0, 0, 0, 0)));
    assert_eq!(parse_socket_addr("255.255.255.255:65535"), Some(Addr::new(255, 255, 255, 255, 65535)));
    assert_eq!(parse_socket_addr("1.2.3.4:0080"), Some(Addr::new(1, 2, 3, 4, 80)));
    assert_eq!(parse_socket_addr("10.0.0.1:00000000027015"), Some(Addr::new(10, 0, 0, 1, 27015)));
}

#[test]
fn decides_edge_cases() {
    assert_eq!(parse_socket_addr("1.2.3.4:80"), Some(Addr::new(1, 2, 3, 4, 80)));
    assert_eq!(parse_socket_addr("0.0.0.0:65535"), Some(Addr::new(0, 0, 0, 0, 65535)));
    for s in [
        "001.2.3.4:80", "1.2.3.04:80", "1.2.3.4:65536", "1.2.3.4:99999999999999999999",
        "300.2.3.4:1", "1.2.3.4::1", "1.2.3.4:+1", "\u{661}.2.3.4:1",
    ] {
        assert_eq!(parse_socket_addr(s), None, "{s:?}");
    }
}

#[test]
fn address_text_round_trips() {
    let cases = [
        (Addr::new(51, 77, 47, 244, 27015), "51.77.47.244:27015"),
        (Addr::new(0, 0, 0, 0, 0), "0.0.0.0:0"),
        (Addr::new(255, 255, 255, 255, 65535), "255.255.255.255:65535"),
        (Addr::new(1, 2, 3, 4, 80), "1.2.3.4:80"),
    ];
    for (a, text) in cases {
        let s = addr_to_string(a);
        assert_eq!(s, text);
        assert_eq!(parse_socket_addr(&s), Some(a));
    }
}

#[test]
fn parses_plain_ipv4() {
    assert_eq!(parse_ipv4("10.0.0.1"), Some(10 * 16777216 + 1));
    assert_eq!(parse_ipv4("10.0.0.1:80"), None);
    assert_eq!(parse_ipv4("10.0.0"), None);
}

#[test]
fn address_keys_order_by_ip_then_port() {
    let a = Addr::new(1, 2, 3, 4, 9000);
    let b = Addr::new(1, 2, 3, 5, 80);
    assert!(a.key() < b.key());
    assert_eq!(Addr::from_key(a.key()), a);
    assert_eq!(Addr::from_key(b.key()), b);
}
