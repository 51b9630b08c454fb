use csgo_scanner::model::{Addr, Badge, ServerInfo};
use csgo_scanner::scan::{apply_countries, known_good, sort_by_relevance, KNOWN_GOOD};
use csgo_scanner::classify::classify;
use std::collections::HashMap;

fn srv(ip_last: u8, version: &str, latency: u64) -> ServerInfo {
    ServerInfo {
        addr: Addr::new(10, 0, 0, ip_last, 27015),
        latency_nanos: latency,
        protocol: 17,
        name: "n".into(),
        map: "de_dust2".into(),
        folder: "csgo".into(),
        game: "g".into(),
        players: 0,
        max_players: 0,
        bots: 0,
        version: version.into(),
        country: String::new(),
    }
}

#[test]
fn known_good_parses() {
    assert_eq!(KNOWN_GOOD, "51.77.47.244:27015");
    assert_eq!(known_good(), Some(Addr::new(51, 77, 47, 244, 27015)));
}

#[test]
fn sorted_by_badge_then_latency_stably() {
    let servers = vec![
        srv(0, "1.41.6.5", 1),
        srv(1, "1.38.7.3", 30),
        srv(2, "1.38.8.1", 99),
        srv(3, "1.38.7.3", 30),
        srv(4, "1.38.7.3", 10),
        srv(5, "1.37.0.0", 0),
    ];
    let sorted = sort_by_relevance(servers);
    let order: Vec<u8> = sorted.iter().map(|s| s.addr.octets()[3]).collect();
    assert_eq!(order, vec![2, 4, 1, 3, 5, 0]);
    assert_eq!(classify(&sorted[0]), Badge::Match);
    assert!(sort_by_relevance(Vec::new()).is_empty());
}

#[test]
fn countries_are_stamped_by_ip() {
    let mut countries = HashMap::new();
    countries.insert(Addr::new(10, 0, 0, 1, 0).ip, "DE".to_string());
    let mut s2 = srv(2, "1.38.8.1", 5);
    s2.country = "XX".into();
    let out = apply_countries(vec![srv(1, "1.38.8.1", 5), s2], &countries);
    assert_eq!(out[0].country, "DE");
    assert_eq!(out[1].country, "XX");
    assert_eq!(out[0].latency_nanos, 5);
}
