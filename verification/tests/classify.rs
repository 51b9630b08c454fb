use csgo_scanner::classify::classify;
use csgo_scanner::model::{Addr, Badge, ServerInfo};

fn srv(version: &str, protocol: u8, folder: &str) -> ServerInfo {
    ServerInfo {
        addr: Addr::new(127, 0, 0, 1, 27015),
        latency_nanos: 50_000_000,
        protocol,
        name: "test".into(),
        map: "de_dust2".into(),
        folder: folder.into(),
        game: "Counter-Strike: Global Offensive".into(),
        players: 5,
        max_players: 12,
        bots: 0,
        version: version.into(),
        country: String::new(),
    }
}

#[test]
fn known_good_server_is_match() {
    // The user's actual joinable server.
    assert_eq!(classify(&srv("1.38.8.1", 17, "csgo")), Badge::Match);
}

#[test]
fn other_2023_build_is_legacy_family() {
    assert_eq!(classify(&srv("1.38.7.3", 17, "csgo")), Badge::Legacy2023);
}

#[test]
fn older_csgo_is_candidate() {
    assert_eq!(classify(&srv("1.37.5.0", 17, "csgo")), Badge::OtherCsgo);
}

#[test]
fn cs2_shaped_server_is_not_csgo() {
    // Real CS2 (observed live): gamedir "csgo" AND protocol 17; only the version
    // "1.4x" line gives it away.
    assert_eq!(classify(&srv("1.41.6.5", 17, "csgo")), Badge::NotCsgo);
}

#[test]
fn other_game_is_not_csgo() {
    assert_eq!(classify(&srv("1.38.8.1", 17, "tf")), Badge::NotCsgo);
}
