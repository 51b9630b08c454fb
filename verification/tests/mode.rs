use csgo_scanner::mode::{infer, infer_lowered};
use csgo_scanner::model::{Addr, ServerInfo};

fn srv(map: &str, name: &str) -> ServerInfo {
    ServerInfo {
        addr: Addr::new(127, 0, 0, 1, 27015),
        latency_nanos: 0,
        protocol: 17,
        name: name.into(),
        map: map.into(),
        folder: "csgo".into(),
        game: "Counter-Strike: Global Offensive".into(),
        players: 0,
        max_players: 0,
        bots: 0,
        version: "1.38.8.1".into(),
        country: String::new(),
    }
}

#[test]
fn map_prefix_decides_first() {
    assert_eq!(infer(&srv("surf_utopia", "zombie deathmatch")), "Surf");
    assert_eq!(infer(&srv("bhop_x", "")), "Bhop");
    assert_eq!(infer(&srv("kz_x", "")), "KZ/Climb");
    assert_eq!(infer(&srv("climb_x", "")), "KZ/Climb");
    assert_eq!(infer(&srv("jb_x", "")), "Jailbreak");
    assert_eq!(infer(&srv("ba_jail_x", "")), "Jailbreak");
    assert_eq!(infer(&srv("ze_x", "")), "Zombie Esc");
    assert_eq!(infer(&srv("zm_x", "")), "Zombie");
    assert_eq!(infer(&srv("aim_x", "")), "Aim");
    assert_eq!(infer(&srv("awp_x", "")), "AWP");
    assert_eq!(infer(&srv("gg_x", "")), "GunGame");
    assert_eq!(infer(&srv("am_x", "")), "Retake/Arena");
    assert_eq!(infer(&srv("de_dust2", "")), "Bomb");
    assert_eq!(infer(&srv("cs_office", "")), "Hostage");
    assert_eq!(infer(&srv("fy_pool", "")), "?");
}

#[test]
fn name_keywords_come_after_map_prefixes() {
    assert_eq!(infer(&srv("de_dust2", "Best JAIL server")), "Jailbreak");
    assert_eq!(infer(&srv("de_dust2", "ZOMBIE fun")), "Zombie");
    assert_eq!(infer(&srv("de_dust2", "only AWP")), "AWP");
    assert_eq!(infer(&srv("de_dust2", "Arms Race 24/7")), "GunGame");
    assert_eq!(infer(&srv("de_dust2", "RETAKE")), "Retake/Arena");
    assert_eq!(infer(&srv("de_dust2", "FFA DM")), "Deathmatch");
    assert_eq!(infer(&srv("de_dust2", "x [DM] y")), "Deathmatch");
    assert_eq!(infer(&srv("de_dust2", "best dm ever")), "Deathmatch");
    assert_eq!(infer(&srv("de_dust2", "Deathmatch")), "Deathmatch");
}

#[test]
fn workshop_maps_use_their_basename() {
    assert_eq!(infer(&srv("workshop/123456/surf_utopia", "")), "Surf");
    assert_eq!(infer(&srv("workshop/1/", "")), "?");
    assert_eq!(infer(&srv("Workshop/99/DE_Mirage", "")), "Bomb");
}

#[test]
fn lowered_inputs_are_taken_as_they_are() {
    assert_eq!(infer_lowered("SURF_x", ""), "?");
    assert_eq!(infer_lowered("surf_x", ""), "Surf");
}
