use csgo_scanner::model::{Addr, ServerInfo};
use csgo_scanner::table::{
    count_joinable, country_label, header, ms_text, players_cell, row_marker, rule, summary,
    table_row, trunc, view_row, Marker, Tint,
};

fn srv(version: &str, map: &str, latency_ms: u64, country: &str) -> ServerInfo {
    ServerInfo {
        addr: Addr::new(51, 77, 47, 244, 27015),
        latency_nanos: latency_ms * 1_000_000 + 999_999,
        protocol: 17,
        name: "test".into(),
        map: map.into(),
        folder: "csgo".into(),
        game: "Counter-Strike: Global Offensive".into(),
        players: 5,
        max_players: 12,
        bots: 0,
        version: version.into(),
        country: country.into(),
    }
}

#[test]
fn trunc_keeps_short_text_and_marks_cuts() {
    assert_eq!(trunc("de_dust2", 16), "de_dust2");
    assert_eq!(trunc("abcdef", 6), "abcdef");
    assert_eq!(trunc("abcdefg", 6), "abcde…");
    assert_eq!(trunc("äöüäöüä", 3), "äö…");
    assert_eq!(trunc("abc", 0), "…");
    assert_eq!(trunc("", 0), "");
    assert!(trunc("a very long map name indeed", 16).chars().count() <= 16);
}

#[test]
fn cells() {
    assert_eq!(country_label(""), "??");
    assert_eq!(country_label("DE"), "DE");
    assert_eq!(ms_text(42_999_999), "42ms");
    assert_eq!(players_cell(5, 12), "5/12");
    assert_eq!(row_marker(true, true), Marker::Blocked);
    assert_eq!(row_marker(false, true), Marker::Favourite);
    assert_eq!(row_marker(false, false), Marker::Plain);
    assert_eq!(Marker::Blocked.symbol(), "✗");
    assert_eq!(Marker::Favourite.star(), "★ ");
    assert_eq!(Marker::Plain.star(), "  ");
}

#[test]
fn header_and_rule_match_the_layout() {
    let want = format!(
        "{:<2}{:<6} {:>6} {:>6} {:<12} {:<3} {:<16} {}",
        "", "BADGE", "PING", "PLRS", "MODE", "CC", "MAP", "ADDR"
    );
    assert_eq!(header(), want);
    assert_eq!(rule(), "-".repeat(96));
}

#[test]
fn row_matches_the_layout() {
    let s = srv("1.38.8.1", "workshop/1/surf_a_very_long_name", 42, "");
    let want = format!(
        "{}{:<6} {:>4}ms {:>5} {:<12} {:<3} {:<16} {}",
        "★ ", "MATCH", 42, "5/12", "Surf", "??", "workshop/1/surf…", "51.77.47.244:27015"
    );
    assert_eq!(table_row(&s, Marker::Favourite), want);
    let s = srv("1.41.6.5", "de_dust2", 12345, "FR");
    let want = format!(
        "{}{:<6} {:>4}ms {:>5} {:<12} {:<3} {:<16} {}",
        "  ", "—", 12345, "5/12", "Bomb", "FR", "de_dust2", "51.77.47.244:27015"
    );
    assert_eq!(table_row(&s, Marker::Plain), want);
}

#[test]
fn joinable_means_match_or_2023() {
    let servers = vec![
        srv("1.38.8.1", "de_dust2", 1, ""),
        srv("1.38.7.3", "de_dust2", 1, ""),
        srv("1.37.5.0", "de_dust2", 1, ""),
        srv("1.41.6.5", "de_dust2", 1, ""),
    ];
    assert_eq!(count_joinable(&servers), 2);
    assert_eq!(summary(4, 2), "\n4 live servers, 2 joinable for your build (MATCH/2023).");
}

#[test]
fn view_rows_hold_nine_cells_and_their_colours() {
    let mut s = srv("1.38.8.1", "workshop/123/surf_ski_2", 42, "");
    s.name = "A very long server name that goes on and on".into();
    let r = view_row(&s, true, true);
    assert_eq!(
        r.cells,
        vec![
            "✗", "MATCH", "42ms", "5/12", "Surf", "??", "workshop/123/su…", "51.77.47.244:27015",
            "A very long server name that …",
        ]
    );
    assert_eq!(r.marker_tint, Tint::Red);
    assert_eq!(r.row_tint, Tint::Green);
    assert!(r.dimmed);
    let r = view_row(&srv("1.38.7.3", "de_dust2", 1, "DE"), false, true);
    assert_eq!(r.cells[0], "★");
    assert_eq!(r.cells[5], "DE");
    assert_eq!(r.marker_tint, Tint::Yellow);
    assert_eq!(r.row_tint, Tint::Cyan);
    assert!(!r.dimmed);
    assert_eq!(view_row(&srv("1.37.0.0", "x", 1, ""), false, false).row_tint, Tint::Yellow);
    assert_eq!(view_row(&srv("1.41.6.5", "x", 1, ""), false, false).row_tint, Tint::DarkGray);
    assert_eq!(view_row(&srv("1.41.6.5", "x", 1, ""), false, false).cells[0], " ");
}
