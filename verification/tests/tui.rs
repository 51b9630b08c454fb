use csgo_scanner::blocklist::Blocklist;
use csgo_scanner::favourites::Favourites;
use csgo_scanner::model::{Addr, ServerInfo};
use csgo_scanner::tui::{clamp, move_sel, seed, Action, App, Filter, Key, Sort};

fn srv(ip_last: u8, version: &str, latency: u64, players: u8) -> ServerInfo {
    ServerInfo {
        addr: Addr::new(10, 0, 0, ip_last, 27015),
        latency_nanos: latency,
        protocol: 17,
        name: "n".into(),
        map: "de_dust2".into(),
        folder: "csgo".into(),
        game: "g".into(),
        players,
        max_players: 32,
        bots: 0,
        version: version.into(),
        country: String::new(),
    }
}

fn app() -> App {
    let servers = vec![
        srv(0, "1.41.6.5", 10, 3),
        srv(1, "1.38.7.3", 50, 9),
        srv(2, "1.38.8.1", 90, 1),
        srv(3, "1.38.7.3", 20, 9),
        srv(4, "1.37.5.0", 5, 4),
    ];
    App::new(servers, Favourites::load("10.0.0.4:27015\n10.0.0.0:27015"), Blocklist::new())
}

#[test]
fn clamp_keeps_selection_on_a_row() {
    assert_eq!(clamp(Some(3), 0), None);
    assert_eq!(clamp(None, 0), None);
    assert_eq!(clamp(None, 4), Some(3));
    assert_eq!(clamp(Some(9), 4), Some(3));
    assert_eq!(clamp(Some(2), 4), Some(2));
}

#[test]
fn move_wraps_around() {
    assert_eq!(move_sel(Some(0), 3, -1), Some(2));
    assert_eq!(move_sel(Some(2), 3, 1), Some(0));
    assert_eq!(move_sel(Some(1), 3, 1), Some(2));
    assert_eq!(move_sel(None, 3, 1), Some(1));
    assert_eq!(move_sel(Some(1), 0, 1), Some(1));
    assert_eq!(move_sel(move_sel(Some(1), 5, 1), 5, -1), Some(1));
}

#[test]
fn relevance_view_orders_by_badge_then_ping() {
    let a = app();
    assert_eq!(a.status, "5 servers");
    assert_eq!(a.view(), vec![2, 3, 1, 4, 0]);
}

#[test]
fn other_sorts_and_filters() {
    let mut a = app();
    let mut sel = Some(0);
    let v = a.view();
    assert_eq!(a.on_key(Key::CycleSort, &mut sel, &v), Action::Continue);
    assert_eq!(a.sort, Sort::Ping);
    assert_eq!(a.view(), vec![4, 0, 3, 1, 2]);
    a.on_key(Key::CycleSort, &mut sel, &v);
    assert_eq!(a.sort, Sort::Players);
    // Ties in players keep their index order.
    assert_eq!(a.view(), vec![1, 3, 4, 0, 2]);
    a.on_key(Key::CycleSort, &mut sel, &v);
    assert_eq!(a.sort, Sort::Relevance);
    a.on_key(Key::CycleFilter, &mut sel, &v);
    assert_eq!(a.filter, Filter::Joinable);
    assert_eq!(a.view(), vec![2, 3, 1]);
    a.on_key(Key::CycleFilter, &mut sel, &v);
    assert_eq!(a.filter, Filter::Favourites);
    assert_eq!(a.view(), vec![4, 0]);
    a.on_key(Key::CycleFilter, &mut sel, &v);
    assert_eq!(a.filter, Filter::All);
    assert_eq!(sel, Some(0));
    assert_eq!(Sort::Players.name(), "players");
    assert_eq!(Filter::Favourites.name(), "favourites");
}

#[test]
fn keys_move_favourite_block_and_rescan() {
    let mut a = app();
    let v = a.view();
    let mut sel = Some(0);
    assert_eq!(a.on_key(Key::Up, &mut sel, &v), Action::Continue);
    assert_eq!(sel, Some(4));
    assert_eq!(a.on_key(Key::Down, &mut sel, &v), Action::Continue);
    assert_eq!(sel, Some(0));
    assert_eq!(a.on_key(Key::Favourite, &mut sel, &v), Action::SaveFavourites);
    assert!(a.favs.contains(&Addr::new(10, 0, 0, 2, 27015)));
    assert_eq!(a.status, "★ favourited 10.0.0.2:27015");
    assert_eq!(a.on_key(Key::Favourite, &mut sel, &v), Action::SaveFavourites);
    assert_eq!(a.status, "☆ unfavourited 10.0.0.2:27015");
    assert_eq!(a.on_key(Key::Block, &mut sel, &v), Action::SaveBlocklist);
    assert_eq!(a.status, "✗ blocked 10.0.0.2:27015");
    assert_eq!(a.on_key(Key::Block, &mut sel, &v), Action::SaveBlocklist);
    assert_eq!(a.status, "✓ unblocked 10.0.0.2:27015");
    let mut none = None;
    assert_eq!(a.on_key(Key::Favourite, &mut none, &v), Action::Continue);
    assert_eq!(a.on_key(Key::Other, &mut sel, &v), Action::Continue);
    assert_eq!(a.on_key(Key::Rescan, &mut sel, &v), Action::Rescan);
    assert_eq!(a.status, "Scanning… (please wait)");
    a.rescanned(vec![srv(9, "1.38.8.1", 1, 1)]);
    assert_eq!(a.status, "1 servers (rescanned)");
    assert_eq!(a.view(), vec![0]);
    assert_eq!(a.on_key(Key::Quit, &mut sel, &v), Action::Quit);
    assert_eq!(a.status, "1 servers (rescanned)");
}

#[test]
fn seed_is_favourites_then_known_good() {
    let favs = Favourites::load("9.9.9.9:1\n1.1.1.1:1");
    assert_eq!(
        seed(&favs),
        vec![Addr::new(1, 1, 1, 1, 1), Addr::new(9, 9, 9, 9, 1), Addr::new(51, 77, 47, 244, 27015)]
    );
    assert_eq!(app().seed().len(), 3);
}

#[test]
fn selection_past_the_view_selects_nothing() {
    let mut a = app();
    let v = a.view();
    let before = a.status.clone();
    let mut sel = Some(v.len());
    assert_eq!(a.on_key(Key::Favourite, &mut sel, &v), Action::Continue);
    assert_eq!(a.on_key(Key::Block, &mut sel, &v), Action::Continue);
    assert_eq!(a.status, before);
    assert_eq!(sel, Some(v.len()));
    let stale = vec![0usize, 99];
    let mut sel = Some(1);
    assert_eq!(a.on_key(Key::Favourite, &mut sel, &stale), Action::Continue);
    assert_eq!(a.status, before);
}

#[test]
fn three_presses_restore_sort_and_filter() {
    let mut a = app();
    let v = a.view();
    let mut sel = Some(0);
    for _ in 0..3 {
        a.on_key(Key::CycleSort, &mut sel, &v);
    }
    assert_eq!(a.sort, Sort::Relevance);
    for _ in 0..3 {
        a.on_key(Key::CycleFilter, &mut sel, &v);
    }
    assert_eq!(a.filter, Filter::All);
    assert_eq!(a.status, "5 servers");
    assert_eq!(sel, Some(0));
}

#[test]
fn moves_far_from_zero_wrap() {
    assert_eq!(move_sel(Some(usize::MAX - 1), usize::MAX, 1), Some(0));
    assert_eq!(move_sel(Some(0), usize::MAX, -1), Some(usize::MAX - 1));
}
