use csgo_scanner::blocklist::Blocklist;
use csgo_scanner::favourites::Favourites;
use csgo_scanner::model::Addr;

#[test]
fn loads_one_address_per_line() {
    let f = Favourites::load("5.6.7.8:9\n  1.2.3.4:80  \r\ngarbage\n\n1.2.3.4:80\n01.2.3.4:1");
    assert_eq!(f.addrs(), vec![Addr::new(1, 2, 3, 4, 80), Addr::new(5, 6, 7, 8, 9)]);
    assert!(f.contains(&Addr::new(5, 6, 7, 8, 9)));
    assert!(!f.contains(&Addr::new(5, 6, 7, 8, 10)));
}

#[test]
fn missing_file_is_empty() {
    let f = Favourites::load("");
    assert!(f.addrs().is_empty());
    assert_eq!(f.to_text(), "");
}

#[test]
fn saved_text_is_sorted_lines() {
    let f = Favourites::load("9.9.9.9:1\n1.1.1.1:2\n");
    assert_eq!(f.to_text(), "1.1.1.1:2\n9.9.9.9:1");
}

#[test]
fn saved_text_loads_back() {
    let mut f = Favourites::new();
    for a in [Addr::new(51, 77, 47, 244, 27015), Addr::new(1, 2, 3, 4, 80), Addr::new(1, 2, 3, 4, 79)] {
        assert!(f.toggle(a));
    }
    let g = Favourites::load(&f.to_text());
    assert_eq!(g.addrs(), f.addrs());
    assert_eq!(g.addrs().len(), 3);
}

#[test]
fn toggle_flips_and_reports_new_state() {
    let a = Addr::new(51, 77, 47, 244, 27015);
    let b = Addr::new(1, 1, 1, 1, 1);
    let mut f = Favourites::load("1.1.1.1:1");
    assert!(f.toggle(a));
    assert!(f.contains(&a));
    assert!(f.contains(&b));
    assert!(!f.toggle(a));
    assert!(!f.contains(&a));
    assert!(f.contains(&b));
    assert_eq!(f.to_text(), "1.1.1.1:1");
}

#[test]
fn default_is_empty() {
    assert!(Favourites::default().addrs().is_empty());
    assert!(Blocklist::default().addrs().is_empty());
}

#[test]
fn blocklist_behaves_like_favourites() {
    let a = Addr::new(8, 8, 8, 8, 53);
    let mut b = Blocklist::load("8.8.4.4:53\n");
    assert!(b.toggle(a));
    assert_eq!(b.to_text(), "8.8.4.4:53\n8.8.8.8:53");
    assert!(!b.toggle(a));
    assert!(!b.contains(&a));
    assert_eq!(Blocklist::load(&b.to_text()).addrs(), b.addrs());
}
