use csgo_scanner::model::Addr;
use csgo_scanner::source::{page_url, sources, Candidates, ADDR_PATTERN, USER_AGENT};

#[test]
fn sources_and_their_pages() {
    let s = sources();
    assert_eq!(s.len(), 3);
    assert_eq!((s[0].name, s[0].pages), ("gametracker", 5));
    assert_eq!((s[1].name, s[1].pages), ("gamemonitoring", 3));
    assert_eq!((s[2].name, s[2].pages), ("gs4u", 3));
    assert!(USER_AGENT.starts_with("Mozilla/5.0 (Macintosh; Intel Mac OS X 10_15_7)"));
    assert!(USER_AGENT.ends_with("(KHTML, like Gecko) Chrome/120.0 Safari/537.36"));
}

#[test]
fn page_number_goes_into_the_template() {
    let s = sources();
    assert_eq!(page_url(s[0].template, 3), "https://www.gametracker.com/search/csgo/?searchipp=50&searchpge=3");
    assert_eq!(page_url(s[2].template, 12), "https://gs4u.net/en/csgo?page=12");
    for src in &s {
        for p in 1..=src.pages {
            assert_eq!(page_url(src.template, p), src.template.replace("{page}", &p.to_string()));
        }
    }
    assert_eq!(page_url("a{page}b{page}", 7), "a7b7");
    assert_eq!(page_url("none", 7), "none");
}

#[test]
fn seed_is_always_included() {
    let seed = vec![Addr::new(51, 77, 47, 244, 27015), Addr::new(1, 1, 1, 1, 1)];
    let c = Candidates::new(&seed);
    assert_eq!(c.len(), 2);
    assert_eq!(c.addrs(), vec![Addr::new(1, 1, 1, 1, 1), Addr::new(51, 77, 47, 244, 27015)]);
}

#[test]
fn page_addresses_are_found_and_deduplicated() {
    let seed = vec![Addr::new(51, 77, 47, 244, 27015)];
    let mut c = Candidates::new(&seed);
    let page = "<td>51.77.47.244:27015</td><td>10.0.0.1:27016</td> 999.1.1.1:80 1.2.3.4:5 \
                <a>10.0.0.1:27016</a> 8.8.8.8:53x 9.9.9.9:123456";
    assert!(c.add_page(page).is_ok());
    assert_eq!(c.addrs(), vec![Addr::new(10, 0, 0, 1, 27016), Addr::new(51, 77, 47, 244, 27015)]);
    assert!(c.add_page("nothing here").is_ok());
    assert_eq!(c.len(), 2);
    let re = regex::Regex::new(ADDR_PATTERN).unwrap();
    assert_eq!(re.find_iter(page).count(), 4);
}
