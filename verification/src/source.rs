//! Address discovery. Every source reduces to one job: take a page and pick the
//! `ip:port` candidates out of it with one shared pattern; no per-site table parsing,
//! since A2S gives the authoritative live data later. Adding a source is one more
//! entry in `sources`. The pages themselves are fetched by the caller.

use vstd::prelude::*;
use std::collections::BTreeSet;
use crate::model::{Addr, addr_key, lemma_addr_key};
use crate::addr::{parse_socket_addr, parse_socket_addr_spec};
use crate::addrset::{addrs_of_keys, keys_valid, listing_of, sorted_listing, sorted_by_key};
use crate::text::{chars_of, contains_seq, dec, push_dec, replace_all, replace_chars, string_of};

verus! {

broadcast use vstd::std_specs::btree::group_btree_axioms;

/// The browser identity the pages are fetched with.
pub const USER_AGENT: &'static str =
    "Mozilla/5.0 (Macintosh; Intel Mac OS X 10_15_7) AppleWebKit/537.36 (KHTML, like Gecko) Chrome/120.0 Safari/537.36";

/// The pattern of an `ip:port` candidate in a page.
pub const ADDR_PATTERN: &'static str = "\\b(?:\\d{1,3}\\.){3}\\d{1,3}:\\d{2,5}\\b";

/// The placeholder for the page number in a source's URL template.
pub const PAGE_PLACEHOLDER: &'static str = "{page}";

/// A page source: a URL template with `{page}` and how many pages to walk.
pub struct Source {
    pub name: &'static str,
    pub template: &'static str,
    pub pages: u32,
}

/// The sources, with their pagination parameters: GameTracker uses `searchpge`, the
/// others `page`.
pub fn sources() -> (r: Vec<Source>)
    ensures
        r@.len() == 3,
        r@[0].name@ == "gametracker"@,
        r@[0].template@ == "https://www.gametracker.com/search/csgo/?searchipp=50&searchpge={page}"@,
        r@[0].pages == 5,
        r@[1].name@ == "gamemonitoring"@,
        r@[1].template@ == "https://gamemonitoring.net/counter-strike-global-offensive/servers?page={page}"@,
        r@[1].pages == 3,
        r@[2].name@ == "gs4u"@,
        r@[2].template@ == "https://gs4u.net/en/csgo?page={page}"@,
        r@[2].pages == 3,
{
    let mut r: Vec<Source> = Vec::new();
    r.push(
        Source {
            name: "gametracker",
            template: "https://www.gametracker.com/search/csgo/?searchipp=50&searchpge={page}",
            pages: 5,
        },
    );
    r.push(
        Source {
            name: "gamemonitoring",
            template: "https://gamemonitoring.net/counter-strike-global-offensive/servers?page={page}",
            pages: 3,
        },
    );
    r.push(Source { name: "gs4u", template: "https://gs4u.net/en/csgo?page={page}", pages: 3 });
    r
}

/// The URL of page `page` of a source: the template with `{page}` replaced by the
/// page number.
pub fn page_url(template: &str, page: u32) -> (url: String)
    ensures
        url@ == replace_all(template@, "{page}"@, dec(page as nat)),
{
    let t = chars_of(template);
    let p = chars_of(PAGE_PLACEHOLDER);
    proof {
        reveal_strlit("{page}");
    }
    let mut d: Vec<char> = Vec::new();
    push_dec(&mut d, page as u64);
    assert(d@ =~= dec(page as nat));
    let out = replace_chars(&t, &p, &d);
    string_of(out.as_slice())
}

/// The texts of all matches of the regular expression `pattern` in `text`, left to
/// right and without overlaps, as `Regex::find_iter` gives them; nothing when the
/// pattern does not compile.
pub uninterp spec fn regex_matches(pattern: Seq<char>, text: Seq<char>) -> Option<Seq<Seq<char>>>;

/// `regex::Error`, why a pattern does not compile.
#[verifier::external_type_specification]
#[verifier::external_body]
pub struct ExRegexError(regex::Error);

/// `Regex::new` on `pattern`, then `find_iter` over `text`, each match taken by
/// `Match::as_str`: the matches are named by `regex_matches`, and each is a piece of
/// `text`; the regular expression language is not spelled out here.
#[verifier::external_body]
fn regex_find_all(pattern: &str, text: &str) -> (r: Result<Vec<String>, regex::Error>)
    ensures
        match r {
            Ok(v) => regex_matches(pattern@, text@) == Some(
                v@.map_values(|s: String| s@),
            ) && forall|i: int| 0 <= i < v@.len() ==> contains_seq(text@, #[trigger] v@[i]@),
            Err(_) => regex_matches(pattern@, text@) is None,
        },
{
    let re = regex::Regex::new(pattern)?;
    Ok(re.find_iter(text).map(|m| m.as_str().to_string()).collect())
}

/// Why a page could not be read.
pub enum HarvestError {
    /// The address pattern does not compile.
    BadPattern,
}

/// The addresses that the texts `ms` read as.
pub open spec fn addrs_of_texts(ms: Seq<Seq<char>>) -> Set<Addr> {
    Set::new(
        |a: Addr| exists|i: int| 0 <= i < ms.len() && parse_socket_addr_spec(#[trigger] ms[i]) == Some(a),
    )
}

/// Adding the addresses of a page keeps every address found before, the seed among
/// them, and adds exactly those that the page's matches read as.
pub proof fn lemma_page_keeps(before: Set<Addr>, ms: Seq<Seq<char>>)
    ensures
        before.subset_of(before.union(addrs_of_texts(ms))),
        forall|i: int|
            0 <= i < ms.len() ==> (parse_socket_addr_spec(#[trigger] ms[i]) matches Some(a)
                ==> before.union(addrs_of_texts(ms)).contains(a)),
{
}

/// The candidate addresses found so far, deduplicated and in address order.
pub struct Candidates {
    keys: BTreeSet<u64>,
}

impl View for Candidates {
    type V = Set<Addr>;

    closed spec fn view(&self) -> Set<Addr> {
        addrs_of_keys(self.keys@)
    }
}

impl Candidates {
    #[verifier::type_invariant]
    spec fn inv(self) -> bool {
        keys_valid(self.keys@)
    }

    /// The seed addresses (favourites, the known-good server): always included, so
    /// they are queried even when no source lists them.
    pub fn new(seed: &Vec<Addr>) -> (c: Candidates)
        ensures
            c@ == seed@.to_set(),
    {
        let mut keys: BTreeSet<u64> = BTreeSet::new();
        for i in 0..seed.len()
            invariant
                keys_valid(keys@),
                addrs_of_keys(keys@) == seed@.take(i as int).to_set(),
        {
            let a = seed[i];
            proof {
                lemma_addr_key(a);
            }
            keys.insert(a.key());
            proof {
                assert forall|b: Addr| addrs_of_keys(keys@).contains(b) <==> seed@.take(i + 1).to_set().contains(b) by {
                    lemma_addr_key(b);
                    let t = seed@.take(i + 1);
                    if addr_key(b) == addr_key(a) {
                        assert(b == crate::model::addr_of_key(addr_key(b)));
                        assert(t[i as int] == a);
                    }
                    if t.to_set().contains(b) {
                        let k = choose|k: int| 0 <= k < t.len() && t[k] == b;
                        if k < i {
                            assert(seed@.take(i as int)[k] == b);
                        }
                    }
                    if seed@.take(i as int).to_set().contains(b) {
                        let k = choose|k: int| 0 <= k < i && seed@.take(i as int)[k] == b;
                        assert(t[k] == b);
                    }
                }
                assert(addrs_of_keys(keys@) =~= seed@.take(i + 1).to_set());
            }
        }
        assert(seed@.take(seed@.len() as int) =~= seed@);
        Candidates { keys }
    }

    /// Adds the addresses found in one page: every match of the address pattern that
    /// reads as `ip:port`.
    pub fn add_page(&mut self, body: &str) -> (r: Result<(), HarvestError>)
        ensures
            match regex_matches(ADDR_PATTERN@, body@) {
                Some(ms) => r is Ok && final(self)@ == old(self)@.union(addrs_of_texts(ms)),
                None => r is Err && final(self)@ == old(self)@,
            },
    {
        proof {
            use_type_invariant(&*self);
        }
        let ms = match regex_find_all(ADDR_PATTERN, body) {
            Ok(ms) => ms,
            Err(_) => return Err(HarvestError::BadPattern),
        };
        let ghost texts = ms@.map_values(|s: String| s@);
        let mut keys: BTreeSet<u64> = BTreeSet::new();
        std::mem::swap(&mut keys, &mut self.keys);
        let ghost start = addrs_of_keys(keys@);
        for i in 0..ms.len()
            invariant
                texts == ms@.map_values(|s: String| s@),
                keys_valid(keys@),
                addrs_of_keys(keys@) == start.union(addrs_of_texts(texts.take(i as int))),
        {
            let ghost before = addrs_of_keys(keys@);
            let found = parse_socket_addr(ms[i].as_str());
            proof {
                let t = texts.take(i + 1);
                assert(t[i as int] == ms@[i as int]@);
                assert forall|b: Addr| addrs_of_texts(t).contains(b) <==> (addrs_of_texts(texts.take(i as int)).contains(b)
                    || found == Some(b)) by {
                    if addrs_of_texts(t).contains(b) {
                        let k = choose|k: int| 0 <= k < t.len() && parse_socket_addr_spec(#[trigger] t[k]) == Some(b);
                        if k < i {
                            assert(texts.take(i as int)[k] == t[k]);
                        }
                    }
                    if addrs_of_texts(texts.take(i as int)).contains(b) {
                        let k = choose|k: int| 0 <= k < i && parse_socket_addr_spec(#[trigger] texts.take(i as int)[k]) == Some(b);
                        assert(texts.take(i as int)[k] == t[k]);
                    }
                }
            }
            match found {
                Some(a) => {
                    proof {
                        lemma_addr_key(a);
                    }
                    keys.insert(a.key());
                    proof {
                        assert forall|b: Addr| addrs_of_keys(keys@).contains(b) <==> before.insert(a).contains(b) by {
                            lemma_addr_key(b);
                            if addr_key(b) == addr_key(a) {
                                assert(b == crate::model::addr_of_key(addr_key(b)));
                            }
                        }
                        assert(addrs_of_keys(keys@) =~= start.union(addrs_of_texts(texts.take(i + 1))));
                    }
                },
                None => {
                    proof {
                        assert(addrs_of_keys(keys@) =~= start.union(addrs_of_texts(texts.take(i + 1))));
                    }
                },
            }
        }
        assert(texts.take(ms@.len() as int) =~= texts);
        self.keys = keys;
        Ok(())
    }

    /// How many candidates there are.
    pub fn len(&self) -> (n: usize)
        ensures
            n == self@.len(),
    {
        let q = self.addrs();
        proof {
            assert(q@.no_duplicates()) by {
                assert forall|i: int, j: int| 0 <= i < q@.len() && 0 <= j < q@.len() && i != j implies q@[i] != q@[j] by {
                    if i < j {
                        assert(addr_key(q@[i]) < addr_key(q@[j]));
                    } else {
                        assert(addr_key(q@[j]) < addr_key(q@[i]));
                    }
                }
            }
            q@.unique_seq_to_set();
        }
        q.len()
    }

    /// The candidates, in address order.
    pub fn addrs(&self) -> (r: Vec<Addr>)
        ensures
            r@ == sorted_listing(self@),
            sorted_by_key(r@),
            r@.to_set() == self@,
    {
        proof {
            use_type_invariant(self);
        }
        listing_of(&self.keys)
    }
}

} // verus!
