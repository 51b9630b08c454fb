//! The interactive view's state and decisions: which rows show, in which order, where
//! the selection goes, and what each key does. Drawing and the terminal are the
//! caller's; it performs the action a key asks for and hands back what came of it.

use vstd::prelude::*;
use crate::model::{Addr, Badge, ServerInfo};
use crate::classify::{badge_of, classify};
use crate::favourites::Favourites;
use crate::blocklist::Blocklist;
use crate::addr::{addr_text, push_addr};
use crate::scan::{known_good, relevance_key, relevance_key_of, relevance_no_later};
use crate::addr::parse_socket_addr_spec;
use crate::sort::{in_order, sorted_order, stable_sort_indices};
use crate::text::{chars_of, dec, push_dec, push_str, string_of};
use crate::table::joinable;

verus! {

/// The row order of the view.
#[derive(Debug, Clone, Copy, PartialEq, Eq, Structural)]
pub enum Sort {
    /// Badge rank, then ping.
    Relevance,
    Ping,
    /// Most players first.
    Players,
}

/// Which rows the view shows.
#[derive(Debug, Clone, Copy, PartialEq, Eq, Structural)]
pub enum Filter {
    All,
    /// Exact build and the 2023 family.
    Joinable,
    Favourites,
}

/// The sort after `s` when the sort key is pressed.
pub open spec fn next_sort(s: Sort) -> Sort {
    match s {
        Sort::Relevance => Sort::Ping,
        Sort::Ping => Sort::Players,
        Sort::Players => Sort::Relevance,
    }
}

/// The filter after `f` when the filter key is pressed.
pub open spec fn next_filter(f: Filter) -> Filter {
    match f {
        Filter::All => Filter::Joinable,
        Filter::Joinable => Filter::Favourites,
        Filter::Favourites => Filter::All,
    }
}

/// The name of a sort in the help line.
pub open spec fn sort_name(s: Sort) -> Seq<char> {
    match s {
        Sort::Relevance => "relevance"@,
        Sort::Ping => "ping"@,
        Sort::Players => "players"@,
    }
}

/// The name of a filter in the help line.
pub open spec fn filter_name(f: Filter) -> Seq<char> {
    match f {
        Filter::All => "all"@,
        Filter::Joinable => "joinable"@,
        Filter::Favourites => "favourites"@,
    }
}

impl Sort {
    /// The name of the sort in the help line.
    pub fn name(self) -> (s: &'static str)
        ensures
            s@ == sort_name(self),
    {
        match self {
            Sort::Relevance => "relevance",
            Sort::Ping => "ping",
            Sort::Players => "players",
        }
    }
}

impl Filter {
    /// The name of the filter in the help line.
    pub fn name(self) -> (s: &'static str)
        ensures
            s@ == filter_name(self),
    {
        match self {
            Filter::All => "all",
            Filter::Joinable => "joinable",
            Filter::Favourites => "favourites",
        }
    }
}

/// The order key of a server under a sort: smaller first.
pub open spec fn sort_key(sort: Sort, s: ServerInfo) -> u128 {
    match sort {
        Sort::Relevance => relevance_key(s),
        Sort::Ping => s.latency_nanos as u128,
        Sort::Players => (255 - s.players) as u128,
    }
}

/// Under the ping sort the lower latency comes first; under the players sort the
/// server reporting more players comes first, the key depending on the players count
/// alone; under relevance, the lower badge rank first, then the lower latency.
pub proof fn lemma_sort_key_order(a: ServerInfo, b: ServerInfo)
    ensures
        sort_key(Sort::Ping, a) <= sort_key(Sort::Ping, b) <==> a.latency_nanos <= b.latency_nanos,
        sort_key(Sort::Ping, a) < sort_key(Sort::Ping, b) <==> a.latency_nanos < b.latency_nanos,
        sort_key(Sort::Players, a) <= sort_key(Sort::Players, b) <==> a.players >= b.players,
        sort_key(Sort::Players, a) < sort_key(Sort::Players, b) <==> a.players > b.players,
        a.players == b.players ==> sort_key(Sort::Players, a) == sort_key(Sort::Players, b),
        sort_key(Sort::Relevance, a) <= sort_key(Sort::Relevance, b) ==> relevance_no_later(a, b),
        relevance_no_later(a, b) && !relevance_no_later(b, a) ==> sort_key(Sort::Relevance, a)
            < sort_key(Sort::Relevance, b),
{
    crate::scan::lemma_relevance_order(a, b);
    crate::scan::lemma_relevance_order(b, a);
}

/// Server `a` may be shown before server `b` under a sort: no higher latency (ping),
/// no fewer players (players), or relevance order.
pub open spec fn no_later(sort: Sort, a: ServerInfo, b: ServerInfo) -> bool {
    match sort {
        Sort::Relevance => relevance_no_later(a, b),
        Sort::Ping => a.latency_nanos <= b.latency_nanos,
        Sort::Players => a.players >= b.players,
    }
}

/// The order keys of all servers under a sort.
pub open spec fn sort_keys(sort: Sort, servers: Seq<ServerInfo>) -> Seq<u128> {
    servers.map_values(|s: ServerInfo| sort_key(sort, s))
}

/// Whether a server passes a filter.
pub open spec fn passes(filter: Filter, favs: Set<Addr>, s: ServerInfo) -> bool {
    match filter {
        Filter::All => true,
        Filter::Joinable => joinable(s),
        Filter::Favourites => favs.contains(s.addr),
    }
}

/// The indices of the servers that pass a filter.
pub open spec fn shown_rows(filter: Filter, favs: Set<Addr>, servers: Seq<ServerInfo>) -> Set<
    usize,
> {
    Set::new(|i: usize| i < servers.len() && passes(filter, favs, servers[i as int]))
}

/// The selection after the row count became `len`: none when there are no rows, the
/// last row when there was none or it ran past the end, else unchanged.
pub open spec fn clamped(selected: Option<usize>, len: usize) -> Option<usize> {
    if len == 0 {
        None
    } else if selected matches Some(s) && s < len {
        selected
    } else {
        Some((len - 1) as usize)
    }
}

/// Keeps the selection within `len` rows.
pub fn clamp(selected: Option<usize>, len: usize) -> (r: Option<usize>)
    ensures
        r == clamped(selected, len),
{
    if len == 0 {
        None
    } else {
        match selected {
            Some(s) => if s >= len {
                Some(len - 1)
            } else {
                Some(s)
            },
            None => Some(len - 1),
        }
    }
}

/// The selection `delta` rows on, wrapping around at either end; no rows leave it as
/// it is.
pub open spec fn moved(selected: Option<usize>, len: usize, delta: isize) -> Option<usize> {
    if len == 0 {
        selected
    } else {
        let cur = match selected {
            Some(s) => s as int,
            None => 0,
        };
        Some(((cur + delta) % (len as int)) as usize)
    }
}

/// After a clamp, the selection is on a row, unless there are none.
pub proof fn lemma_clamped_in_range(selected: Option<usize>, len: usize)
    ensures
        len == 0 <==> clamped(selected, len) is None,
        clamped(selected, len) matches Some(s) ==> s < len,
{
}

/// A move stays on a row; moving down then up, or up then down, comes back to the
/// same row, wrapping around at the ends.
pub proof fn lemma_moved(s: usize, len: usize)
    requires
        s < len,
    ensures
        moved(Some(s), len, 1isize) matches Some(t) && t < len,
        moved(Some(s), len, -1isize) matches Some(t) && t < len,
        moved(moved(Some(s), len, 1isize), len, -1isize) == Some(s),
        moved(moved(Some(s), len, -1isize), len, 1isize) == Some(s),
        s + 1 < len ==> moved(Some(s), len, 1isize) == Some((s + 1) as usize),
        s + 1 == len ==> moved(Some(s), len, 1isize) == Some(0usize),
        s == 0 ==> moved(Some(s), len, -1isize) == Some((len - 1) as usize),
{
    let n = len as int;
    let x = s as int;
    assert(0 <= (x + 1) % n < n) by (nonlinear_arith)
        requires
            n > 0,
    ;
    assert(0 <= (x - 1) % n < n) by (nonlinear_arith)
        requires
            n > 0,
    ;
    if x + 1 < n {
        lemma_mod_of(x + 1, n, 0);
        lemma_mod_of(x, n, 0);
    } else {
        lemma_mod_of(x + 1, n, 1);
        lemma_mod_of(-1, n, -1);
    }
    if x >= 1 {
        lemma_mod_of(x - 1, n, 0);
        lemma_mod_of(x, n, 0);
    } else {
        lemma_mod_of(-1, n, -1);
        lemma_mod_of(n, n, 1);
    }
}

/// `a % n` is `a - q * n` when that lies in `0..n`.
proof fn lemma_mod_of(a: int, n: int, q: int)
    requires
        n > 0,
        0 <= a - q * n < n,
    ensures
        a % n == a - q * n,
{
    vstd::arithmetic::div_mod::lemma_fundamental_div_mod_converse(a, n, q, a - q * n);
}

/// Pressing the sort key three times, or the filter key three times, comes back to
/// where it started.
pub proof fn lemma_cycles(s: Sort, f: Filter)
    ensures
        next_sort(next_sort(next_sort(s))) == s,
        next_filter(next_filter(next_filter(f))) == f,
        next_sort(s) != s,
        next_filter(f) != f,
{
}

/// Moves the selection `delta` rows, wrapping around.
pub fn move_sel(selected: Option<usize>, len: usize, delta: isize) -> (r: Option<usize>)
    ensures
        r == moved(selected, len, delta),
{
    if len == 0 {
        return selected;
    }
    let cur: i128 = match selected {
        Some(s) => s as i128,
        None => 0,
    };
    let next: i128 = cur + delta as i128;
    match next.checked_rem_euclid(len as i128) {
        Some(m) => Some(m as usize),
        None => selected,
    }
}

/// What a key press asks for.
#[derive(Debug, Clone, Copy, PartialEq, Eq, Structural)]
pub enum Key {
    /// 'q' or Esc.
    Quit,
    /// Down or 'j'.
    Down,
    /// Up or 'k'.
    Up,
    /// 's'.
    CycleSort,
    /// 'm'.
    CycleFilter,
    /// 'f'.
    Favourite,
    /// 'b'.
    Block,
    /// 'r'.
    Rescan,
    /// Any other key.
    Other,
}

/// What the caller does after a key.
#[derive(Debug, Clone, Copy, PartialEq, Eq, Structural)]
pub enum Action {
    /// Redraw and wait for the next key.
    Continue,
    /// Leave the view.
    Quit,
    /// Save the favourites file, then go on.
    SaveFavourites,
    /// Save the blocklist file, then go on.
    SaveBlocklist,
    /// Redraw, scan again from `seed`, and hand the servers to `rescanned`.
    Rescan,
}

/// The server index of the selected row of `view`: none when nothing is selected, the
/// selection is past the view, or the row is past the servers.
pub open spec fn picked(selected: Option<usize>, view: Seq<usize>, servers: Seq<ServerInfo>) -> Option<
    usize,
> {
    match selected {
        Some(s) => if s < view.len() && view[s as int] < servers.len() {
            Some(view[s as int])
        } else {
            None
        },
        None => None,
    }
}

/// The server index of the selected row of `view`.
pub fn pick(selected: Option<usize>, view: &Vec<usize>, servers: &Vec<ServerInfo>) -> (r: Option<
    usize,
>)
    ensures
        r == picked(selected, view@, servers@),
{
    match selected {
        Some(s) => if s < view.len() && view[s] < servers.len() {
            Some(view[s])
        } else {
            None
        },
        None => None,
    }
}

/// The interactive view's state.
pub struct App {
    pub servers: Vec<ServerInfo>,
    pub favs: Favourites,
    pub blocked: Blocklist,
    pub sort: Sort,
    pub filter: Filter,
    pub status: String,
}

/// "{n} servers", the status after a scan.
pub open spec fn count_status(n: nat) -> Seq<char> {
    dec(n) + " servers"@
}

/// The status after flipping an address: favourited / unfavourited, blocked /
/// unblocked.
pub open spec fn flip_status(favourite: bool, now: bool, a: Addr) -> Seq<char> {
    (if favourite {
        if now {
            "★ favourited "@
        } else {
            "☆ unfavourited "@
        }
    } else {
        if now {
            "✗ blocked "@
        } else {
            "✓ unblocked "@
        }
    }) + addr_text(a)
}

/// The status while a scan runs.
pub open spec fn scanning_status() -> Seq<char> {
    "Scanning… (please wait)"@
}

/// "{n} servers".
fn servers_status(n: usize) -> (s: String)
    ensures
        s@ == count_status(n as nat),
{
    let mut cs: Vec<char> = Vec::new();
    push_dec(&mut cs, n as u64);
    push_str(&mut cs, " servers");
    string_of(cs.as_slice())
}

impl App {
    /// The view of a fresh scan: relevance order, every server shown.
    pub fn new(servers: Vec<ServerInfo>, favs: Favourites, blocked: Blocklist) -> (app: App)
        ensures
            app.servers == servers,
            app.favs == favs,
            app.blocked == blocked,
            app.sort == Sort::Relevance,
            app.filter == Filter::All,
            app.status@ == count_status(servers@.len()),
    {
        let status = servers_status(servers.len());
        App { servers, favs, blocked, sort: Sort::Relevance, filter: Filter::All, status }
    }

    /// The indices of `servers` to show: those that pass the filter, in the sort's order
    /// (rows that tie keep their index order).
    pub fn view(&self) -> (r: Vec<usize>)
        ensures
            r@ == sorted_order(
                sort_keys(self.sort, self.servers@),
                shown_rows(self.filter, self.favs@, self.servers@),
            ),
            r@.to_set() == shown_rows(self.filter, self.favs@, self.servers@),
            in_order(sort_keys(self.sort, self.servers@), r@),
            forall|k: int| 0 <= k < r@.len() ==> #[trigger] r@[k] < self.servers@.len(),
            forall|i: int, j: int|
                #![trigger r@[i], r@[j]]
                0 <= i < j < r@.len() ==> no_later(
                    self.sort,
                    self.servers@[r@[i] as int],
                    self.servers@[r@[j] as int],
                ),
    {
        let n = self.servers.len();
        let mut idx: Vec<usize> = Vec::new();
        let mut keys: Vec<u128> = Vec::new();
        for i in 0..n
            invariant
                n == self.servers@.len(),
                keys@.len() == i,
                forall|k: int| 0 <= k < i ==> keys@[k] == sort_key(self.sort, #[trigger] self.servers@[k]),
                forall|k: int| 0 <= k < idx@.len() ==> (#[trigger] idx@[k]) < i,
                forall|k: int, m: int| 0 <= k < m < idx@.len() ==> idx@[k] < idx@[m],
                forall|j: usize| j < i ==> (idx@.contains(j) <==> passes(self.filter, self.favs@, self.servers@[j as int])),
        {
            let s = &self.servers[i];
            let shown = match self.filter {
                Filter::All => true,
                Filter::Joinable => {
                    let b = classify(s);
                    b == Badge::Match || b == Badge::Legacy2023
                },
                Filter::Favourites => self.favs.contains(&s.addr),
            };
            let ghost before = idx@;
            if shown {
                idx.push(i);
                proof {
                    assert forall|j: usize| j < i + 1 implies (idx@.contains(j) <==> passes(self.filter, self.favs@, self.servers@[j as int])) by {
                        if j < i {
                            if before.contains(j) {
                                let k = choose|k: int| 0 <= k < before.len() && before[k] == j;
                                assert(idx@[k] == j);
                            }
                            if idx@.contains(j) {
                                let k = choose|k: int| 0 <= k < idx@.len() && idx@[k] == j;
                                if k == before.len() {
                                } else {
                                    assert(before[k] == j);
                                }
                            }
                        } else {
                            assert(idx@[before.len() as int] == i);
                        }
                    }
                }
            } else {
                proof {
                    assert forall|j: usize| j < i + 1 implies (idx@.contains(j) <==> passes(self.filter, self.favs@, self.servers@[j as int])) by {
                        if j == i && idx@.contains(j) {
                            let k = choose|k: int| 0 <= k < idx@.len() && idx@[k] == j;
                        }
                    }
                }
            }
            let k = match self.sort {
                Sort::Relevance => relevance_key_of(s),
                Sort::Ping => s.latency_nanos as u128,
                Sort::Players => (255 - s.players) as u128,
            };
            keys.push(k);
        }
        proof {
            assert(keys@ =~= sort_keys(self.sort, self.servers@));
            assert(idx@.no_duplicates()) by {
                assert forall|a: int, b: int| 0 <= a < idx@.len() && 0 <= b < idx@.len() && a != b implies idx@[a] != idx@[b] by {
                    if a < b {
                        assert(idx@[a] < idx@[b]);
                    } else {
                        assert(idx@[b] < idx@[a]);
                    }
                }
            }
            assert(idx@.to_set() =~= shown_rows(self.filter, self.favs@, self.servers@)) by {
                assert forall|j: usize| idx@.to_set().contains(j) <==> shown_rows(self.filter, self.favs@, self.servers@).contains(j) by {
                    if idx@.to_set().contains(j) {
                        let k = choose|k: int| 0 <= k < idx@.len() && idx@[k] == j;
                        assert(idx@.contains(j));
                    }
                    if shown_rows(self.filter, self.favs@, self.servers@).contains(j) {
                        assert(idx@.contains(j));
                    }
                }
            }
        }
        let r = stable_sort_indices(&keys, &idx);
        proof {
            let sv = self.servers@;
            let ks = sort_keys(self.sort, sv);
            assert forall|k: int| 0 <= k < r@.len() implies #[trigger] r@[k] < sv.len() by {
                assert(r@.to_set().contains(r@[k]));
                assert(shown_rows(self.filter, self.favs@, sv).contains(r@[k]));
            }
            assert forall|i: int, j: int|
                #![trigger r@[i], r@[j]]
                0 <= i < j < r@.len() implies no_later(self.sort, sv[r@[i] as int], sv[r@[j] as int]) by {
                assert(r@[i] < sv.len() && r@[j] < sv.len());
                assert(crate::sort::before(ks, r@[i], r@[j]));
                lemma_sort_key_order(sv[r@[i] as int], sv[r@[j] as int]);
            }
        }
        r
    }

    /// Handles a key. `selected` is the selected row of `view`, the view as last drawn;
    /// a selection past the view, or a row past the servers, selects nothing.
    pub fn on_key(&mut self, key: Key, selected: &mut Option<usize>, view: &Vec<usize>) -> (a: Action)
        ensures
            final(self).servers == old(self).servers,
            key == Key::Quit ==> a == Action::Quit && final(self).status == old(self).status,
            key == Key::Down ==> *final(selected) == moved(*old(selected), view@.len() as usize, 1isize),
            key == Key::Up ==> *final(selected) == moved(*old(selected), view@.len() as usize, -1isize),
            key != Key::Down && key != Key::Up ==> *final(selected) == *old(selected),
            key == Key::CycleSort ==> final(self).sort == next_sort(old(self).sort),
            key != Key::CycleSort ==> final(self).sort == old(self).sort,
            key == Key::CycleFilter ==> final(self).filter == next_filter(old(self).filter),
            key != Key::CycleFilter ==> final(self).filter == old(self).filter,
            (key == Key::Favourite && picked(*old(selected), view@, old(self).servers@) is Some) ==> ({
                let addr = old(self).servers@[picked(*old(selected), view@, old(self).servers@)->0 as int].addr;
                &&& final(self).favs@ == crate::addrset::toggled(old(self).favs@, addr)
                &&& final(self).status@ == flip_status(true, final(self).favs@.contains(addr), addr)
                &&& a == Action::SaveFavourites
            }),
            !(key == Key::Favourite && picked(*old(selected), view@, old(self).servers@) is Some) ==> final(self).favs@ == old(self).favs@,
            (key == Key::Block && picked(*old(selected), view@, old(self).servers@) is Some) ==> ({
                let addr = old(self).servers@[picked(*old(selected), view@, old(self).servers@)->0 as int].addr;
                &&& final(self).blocked@ == crate::addrset::toggled(old(self).blocked@, addr)
                &&& final(self).status@ == flip_status(false, final(self).blocked@.contains(addr), addr)
                &&& a == Action::SaveBlocklist
            }),
            !(key == Key::Block && picked(*old(selected), view@, old(self).servers@) is Some) ==> final(self).blocked@ == old(self).blocked@,
            key == Key::Rescan ==> final(self).status@ == scanning_status() && a == Action::Rescan,
            (key != Key::Quit && key != Key::Rescan && !(key == Key::Favourite && picked(
                *old(selected),
                view@,
                old(self).servers@,
            ) is Some) && !(key == Key::Block && picked(*old(selected), view@, old(self).servers@) is Some))
                ==> a == Action::Continue
                && final(self).status == old(self).status,
    {
        match key {
            Key::Quit => Action::Quit,
            Key::Down => {
                *selected = move_sel(*selected, view.len(), 1);
                Action::Continue
            },
            Key::Up => {
                *selected = move_sel(*selected, view.len(), -1);
                Action::Continue
            },
            Key::CycleSort => {
                self.sort = match self.sort {
                    Sort::Relevance => Sort::Ping,
                    Sort::Ping => Sort::Players,
                    Sort::Players => Sort::Relevance,
                };
                Action::Continue
            },
            Key::CycleFilter => {
                self.filter = match self.filter {
                    Filter::All => Filter::Joinable,
                    Filter::Joinable => Filter::Favourites,
                    Filter::Favourites => Filter::All,
                };
                Action::Continue
            },
            Key::Favourite => match pick(*selected, view, &self.servers) {
                Some(i) => {
                    let addr = self.servers[i].addr;
                    let now = self.favs.toggle(addr);
                    self.status = flip_message(true, now, addr);
                    Action::SaveFavourites
                },
                None => Action::Continue,
            },
            Key::Block => match pick(*selected, view, &self.servers) {
                Some(i) => {
                    let addr = self.servers[i].addr;
                    let now = self.blocked.toggle(addr);
                    self.status = flip_message(false, now, addr);
                    Action::SaveBlocklist
                },
                None => Action::Continue,
            },
            Key::Rescan => {
                self.status = string_of(chars_of("Scanning… (please wait)").as_slice());
                Action::Rescan
            },
            Key::Other => Action::Continue,
        }
    }

    /// The addresses worth querying on a rescan: every favourite, then the known-good
    /// server.
    pub fn seed(&self) -> (r: Vec<Addr>)
        ensures
            r@ == seed_list(self.favs@),
    {
        seed(&self.favs)
    }

    /// Takes the servers of a finished rescan.
    pub fn rescanned(&mut self, servers: Vec<ServerInfo>)
        ensures
            final(self).servers == servers,
            final(self).favs == old(self).favs,
            final(self).blocked == old(self).blocked,
            final(self).sort == old(self).sort,
            final(self).filter == old(self).filter,
            final(self).status@ == count_status(servers@.len()) + " (rescanned)"@,
    {
        let mut cs: Vec<char> = Vec::new();
        push_dec(&mut cs, servers.len() as u64);
        push_str(&mut cs, " servers (rescanned)");
        assert(cs@ =~= count_status(servers@.len()) + " (rescanned)"@) by {
            reveal_strlit(" servers (rescanned)");
            reveal_strlit(" servers");
            reveal_strlit(" (rescanned)");
        }
        self.status = string_of(cs.as_slice());
        self.servers = servers;
    }
}

/// The status after flipping `a`.
fn flip_message(favourite: bool, now: bool, a: Addr) -> (s: String)
    ensures
        s@ == flip_status(favourite, now, a),
{
    let mut cs: Vec<char> = Vec::new();
    if favourite {
        if now {
            push_str(&mut cs, "★ favourited ");
        } else {
            push_str(&mut cs, "☆ unfavourited ");
        }
    } else {
        if now {
            push_str(&mut cs, "✗ blocked ");
        } else {
            push_str(&mut cs, "✓ unblocked ");
        }
    }
    push_addr(&mut cs, a);
    string_of(cs.as_slice())
}

/// The favourites in address order, then the known-good server.
pub open spec fn seed_list(favs: Set<Addr>) -> Seq<Addr> {
    crate::addrset::sorted_listing(favs) + match parse_socket_addr_spec(crate::scan::KNOWN_GOOD@) {
        Some(a) => seq![a],
        None => Seq::empty(),
    }
}

/// Seed addresses always worth querying: every favourite, then the known-good server.
pub fn seed(favs: &Favourites) -> (r: Vec<Addr>)
    ensures
        r@ == seed_list(favs@),
{
    let mut v = favs.addrs();
    match known_good() {
        Some(a) => {
            v.push(a);
        },
        None => {},
    }
    v
}

} // verus!
