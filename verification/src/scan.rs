//! The scan pipeline's own steps: the always-queried seed, stamping countries on
//! the live servers, and ordering them by badge, then latency.

use vstd::prelude::*;
use std::collections::HashMap;
use crate::model::{Addr, ServerInfo, badge_rank};
use crate::classify::{badge_of, classify};
use crate::addr::{parse_socket_addr, parse_socket_addr_spec};
use crate::sort::{sorted_order, stable_sort_indices};

verus! {

broadcast use vstd::std_specs::hash::group_hash_axioms;

/// The known-good server: always queried, so it shows up even when no source lists it.
pub const KNOWN_GOOD: &'static str = "51.77.47.244:27015";

/// How long one A2S query may wait for a reply, in milliseconds.
pub const A2S_TIMEOUT_MS: u64 = 2000;

/// How many A2S queries may run at once.
pub const MAX_CONCURRENT: usize = 256;

/// The address of the known-good server.
pub fn known_good() -> (r: Option<Addr>)
    ensures
        r == parse_socket_addr_spec(KNOWN_GOOD@),
{
    parse_socket_addr(KNOWN_GOOD)
}

/// The server `s` with the country of `countries` for its IP, where there is one;
/// otherwise `s` unchanged.
pub open spec fn country_after(s: ServerInfo, r: ServerInfo, countries: Map<u32, String>) -> bool {
    &&& r.addr == s.addr
    &&& r.latency_nanos == s.latency_nanos
    &&& r.protocol == s.protocol
    &&& r.name == s.name
    &&& r.map == s.map
    &&& r.folder == s.folder
    &&& r.game == s.game
    &&& r.players == s.players
    &&& r.max_players == s.max_players
    &&& r.bots == s.bots
    &&& r.version == s.version
    &&& r.country == (if countries.contains_key(s.addr.ip) {
        countries[s.addr.ip]
    } else {
        s.country
    })
}

/// Stamps each server with the country found for its IP; a server whose IP has no
/// country keeps the one it had.
pub fn apply_countries(servers: Vec<ServerInfo>, countries: &HashMap<u32, String>) -> (r: Vec<
    ServerInfo,
>)
    ensures
        r@.len() == servers@.len(),
        forall|i: int| 0 <= i < r@.len() ==> country_after(servers@[i], #[trigger] r@[i], countries@),
{
    let ghost orig = servers@;
    let mut out: Vec<ServerInfo> = Vec::new();
    for s in it: servers
        invariant
            it.seq() == orig,
            out@.len() == it.index(),
            forall|i: int| 0 <= i < out@.len() ==> country_after(orig[i], #[trigger] out@[i], countries@),
    {
        let mut s = s;
        let ghost before = s;
        match countries.get(&s.addr.ip) {
            Some(cc) => {
                s.country = cc.clone();
            },
            None => {},
        }
        assert(country_after(before, s, countries@));
        out.push(s);
    }
    out
}

/// Relevance order key: badge rank first, then latency.
pub open spec fn relevance_key(s: ServerInfo) -> u128 {
    (badge_rank(badge_of(s.folder@, s.version@)) as int * 0x1_0000_0000_0000_0000
        + s.latency_nanos as int) as u128
}

/// Relevance puts a server with a lower badge rank first whatever the latencies, and
/// among servers of one badge rank the one with the lower latency first.
pub proof fn lemma_relevance_order(a: ServerInfo, b: ServerInfo)
    ensures
        badge_rank(badge_of(a.folder@, a.version@)) < badge_rank(badge_of(b.folder@, b.version@))
            ==> relevance_key(a) < relevance_key(b),
        badge_rank(badge_of(a.folder@, a.version@)) == badge_rank(badge_of(b.folder@, b.version@))
            ==> (relevance_key(a) <= relevance_key(b) <==> a.latency_nanos <= b.latency_nanos)
            && (relevance_key(a) < relevance_key(b) <==> a.latency_nanos < b.latency_nanos),
{
    let ra = badge_rank(badge_of(a.folder@, a.version@)) as int;
    let rb = badge_rank(badge_of(b.folder@, b.version@)) as int;
    assert(0 <= ra <= 3 && 0 <= rb <= 3);
    let ka = ra * 0x1_0000_0000_0000_0000 + a.latency_nanos as int;
    let kb = rb * 0x1_0000_0000_0000_0000 + b.latency_nanos as int;
    assert(0 <= ka < 0x4_0000_0000_0000_0000);
    assert(0 <= kb < 0x4_0000_0000_0000_0000);
    assert(relevance_key(a) == ka);
    assert(relevance_key(b) == kb);
}

/// Server `a` may come before server `b` in relevance order: a lower badge rank, or the
/// same badge rank and no higher latency.
pub open spec fn relevance_no_later(a: ServerInfo, b: ServerInfo) -> bool {
    let ra = badge_rank(badge_of(a.folder@, a.version@));
    let rb = badge_rank(badge_of(b.folder@, b.version@));
    ra < rb || (ra == rb && a.latency_nanos <= b.latency_nanos)
}

/// Two servers whose keys are in order are in relevance order.
pub proof fn lemma_key_order_is_relevance(a: ServerInfo, b: ServerInfo)
    requires
        relevance_key(a) <= relevance_key(b),
    ensures
        relevance_no_later(a, b),
{
    lemma_relevance_order(a, b);
    lemma_relevance_order(b, a);
}

/// The relevance keys of a list of servers.
pub open spec fn relevance_keys(servers: Seq<ServerInfo>) -> Seq<u128> {
    servers.map_values(|s: ServerInfo| relevance_key(s))
}

/// The indices `0..n`.
pub open spec fn all_rows(n: nat) -> Set<usize> {
    Set::new(|i: usize| i < n)
}

/// The relevance key of one server.
pub fn relevance_key_of(s: &ServerInfo) -> (k: u128)
    ensures
        k == relevance_key(*s),
{
    let r = classify(s).rank();
    r as u128 * 0x1_0000_0000_0000_0000u128 + s.latency_nanos as u128
}

/// The indices `0..n` in order.
pub fn index_list(n: usize) -> (v: Vec<usize>)
    ensures
        v@.len() == n,
        forall|i: int| 0 <= i < n ==> v@[i] == i,
        v@.no_duplicates(),
        v@.to_set() == all_rows(n as nat),
{
    let mut v: Vec<usize> = Vec::new();
    for i in 0..n
        invariant
            v@.len() == i,
            forall|k: int| 0 <= k < i ==> v@[k] == k,
    {
        v.push(i);
    }
    assert(v@.to_set() =~= all_rows(n as nat)) by {
        assert forall|i: usize| v@.to_set().contains(i) <==> all_rows(n as nat).contains(i) by {
            if i < n {
                assert(v@[i as int] == i);
            }
        }
    }
    v
}

/// Puts each element of `v` in a slot of its own.
pub fn into_slots<T>(v: Vec<T>) -> (r: Vec<Option<T>>)
    ensures
        r@.len() == v@.len(),
        forall|i: int| 0 <= i < v@.len() ==> r@[i] == Some(#[trigger] v@[i]),
{
    let ghost orig = v@;
    let mut r: Vec<Option<T>> = Vec::new();
    for x in it: v
        invariant
            it.seq() == orig,
            r@.len() == it.index(),
            forall|i: int| 0 <= i < it.index() ==> r@[i] == Some(#[trigger] orig[i]),
    {
        r.push(Some(x));
    }
    r
}

/// Takes the element out of slot `i`.
pub fn take_at<T>(v: &mut Vec<Option<T>>, i: usize) -> (r: Option<T>)
    requires
        i < old(v)@.len(),
    ensures
        r == old(v)@[i as int],
        final(v)@ == old(v)@.update(i as int, None),
{
    let mut out: Option<T> = None;
    std::mem::swap(&mut out, &mut v[i]);
    out
}

/// The elements of `items` in the order of the indices `order`, each used once.
pub fn gather<T>(items: Vec<T>, order: &Vec<usize>) -> (r: Vec<T>)
    requires
        order@.no_duplicates(),
        forall|k: int| 0 <= k < order@.len() ==> (#[trigger] order@[k]) < items@.len(),
    ensures
        r@ == order@.map_values(|i: usize| items@[i as int]),
{
    let ghost orig = items@;
    let mut slots = into_slots(items);
    let mut r: Vec<T> = Vec::new();
    for k in 0..order.len()
        invariant
            order@.no_duplicates(),
            forall|m: int| 0 <= m < order@.len() ==> (#[trigger] order@[m]) < orig.len(),
            slots@.len() == orig.len(),
            forall|m: int| k <= m < order@.len() ==> slots@[#[trigger] order@[m] as int] == Some(orig[order@[m] as int]),
            r@ == order@.take(k as int).map_values(|i: usize| orig[i as int]),
    {
        let i = order[k];
        let x = take_at(&mut slots, i);
        proof {
            assert forall|m: int| k + 1 <= m < order@.len() implies slots@[#[trigger] order@[m] as int]
                == Some(orig[order@[m] as int]) by {
                assert(order@[m] != order@[k as int]);
            }
        }
        match x {
            Some(item) => {
                r.push(item);
                proof {
                    assert(order@.take(k + 1).map_values(|i: usize| orig[i as int]) =~= order@.take(
                        k as int,
                    ).map_values(|i: usize| orig[i as int]).push(orig[i as int]));
                }
            },
            None => {},
        }
    }
    assert(order@.take(order@.len() as int) =~= order@);
    r
}

/// The servers ordered by badge rank, then latency; servers that tie keep their order.
pub fn sort_by_relevance(servers: Vec<ServerInfo>) -> (r: Vec<ServerInfo>)
    ensures
        r@ == sorted_order(relevance_keys(servers@), all_rows(servers@.len())).map_values(
            |i: usize| servers@[i as int],
        ),
        r@.len() == servers@.len(),
        exists|p: Seq<usize>|
            p.len() == servers@.len() && p.no_duplicates() && forall|k: int|
                0 <= k < p.len() ==> (#[trigger] p[k]) < servers@.len() && r@[k] == servers@[p[k] as int],
        forall|i: int, j: int| 0 <= i < j < r@.len() ==> relevance_key(r@[i]) <= relevance_key(r@[j]),
        forall|i: int, j: int| 0 <= i < j < r@.len() ==> relevance_no_later(r@[i], r@[j]),
{
    let n = servers.len();
    let mut keys: Vec<u128> = Vec::new();
    for i in 0..n
        invariant
            n == servers@.len(),
            keys@.len() == i,
            forall|k: int| 0 <= k < i ==> keys@[k] == relevance_key(servers@[k]),
    {
        keys.push(relevance_key_of(&servers[i]));
    }
    assert(keys@ =~= relevance_keys(servers@));
    let idx = index_list(n);
    let order = stable_sort_indices(&keys, &idx);
    proof {
        crate::sort::lemma_in_order_no_duplicates(keys@, order@);
        assert forall|k: int| 0 <= k < order@.len() implies (#[trigger] order@[k]) < servers@.len() by {
            assert(order@.to_set().contains(order@[k]));
        }
    }
    let ghost orig = servers@;
    let r = gather(servers, &order);
    proof {
        assert forall|i: int, j: int| 0 <= i < j < r@.len() implies relevance_key(r@[i]) <= relevance_key(r@[j]) by {
            assert(crate::sort::before(keys@, order@[i], order@[j]));
        }
        assert forall|i: int, j: int| 0 <= i < j < r@.len() implies relevance_no_later(r@[i], r@[j]) by {
            assert(crate::sort::before(keys@, order@[i], order@[j]));
            lemma_key_order_is_relevance(r@[i], r@[j]);
        }
        assert(order@.len() == orig.len()) by {
            order@.unique_seq_to_set();
            lemma_all_rows_len(orig.len());
        }
    }
    r
}

/// There are `n` rows `0..n`.
proof fn lemma_all_rows_len(n: nat)
    requires
        n <= usize::MAX,
    ensures
        all_rows(n).finite(),
        all_rows(n).len() == n,
    decreases n,
{
    if n == 0 {
        assert(all_rows(0) =~= Set::<usize>::empty());
    } else {
        lemma_all_rows_len((n - 1) as nat);
        assert(all_rows(n) =~= all_rows((n - 1) as nat).insert((n - 1) as usize));
    }
}

} // verus!
