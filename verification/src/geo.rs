//! Country lookup via ip-api.com's batch endpoint: at most 100 addresses per
//! request, one batch per 100 servers, once per scan. Best effort: a failed batch
//! or an entry without both fields just leaves those servers without a country.

use vstd::prelude::*;
use std::collections::HashMap;
use crate::addr::{ipv4_text, parse_ipv4, parse_ipv4_spec, push_ipv4};
use crate::text::string_of;

verus! {

broadcast use vstd::std_specs::hash::group_hash_axioms;

/// The batch endpoint, asking only for the country code and the queried address.
pub const BATCH_URL: &'static str = "http://ip-api.com/batch?fields=countryCode,query";

/// The most addresses one request may hold.
pub const BATCH_SIZE: usize = 100;

/// Batch `k` of `ips`: addresses `100k` up to `100k + 100`, or the end.
pub open spec fn batch(ips: Seq<u32>, k: int) -> Seq<u32> {
    let lo = k * 100;
    let hi = if lo + 100 <= ips.len() {
        lo + 100
    } else {
        ips.len() as int
    };
    ips.subrange(lo, hi)
}

/// The number of batches: `ips` split into runs of 100, the last one shorter.
pub open spec fn batch_count(n: nat) -> nat {
    (n + 99) / 100
}

/// The batches hold every address once, in order: address `i` is entry `i % 100` of
/// batch `i / 100`; no batch is empty or holds more than 100.
pub proof fn lemma_batches_cover(ips: Seq<u32>)
    ensures
        forall|i: int|
            0 <= i < ips.len() ==> #[trigger] batch(ips, i / 100).len() > i % 100 && batch(
                ips,
                i / 100,
            )[i % 100] == ips[i] && i / 100 < batch_count(ips.len()),
        forall|k: int|
            0 <= k < batch_count(ips.len()) ==> 1 <= (#[trigger] batch(ips, k)).len() <= 100,
{
    assert forall|i: int| 0 <= i < ips.len() implies #[trigger] batch(ips, i / 100).len() > i % 100
        && batch(ips, i / 100)[i % 100] == ips[i] && i / 100 < batch_count(ips.len()) by {
        let k = i / 100;
        assert(k * 100 <= i < k * 100 + 100);
        assert(i / 100 < (ips.len() + 99) / 100);
    }
    assert forall|k: int| 0 <= k < batch_count(ips.len()) implies 1 <= (#[trigger] batch(
        ips,
        k,
    )).len() <= 100 by {
        assert(k * 100 < ips.len());
    }
}

/// `ips` split into consecutive batches of at most 100, as `chunks(100)` does.
pub fn batches(ips: &Vec<u32>) -> (r: Vec<Vec<u32>>)
    ensures
        r@.len() == batch_count(ips@.len()),
        forall|k: int| 0 <= k < r@.len() ==> (#[trigger] r@[k])@ == batch(ips@, k),
{
    let n = ips.len();
    let mut r: Vec<Vec<u32>> = Vec::new();
    let mut lo: usize = 0;
    while lo < n
        invariant
            lo <= n == ips@.len(),
            lo == r@.len() * 100 || lo == n,
            lo < n ==> lo == r@.len() * 100,
            r@.len() == batch_count(lo as nat),
            forall|k: int| 0 <= k < r@.len() ==> (#[trigger] r@[k])@ == batch(ips@, k),
        decreases n - lo,
    {
        let hi = if n - lo >= 100 {
            lo + 100
        } else {
            n
        };
        let mut b: Vec<u32> = Vec::new();
        let mut i = lo;
        while i < hi
            invariant
                lo <= i <= hi <= n == ips@.len(),
                b@ == ips@.subrange(lo as int, i as int),
            decreases hi - i,
        {
            b.push(ips[i]);
            i = i + 1;
            assert(b@ =~= ips@.subrange(lo as int, i as int));
        }
        assert(b@ == batch(ips@, r@.len() as int));
        r.push(b);
        lo = hi;
    }
    r
}

/// `"ip"` for each address, joined by commas.
pub open spec fn quoted_ips(ips: Seq<u32>) -> Seq<char>
    decreases ips.len(),
{
    if ips.len() == 0 {
        Seq::empty()
    } else if ips.len() == 1 {
        seq!['"'] + ipv4_text(ips[0]) + seq!['"']
    } else {
        quoted_ips(ips.drop_last()) + seq![','] + seq!['"'] + ipv4_text(ips.last()) + seq!['"']
    }
}

/// The JSON request body for one batch: an array of the addresses as strings.
pub open spec fn batch_body_text(ips: Seq<u32>) -> Seq<char> {
    seq!['['] + quoted_ips(ips) + seq![']']
}

/// The JSON request body for one batch.
pub fn batch_body(ips: &Vec<u32>) -> (s: String)
    ensures
        s@ == batch_body_text(ips@),
{
    let mut cs: Vec<char> = Vec::new();
    cs.push('[');
    for i in 0..ips.len()
        invariant
            cs@ == seq!['['] + quoted_ips(ips@.take(i as int)),
    {
        if i > 0 {
            cs.push(',');
        }
        cs.push('"');
        push_ipv4(&mut cs, ips[i]);
        cs.push('"');
        proof {
            let t = ips@.take(i + 1);
            assert(t.drop_last() =~= ips@.take(i as int));
            assert(t.last() == ips@[i as int]);
            if i == 0 {
                assert(t.len() == 1);
                assert(cs@ =~= seq!['['] + (seq!['"'] + ipv4_text(t[0]) + seq!['"']));
            } else {
                assert(cs@ =~= seq!['['] + (quoted_ips(t.drop_last()) + seq![','] + seq!['"']
                    + ipv4_text(t.last()) + seq!['"']));
            }
        }
    }
    cs.push(']');
    assert(ips@.take(ips@.len() as int) =~= ips@);
    assert(cs@ =~= batch_body_text(ips@));
    string_of(cs.as_slice())
}

/// What a JSON text holds when it is an array: for each element, the string values of
/// its fields `a` and `b` (absent when the element is no object, lacks the field, or
/// holds a non-string there); nothing when the text is no JSON array.
pub uninterp spec fn json_array_string_fields(text: Seq<char>, a: Seq<char>, b: Seq<char>) -> Option<
    Seq<(Option<Seq<char>>, Option<Seq<char>>)>,
>;

/// The view of an optional string.
pub open spec fn opt_view(o: Option<String>) -> Option<Seq<char>> {
    match o {
        Some(s) => Some(s@),
        None => None,
    }
}

/// The view of a list of field pairs.
pub open spec fn pairs_view(v: Seq<(Option<String>, Option<String>)>) -> Seq<
    (Option<Seq<char>>, Option<Seq<char>>),
> {
    v.map_values(|p: (Option<String>, Option<String>)| (opt_view(p.0), opt_view(p.1)))
}

/// `serde_json::from_str::<Value>`, then, for an array, `Value::get` of the two fields
/// of each element and `Value::as_str`: what comes back is named by
/// `json_array_string_fields`, and JSON itself is not spelled out here.
#[verifier::external_body]
fn json_string_fields(text: &str, a: &str, b: &str) -> (r: Option<
    Vec<(Option<String>, Option<String>)>,
>)
    ensures
        match r {
            Some(v) => json_array_string_fields(text@, a@, b@) == Some(pairs_view(v@)),
            None => json_array_string_fields(text@, a@, b@) is None,
        },
{
    match serde_json::from_str::<serde_json::Value>(text) {
        Ok(serde_json::Value::Array(items)) => Some(
            items.iter().map(
                |it| (
                    it.get(a).and_then(serde_json::Value::as_str).map(|s| s.to_string()),
                    it.get(b).and_then(serde_json::Value::as_str).map(|s| s.to_string()),
                ),
            ).collect(),
        ),
        _ => None,
    }
}

/// The countries recorded after the entries `items` of a reply to a batch that asked
/// for `asked`, in order: an entry with a country code and a query that reads as an
/// IPv4 address that was asked for records that code for that address, replacing an
/// earlier one.
pub open spec fn record_countries(
    m: Map<u32, Seq<char>>,
    asked: Set<u32>,
    items: Seq<(Option<Seq<char>>, Option<Seq<char>>)>,
) -> Map<u32, Seq<char>>
    decreases items.len(),
{
    if items.len() == 0 {
        m
    } else {
        let before = record_countries(m, asked, items.drop_last());
        match items.last() {
            (Some(cc), Some(q)) => match parse_ipv4_spec(q) {
                Some(ip) => if asked.contains(ip) {
                    before.insert(ip, cc)
                } else {
                    before
                },
                None => before,
            },
            _ => before,
        }
    }
}

/// Recording a reply only ever adds addresses that were asked for.
pub proof fn lemma_records_only_asked(
    m: Map<u32, Seq<char>>,
    asked: Set<u32>,
    items: Seq<(Option<Seq<char>>, Option<Seq<char>>)>,
)
    ensures
        forall|ip: u32| #[trigger] record_countries(m, asked, items).contains_key(ip) ==> m.contains_key(ip)
            || asked.contains(ip),
        forall|ip: u32| m.contains_key(ip) ==> #[trigger] record_countries(m, asked, items).contains_key(ip),
    decreases items.len(),
{
    if items.len() > 0 {
        let before = record_countries(m, asked, items.drop_last());
        lemma_records_only_asked(m, asked, items.drop_last());
        let after = record_countries(m, asked, items);
        assert forall|ip: u32| #[trigger] after.contains_key(ip) implies m.contains_key(ip)
            || asked.contains(ip) by {
            if !before.contains_key(ip) {
                match items.last() {
                    (Some(cc), Some(q)) => {},
                    _ => {},
                }
            }
        }
        assert forall|ip: u32| m.contains_key(ip) implies #[trigger] after.contains_key(ip) by {
            assert(before.contains_key(ip));
        }
    }
}

/// The country codes of a map, as text.
pub open spec fn countries_view(m: Map<u32, String>) -> Map<u32, Seq<char>> {
    Map::new(|k: u32| m.contains_key(k), |k: u32| m[k]@)
}

/// Whether `ip` is one of `ips`.
fn asked_for(ips: &Vec<u32>, ip: u32) -> (r: bool)
    ensures
        r == ips@.contains(ip),
{
    for i in 0..ips.len()
        invariant
            forall|k: int| 0 <= k < i ==> ips@[k] != ip,
    {
        if ips[i] == ip {
            return true;
        }
    }
    false
}

/// Records the countries of the entries of one reply (country code, queried address)
/// to the batch `asked`: only addresses that were asked for are recorded.
pub fn record_entries(
    out: &mut HashMap<u32, String>,
    asked: &Vec<u32>,
    items: Vec<(Option<String>, Option<String>)>,
)
    ensures
        countries_view(final(out)@) == record_countries(
            countries_view(old(out)@),
            asked@.to_set(),
            pairs_view(items@),
        ),
        forall|ip: u32| #[trigger] final(out)@.contains_key(ip) ==> old(out)@.contains_key(ip)
            || asked@.contains(ip),
{
    let ghost orig = items@;
    let ghost start = countries_view(out@);
    let ghost set = asked@.to_set();
    for item in it: items
        invariant
            it.seq() == orig,
            set == asked@.to_set(),
            countries_view(out@) == record_countries(start, set, pairs_view(orig.take(it.index() as int))),
    {
        let ghost before = countries_view(out@);
        let ghost k = it.index() as int;
        proof {
            let t = orig.take(k + 1);
            assert(pairs_view(t).drop_last() =~= pairs_view(orig.take(k)));
            assert(pairs_view(t).last() == (opt_view(orig[k].0), opt_view(orig[k].1)));
        }
        let (cc, q) = item;
        match (cc, q) {
            (Some(cc), Some(q)) => {
                match parse_ipv4(q.as_str()) {
                    Some(ip) => {
                        if asked_for(asked, ip) {
                            out.insert(ip, cc);
                            proof {
                                assert(countries_view(out@) =~= before.insert(ip, orig[k].0->0@));
                            }
                        }
                    },
                    None => {},
                }
            },
            _ => {},
        }
    }
    assert(orig.take(orig.len() as int) =~= orig);
    proof {
        lemma_records_only_asked(start, set, pairs_view(orig));
        assert forall|ip: u32| #[trigger] final(out)@.contains_key(ip) implies old(out)@.contains_key(ip)
            || asked@.contains(ip) by {
            assert(countries_view(final(out)@).contains_key(ip));
        }
    }
}

/// Records the countries found in the text of the reply to the batch `asked`. A reply
/// that is not a JSON array records nothing; an address that was not asked for is
/// never recorded.
pub fn record_reply(out: &mut HashMap<u32, String>, asked: &Vec<u32>, text: &str)
    ensures
        match json_array_string_fields(text@, "countryCode"@, "query"@) {
            Some(items) => countries_view(final(out)@) == record_countries(
                countries_view(old(out)@),
                asked@.to_set(),
                items,
            ),
            None => final(out)@ == old(out)@,
        },
        forall|ip: u32| #[trigger] final(out)@.contains_key(ip) ==> old(out)@.contains_key(ip)
            || asked@.contains(ip),
{
    match json_string_fields(text, "countryCode", "query") {
        Some(items) => record_entries(out, asked, items),
        None => {},
    }
}

} // verus!
