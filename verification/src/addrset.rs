//! Sets of socket addresses kept as ordered keys, and their text: one `ip:port`
//! per line, hand-editable; lines that do not read as an address are skipped.

use vstd::prelude::*;
use std::collections::BTreeSet;
use crate::model::{Addr, addr_key, addr_of_key, lemma_addr_key};
use crate::addr::{
    addr_text, ipv4_text, parse_socket_addr_chars, parse_socket_addr_spec, push_addr,
    lemma_addr_text_roundtrip,
};
use crate::text::{
    chars_of, dec, is_white_space, lemma_dec, lemma_split_on_append, lemma_split_on_single,
    lemma_split_on_len, split_on, string_of, trim, trim_end, trim_start, trim_range,
};
use crate::ordered::{keys_in_order, strictly_increasing};

verus! {

broadcast use vstd::std_specs::btree::group_btree_axioms;

/// The address written on one line, if the line, trimmed, reads as one.
pub open spec fn line_addr(l: Seq<char>) -> Option<Addr> {
    parse_socket_addr_spec(trim(l))
}

/// The addresses written on the given lines.
pub open spec fn addrs_of_lines(lines: Seq<Seq<char>>) -> Set<Addr> {
    Set::new(
        |a: Addr| exists|i: int| 0 <= i < lines.len() && line_addr(#[trigger] lines[i]) == Some(a),
    )
}

/// The addresses written on the lines of `body`.
pub open spec fn addrs_in_text(body: Seq<char>) -> Set<Addr> {
    addrs_of_lines(split_on(body, '\n'))
}

/// The addresses of `q`, one `ip:port` per line, joined by newlines.
pub open spec fn lines_text(q: Seq<Addr>) -> Seq<char>
    decreases q.len(),
{
    if q.len() == 0 {
        Seq::empty()
    } else if q.len() == 1 {
        addr_text(q[0])
    } else {
        lines_text(q.drop_last()) + seq!['\n'] + addr_text(q.last())
    }
}

/// Addresses in increasing order of key, none twice.
pub open spec fn sorted_by_key(q: Seq<Addr>) -> bool {
    forall|i: int, j: int| 0 <= i < j < q.len() ==> addr_key(q[i]) < addr_key(q[j])
}

/// The addresses of `s` in increasing order of key.
pub open spec fn sorted_listing(s: Set<Addr>) -> Seq<Addr> {
    choose|q: Seq<Addr>| sorted_by_key(q) && q.to_set() == s
}

/// The keys that a key set holds are exactly those of the addresses of `s`.
pub open spec fn keys_of(keys: Set<u64>, s: Set<Addr>) -> bool {
    forall|k: u64| #[trigger] keys.contains(k) <==> (k < 0x1_0000_0000_0000 && s.contains(addr_of_key(k as int)))
}

/// Two key-sorted listings of one set agree at every index both have.
proof fn lemma_sorted_unique_at(q1: Seq<Addr>, q2: Seq<Addr>, i: int)
    requires
        sorted_by_key(q1),
        sorted_by_key(q2),
        q1.to_set() == q2.to_set(),
        0 <= i < q1.len(),
        i < q2.len(),
    ensures
        q1[i] == q2[i],
    decreases i,
{
    assert forall|k: int| 0 <= k < i implies q1[k] == q2[k] by {
        lemma_sorted_unique_at(q1, q2, k);
    }
    if addr_key(q1[i]) < addr_key(q2[i]) {
        assert(q2.to_set().contains(q1[i]));
        let j = choose|j: int| 0 <= j < q2.len() && q2[j] == q1[i];
        if j < i {
            assert(q1[j] == q2[j]);
        }
        assert(false);
    } else if addr_key(q2[i]) < addr_key(q1[i]) {
        assert(q1.to_set().contains(q2[i]));
        let j = choose|j: int| 0 <= j < q1.len() && q1[j] == q2[i];
        if j < i {
            assert(q1[j] == q2[j]);
        }
        assert(false);
    }
    lemma_addr_key(q1[i]);
    lemma_addr_key(q2[i]);
}

/// A set has at most one key-sorted listing.
pub proof fn lemma_sorted_unique(q1: Seq<Addr>, q2: Seq<Addr>)
    requires
        sorted_by_key(q1),
        sorted_by_key(q2),
        q1.to_set() == q2.to_set(),
    ensures
        q1 == q2,
{
    assert forall|i: int| 0 <= i < q1.len() && i < q2.len() implies q1[i] == q2[i] by {
        lemma_sorted_unique_at(q1, q2, i);
    }
    if q1.len() < q2.len() {
        let n = q1.len() as int;
        assert(q1.to_set().contains(q2[n]));
        let j = choose|j: int| 0 <= j < q1.len() && q1[j] == q2[n];
        assert(q1[j] == q2[j]);
        assert(false);
    } else if q2.len() < q1.len() {
        let n = q2.len() as int;
        assert(q2.to_set().contains(q1[n]));
        let j = choose|j: int| 0 <= j < q2.len() && q2[j] == q1[n];
        assert(q1[j] == q2[j]);
        assert(false);
    }
    assert(q1 =~= q2);
}

/// Any key-sorted listing of a set is its `sorted_listing`.
pub proof fn lemma_sorted_listing(q: Seq<Addr>)
    requires
        sorted_by_key(q),
    ensures
        sorted_listing(q.to_set()) == q,
{
    let s = q.to_set();
    assert(exists|r: Seq<Addr>| sorted_by_key(r) && r.to_set() == s);
    let r = sorted_listing(s);
    lemma_sorted_unique(r, q);
}

/// The text of an address holds digits, dots and a colon, and starts and ends with a digit.
proof fn lemma_addr_text_chars(a: Addr)
    ensures
        addr_text(a).len() >= 1,
        !addr_text(a).contains('\n'),
        trim(addr_text(a)) == addr_text(a),
{
    let s = addr_text(a);
    let d0 = dec(crate::model::octet(a.ip, 0) as nat);
    let d1 = dec(crate::model::octet(a.ip, 1) as nat);
    let d2 = dec(crate::model::octet(a.ip, 2) as nat);
    let d3 = dec(crate::model::octet(a.ip, 3) as nat);
    let dp = dec(a.port as nat);
    lemma_dec(crate::model::octet(a.ip, 0) as nat);
    lemma_dec(crate::model::octet(a.ip, 1) as nat);
    lemma_dec(crate::model::octet(a.ip, 2) as nat);
    lemma_dec(crate::model::octet(a.ip, 3) as nat);
    lemma_dec(a.port as nat);
    assert(s =~= d0 + seq!['.'] + d1 + seq!['.'] + d2 + seq!['.'] + d3 + seq![':'] + dp);
    assert(!s.contains('\n')) by {
        if s.contains('\n') {
            let k = choose|k: int| 0 <= k < s.len() && s[k] == '\n';
            let p1: int = d0.len() as int + 1;
            let p2: int = p1 + d1.len() + 1;
            let p3: int = p2 + d2.len() + 1;
            let p4: int = p3 + d3.len() + 1;
            if k < d0.len() {
                assert(s[k] == d0[k]);
            } else if k == d0.len() {
            } else if k < p1 + d1.len() {
                assert(s[k] == d1[k - p1]);
            } else if k == p1 + d1.len() {
            } else if k < p2 + d2.len() {
                assert(s[k] == d2[k - p2]);
            } else if k == p2 + d2.len() {
            } else if k < p3 + d3.len() {
                assert(s[k] == d3[k - p3]);
            } else if k == p3 + d3.len() {
            } else {
                assert(s[k] == dp[k - p4]);
            }
        }
    }
    assert(s[0] == d0[0]);
    assert(s.last() == dp.last()) by {
        assert(s[s.len() - 1] == dp[dp.len() - 1]);
    }
    assert(!is_white_space(s[0]));
    assert(trim_start(s) == s);
    assert(!is_white_space(s.last())) by {
        assert(dp.last() == dp[dp.len() - 1]);
    }
    assert(trim_end(s) == s);
}

/// The joined text of addresses splits into the text of each address.
proof fn lemma_lines_text_split(q: Seq<Addr>)
    requires
        q.len() >= 1,
    ensures
        split_on(lines_text(q), '\n') == q.map_values(|a: Addr| addr_text(a)),
    decreases q.len(),
{
    lemma_addr_text_chars(q.last());
    if q.len() == 1 {
        lemma_split_on_single(addr_text(q[0]), '\n');
        assert(q.map_values(|a: Addr| addr_text(a)) =~= seq![addr_text(q[0])]);
    } else {
        lemma_lines_text_split(q.drop_last());
        lemma_split_on_append(lines_text(q.drop_last()), '\n', addr_text(q.last()));
        assert(q.map_values(|a: Addr| addr_text(a)) =~= q.drop_last().map_values(
            |a: Addr| addr_text(a),
        ).push(addr_text(q.last())));
    }
}

/// Reading back the lines written for a list of addresses gives exactly the set of
/// those addresses: what is saved is what is loaded.
pub proof fn lemma_lines_text_roundtrip(q: Seq<Addr>)
    ensures
        addrs_in_text(lines_text(q)) == q.to_set(),
{
    if q.len() == 0 {
        assert(split_on(lines_text(q), '\n') =~= seq![Seq::<char>::empty()]);
        assert(trim(Seq::<char>::empty()) =~= Seq::<char>::empty());
        assert(line_addr(Seq::<char>::empty()) is None);
        assert(addrs_in_text(lines_text(q)) =~= q.to_set());
    } else {
        lemma_lines_text_split(q);
        let lines = split_on(lines_text(q), '\n');
        assert forall|a: Addr| addrs_in_text(lines_text(q)).contains(a) <==> q.to_set().contains(a) by {
            if addrs_in_text(lines_text(q)).contains(a) {
                let i = choose|i: int| 0 <= i < lines.len() && line_addr(#[trigger] lines[i]) == Some(a);
                lemma_addr_text_chars(q[i]);
                lemma_addr_text_roundtrip(q[i]);
                assert(q.to_set().contains(q[i]));
            }
            if q.to_set().contains(a) {
                let i = choose|i: int| 0 <= i < q.len() && q[i] == a;
                lemma_addr_text_chars(q[i]);
                lemma_addr_text_roundtrip(q[i]);
                assert(line_addr(lines[i]) == Some(a));
            }
        }
        assert(addrs_in_text(lines_text(q)) =~= q.to_set());
    }
}

/// The text saved for a set of addresses, in address order, loads back as that set:
/// what is saved is what is loaded.
pub proof fn lemma_saved_set_loads_back(s: Set<Addr>)
    requires
        sorted_listing(s).to_set() == s,
    ensures
        addrs_in_text(lines_text(sorted_listing(s))) == s,
{
    lemma_lines_text_roundtrip(sorted_listing(s));
}

/// One more line adds its address, if it has one.
proof fn lemma_addrs_of_lines_push(lines: Seq<Seq<char>>, x: Seq<char>)
    ensures
        addrs_of_lines(lines.push(x)) == match line_addr(x) {
            Some(a) => addrs_of_lines(lines).insert(a),
            None => addrs_of_lines(lines),
        },
{
    let l2 = lines.push(x);
    let lhs = addrs_of_lines(l2);
    let rhs = match line_addr(x) {
        Some(a) => addrs_of_lines(lines).insert(a),
        None => addrs_of_lines(lines),
    };
    assert forall|a: Addr| lhs.contains(a) <==> rhs.contains(a) by {
        if lhs.contains(a) {
            let i = choose|i: int| 0 <= i < l2.len() && line_addr(#[trigger] l2[i]) == Some(a);
            if i < lines.len() {
                assert(l2[i] == lines[i]);
            }
        }
        if addrs_of_lines(lines).contains(a) {
            let i = choose|i: int| 0 <= i < lines.len() && line_addr(#[trigger] lines[i]) == Some(a);
            assert(l2[i] == lines[i]);
        }
        if line_addr(x) == Some(a) {
            assert(l2[lines.len() as int] == x);
        }
    }
    assert(lhs =~= rhs);
}

/// The characters `cs[lo..hi]`.
fn sub_vec(cs: &Vec<char>, lo: usize, hi: usize) -> (r: Vec<char>)
    requires
        lo <= hi <= cs@.len(),
    ensures
        r@ == cs@.subrange(lo as int, hi as int),
{
    let mut r: Vec<char> = Vec::new();
    let mut k = lo;
    while k < hi
        invariant
            lo <= k <= hi <= cs@.len(),
            r@ == cs@.subrange(lo as int, k as int),
        decreases hi - k,
    {
        r.push(cs[k]);
        k = k + 1;
        assert(r@ =~= cs@.subrange(lo as int, k as int));
    }
    r
}

/// The address on the line `cs[lo..hi]`, if it has one.
fn line_addr_exec(cs: &Vec<char>, lo: usize, hi: usize) -> (r: Option<Addr>)
    requires
        lo <= hi <= cs@.len(),
    ensures
        r == line_addr(cs@.subrange(lo as int, hi as int)),
{
    let (a, b) = trim_range(cs, lo, hi);
    let t = sub_vec(cs, a, b);
    parse_socket_addr_chars(&t)
}

/// The keys of the addresses written on the lines of `body`.
pub fn parse_addr_lines(body: &str) -> (keys: BTreeSet<u64>)
    ensures
        keys_of(keys@, addrs_in_text(body@)),
{
    let cs = chars_of(body);
    let mut keys: BTreeSet<u64> = BTreeSet::new();
    let mut start: usize = 0;
    let mut k: usize = 0;
    proof {
        assert(cs@.take(0) =~= Seq::<char>::empty());
        assert(split_on(Seq::<char>::empty(), '\n').drop_last() =~= Seq::<Seq<char>>::empty());
        assert(addrs_of_lines(Seq::<Seq<char>>::empty()) =~= Set::<Addr>::empty());
    }
    while k < cs.len()
        invariant
            0 <= start <= k <= cs@.len(),
            cs@ == body@,
            split_on(cs@.take(k as int), '\n').len() >= 1,
            split_on(cs@.take(k as int), '\n').last() == cs@.subrange(start as int, k as int),
            keys_of(keys@, addrs_of_lines(split_on(cs@.take(k as int), '\n').drop_last())),
        decreases cs.len() - k,
    {
        let ghost old_lines = split_on(cs@.take(k as int), '\n');
        proof {
            assert(cs@.take(k + 1).drop_last() =~= cs@.take(k as int));
            assert(cs@.take(k + 1).last() == cs@[k as int]);
        }
        if cs[k] == '\n' {
            let a = line_addr_exec(&cs, start, k);
            proof {
                let new_lines = split_on(cs@.take(k + 1), '\n');
                assert(new_lines == old_lines.push(Seq::empty()));
                assert(new_lines.drop_last() =~= old_lines.drop_last().push(old_lines.last()));
                lemma_addrs_of_lines_push(old_lines.drop_last(), old_lines.last());
            }
            match a {
                Some(addr) => {
                    proof {
                        lemma_addr_key(addr);
                    }
                    keys.insert(addr.key());
                    proof {
                        assert forall|kk: u64| #[trigger] keys@.contains(kk) <==> (kk < 0x1_0000_0000_0000
                            && addrs_of_lines(split_on(cs@.take(k + 1), '\n').drop_last()).contains(addr_of_key(kk as int))) by {
                            if kk < 0x1_0000_0000_0000 && addr_of_key(kk as int) == addr {
                                assert(addr_key(addr_of_key(kk as int)) == kk);
                            }
                        }
                    }
                },
                None => {},
            }
            start = k + 1;
            proof {
                assert(cs@.subrange(start as int, k + 1) =~= Seq::<char>::empty());
            }
        } else {
            proof {
                let new_lines = split_on(cs@.take(k + 1), '\n');
                assert(new_lines == old_lines.update(old_lines.len() - 1, old_lines.last().push(cs@[k as int])));
                assert(new_lines.drop_last() =~= old_lines.drop_last());
                assert(cs@.subrange(start as int, k + 1) =~= cs@.subrange(start as int, k as int).push(cs@[k as int]));
            }
        }
        k = k + 1;
    }
    let a = line_addr_exec(&cs, start, k);
    proof {
        let lines = split_on(cs@.take(k as int), '\n');
        assert(cs@.take(k as int) =~= cs@);
        assert(lines =~= lines.drop_last().push(lines.last()));
        lemma_addrs_of_lines_push(lines.drop_last(), lines.last());
    }
    match a {
        Some(addr) => {
            proof {
                lemma_addr_key(addr);
            }
            keys.insert(addr.key());
            proof {
                assert forall|kk: u64| #[trigger] keys@.contains(kk) <==> (kk < 0x1_0000_0000_0000
                    && addrs_in_text(body@).contains(addr_of_key(kk as int))) by {
                    if kk < 0x1_0000_0000_0000 && addr_of_key(kk as int) == addr {
                        assert(addr_key(addr_of_key(kk as int)) == kk);
                    }
                }
            }
        },
        None => {},
    }
    keys
}

/// `s` with `a` flipped: removed if present, added if not.
pub open spec fn toggled(s: Set<Addr>, a: Addr) -> Set<Addr> {
    if s.contains(a) {
        s.remove(a)
    } else {
        s.insert(a)
    }
}

/// Flipping the same address twice leaves the set as it was.
pub proof fn lemma_toggle_twice(s: Set<Addr>, a: Addr)
    ensures
        toggled(toggled(s, a), a) == s,
{
    assert(toggled(toggled(s, a), a) =~= s);
}

/// Flipping one address leaves every other address as it was.
pub proof fn lemma_toggle_other(s: Set<Addr>, a: Addr, b: Addr)
    requires
        a != b,
    ensures
        toggled(s, a).contains(b) == s.contains(b),
        toggled(s, a).contains(a) == !s.contains(a),
{
}

/// Flips the key of `a` in a key set; returns whether it is in the set afterwards.
pub fn toggle_key(keys: &mut BTreeSet<u64>, a: Addr) -> (now_in: bool)
    requires
        keys_valid(old(keys)@),
    ensures
        keys_valid(final(keys)@),
        addrs_of_keys(final(keys)@) == toggled(addrs_of_keys(old(keys)@), a),
        now_in == !addrs_of_keys(old(keys)@).contains(a),
{
    proof {
        lemma_addr_key(a);
    }
    let k = a.key();
    let now_in = if keys.remove(&k) {
        false
    } else {
        keys.insert(k);
        true
    };
    proof {
        assert forall|b: Addr| addrs_of_keys(final(keys)@).contains(b) <==> toggled(
            addrs_of_keys(old(keys)@),
            a,
        ).contains(b) by {
            lemma_addr_key(b);
            if addr_key(b) == addr_key(a) {
                assert(b == addr_of_key(addr_key(b)));
            }
        }
        assert(addrs_of_keys(final(keys)@) =~= toggled(addrs_of_keys(old(keys)@), a));
    }
    now_in
}

/// Whether the key of `a` is in a key set.
pub fn contains_key(keys: &BTreeSet<u64>, a: &Addr) -> (r: bool)
    ensures
        r == addrs_of_keys(keys@).contains(*a),
{
    keys.contains(&a.key())
}

/// The addresses whose keys a key set holds.
pub open spec fn addrs_of_keys(keys: Set<u64>) -> Set<Addr> {
    Set::new(|a: Addr| keys.contains(addr_key(a) as u64))
}

/// Every key names an address.
pub open spec fn keys_valid(keys: Set<u64>) -> bool {
    forall|k: u64| keys.contains(k) ==> k < 0x1_0000_0000_0000
}

/// A key set built to match a set of addresses holds exactly their keys.
pub proof fn lemma_keys_of(keys: Set<u64>, s: Set<Addr>)
    requires
        keys_of(keys, s),
    ensures
        keys_valid(keys),
        addrs_of_keys(keys) == s,
{
    assert forall|a: Addr| addrs_of_keys(keys).contains(a) <==> s.contains(a) by {
        lemma_addr_key(a);
        assert(keys.contains(addr_key(a) as u64) <==> s.contains(addr_of_key(addr_key(a))));
    }
    assert(addrs_of_keys(keys) =~= s);
}

/// The addresses of a key set, in increasing order of key.
pub fn listing_of(keys: &BTreeSet<u64>) -> (r: Vec<Addr>)
    requires
        keys_valid(keys@),
    ensures
        sorted_by_key(r@),
        r@.to_set() == addrs_of_keys(keys@),
        r@ == sorted_listing(addrs_of_keys(keys@)),
{
    let v = keys_in_order(keys);
    let mut r: Vec<Addr> = Vec::new();
    for i in 0..v.len()
        invariant
            strictly_increasing(v@),
            v@.to_set() == keys@,
            keys_valid(keys@),
            r.len() == i,
            forall|j: int| 0 <= j < i ==> addr_key(#[trigger] r@[j]) == v@[j] as int,
    {
        assert(v@.to_set().contains(v@[i as int]));
        r.push(Addr::from_key(v[i]));
    }
    proof {
        assert forall|a: Addr| r@.to_set().contains(a) <==> addrs_of_keys(keys@).contains(a) by {
            lemma_addr_key(a);
            if r@.to_set().contains(a) {
                let j = choose|j: int| 0 <= j < r@.len() && r@[j] == a;
                assert(v@.to_set().contains(v@[j]));
            }
            if addrs_of_keys(keys@).contains(a) {
                let k = addr_key(a) as u64;
                assert(v@.to_set().contains(k));
                let j = choose|j: int| 0 <= j < v@.len() && v@[j] == k;
                lemma_addr_key(r@[j]);
                assert(r@[j] == addr_of_key(addr_key(r@[j])));
            }
        }
        assert(r@.to_set() =~= addrs_of_keys(keys@));
        lemma_sorted_listing(r@);
    }
    r
}

/// The addresses of `q`, one `ip:port` per line, joined by newlines.
pub fn lines_text_of(q: &Vec<Addr>) -> (s: String)
    ensures
        s@ == lines_text(q@),
{
    let mut cs: Vec<char> = Vec::new();
    for i in 0..q.len()
        invariant
            cs@ == lines_text(q@.take(i as int)),
    {
        let ghost before = cs@;
        if i > 0 {
            cs.push('\n');
        }
        push_addr(&mut cs, q[i]);
        proof {
            let t = q@.take(i + 1);
            assert(t.drop_last() =~= q@.take(i as int));
            assert(t.last() == q@[i as int]);
            if i == 0 {
                assert(t.len() == 1);
                assert(cs@ =~= addr_text(t[0]));
            } else {
                assert(cs@ =~= lines_text(t.drop_last()) + seq!['\n'] + addr_text(t.last()));
            }
        }
    }
    assert(q@.take(q@.len() as int) =~= q@);
    string_of(cs.as_slice())
}

} // verus!
