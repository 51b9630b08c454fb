//! Text form of IPv4 addresses and `ip:port` socket addresses: dotted decimal
//! octets (one to three digits, no leading zero, at most 255), a colon, and a
//! decimal port (leading zeros allowed, at most 65535), with nothing around them.

use vstd::prelude::*;
use crate::model::{Addr, ip_from_octets, octet};
use crate::text::{
    all_digits, dec, dec_value, digit_run, digit_value, is_digit, lemma_dec_value_step,
    lemma_digit_run, lemma_dec, lemma_digit_run_of_digits, chars_of, push_dec, string_of,
};

verus! {

/// The digits of an octet: one to three, no leading zero, worth at most 255.
pub open spec fn octet_digits_ok(d: Seq<char>) -> bool {
    &&& 1 <= d.len() <= 3
    &&& (d.len() > 1 ==> d[0] != '0')
    &&& dec_value(d) <= 255
}

/// The octet whose digits start at `i`, with the index just past them.
pub open spec fn octet_at(s: Seq<char>, i: int) -> Option<(int, int)> {
    let j = i + digit_run(s, i);
    if octet_digits_ok(s.subrange(i, j)) {
        Some((dec_value(s.subrange(i, j)), j))
    } else {
        None
    }
}

/// A dot at `i`, then an octet.
pub open spec fn dot_octet_at(s: Seq<char>, i: int) -> Option<(int, int)> {
    if 0 <= i < s.len() && s[i] == '.' {
        octet_at(s, i + 1)
    } else {
        None
    }
}

/// The dotted-quad IPv4 address at the start of `s`, with the index just past it.
pub open spec fn ipv4_prefix(s: Seq<char>) -> Option<(int, int)> {
    match octet_at(s, 0) {
        None => None,
        Some((a, e0)) => match dot_octet_at(s, e0) {
            None => None,
            Some((b, e1)) => match dot_octet_at(s, e1) {
                None => None,
                Some((c, e2)) => match dot_octet_at(s, e2) {
                    None => None,
                    Some((d, e3)) => Some((ip_from_octets(a, b, c, d), e3)),
                },
            },
        },
    }
}

/// `s` is exactly a dotted-quad IPv4 address.
pub open spec fn parse_ipv4_spec(s: Seq<char>) -> Option<u32> {
    match ipv4_prefix(s) {
        Some((ip, e)) => if e == s.len() {
            Some(ip as u32)
        } else {
            None
        },
        None => None,
    }
}

/// `s` is exactly an IPv4 address, a colon, and a port of one or more digits.
pub open spec fn parse_socket_addr_spec(s: Seq<char>) -> Option<Addr> {
    match ipv4_prefix(s) {
        Some((ip, e)) => {
            let p = s.subrange(e + 1, s.len() as int);
            if e < s.len() && s[e] == ':' && p.len() >= 1 && all_digits(p) && dec_value(p)
                <= 65535 {
                Some(Addr { ip: ip as u32, port: dec_value(p) as u16 })
            } else {
                None
            }
        },
        None => None,
    }
}

/// Dotted decimal text of an IPv4 address.
pub open spec fn ipv4_text(ip: u32) -> Seq<char> {
    dec(octet(ip, 0) as nat) + seq!['.'] + dec(octet(ip, 1) as nat) + seq!['.'] + dec(
        octet(ip, 2) as nat,
    ) + seq!['.'] + dec(octet(ip, 3) as nat)
}

/// `ip:port` text of a socket address.
pub open spec fn addr_text(a: Addr) -> Seq<char> {
    ipv4_text(a.ip) + seq![':'] + dec(a.port as nat)
}

/// An octet's shortest text, followed by a non-digit or the end, reads back as that octet.
proof fn lemma_octet_at_dec(s: Seq<char>, i: int, o: int)
    requires
        0 <= o <= 255,
        0 <= i,
        i + dec(o as nat).len() <= s.len(),
        s.subrange(i, i + dec(o as nat).len()) == dec(o as nat),
        i + dec(o as nat).len() == s.len() || !is_digit(s[i + dec(o as nat).len()]),
    ensures
        octet_at(s, i) == Some((o, i + dec(o as nat).len())),
{
    lemma_dec(o as nat);
    lemma_digit_run_of_digits(s, i, i + dec(o as nat).len());
}

/// The octets of an address rebuild it.
proof fn lemma_octets_rebuild(ip: u32)
    ensures
        ip_from_octets(octet(ip, 0), octet(ip, 1), octet(ip, 2), octet(ip, 3)) == ip as int,
        0 <= octet(ip, 0) <= 255,
        0 <= octet(ip, 1) <= 255,
        0 <= octet(ip, 2) <= 255,
        0 <= octet(ip, 3) <= 255,
{
    let x = ip as int;
    assert(x / 16777216 * 16777216 + (x / 65536) % 256 * 65536 + (x / 256) % 256 * 256 + x % 256
        == x) by (nonlinear_arith)
        requires
            0 <= x < 0x1_0000_0000,
    ;
    assert(x / 16777216 <= 255) by (nonlinear_arith)
        requires
            0 <= x < 0x1_0000_0000,
    ;
}

/// The dotted text of an address is read back as that address, followed by what comes after.
proof fn lemma_ipv4_prefix_text(ip: u32, rest: Seq<char>)
    requires
        rest.len() == 0 || !is_digit(rest[0]),
        rest.len() == 0 || rest[0] != '.',
    ensures
        ipv4_prefix(ipv4_text(ip) + rest) == Some((ip as int, ipv4_text(ip).len() as int)),
{
    lemma_octets_rebuild(ip);
    let d0 = dec(octet(ip, 0) as nat);
    let d1 = dec(octet(ip, 1) as nat);
    let d2 = dec(octet(ip, 2) as nat);
    let d3 = dec(octet(ip, 3) as nat);
    lemma_dec(octet(ip, 0) as nat);
    lemma_dec(octet(ip, 1) as nat);
    lemma_dec(octet(ip, 2) as nat);
    lemma_dec(octet(ip, 3) as nat);
    let s = ipv4_text(ip) + rest;
    let p1: int = d0.len() as int + 1;
    let p2: int = p1 + d1.len() + 1;
    let p3: int = p2 + d2.len() + 1;
    let e3: int = p3 + d3.len();
    assert(ipv4_text(ip).len() == e3);
    assert(s.subrange(0, d0.len() as int) =~= d0);
    assert(s[d0.len() as int] == '.');
    lemma_octet_at_dec(s, 0, octet(ip, 0));
    assert(s.subrange(p1, p1 + d1.len()) =~= d1);
    assert(s[p1 + d1.len()] == '.');
    lemma_octet_at_dec(s, p1, octet(ip, 1));
    assert(s.subrange(p2, p2 + d2.len()) =~= d2);
    assert(s[p2 + d2.len()] == '.');
    lemma_octet_at_dec(s, p2, octet(ip, 2));
    assert(s.subrange(p3, p3 + d3.len()) =~= d3);
    if rest.len() > 0 {
        assert(s[e3] == rest[0]);
    }
    lemma_octet_at_dec(s, p3, octet(ip, 3));
}

/// Writing an IPv4 address as text and reading it back gives the same address.
pub proof fn lemma_ipv4_text_roundtrip(ip: u32)
    ensures
        parse_ipv4_spec(ipv4_text(ip)) == Some(ip),
{
    lemma_ipv4_prefix_text(ip, Seq::empty());
    assert(ipv4_text(ip) + Seq::<char>::empty() =~= ipv4_text(ip));
}

/// Writing a socket address as `ip:port` and reading it back gives the same address.
pub proof fn lemma_addr_text_roundtrip(a: Addr)
    ensures
        parse_socket_addr_spec(addr_text(a)) == Some(a),
{
    let rest = seq![':'] + dec(a.port as nat);
    lemma_ipv4_prefix_text(a.ip, rest);
    lemma_dec(a.port as nat);
    let s = addr_text(a);
    assert(s =~= ipv4_text(a.ip) + rest);
    let e = ipv4_text(a.ip).len() as int;
    assert(s.subrange(e + 1, s.len() as int) =~= dec(a.port as nat));
}

/// The octet whose digits start at `i` of `cs`.
fn octet_at_exec(cs: &Vec<char>, i: usize) -> (r: Option<(u32, usize)>)
    requires
        i <= cs@.len(),
    ensures
        match octet_at(cs@, i as int) {
            None => r is None,
            Some((v, e)) => r matches Some((rv, re)) && rv as int == v && re as int == e,
        },
        r matches Some((rv, re)) ==> rv <= 255 && re <= cs@.len(),
{
    proof {
        lemma_digit_run(cs@, i as int);
    }
    let mut j = i;
    while j < cs.len() && is_digit_char(cs[j])
        invariant
            i <= j <= cs@.len(),
            j - i + digit_run(cs@, j as int) == digit_run(cs@, i as int),
        decreases cs.len() - j,
    {
        j = j + 1;
    }
    if j == i || j - i > 3 {
        return None;
    }
    if j - i > 1 && cs[i] == '0' {
        return None;
    }
    let mut v: u32 = 0;
    let mut k = i;
    while k < j
        invariant
            i <= k <= j <= cs@.len(),
            j - i <= 3,
            all_digits(cs@.subrange(i as int, j as int)),
            v as int == dec_value(cs@.subrange(i as int, k as int)),
            v < 1000,
            k - i <= 3,
            k == i ==> v == 0,
            k - i <= 1 ==> v < 10,
            k - i <= 2 ==> v < 100,
        decreases j - k,
    {
        assert(cs@.subrange(i as int, j as int)[k - i] == cs@[k as int]);
        proof {
            lemma_dec_value_step(cs@, i as int, k as int);
        }
        v = v * 10 + digit_of(cs[k]);
        k = k + 1;
    }
    if v > 255 {
        return None;
    }
    Some((v, j))
}

/// A dot at `i` of `cs`, then an octet.
fn dot_octet_at_exec(cs: &Vec<char>, i: usize) -> (r: Option<(u32, usize)>)
    requires
        i <= cs@.len(),
    ensures
        match dot_octet_at(cs@, i as int) {
            None => r is None,
            Some((v, e)) => r matches Some((rv, re)) && rv as int == v && re as int == e,
        },
        r matches Some((rv, re)) ==> rv <= 255 && re <= cs@.len(),
{
    if i < cs.len() && cs[i] == '.' {
        octet_at_exec(cs, i + 1)
    } else {
        None
    }
}

/// The dotted-quad address at the start of `cs`, with the index just past it.
fn ipv4_prefix_exec(cs: &Vec<char>) -> (r: Option<(u32, usize)>)
    ensures
        match ipv4_prefix(cs@) {
            None => r is None,
            Some((v, e)) => r matches Some((rv, re)) && rv as int == v && re as int == e,
        },
{
    let (a, e0) = match octet_at_exec(cs, 0) {
        Some(x) => x,
        None => return None,
    };
    let (b, e1) = match dot_octet_at_exec(cs, e0) {
        Some(x) => x,
        None => return None,
    };
    let (c, e2) = match dot_octet_at_exec(cs, e1) {
        Some(x) => x,
        None => return None,
    };
    let (d, e3) = match dot_octet_at_exec(cs, e2) {
        Some(x) => x,
        None => return None,
    };
    let ip: u32 = a * 16777216 + b * 65536 + c * 256 + d;
    Some((ip, e3))
}

/// Parses a dotted-quad IPv4 address, as `Ipv4Addr`'s `FromStr` does.
pub fn parse_ipv4(s: &str) -> (r: Option<u32>)
    ensures
        r == parse_ipv4_spec(s@),
{
    let cs = chars_of(s);
    match ipv4_prefix_exec(&cs) {
        Some((ip, e)) => if e == cs.len() {
            Some(ip)
        } else {
            None
        },
        None => None,
    }
}

/// Parses `ip:port`, as `SocketAddrV4`'s `FromStr` does.
pub fn parse_socket_addr(s: &str) -> (r: Option<Addr>)
    ensures
        r == parse_socket_addr_spec(s@),
{
    let cs = chars_of(s);
    parse_socket_addr_chars(&cs)
}

/// Parses `ip:port` from the characters `cs`.
pub fn parse_socket_addr_chars(cs: &Vec<char>) -> (r: Option<Addr>)
    ensures
        r == parse_socket_addr_spec(cs@),
{
    let (ip, e) = match ipv4_prefix_exec(&cs) {
        Some(x) => x,
        None => return None,
    };
    if e >= cs.len() || cs[e] != ':' || e + 1 >= cs.len() {
        return None;
    }
    let start = e + 1;
    let mut v: u32 = 0;
    let mut over = false;
    let mut k = start;
    while k < cs.len()
        invariant
            start <= k <= cs@.len(),
            start == e + 1,
            e < cs@.len(),
            cs@[e as int] == ':',
            ipv4_prefix(cs@) == Some((ip as int, e as int)),
            forall|m: int| start <= m < k ==> is_digit(#[trigger] cs@[m]),
            over ==> dec_value(cs@.subrange(start as int, k as int)) > 65535,
            !over ==> v as int == dec_value(cs@.subrange(start as int, k as int)),
            v <= 65535,
        decreases cs.len() - k,
    {
        if !is_digit_char(cs[k]) {
            proof {
                let p = cs@.subrange(start as int, cs@.len() as int);
                assert(p[k - start] == cs@[k as int]);
            }
            return None;
        }
        proof {
            lemma_dec_value_step(cs@, start as int, k as int);
        }
        if !over {
            let nv = v * 10 + digit_of(cs[k]);
            if nv > 65535 {
                over = true;
            } else {
                v = nv;
            }
        }
        k = k + 1;
    }
    proof {
        let p = cs@.subrange(start as int, cs@.len() as int);
        assert forall|m: int| 0 <= m < p.len() implies is_digit(#[trigger] p[m]) by {
            assert(p[m] == cs@[start + m]);
        }
    }
    if over {
        return None;
    }
    Some(Addr { ip, port: v as u16 })
}

/// Appends the dotted decimal text of `ip`.
pub fn push_ipv4(out: &mut Vec<char>, ip: u32)
    ensures
        final(out)@ == old(out)@ + ipv4_text(ip),
{
    push_dec(out, (ip / 16777216) as u64);
    out.push('.');
    push_dec(out, ((ip / 65536) % 256) as u64);
    out.push('.');
    push_dec(out, ((ip / 256) % 256) as u64);
    out.push('.');
    push_dec(out, (ip % 256) as u64);
    assert(final(out)@ =~= old(out)@ + ipv4_text(ip));
}

/// Appends the `ip:port` text of `a`.
pub fn push_addr(out: &mut Vec<char>, a: Addr)
    ensures
        final(out)@ == old(out)@ + addr_text(a),
{
    push_ipv4(out, a.ip);
    out.push(':');
    push_dec(out, a.port as u64);
    assert(final(out)@ =~= old(out)@ + addr_text(a));
}

/// The `ip:port` text of `a`, as `SocketAddrV4`'s `Display` writes it.
pub fn addr_to_string(a: Addr) -> (s: String)
    ensures
        s@ == addr_text(a),
{
    let mut cs: Vec<char> = Vec::new();
    push_addr(&mut cs, a);
    string_of(cs.as_slice())
}

/// Whether `c` is an ASCII digit.
pub fn is_digit_char(c: char) -> (b: bool)
    ensures
        b == is_digit(c),
{
    '0' <= c && c <= '9'
}

/// The value of an ASCII digit.
pub fn digit_of(c: char) -> (d: u32)
    requires
        is_digit(c),
    ensures
        d as int == digit_value(c),
        d < 10,
{
    (c as u32) - ('0' as u32)
}

} // verus!
