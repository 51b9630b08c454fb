use vstd::prelude::*;

verus! {

broadcast use vstd::string::group_string_axioms;

/// An ASCII decimal digit.
pub open spec fn is_digit(c: char) -> bool {
    '0' <= c && c <= '9'
}

/// The value of an ASCII decimal digit.
pub open spec fn digit_value(c: char) -> int {
    c as int - '0' as int
}

/// The ASCII character of a decimal digit `d < 10`.
pub open spec fn digit_char(d: int) -> char {
    if d <= 0 {
        '0'
    } else if d == 1 {
        '1'
    } else if d == 2 {
        '2'
    } else if d == 3 {
        '3'
    } else if d == 4 {
        '4'
    } else if d == 5 {
        '5'
    } else if d == 6 {
        '6'
    } else if d == 7 {
        '7'
    } else if d == 8 {
        '8'
    } else {
        '9'
    }
}

/// Every character of `s` is an ASCII digit.
pub open spec fn all_digits(s: Seq<char>) -> bool {
    forall|i: int| 0 <= i < s.len() ==> is_digit(#[trigger] s[i])
}

/// The value of a string of decimal digits, most significant first.
pub open spec fn dec_value(s: Seq<char>) -> int
    decreases s.len(),
{
    if s.len() == 0 {
        0
    } else {
        dec_value(s.drop_last()) * 10 + digit_value(s.last())
    }
}

/// The shortest decimal text of `n`: no leading zero, "0" for zero.
pub open spec fn dec(n: nat) -> Seq<char>
    decreases n,
{
    if n < 10 {
        seq![digit_char(n as int)]
    } else {
        dec(n / 10).push(digit_char((n % 10) as int))
    }
}

/// `digit_char` gives the digit of the same value.
pub proof fn lemma_digit_char(d: int)
    requires
        0 <= d < 10,
    ensures
        is_digit(digit_char(d)),
        digit_value(digit_char(d)) == d,
        d != 0 ==> digit_char(d) != '0',
{
}

/// `dec(n)` is a non-empty run of digits worth `n`, with no leading zero.
pub proof fn lemma_dec(n: nat)
    ensures
        dec(n).len() >= 1,
        all_digits(dec(n)),
        dec_value(dec(n)) == n,
        dec(n).len() > 1 ==> dec(n)[0] != '0',
        n < 10 ==> dec(n).len() == 1,
        n >= 10 ==> dec(n).len() >= 2,
        n < 100 ==> dec(n).len() <= 2,
        n < 1000 ==> dec(n).len() <= 3,
    decreases n,
{
    lemma_digit_char((n % 10) as int);
    if n < 10 {
        assert(dec(n).drop_last() =~= Seq::<char>::empty());
        assert(dec_value(dec(n).drop_last()) == 0);
    } else {
        if n < 100 {
            lemma_digit_char((n / 10) as int);
        }
        lemma_dec(n / 10);
        let d = dec(n / 10);
        let s = dec(n);
        assert(s.drop_last() =~= d);
        assert(s[0] == d[0]);
        if n < 100 {
            assert(d[0] == digit_char((n / 10) as int));
        }
    }
}

/// The number of leading characters of `s[i..]` that are ASCII digits.
pub open spec fn digit_run(s: Seq<char>, i: int) -> nat
    decreases s.len() - i,
{
    if 0 <= i < s.len() && is_digit(s[i]) {
        1 + digit_run(s, i + 1)
    } else {
        0
    }
}

/// A digit run ends at a non-digit (or the end), and holds only digits.
pub proof fn lemma_digit_run(s: Seq<char>, i: int)
    requires
        0 <= i <= s.len(),
    ensures
        i + digit_run(s, i) <= s.len(),
        all_digits(s.subrange(i, i + digit_run(s, i))),
        i + digit_run(s, i) < s.len() ==> !is_digit(s[i + digit_run(s, i)]),
    decreases s.len() - i,
{
    if i < s.len() && is_digit(s[i]) {
        lemma_digit_run(s, i + 1);
        let a = s.subrange(i, i + digit_run(s, i));
        let b = s.subrange(i + 1, i + digit_run(s, i));
        assert forall|k: int| 0 <= k < a.len() implies is_digit(#[trigger] a[k]) by {
            if k > 0 {
                assert(a[k] == b[k - 1]);
            }
        }
    }
}

/// The digit run starting at `i` of `a + b` is that of `a` when `a` ends in a non-digit
/// position before its end or `b` starts with a non-digit.
pub proof fn lemma_digit_run_of_digits(s: Seq<char>, i: int, j: int)
    requires
        0 <= i <= j <= s.len(),
        all_digits(s.subrange(i, j)),
        j == s.len() || !is_digit(s[j]),
    ensures
        digit_run(s, i) == j - i,
    decreases j - i,
{
    if i < j {
        assert(s.subrange(i, j)[0] == s[i]);
        assert forall|k: int| 0 <= k < s.subrange(i + 1, j).len() implies is_digit(
            #[trigger] s.subrange(i + 1, j)[k],
        ) by {
            assert(s.subrange(i + 1, j)[k] == s.subrange(i, j)[k + 1]);
        }
        lemma_digit_run_of_digits(s, i + 1, j);
    }
}

/// `dec_value` grows by one digit at a time.
pub proof fn lemma_dec_value_step(s: Seq<char>, i: int, k: int)
    requires
        0 <= i <= k < s.len(),
    ensures
        dec_value(s.subrange(i, k + 1)) == dec_value(s.subrange(i, k)) * 10 + digit_value(s[k]),
{
    assert(s.subrange(i, k + 1).drop_last() =~= s.subrange(i, k));
}

/// A character with the Unicode `White_Space` property, which `char::is_whitespace`
/// and `str::trim` go by.
pub open spec fn is_white_space(c: char) -> bool {
    ||| ('\u{9}' <= c && c <= '\u{d}')
    ||| c == ' '
    ||| c == '\u{85}'
    ||| c == '\u{a0}'
    ||| c == '\u{1680}'
    ||| ('\u{2000}' <= c && c <= '\u{200a}')
    ||| c == '\u{2028}'
    ||| c == '\u{2029}'
    ||| c == '\u{202f}'
    ||| c == '\u{205f}'
    ||| c == '\u{3000}'
}

/// Whether `c` has the Unicode `White_Space` property.
pub fn white_space(c: char) -> (b: bool)
    ensures
        b == is_white_space(c),
{
    ('\u{9}' <= c && c <= '\u{d}') || c == ' ' || c == '\u{85}' || c == '\u{a0}' || c
        == '\u{1680}' || ('\u{2000}' <= c && c <= '\u{200a}') || c == '\u{2028}' || c
        == '\u{2029}' || c == '\u{202f}' || c == '\u{205f}' || c == '\u{3000}'
}

/// `s` without its leading white space.
pub open spec fn trim_start(s: Seq<char>) -> Seq<char>
    decreases s.len(),
{
    if s.len() > 0 && is_white_space(s[0]) {
        trim_start(s.drop_first())
    } else {
        s
    }
}

/// `s` without its trailing white space.
pub open spec fn trim_end(s: Seq<char>) -> Seq<char>
    decreases s.len(),
{
    if s.len() > 0 && is_white_space(s.last()) {
        trim_end(s.drop_last())
    } else {
        s
    }
}

/// `s` without leading and trailing white space, as `str::trim` gives it.
pub open spec fn trim(s: Seq<char>) -> Seq<char> {
    trim_end(trim_start(s))
}

/// `s[lo..hi]` without leading and trailing white space.
pub fn trim_range(s: &Vec<char>, lo: usize, hi: usize) -> (r: (usize, usize))
    requires
        lo <= hi <= s@.len(),
    ensures
        lo <= r.0 <= r.1 <= hi,
        s@.subrange(r.0 as int, r.1 as int) == trim(s@.subrange(lo as int, hi as int)),
{
    let mut i = lo;
    while i < hi && white_space(s[i])
        invariant
            lo <= i <= hi <= s@.len(),
            trim_start(s@.subrange(lo as int, hi as int)) == trim_start(
                s@.subrange(i as int, hi as int),
            ),
        decreases hi - i,
    {
        assert(s@.subrange(i as int, hi as int).drop_first() =~= s@.subrange(
            i + 1,
            hi as int,
        ));
        i = i + 1;
    }
    assert(trim_start(s@.subrange(i as int, hi as int)) == s@.subrange(i as int, hi as int));
    let mut j = hi;
    while j > i && white_space(s[j - 1])
        invariant
            lo <= i <= j <= hi <= s@.len(),
            trim_end(s@.subrange(i as int, hi as int)) == trim_end(
                s@.subrange(i as int, j as int),
            ),
        decreases j - i,
    {
        assert(s@.subrange(i as int, j as int).drop_last() =~= s@.subrange(
            i as int,
            j - 1,
        ));
        j = j - 1;
    }
    (i, j)
}

/// The pieces of `s` between occurrences of `sep`, as `str::split` gives them: one
/// more piece than there are separators.
pub open spec fn split_on(s: Seq<char>, sep: char) -> Seq<Seq<char>>
    decreases s.len(),
{
    if s.len() == 0 {
        seq![Seq::empty()]
    } else {
        let rest = split_on(s.drop_last(), sep);
        if s.last() == sep {
            rest.push(Seq::empty())
        } else {
            rest.update(rest.len() - 1, rest.last().push(s.last()))
        }
    }
}

/// `split_on` always gives at least one piece.
pub proof fn lemma_split_on_len(s: Seq<char>, sep: char)
    ensures
        split_on(s, sep).len() >= 1,
    decreases s.len(),
{
    if s.len() > 0 {
        lemma_split_on_len(s.drop_last(), sep);
    }
}

/// Splitting `a`, a separator, then a piece without separators, gives the pieces of
/// `a` and that piece.
pub proof fn lemma_split_on_append(a: Seq<char>, sep: char, x: Seq<char>)
    requires
        !x.contains(sep),
    ensures
        split_on(a + seq![sep] + x, sep) == split_on(a, sep).push(x),
    decreases x.len(),
{
    if x.len() == 0 {
        assert((a + seq![sep] + x).drop_last() =~= a);
        assert((a + seq![sep] + x).last() == sep);
        assert(x =~= Seq::<char>::empty());
    } else {
        let y = x.drop_last();
        assert(!y.contains(sep)) by {
            if y.contains(sep) {
                let k = choose|k: int| 0 <= k < y.len() && y[k] == sep;
                assert(x[k] == sep);
            }
        }
        assert(x.last() != sep) by {
            assert(x[x.len() - 1] == x.last());
        }
        lemma_split_on_append(a, sep, y);
        assert((a + seq![sep] + x).drop_last() =~= a + seq![sep] + y);
        assert((a + seq![sep] + x).last() == x.last());
        lemma_split_on_len(a, sep);
        let rest = split_on(a + seq![sep] + y, sep);
        assert(rest.len() - 1 == split_on(a, sep).len());
        assert(rest.last() == y);
        assert(split_on(a, sep).push(y).update(split_on(a, sep).len() as int, y.push(x.last()))
            =~= split_on(a, sep).push(x)) by {
            assert(y.push(x.last()) =~= x);
        }
    }
}

/// A piece without separators splits into itself.
pub proof fn lemma_split_on_single(x: Seq<char>, sep: char)
    requires
        !x.contains(sep),
    ensures
        split_on(x, sep) == seq![x],
    decreases x.len(),
{
    if x.len() > 0 {
        let y = x.drop_last();
        assert(!y.contains(sep)) by {
            if y.contains(sep) {
                let k = choose|k: int| 0 <= k < y.len() && y[k] == sep;
                assert(x[k] == sep);
            }
        }
        assert(x.last() != sep) by {
            assert(x[x.len() - 1] == x.last());
        }
        lemma_split_on_single(y, sep);
        assert(split_on(y, sep).last() == y);
        assert(y.push(x.last()) =~= x);
        assert(seq![y].update(0, y.push(x.last())) =~= seq![x]);
    } else {
        assert(x =~= Seq::<char>::empty());
    }
}

/// Whether `p` is a prefix of `s`.
pub fn starts_with(s: &str, p: &str) -> (r: bool)
    ensures
        r == p@.is_prefix_of(s@),
{
    let sc = chars_of(s);
    let pc = chars_of(p);
    vec_starts_with(&sc, &pc)
}

/// Whether `p` is a prefix of `s`.
pub fn vec_starts_with(sc: &Vec<char>, pc: &Vec<char>) -> (r: bool)
    ensures
        r == pc@.is_prefix_of(sc@),
{
    if pc.len() > sc.len() {
        return false;
    }
    let mut i: usize = 0;
    while i < pc.len()
        invariant
            pc@.len() <= sc@.len(),
            i <= pc@.len(),
            forall|k: int| 0 <= k < i ==> pc@[k] == sc@[k],
        decreases pc.len() - i,
    {
        if pc[i] != sc[i] {
            return false;
        }
        i = i + 1;
    }
    true
}

/// Whether `a` and `b` hold the same characters.
pub fn str_eq(a: &str, b: &str) -> (r: bool)
    ensures
        r == (a@ == b@),
{
    let ac = chars_of(a);
    let bc = chars_of(b);
    if ac.len() != bc.len() {
        return false;
    }
    let r = vec_starts_with(&ac, &bc);
    assert(r ==> ac@ =~= bc@);
    r
}

/// Whether `p` occurs in `s` at index `i`.
pub open spec fn occurs_at(s: Seq<char>, p: Seq<char>, i: int) -> bool {
    0 <= i && i + p.len() <= s.len() && s.subrange(i, i + p.len()) == p
}

/// Whether `p` occurs anywhere in `s`, as `str::contains` tells.
pub open spec fn contains_seq(s: Seq<char>, p: Seq<char>) -> bool {
    exists|i: int| occurs_at(s, p, i)
}

/// Whether `p` occurs anywhere in `s`.
pub fn vec_contains(sc: &Vec<char>, pc: &Vec<char>) -> (r: bool)
    ensures
        r == contains_seq(sc@, pc@),
{
    if pc.len() > sc.len() {
        assert(!contains_seq(sc@, pc@));
        return false;
    }
    let mut i: usize = 0;
    while i <= sc.len() - pc.len()
        invariant
            pc@.len() <= sc@.len(),
            i <= sc@.len() - pc@.len() + 1,
            forall|k: int| 0 <= k < i ==> !occurs_at(sc@, pc@, k),
        decreases sc.len() - i,
    {
        let mut j: usize = 0;
        let mut ok = true;
        while j < pc.len()
            invariant
                i + pc@.len() <= sc@.len(),
                sc@.len() <= usize::MAX,
                j <= pc@.len(),
                ok == (forall|k: int| 0 <= k < j ==> pc@[k] == sc@[i + k]),
            decreases pc.len() - j,
        {
            if pc[j] != sc[i + j] {
                ok = false;
            }
            j = j + 1;
        }
        if ok {
            assert(sc@.subrange(i as int, i + pc@.len()) =~= pc@);
            assert(occurs_at(sc@, pc@, i as int));
            return true;
        }
        proof {
            if occurs_at(sc@, pc@, i as int) {
                let k = choose|k: int| 0 <= k < pc@.len() && pc@[k] != sc@[i + k];
                assert(sc@.subrange(i as int, i + pc@.len())[k] == sc@[i + k]);
            }
        }
        i = i + 1;
    }
    proof {
        assert forall|k: int| !occurs_at(sc@, pc@, k) by {
            if occurs_at(sc@, pc@, k) {
                assert(k < i);
            }
        }
    }
    false
}

/// `s` with every occurrence of the non-empty `p` replaced by `r`, scanning from the
/// left without overlaps, as `str::replace` does.
pub open spec fn replace_all(s: Seq<char>, p: Seq<char>, r: Seq<char>) -> Seq<char>
    decreases s.len(),
{
    if p.len() == 0 || s.len() < p.len() {
        s
    } else if s.take(p.len() as int) == p {
        r + replace_all(s.skip(p.len() as int), p, r)
    } else {
        seq![s[0]] + replace_all(s.skip(1), p, r)
    }
}

/// `s` with every occurrence of the non-empty `p` replaced by `r`.
pub fn replace_chars(s: &Vec<char>, p: &Vec<char>, r: &Vec<char>) -> (out: Vec<char>)
    requires
        p@.len() > 0,
    ensures
        out@ == replace_all(s@, p@, r@),
{
    let n = s.len();
    let m = p.len();
    let mut out: Vec<char> = Vec::new();
    let mut i: usize = 0;
    assert(s@.skip(0) =~= s@);
    while i < n
        invariant
            i <= n == s@.len(),
            m == p@.len() > 0,
            replace_all(s@, p@, r@) == out@ + replace_all(s@.skip(i as int), p@, r@),
        decreases n - i,
    {
        let ghost t = s@.skip(i as int);
        let mut hit = n - i >= m;
        if hit {
            let mut j: usize = 0;
            while j < m
                invariant
                    i + m <= n == s@.len(),
                    m == p@.len(),
                    j <= m,
                    hit == (forall|k: int| 0 <= k < j ==> p@[k] == s@[i + k]),
                decreases m - j,
            {
                if p[j] != s[i + j] {
                    hit = false;
                }
                j = j + 1;
            }
            proof {
                if hit {
                    assert(t.take(m as int) =~= p@);
                } else {
                    let k = choose|k: int| 0 <= k < m && p@[k] != s@[i + k];
                    assert(t.take(m as int)[k] == s@[i + k]);
                }
            }
        }
        if hit {
            let ghost before = out@;
            let mut k: usize = 0;
            while k < r.len()
                invariant
                    k <= r@.len(),
                    out@ == before + r@.take(k as int),
                decreases r.len() - k,
            {
                out.push(r[k]);
                k = k + 1;
                assert(out@ =~= before + r@.take(k as int));
            }
            assert(r@.take(r@.len() as int) =~= r@);
            assert(t.skip(m as int) =~= s@.skip(i + m));
            assert(out@ + replace_all(s@.skip(i + m), p@, r@) =~= before + (r@ + replace_all(
                t.skip(m as int),
                p@,
                r@,
            )));
            i = i + m;
        } else {
            out.push(s[i]);
            assert(t.skip(1) =~= s@.skip(i + 1));
            assert(t[0] == s@[i as int]);
            assert(out@ + replace_all(s@.skip(i + 1), p@, r@) =~= out@.drop_last() + (seq![t[0]]
                + replace_all(t.skip(1), p@, r@)));
            i = i + 1;
        }
    }
    assert(replace_all(s@.skip(n as int), p@, r@) =~= Seq::<char>::empty()) by {
        assert(s@.skip(n as int).len() == 0);
    }
    assert(out@ + Seq::<char>::empty() =~= out@);
    out
}

/// The characters of `s`, in order.
pub fn chars_of(s: &str) -> (v: Vec<char>)
    ensures
        v@ == s@,
{
    let mut v: Vec<char> = Vec::new();
    for c in it: s.chars()
        invariant
            v@ == it.seq().take(it.index() as int),
            it.seq() == s@,
    {
        v.push(c);
    }
    v
}

/// `String::push`: appends one character.
#[verifier::external_body]
fn string_push(s: &mut String, c: char)
    ensures
        final(s)@ == old(s)@.push(c),
{
    s.push(c)
}

/// Appends the characters of `s`.
pub fn push_str(out: &mut Vec<char>, s: &str)
    ensures
        final(out)@ == old(out)@ + s@,
{
    let cs = chars_of(s);
    let ghost start = old(out)@;
    for i in 0..cs.len()
        invariant
            out@ == start + cs@.take(i as int),
    {
        out.push(cs[i]);
        assert(out@ =~= start + cs@.take(i + 1));
    }
    assert(cs@.take(cs@.len() as int) =~= cs@);
}

/// A string holding exactly the characters `cs`.
pub fn string_of(cs: &[char]) -> (s: String)
    ensures
        s@ == cs@,
{
    let mut s = String::new();
    for i in 0..cs.len()
        invariant
            s@ == cs@.take(i as int),
    {
        string_push(&mut s, cs[i]);
        assert(cs@.take(i + 1) =~= cs@.take(i as int).push(cs@[i as int]));
    }
    assert(cs@.take(cs.len() as int) =~= cs@);
    s
}

/// The ASCII digit for `d < 10`.
pub fn digit_to_char(d: u64) -> (c: char)
    requires
        d < 10,
    ensures
        c == digit_char(d as int),
        is_digit(c),
        digit_value(c) == d,
{
    if d == 0 {
        '0'
    } else if d == 1 {
        '1'
    } else if d == 2 {
        '2'
    } else if d == 3 {
        '3'
    } else if d == 4 {
        '4'
    } else if d == 5 {
        '5'
    } else if d == 6 {
        '6'
    } else if d == 7 {
        '7'
    } else if d == 8 {
        '8'
    } else {
        '9'
    }
}

/// Appends the shortest decimal text of `n`.
pub fn push_dec(out: &mut Vec<char>, n: u64)
    ensures
        final(out)@ == old(out)@ + dec(n as nat),
    decreases n,
{
    if n >= 10 {
        push_dec(out, n / 10);
    }
    let c = digit_to_char(n % 10);
    out.push(c);
    assert(old(out)@ + dec(n as nat) =~= final(out)@) by {
        if n >= 10 {
            assert(dec(n as nat) == dec((n / 10) as nat).push(digit_char((n % 10) as int)));
        }
    }
}

} // verus!
