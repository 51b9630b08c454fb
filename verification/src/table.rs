//! The text of the static table (`--once`) and of the cells the interactive view
//! shares with it.

use vstd::prelude::*;
use crate::model::{Badge, ServerInfo, badge_label};
use crate::classify::{badge_of, classify};
use crate::mode::{infer, lowercase, basename, mode_of};
use crate::addr::{addr_text, addr_to_string, push_addr};
use crate::text::{chars_of, dec, push_dec, push_str, string_of};

verus! {

broadcast use vstd::string::group_string_axioms;

/// `n` spaces.
pub open spec fn spaces(n: int) -> Seq<char>
    decreases n,
{
    if n <= 0 {
        Seq::empty()
    } else {
        spaces(n - 1).push(' ')
    }
}

/// `s` padded with spaces on the right to width `w`, as `{:<w}` writes it.
pub open spec fn pad_right(s: Seq<char>, w: int) -> Seq<char> {
    s + spaces(w - s.len())
}

/// `s` padded with spaces on the left to width `w`, as `{:>w}` writes it.
pub open spec fn pad_left(s: Seq<char>, w: int) -> Seq<char> {
    spaces(w - s.len()) + s
}

/// Appends `n` spaces.
fn push_spaces(out: &mut Vec<char>, n: usize)
    ensures
        final(out)@ == old(out)@ + spaces(n as int),
{
    let ghost start = old(out)@;
    let mut i: usize = 0;
    while i < n
        invariant
            i <= n,
            out@ == start + spaces(i as int),
        decreases n - i,
    {
        out.push(' ');
        i = i + 1;
        assert(out@ =~= start + spaces(i as int));
    }
}

/// Appends `s` padded on the right to width `w`.
fn push_pad_right(out: &mut Vec<char>, s: &Vec<char>, w: usize)
    ensures
        final(out)@ == old(out)@ + pad_right(s@, w as int),
{
    let ghost start = old(out)@;
    for i in 0..s.len()
        invariant
            out@ == start + s@.take(i as int),
    {
        out.push(s[i]);
        assert(out@ =~= start + s@.take(i + 1));
    }
    assert(s@.take(s@.len() as int) =~= s@);
    let n = if s.len() < w {
        w - s.len()
    } else {
        0
    };
    push_spaces(out, n);
    assert(spaces(n as int) =~= spaces(w - s@.len()));
    assert(final(out)@ =~= start + pad_right(s@, w as int));
}

/// Appends `s` padded on the left to width `w`.
fn push_pad_left(out: &mut Vec<char>, s: &Vec<char>, w: usize)
    ensures
        final(out)@ == old(out)@ + pad_left(s@, w as int),
{
    let ghost start = old(out)@;
    let n = if s.len() < w {
        w - s.len()
    } else {
        0
    };
    push_spaces(out, n);
    assert(spaces(n as int) =~= spaces(w - s@.len()));
    let ghost mid = out@;
    for i in 0..s.len()
        invariant
            out@ == mid + s@.take(i as int),
    {
        out.push(s[i]);
        assert(out@ =~= mid + s@.take(i + 1));
    }
    assert(s@.take(s@.len() as int) =~= s@);
    assert(final(out)@ =~= start + pad_left(s@, w as int));
}

/// `s` cut to `max` characters: kept when it fits, else its first `max - 1` characters
/// (none when `max` is 0) and an ellipsis.
pub open spec fn trunc_text(s: Seq<char>, max: int) -> Seq<char> {
    if s.len() <= max {
        s
    } else {
        s.take(if max >= 1 {
            max - 1
        } else {
            0
        }) + seq!['…']
    }
}

/// Cuts `s` to `max` characters, marking the cut with an ellipsis.
pub fn trunc(s: &str, max: usize) -> (r: String)
    ensures
        r@ == trunc_text(s@, max as int),
{
    let cs = chars_of(s);
    if cs.len() <= max {
        return string_of(cs.as_slice());
    }
    let keep = if max >= 1 {
        max - 1
    } else {
        0
    };
    let mut out: Vec<char> = Vec::new();
    for i in 0..keep
        invariant
            keep < cs@.len(),
            out@ == cs@.take(i as int),
    {
        out.push(cs[i]);
        assert(out@ =~= cs@.take(i + 1));
    }
    out.push('…');
    string_of(out.as_slice())
}

/// A truncated text never runs past `max` characters when `max` is at least 1, and a
/// text that fits is left alone.
pub proof fn lemma_trunc_fits(s: Seq<char>, max: int)
    requires
        max >= 1,
    ensures
        trunc_text(s, max).len() <= max,
        s.len() <= max ==> trunc_text(s, max) == s,
{
}

/// The country column: the code, or "??" when it is not known.
pub open spec fn country_text(cc: Seq<char>) -> Seq<char> {
    if cc.len() == 0 {
        "??"@
    } else {
        cc
    }
}

/// The country column for a code.
pub fn country_label(cc: &str) -> (r: &str)
    ensures
        r@ == country_text(cc@),
{
    if cc.is_empty() {
        "??"
    } else {
        cc
    }
}

/// The mark in front of a row: blocked ("couldn't connect") takes precedence over
/// favourite, being the more recent "this one is actually broken" signal.
#[derive(Debug, Clone, Copy, PartialEq, Eq, Structural)]
pub enum Marker {
    Blocked,
    Favourite,
    Plain,
}

/// The mark of a row.
pub open spec fn marker_of(blocked: bool, favourite: bool) -> Marker {
    if blocked {
        Marker::Blocked
    } else if favourite {
        Marker::Favourite
    } else {
        Marker::Plain
    }
}

/// The mark of a row.
pub fn row_marker(blocked: bool, favourite: bool) -> (m: Marker)
    ensures
        m == marker_of(blocked, favourite),
{
    if blocked {
        Marker::Blocked
    } else if favourite {
        Marker::Favourite
    } else {
        Marker::Plain
    }
}

/// The symbol of a mark in the interactive view.
pub open spec fn marker_symbol(m: Marker) -> Seq<char> {
    match m {
        Marker::Blocked => "✗"@,
        Marker::Favourite => "★"@,
        Marker::Plain => " "@,
    }
}

/// The mark column of the static table, two characters wide.
pub open spec fn star_text(m: Marker) -> Seq<char> {
    match m {
        Marker::Blocked => "✗ "@,
        Marker::Favourite => "★ "@,
        Marker::Plain => "  "@,
    }
}

impl Marker {
    /// The symbol of the mark in the interactive view.
    pub fn symbol(self) -> (s: &'static str)
        ensures
            s@ == marker_symbol(self),
    {
        match self {
            Marker::Blocked => "✗",
            Marker::Favourite => "★",
            Marker::Plain => " ",
        }
    }

    /// The mark column of the static table.
    pub fn star(self) -> (s: &'static str)
        ensures
            s@ == star_text(self),
    {
        match self {
            Marker::Blocked => "✗ ",
            Marker::Favourite => "★ ",
            Marker::Plain => "  ",
        }
    }
}

/// Whole milliseconds of a latency in nanoseconds.
pub open spec fn millis(nanos: u64) -> nat {
    (nanos / 1_000_000) as nat
}

/// "{ms}ms", the ping cell of the interactive view.
pub fn ms_text(nanos: u64) -> (s: String)
    ensures
        s@ == dec(millis(nanos)) + "ms"@,
{
    let mut cs: Vec<char> = Vec::new();
    push_dec(&mut cs, nanos / 1_000_000);
    push_str(&mut cs, "ms");
    string_of(cs.as_slice())
}

/// "players/max".
pub open spec fn players_text(players: u8, max: u8) -> Seq<char> {
    dec(players as nat) + seq!['/'] + dec(max as nat)
}

/// "players/max", the players cell.
pub fn players_cell(players: u8, max: u8) -> (s: String)
    ensures
        s@ == players_text(players, max),
{
    let mut cs: Vec<char> = Vec::new();
    push_dec(&mut cs, players as u64);
    cs.push('/');
    push_dec(&mut cs, max as u64);
    assert(cs@ =~= players_text(players, max));
    string_of(cs.as_slice())
}

/// The header line of the static table.
pub open spec fn header_text() -> Seq<char> {
    pad_right(""@, 2) + pad_right("BADGE"@, 6) + " "@ + pad_left("PING"@, 6) + " "@ + pad_left(
        "PLRS"@,
        6,
    ) + " "@ + pad_right("MODE"@, 12) + " "@ + pad_right("CC"@, 3) + " "@ + pad_right(
        "MAP"@,
        16,
    ) + " "@ + "ADDR"@
}

/// The header line of the static table.
pub fn header() -> (s: String)
    ensures
        s@ == header_text(),
{
    let mut cs: Vec<char> = Vec::new();
    push_pad_right(&mut cs, &chars_of(""), 2);
    push_pad_right(&mut cs, &chars_of("BADGE"), 6);
    push_str(&mut cs, " ");
    push_pad_left(&mut cs, &chars_of("PING"), 6);
    push_str(&mut cs, " ");
    push_pad_left(&mut cs, &chars_of("PLRS"), 6);
    push_str(&mut cs, " ");
    push_pad_right(&mut cs, &chars_of("MODE"), 12);
    push_str(&mut cs, " ");
    push_pad_right(&mut cs, &chars_of("CC"), 3);
    push_str(&mut cs, " ");
    push_pad_right(&mut cs, &chars_of("MAP"), 16);
    push_str(&mut cs, " ");
    push_str(&mut cs, "ADDR");
    assert(cs@ =~= header_text());
    string_of(cs.as_slice())
}

/// The rule under the header: 96 dashes.
pub fn rule() -> (s: String)
    ensures
        s@ == Seq::new(96, |i: int| '-'),
{
    let mut cs: Vec<char> = Vec::new();
    for i in 0..96usize
        invariant
            cs@ == Seq::new(i as nat, |k: int| '-'),
    {
        cs.push('-');
        assert(cs@ =~= Seq::new((i + 1) as nat, |k: int| '-'));
    }
    string_of(cs.as_slice())
}

/// One row of the static table for server `s`: mark, badge, ping, players, mode,
/// country, map (cut to 16) and address.
pub open spec fn row_text(s: ServerInfo, m: Marker) -> Seq<char> {
    star_text(m) + pad_right(badge_label(badge_of(s.folder@, s.version@)), 6) + " "@ + pad_left(
        dec(millis(s.latency_nanos)),
        4,
    ) + "ms "@ + pad_left(players_text(s.players, s.max_players), 5) + " "@ + pad_right(
        mode_of(lowercase(basename(s.map@)), lowercase(s.name@)),
        12,
    ) + " "@ + pad_right(country_text(s.country@), 3) + " "@ + pad_right(
        trunc_text(s.map@, 16),
        16,
    ) + " "@ + addr_text(s.addr)
}

/// One row of the static table.
pub fn table_row(s: &ServerInfo, m: Marker) -> (r: String)
    ensures
        r@ == row_text(*s, m),
{
    let mut cs: Vec<char> = Vec::new();
    push_str(&mut cs, m.star());
    push_pad_right(&mut cs, &chars_of(classify(s).label()), 6);
    push_str(&mut cs, " ");
    let mut ms: Vec<char> = Vec::new();
    push_dec(&mut ms, s.latency_nanos / 1_000_000);
    push_pad_left(&mut cs, &ms, 4);
    push_str(&mut cs, "ms ");
    push_pad_left(&mut cs, &chars_of(players_cell(s.players, s.max_players).as_str()), 5);
    push_str(&mut cs, " ");
    push_pad_right(&mut cs, &chars_of(infer(s)), 12);
    push_str(&mut cs, " ");
    push_pad_right(&mut cs, &chars_of(country_label(s.country.as_str())), 3);
    push_str(&mut cs, " ");
    push_pad_right(&mut cs, &chars_of(trunc(s.map.as_str(), 16).as_str()), 16);
    push_str(&mut cs, " ");
    push_addr(&mut cs, s.addr);
    assert(cs@ =~= row_text(*s, m));
    string_of(cs.as_slice())
}

/// The colours the interactive view paints with.
#[derive(Debug, Clone, Copy, PartialEq, Eq, Structural)]
pub enum Tint {
    Green,
    Cyan,
    Yellow,
    DarkGray,
    Red,
}

/// The colour of a row by its badge: green for the exact build, cyan for the 2023
/// family, yellow for other legacy builds, dark grey for the rest.
pub open spec fn badge_tint(b: Badge) -> Tint {
    match b {
        Badge::Match => Tint::Green,
        Badge::Legacy2023 => Tint::Cyan,
        Badge::OtherCsgo => Tint::Yellow,
        Badge::NotCsgo => Tint::DarkGray,
    }
}

/// The colour of a row's mark: red for blocked, yellow otherwise.
pub open spec fn marker_tint(m: Marker) -> Tint {
    match m {
        Marker::Blocked => Tint::Red,
        Marker::Favourite | Marker::Plain => Tint::Yellow,
    }
}

/// The nine cells of a row of the interactive view: mark, badge, ping, players, mode,
/// country, map (cut to 16), address and name (cut to 30).
pub open spec fn view_cells(s: ServerInfo, m: Marker) -> Seq<Seq<char>> {
    seq![
        marker_symbol(m),
        badge_label(badge_of(s.folder@, s.version@)),
        dec(millis(s.latency_nanos)) + "ms"@,
        players_text(s.players, s.max_players),
        mode_of(lowercase(basename(s.map@)), lowercase(s.name@)),
        country_text(s.country@),
        trunc_text(s.map@, 16),
        addr_text(s.addr),
        trunc_text(s.name@, 30),
    ]
}

/// One row of the interactive view: its cells, the colour of its mark, the colour of
/// the row, and whether the row is dimmed. A blocked row is dimmed, de-emphasised but
/// still visible, and keeps its badge colour so the badge signal is not lost.
pub struct ViewRow {
    pub cells: Vec<String>,
    pub marker_tint: Tint,
    pub row_tint: Tint,
    pub dimmed: bool,
}

/// The row of the interactive view for server `s`.
pub fn view_row(s: &ServerInfo, blocked: bool, favourite: bool) -> (r: ViewRow)
    ensures
        r.cells@.map_values(|c: String| c@) == view_cells(*s, marker_of(blocked, favourite)),
        r.marker_tint == marker_tint(marker_of(blocked, favourite)),
        r.row_tint == badge_tint(badge_of(s.folder@, s.version@)),
        r.dimmed == blocked,
{
    let m = row_marker(blocked, favourite);
    let badge = classify(s);
    let mut cells: Vec<String> = Vec::new();
    cells.push(string_of(chars_of(m.symbol()).as_slice()));
    cells.push(string_of(chars_of(badge.label()).as_slice()));
    cells.push(ms_text(s.latency_nanos));
    cells.push(players_cell(s.players, s.max_players));
    cells.push(string_of(chars_of(infer(s)).as_slice()));
    cells.push(string_of(chars_of(country_label(s.country.as_str())).as_slice()));
    cells.push(trunc(s.map.as_str(), 16));
    cells.push(addr_to_string(s.addr));
    cells.push(trunc(s.name.as_str(), 30));
    assert(cells@.map_values(|c: String| c@) =~= view_cells(*s, m));
    let marker_tint = match m {
        Marker::Blocked => Tint::Red,
        Marker::Favourite | Marker::Plain => Tint::Yellow,
    };
    let row_tint = match badge {
        Badge::Match => Tint::Green,
        Badge::Legacy2023 => Tint::Cyan,
        Badge::OtherCsgo => Tint::Yellow,
        Badge::NotCsgo => Tint::DarkGray,
    };
    ViewRow { cells, marker_tint, row_tint, dimmed: blocked }
}

/// A server is joinable for the client build: the exact build or the 2023 family.
pub open spec fn joinable(s: ServerInfo) -> bool {
    badge_of(s.folder@, s.version@) == Badge::Match || badge_of(s.folder@, s.version@)
        == Badge::Legacy2023
}

/// How many of the first `n` servers are joinable.
pub open spec fn joinable_count(servers: Seq<ServerInfo>) -> nat
    decreases servers.len(),
{
    if servers.len() == 0 {
        0
    } else {
        joinable_count(servers.drop_last()) + if joinable(servers.last()) {
            1nat
        } else {
            0nat
        }
    }
}

/// A server is joinable exactly when it is in the "csgo" game directory and on a
/// "1.38." version: the exact build or the rest of the 2023 family.
pub proof fn lemma_joinable_means(s: ServerInfo)
    ensures
        joinable(s) <==> s.folder@ == "csgo"@ && "1.38."@.is_prefix_of(s.version@),
{
    crate::classify::lemma_badge_cases(s.folder@, s.version@);
    crate::classify::lemma_badge_facts(s.folder@, s.version@);
}

/// The joinable count of a list counts its joinable servers: none in an empty list, and
/// appending a server adds one exactly when that server is joinable; it is the length of
/// the list of joinable servers, and never more than the list's length.
pub proof fn lemma_joinable_count(servers: Seq<ServerInfo>, x: ServerInfo)
    ensures
        joinable_count(Seq::<ServerInfo>::empty()) == 0,
        joinable_count(servers.push(x)) == joinable_count(servers) + if joinable(x) {
            1nat
        } else {
            0nat
        },
        joinable_count(servers) == servers.filter(|s: ServerInfo| joinable(s)).len(),
        joinable_count(servers) <= servers.len(),
    decreases servers.len(),
{
    assert(servers.push(x).drop_last() =~= servers);
    reveal(Seq::filter);
    if servers.len() > 0 {
        lemma_joinable_count(servers.drop_last(), servers.last());
    }
}

/// How many servers are joinable.
pub fn count_joinable(servers: &Vec<ServerInfo>) -> (n: usize)
    ensures
        n == joinable_count(servers@),
{
    let mut n: usize = 0;
    for i in 0..servers.len()
        invariant
            n == joinable_count(servers@.take(i as int)),
            n <= i,
    {
        let b = classify(&servers[i]);
        proof {
            assert(servers@.take(i + 1).drop_last() =~= servers@.take(i as int));
        }
        if b == Badge::Match || b == Badge::Legacy2023 {
            n = n + 1;
        }
    }
    assert(servers@.take(servers@.len() as int) =~= servers@);
    n
}

/// The closing line: how many live servers, how many joinable.
pub open spec fn summary_text(total: nat, joinable: nat) -> Seq<char> {
    "\n"@ + dec(total) + " live servers, "@ + dec(joinable)
        + " joinable for your build (MATCH/2023)."@
}

/// The closing line of the static table.
pub fn summary(total: usize, joinable: usize) -> (s: String)
    ensures
        s@ == summary_text(total as nat, joinable as nat),
{
    let mut cs: Vec<char> = Vec::new();
    push_str(&mut cs, "\n");
    push_dec(&mut cs, total as u64);
    push_str(&mut cs, " live servers, ");
    push_dec(&mut cs, joinable as u64);
    push_str(&mut cs, " joinable for your build (MATCH/2023).");
    assert(cs@ =~= summary_text(total as nat, joinable as nat));
    string_of(cs.as_slice())
}

} // verus!
