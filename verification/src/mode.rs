//! Game mode inferred from the map name and the server name.
//!
//! A2S_INFO does not report the mode, and A2S_RULES is unreliable for community
//! servers, so the conventions the community follows are read instead: map prefixes
//! (`surf_`, `jb_`, `ze_`, `de_`, ...) and keywords in the server name. The first rule
//! that matches wins.

use vstd::prelude::*;
use crate::model::ServerInfo;
use crate::text::{chars_of, contains_seq, vec_contains, vec_starts_with};

verus! {

/// The lower-case form of `s`, as `str::to_lowercase` gives it (Unicode case mapping).
pub uninterp spec fn lowercase(s: Seq<char>) -> Seq<char>;

/// `str::to_lowercase`: the string with every character mapped to lower case by the
/// Unicode rules; the result is named by `lowercase` and not spelled out here.
#[verifier::external_body]
fn to_lowercase(s: &str) -> (r: String)
    ensures
        r@ == lowercase(s@),
{
    s.to_lowercase()
}

/// The part of `s` after its last '/', or all of `s` when it has none. Workshop maps
/// arrive as "workshop/<id>/<actual_map>".
pub open spec fn basename(s: Seq<char>) -> Seq<char>
    decreases s.len(),
{
    if s.len() == 0 {
        s
    } else if s.last() == '/' {
        Seq::empty()
    } else {
        basename(s.drop_last()).push(s.last())
    }
}

/// The mode label for a lower-cased map basename `map` and lower-cased server name `name`.
pub open spec fn mode_of(map: Seq<char>, name: Seq<char>) -> Seq<char> {
    if "surf_"@.is_prefix_of(map) {
        "Surf"@
    } else if "bhop_"@.is_prefix_of(map) {
        "Bhop"@
    } else if "kz_"@.is_prefix_of(map) || "climb_"@.is_prefix_of(map) {
        "KZ/Climb"@
    } else if "jb_"@.is_prefix_of(map) || "ba_jail"@.is_prefix_of(map) || contains_seq(
        name,
        "jail"@,
    ) {
        "Jailbreak"@
    } else if "ze_"@.is_prefix_of(map) {
        "Zombie Esc"@
    } else if "zm_"@.is_prefix_of(map) || contains_seq(name, "zombie"@) {
        "Zombie"@
    } else if "aim_"@.is_prefix_of(map) {
        "Aim"@
    } else if "awp_"@.is_prefix_of(map) || contains_seq(name, "awp"@) {
        "AWP"@
    } else if "gg_"@.is_prefix_of(map) || contains_seq(name, "gungame"@) || contains_seq(
        name,
        "arms race"@,
    ) {
        "GunGame"@
    } else if "am_"@.is_prefix_of(map) || contains_seq(name, "retake"@) {
        "Retake/Arena"@
    } else if contains_seq(name, "deathmatch"@) || contains_seq(name, "ffa"@) || contains_seq(
        name,
        " dm "@,
    ) || contains_seq(name, "[dm]"@) {
        "Deathmatch"@
    } else if "de_"@.is_prefix_of(map) {
        "Bomb"@
    } else if "cs_"@.is_prefix_of(map) {
        "Hostage"@
    } else {
        "?"@
    }
}

/// The mode rules, in order, the first that matches winning: a map prefix (`surf_`,
/// `bhop_`, `kz_`/`climb_`, `jb_`/`ba_jail`, `ze_`, `zm_`, `aim_`, `awp_`, `gg_`,
/// `am_`, `de_`, `cs_`) or a keyword in the name (`jail`, `zombie`, `awp`, `gungame`,
/// `arms race`, `retake`, `deathmatch`, `ffa`, ` dm `, `[dm]`) decides the mode; the
/// `de_` and `cs_` prefixes come after every name keyword, and nothing matching gives
/// "?".
pub proof fn lemma_mode_rules(map: Seq<char>, name: Seq<char>)
    ensures
        ({
            let surf = "surf_"@.is_prefix_of(map);
            let bhop = "bhop_"@.is_prefix_of(map);
            let kz = "kz_"@.is_prefix_of(map) || "climb_"@.is_prefix_of(map);
            let jail = "jb_"@.is_prefix_of(map) || "ba_jail"@.is_prefix_of(map) || contains_seq(
                name,
                "jail"@,
            );
            let ze = "ze_"@.is_prefix_of(map);
            let zm = "zm_"@.is_prefix_of(map) || contains_seq(name, "zombie"@);
            let aim = "aim_"@.is_prefix_of(map);
            let awp = "awp_"@.is_prefix_of(map) || contains_seq(name, "awp"@);
            let gg = "gg_"@.is_prefix_of(map) || contains_seq(name, "gungame"@) || contains_seq(
                name,
                "arms race"@,
            );
            let am = "am_"@.is_prefix_of(map) || contains_seq(name, "retake"@);
            let dm = contains_seq(name, "deathmatch"@) || contains_seq(name, "ffa"@)
                || contains_seq(name, " dm "@) || contains_seq(name, "[dm]"@);
            let de = "de_"@.is_prefix_of(map);
            let cs = "cs_"@.is_prefix_of(map);
            let m = mode_of(map, name);
            &&& surf ==> m == "Surf"@
            &&& !surf && bhop ==> m == "Bhop"@
            &&& !surf && !bhop && kz ==> m == "KZ/Climb"@
            &&& !surf && !bhop && !kz && jail ==> m == "Jailbreak"@
            &&& !surf && !bhop && !kz && !jail && ze ==> m == "Zombie Esc"@
            &&& !surf && !bhop && !kz && !jail && !ze && zm ==> m == "Zombie"@
            &&& !surf && !bhop && !kz && !jail && !ze && !zm && aim ==> m == "Aim"@
            &&& !surf && !bhop && !kz && !jail && !ze && !zm && !aim && awp ==> m == "AWP"@
            &&& !surf && !bhop && !kz && !jail && !ze && !zm && !aim && !awp && gg ==> m
                == "GunGame"@
            &&& !surf && !bhop && !kz && !jail && !ze && !zm && !aim && !awp && !gg && am ==> m
                == "Retake/Arena"@
            &&& !surf && !bhop && !kz && !jail && !ze && !zm && !aim && !awp && !gg && !am && dm
                ==> m == "Deathmatch"@
            &&& !surf && !bhop && !kz && !jail && !ze && !zm && !aim && !awp && !gg && !am && !dm
                && de ==> m == "Bomb"@
            &&& !surf && !bhop && !kz && !jail && !ze && !zm && !aim && !awp && !gg && !am && !dm
                && !de && cs ==> m == "Hostage"@
            &&& !surf && !bhop && !kz && !jail && !ze && !zm && !aim && !awp && !gg && !am && !dm
                && !de && !cs ==> m == "?"@
        }),
{
}

/// A name that says "gungame" makes a GunGame server, whatever its map, unless a
/// stronger map prefix or an earlier name keyword (jail, zombie, awp) decides first.
pub proof fn lemma_gungame_by_name(map: Seq<char>, name: Seq<char>)
    requires
        !"surf_"@.is_prefix_of(map),
        !"bhop_"@.is_prefix_of(map),
        !"kz_"@.is_prefix_of(map),
        !"climb_"@.is_prefix_of(map),
        !"jb_"@.is_prefix_of(map),
        !"ba_jail"@.is_prefix_of(map),
        !"ze_"@.is_prefix_of(map),
        !"zm_"@.is_prefix_of(map),
        !"aim_"@.is_prefix_of(map),
        !"awp_"@.is_prefix_of(map),
        contains_seq(name, "gungame"@),
        !contains_seq(name, "jail"@),
        !contains_seq(name, "zombie"@),
        !contains_seq(name, "awp"@),
    ensures
        mode_of(map, name) == "GunGame"@,
{
    lemma_mode_rules(map, name);
}

/// The characters after the last '/' of `s`.
pub fn basename_of(s: &str) -> (r: Vec<char>)
    ensures
        r@ == basename(s@),
{
    let cs = chars_of(s);
    let n = cs.len();
    let mut j = n;
    assert(cs@.take(n as int) =~= cs@);
    assert(basename(cs@) + cs@.subrange(n as int, n as int) =~= basename(cs@));
    while j > 0 && cs[j - 1] != '/'
        invariant
            j <= n == cs@.len(),
            basename(cs@) == basename(cs@.take(j as int)) + cs@.subrange(j as int, n as int),
        decreases j,
    {
        proof {
            let t = cs@.take(j as int);
            assert(t.drop_last() =~= cs@.take(j - 1));
            assert(t.last() == cs@[j - 1]);
            assert(cs@.subrange(j - 1, n as int) =~= seq![cs@[j - 1]] + cs@.subrange(j as int, n as int));
            assert(basename(t) == basename(cs@.take(j - 1)).push(cs@[j - 1]));
            assert(basename(cs@.take(j - 1)).push(cs@[j - 1]) + cs@.subrange(j as int, n as int)
                =~= basename(cs@.take(j - 1)) + cs@.subrange(j - 1, n as int));
        }
        j = j - 1;
    }
    proof {
        if j > 0 {
            assert(cs@.take(j as int).last() == cs@[j - 1]);
        } else {
            assert(cs@.take(0) =~= Seq::<char>::empty());
        }
        assert(basename(cs@.take(j as int)) =~= Seq::<char>::empty());
        assert(Seq::<char>::empty() + cs@.subrange(j as int, n as int) =~= cs@.subrange(j as int, n as int));
    }
    let mut r: Vec<char> = Vec::new();
    let mut k = j;
    while k < n
        invariant
            j <= k <= n == cs@.len(),
            r@ == cs@.subrange(j as int, k as int),
        decreases n - k,
    {
        r.push(cs[k]);
        k = k + 1;
        assert(r@ =~= cs@.subrange(j as int, k as int));
    }
    r
}

/// Whether `map` starts with `p`.
fn has(map: &Vec<char>, p: &str) -> (r: bool)
    ensures
        r == p@.is_prefix_of(map@),
{
    let pc = chars_of(p);
    vec_starts_with(map, &pc)
}

/// Whether `name` contains `p`.
fn named(name: &Vec<char>, p: &str) -> (r: bool)
    ensures
        r == contains_seq(name@, p@),
{
    let pc = chars_of(p);
    vec_contains(name, &pc)
}

/// The mode label for an already lower-cased map basename and server name. Map
/// prefixes are the strongest signal; name keywords come after them.
pub fn infer_lowered(map: &str, name: &str) -> (r: &'static str)
    ensures
        r@ == mode_of(map@, name@),
{
    let m = chars_of(map);
    let n = chars_of(name);
    if has(&m, "surf_") {
        "Surf"
    } else if has(&m, "bhop_") {
        "Bhop"
    } else if has(&m, "kz_") || has(&m, "climb_") {
        "KZ/Climb"
    } else if has(&m, "jb_") || has(&m, "ba_jail") || named(&n, "jail") {
        "Jailbreak"
    } else if has(&m, "ze_") {
        "Zombie Esc"
    } else if has(&m, "zm_") || named(&n, "zombie") {
        "Zombie"
    } else if has(&m, "aim_") {
        "Aim"
    } else if has(&m, "awp_") || named(&n, "awp") {
        "AWP"
    } else if has(&m, "gg_") || named(&n, "gungame") || named(&n, "arms race") {
        "GunGame"
    } else if has(&m, "am_") || named(&n, "retake") {
        "Retake/Arena"
    } else if named(&n, "deathmatch") || named(&n, "ffa") || named(&n, " dm ") || named(
        &n,
        "[dm]",
    ) {
        "Deathmatch"
    } else if has(&m, "de_") {
        "Bomb"
    } else if has(&m, "cs_") {
        "Hostage"
    } else {
        "?"
    }
}

/// Infers a server's game mode from its map name and server name.
pub fn infer(s: &ServerInfo) -> (r: &'static str)
    ensures
        r@ == mode_of(lowercase(basename(s.map@)), lowercase(s.name@)),
{
    let base = crate::text::string_of(basename_of(s.map.as_str()).as_slice());
    let map = to_lowercase(base.as_str());
    let name = to_lowercase(s.name.as_str());
    infer_lowered(map.as_str(), name.as_str())
}

} // verus!
