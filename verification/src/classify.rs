//! Badge classification: how a server relates to the client build.
//!
//! Older legacy CS:GO builds are probably joinable from an 8802 client, so they are
//! surfaced as candidates (`OtherCsgo`) rather than hidden, while the exact
//! known-good build and the 2023 final family are told apart so the confidence
//! shows.

use vstd::prelude::*;
use crate::model::{Badge, ServerInfo, ORACLE_VERSION, badge_label};
use crate::text::{starts_with, str_eq};

verus! {

/// The badge of a server with game directory `folder` and version line `version`.
///
/// CS2 also uses the "csgo" game directory and network protocol 17, so neither
/// separates it from legacy CS:GO: legacy CS:GO is the "1.3x" version series
/// (1.38.x final), CS2 the "1.4x" one.
pub open spec fn badge_of(folder: Seq<char>, version: Seq<char>) -> Badge {
    if folder != "csgo"@ {
        Badge::NotCsgo
    } else if !"1.3"@.is_prefix_of(version) {
        Badge::NotCsgo
    } else if version == "1.38.8.1"@ {
        Badge::Match
    } else if "1.38."@.is_prefix_of(version) {
        Badge::Legacy2023
    } else {
        Badge::OtherCsgo
    }
}

/// Only the exact known-good version in the "csgo" game directory is a match; the
/// joinable badges (match and the 2023 family) need the "csgo" game directory and a
/// "1.38." version; any other game directory is not legacy CS:GO.
pub proof fn lemma_badge_facts(folder: Seq<char>, version: Seq<char>)
    ensures
        badge_of(folder, version) == Badge::Match <==> (folder == "csgo"@ && version
            == "1.38.8.1"@),
        (badge_of(folder, version) == Badge::Match || badge_of(folder, version)
            == Badge::Legacy2023) ==> folder == "csgo"@ && "1.38."@.is_prefix_of(version),
        folder != "csgo"@ ==> badge_of(folder, version) == Badge::NotCsgo,
        badge_of(folder, version) == Badge::OtherCsgo ==> "1.3"@.is_prefix_of(version)
            && !"1.38."@.is_prefix_of(version),
{
    reveal_strlit("1.38.8.1");
    reveal_strlit("1.38.");
    reveal_strlit("1.3");
    if version == "1.38.8.1"@ {
        assert("1.3"@ =~= version.subrange(0, 3));
        assert("1.38."@ =~= version.subrange(0, 5));
    }
}

/// The four badges by game directory and version line: anything outside the "csgo"
/// game directory, or off the "1.3" series, is not legacy CS:GO; "1.38.8.1" is the
/// match; any other "1.38." version is the 2023 family; every other "1.3" version is
/// an older legacy build, a candidate, never "not CS:GO".
pub proof fn lemma_badge_cases(folder: Seq<char>, version: Seq<char>)
    ensures
        folder != "csgo"@ ==> badge_of(folder, version) == Badge::NotCsgo,
        folder == "csgo"@ && !"1.3"@.is_prefix_of(version) ==> badge_of(folder, version)
            == Badge::NotCsgo,
        folder == "csgo"@ && version == "1.38.8.1"@ ==> badge_of(folder, version) == Badge::Match,
        folder == "csgo"@ && "1.38."@.is_prefix_of(version) && version != "1.38.8.1"@
            ==> badge_of(folder, version) == Badge::Legacy2023,
        folder == "csgo"@ && "1.3"@.is_prefix_of(version) && !"1.38."@.is_prefix_of(version)
            ==> badge_of(folder, version) == Badge::OtherCsgo,
        badge_label(Badge::Match) == "MATCH"@,
        badge_label(Badge::Legacy2023) == "2023"@,
        badge_label(Badge::OtherCsgo) == "csgo?"@,
        badge_label(Badge::NotCsgo) == "—"@,
{
    reveal_strlit("1.38.8.1");
    reveal_strlit("1.38.");
    reveal_strlit("1.3");
    if version == "1.38.8.1"@ {
        assert("1.3"@ =~= version.subrange(0, 3));
    }
    if "1.38."@.is_prefix_of(version) {
        assert("1.3"@ =~= version.subrange(0, 3));
    }
}

/// Decides which badge a server gets relative to the client build.
pub fn classify(s: &ServerInfo) -> (b: Badge)
    ensures
        b == badge_of(s.folder@, s.version@),
{
    if !str_eq(s.folder.as_str(), "csgo") {
        return Badge::NotCsgo;
    }
    let is_legacy = starts_with(s.version.as_str(), "1.3");
    if !is_legacy {
        return Badge::NotCsgo;
    }
    if str_eq(s.version.as_str(), ORACLE_VERSION) {
        Badge::Match
    } else if starts_with(s.version.as_str(), "1.38.") {
        Badge::Legacy2023
    } else {
        Badge::OtherCsgo
    }
}

} // verus!
