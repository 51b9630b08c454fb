use vstd::prelude::*;

verus! {

/// How a server relates to the client build: all servers are shown and badged.
#[derive(Debug, Clone, Copy, PartialEq, Eq, Structural)]
pub enum Badge {
    /// Same build the client runs: directly joinable.
    Match,
    /// The 2023 final CS:GO family (1.38.x) but not the exact build.
    Legacy2023,
    /// A CS:GO server on some other, older version.
    OtherCsgo,
    /// Not legacy CS:GO at all (CS2, or another game directory).
    NotCsgo,
}

/// Sort priority of a badge: lower is more interesting.
pub open spec fn badge_rank(b: Badge) -> u8 {
    match b {
        Badge::Match => 0,
        Badge::Legacy2023 => 1,
        Badge::OtherCsgo => 2,
        Badge::NotCsgo => 3,
    }
}

/// Short tag shown in the table for a badge.
pub open spec fn badge_label(b: Badge) -> Seq<char> {
    match b {
        Badge::Match => "MATCH"@,
        Badge::Legacy2023 => "2023"@,
        Badge::OtherCsgo => "csgo?"@,
        Badge::NotCsgo => "—"@,
    }
}

/// Ranks order badges from most to least interesting: the exact build, the 2023
/// family, other legacy builds, then everything else; no two badges share a rank.
pub proof fn lemma_rank_order()
    ensures
        badge_rank(Badge::Match) < badge_rank(Badge::Legacy2023),
        badge_rank(Badge::Legacy2023) < badge_rank(Badge::OtherCsgo),
        badge_rank(Badge::OtherCsgo) < badge_rank(Badge::NotCsgo),
        forall|a: Badge, b: Badge| badge_rank(a) == badge_rank(b) ==> a == b,
{
}

impl Badge {
    /// Sort priority: lower = more interesting (shown first).
    pub fn rank(self) -> (r: u8)
        ensures
            r == badge_rank(self),
    {
        match self {
            Badge::Match => 0,
            Badge::Legacy2023 => 1,
            Badge::OtherCsgo => 2,
            Badge::NotCsgo => 3,
        }
    }

    /// Short tag for table display.
    pub fn label(self) -> (r: &'static str)
        ensures
            r@ == badge_label(self),
    {
        match self {
            Badge::Match => "MATCH",
            Badge::Legacy2023 => "2023",
            Badge::OtherCsgo => "csgo?",
            Badge::NotCsgo => "—",
        }
    }
}

/// The version string of the known-good, joinable server: A2S reports the
/// `steam.inf` PatchVersion here, not the build number 8802.
pub const ORACLE_VERSION: &'static str = "1.38.8.1";

/// What A2S_INFO told about a single live server.
#[derive(Debug, Clone)]
pub struct ServerInfo {
    pub addr: Addr,
    /// Round-trip time of the query, in nanoseconds.
    pub latency_nanos: u64,
    pub protocol: u8,
    pub name: String,
    pub map: String,
    /// Game directory, e.g. "csgo": the coarse "is this even CS:GO" signal.
    pub folder: String,
    pub game: String,
    pub players: u8,
    pub max_players: u8,
    pub bots: u8,
    /// PatchVersion string, e.g. "1.38.8.1".
    pub version: String,
    /// ISO country code from geo-IP, filled in after the A2S pass (empty until then).
    pub country: String,
}

/// An IPv4 socket address: the address as a big-endian 32-bit number, and the port.
#[derive(Debug, Clone, Copy, PartialEq, Eq, Structural)]
pub struct Addr {
    pub ip: u32,
    pub port: u16,
}

/// Octet `k` (0 = most significant) of an IPv4 address.
pub open spec fn octet(ip: u32, k: int) -> int {
    if k == 0 {
        ip as int / 16777216
    } else if k == 1 {
        (ip as int / 65536) % 256
    } else if k == 2 {
        (ip as int / 256) % 256
    } else {
        ip as int % 256
    }
}

/// The address built from its four octets, most significant first.
pub open spec fn ip_from_octets(a: int, b: int, c: int, d: int) -> int {
    a * 16777216 + b * 65536 + c * 256 + d
}

/// The order key of an address: by IP, then by port.
pub open spec fn addr_key(a: Addr) -> int {
    a.ip as int * 65536 + a.port as int
}

/// The address whose order key is `k`.
pub open spec fn addr_of_key(k: int) -> Addr {
    Addr { ip: (k / 65536) as u32, port: (k % 65536) as u16 }
}

/// Distinct addresses have distinct keys, and a key gives its address back.
pub proof fn lemma_addr_key(a: Addr)
    ensures
        0 <= addr_key(a) < 0x1_0000_0000_0000,
        addr_of_key(addr_key(a)) == a,
{
}

impl Addr {
    /// The address with the given four octets and port.
    pub fn new(a: u8, b: u8, c: u8, d: u8, port: u16) -> (r: Addr)
        ensures
            r.ip as int == ip_from_octets(a as int, b as int, c as int, d as int),
            r.port == port,
    {
        let ip: u32 = a as u32 * 16777216 + b as u32 * 65536 + c as u32 * 256 + d as u32;
        Addr { ip, port }
    }

    /// The order key: addresses order by IP, then by port.
    pub fn key(&self) -> (k: u64)
        ensures
            k as int == addr_key(*self),
    {
        self.ip as u64 * 65536 + self.port as u64
    }

    /// The address of an order key.
    pub fn from_key(k: u64) -> (a: Addr)
        requires
            k < 0x1_0000_0000_0000,
        ensures
            a == addr_of_key(k as int),
            addr_key(a) == k as int,
    {
        Addr { ip: (k / 65536) as u32, port: (k % 65536) as u16 }
    }

    /// The four octets of the IP, most significant first.
    pub fn octets(&self) -> (o: [u8; 4])
        ensures
            o[0] as int == octet(self.ip, 0),
            o[1] as int == octet(self.ip, 1),
            o[2] as int == octet(self.ip, 2),
            o[3] as int == octet(self.ip, 3),
    {
        [
            (self.ip / 16777216) as u8,
            ((self.ip / 65536) % 256) as u8,
            ((self.ip / 256) % 256) as u8,
            (self.ip % 256) as u8,
        ]
    }
}

} // verus!
