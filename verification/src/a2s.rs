//! A2S_INFO: the request, the challenge handshake and the reply's wire format.
//!
//! A reply is four 0xFF bytes, a type byte, then the body. Type 0x41 is a challenge:
//! the request is sent again with the four challenge bytes appended. Type 0x49 is
//! the info body: protocol, name, map, folder, game (NUL-terminated strings), the
//! app id (u16, little endian), players, max players, bots, server type,
//! environment, visibility, VAC (one byte each), and the version string.

use vstd::prelude::*;
use vstd::slice::slice_subrange;
use vstd::utf8::{decode_utf8, valid_utf8};
use crate::model::{Addr, ServerInfo};
use crate::text::{chars_of, string_of};

verus! {

/// The text `String::from_utf8_lossy` makes of `bytes`: invalid sequences become
/// U+FFFD.
pub uninterp spec fn utf8_lossy(bytes: Seq<u8>) -> Seq<char>;

/// `String::from_utf8_lossy(..).into_owned()`: valid UTF-8 is decoded as it is; what
/// it makes of invalid sequences is named by `utf8_lossy` and not spelled out here.
#[verifier::external_body]
fn from_utf8_lossy(bytes: &[u8]) -> (s: String)
    ensures
        s@ == utf8_lossy(bytes@),
        valid_utf8(bytes@) ==> s@ == decode_utf8(bytes@),
{
    String::from_utf8_lossy(bytes).into_owned()
}

/// Why a reply could not be read.
#[derive(Debug, Clone, Copy, PartialEq, Eq, Structural)]
pub enum A2sError {
    /// The reply ended before a field it should hold.
    EndOfBuffer,
    /// The type byte was neither a challenge nor an info body where one was due.
    UnexpectedType(u8),
}

/// An uppercase hexadecimal digit for `d < 16`.
pub open spec fn hex_digit(d: int) -> char {
    if d < 10 {
        crate::text::digit_char(d)
    } else if d == 10 {
        'A'
    } else if d == 11 {
        'B'
    } else if d == 12 {
        'C'
    } else if d == 13 {
        'D'
    } else if d == 14 {
        'E'
    } else {
        'F'
    }
}

/// A byte as two uppercase hexadecimal digits, as `{:02X}` writes it.
pub open spec fn hex_byte(b: u8) -> Seq<char> {
    seq![hex_digit(b as int / 16), hex_digit(b as int % 16)]
}

/// The message of an error.
pub open spec fn error_text(e: A2sError) -> Seq<char> {
    match e {
        A2sError::EndOfBuffer => "unexpected end of buffer"@,
        A2sError::UnexpectedType(k) => "unexpected A2S response type 0x"@ + hex_byte(k),
    }
}

/// The uppercase hexadecimal digit for `d < 16`.
pub fn hex_digit_char(d: u8) -> (c: char)
    requires
        d < 16,
    ensures
        c == hex_digit(d as int),
{
    if d < 10 {
        crate::text::digit_to_char(d as u64)
    } else if d == 10 {
        'A'
    } else if d == 11 {
        'B'
    } else if d == 12 {
        'C'
    } else if d == 13 {
        'D'
    } else if d == 14 {
        'E'
    } else {
        'F'
    }
}

/// Appends the two uppercase hexadecimal digits of `b`.
pub fn push_hex_byte(out: &mut Vec<char>, b: u8)
    ensures
        final(out)@ == old(out)@ + hex_byte(b),
{
    out.push(hex_digit_char(b / 16));
    out.push(hex_digit_char(b % 16));
    assert(final(out)@ =~= old(out)@ + hex_byte(b));
}

impl A2sError {
    /// The error's message.
    pub fn message(&self) -> (s: String)
        ensures
            s@ == error_text(*self),
    {
        match self {
            A2sError::EndOfBuffer => string_of(chars_of("unexpected end of buffer").as_slice()),
            A2sError::UnexpectedType(k) => {
                let mut cs = chars_of("unexpected A2S response type 0x");
                push_hex_byte(&mut cs, *k);
                string_of(cs.as_slice())
            },
        }
    }
}

/// The index of the NUL that ends the string starting at `i`, or the end of `d`.
pub open spec fn cstr_end(d: Seq<u8>, i: int) -> int
    decreases d.len() - i,
{
    if 0 <= i < d.len() && d[i] != 0 {
        cstr_end(d, i + 1)
    } else {
        i
    }
}

/// A NUL-terminated string never ends before it starts or past the end.
pub proof fn lemma_cstr_end(d: Seq<u8>, i: int)
    requires
        0 <= i <= d.len(),
    ensures
        i <= cstr_end(d, i) <= d.len(),
        cstr_end(d, i) < d.len() ==> d[cstr_end(d, i)] == 0,
    decreases d.len() - i,
{
    if i < d.len() && d[i] != 0 {
        lemma_cstr_end(d, i + 1);
    }
}

/// A read position over a reply.
pub struct Cursor<'a> {
    pub data: &'a [u8],
    pub pos: usize,
}

impl<'a> Cursor<'a> {
    /// A cursor at the start of `data`.
    pub fn new(data: &'a [u8]) -> (c: Cursor<'a>)
        ensures
            c.data@ == data@,
            c.pos == 0,
    {
        Cursor { data, pos: 0 }
    }

    /// The next `n` bytes; fails, without moving, when fewer are left.
    pub fn take(&mut self, n: usize) -> (r: Result<&'a [u8], A2sError>)
        ensures
            final(self).data@ == old(self).data@,
            old(self).pos + n <= old(self).data@.len() ==> (r matches Ok(s) && s@
                == old(self).data@.subrange(old(self).pos as int, old(self).pos + n)
                && final(self).pos == old(self).pos + n),
            old(self).pos + n > old(self).data@.len() ==> r == Err::<&[u8], A2sError>(
                A2sError::EndOfBuffer,
            ) && final(self).pos == old(self).pos,
    {
        if n > self.data.len() || self.pos > self.data.len() - n {
            return Err(A2sError::EndOfBuffer);
        }
        let s = slice_subrange(self.data, self.pos, self.pos + n);
        self.pos = self.pos + n;
        Ok(s)
    }

    /// Skips `n` bytes; fails, without moving, when fewer are left.
    pub fn skip(&mut self, n: usize) -> (r: Result<(), A2sError>)
        ensures
            final(self).data@ == old(self).data@,
            old(self).pos + n <= old(self).data@.len() ==> r is Ok && final(self).pos == old(
                self,
            ).pos + n,
            old(self).pos + n > old(self).data@.len() ==> r == Err::<(), A2sError>(
                A2sError::EndOfBuffer,
            ) && final(self).pos == old(self).pos,
    {
        match self.take(n) {
            Ok(_) => Ok(()),
            Err(e) => Err(e),
        }
    }

    /// The next byte.
    pub fn u8(&mut self) -> (r: Result<u8, A2sError>)
        ensures
            final(self).data@ == old(self).data@,
            old(self).pos + 1 <= old(self).data@.len() ==> r == Ok::<u8, A2sError>(
                old(self).data@[old(self).pos as int],
            ) && final(self).pos == old(self).pos + 1,
            old(self).pos + 1 > old(self).data@.len() ==> r == Err::<u8, A2sError>(
                A2sError::EndOfBuffer,
            ) && final(self).pos == old(self).pos,
    {
        match self.take(1) {
            Ok(b) => Ok(b[0]),
            Err(e) => Err(e),
        }
    }

    /// The next two bytes as a little-endian `u16`.
    pub fn u16le(&mut self) -> (r: Result<u16, A2sError>)
        ensures
            final(self).data@ == old(self).data@,
            old(self).pos + 2 <= old(self).data@.len() ==> r == Ok::<u16, A2sError>(
                (old(self).data@[old(self).pos as int] as int + old(self).data@[old(self).pos
                    + 1] as int * 256) as u16,
            ) && final(self).pos == old(self).pos + 2,
            old(self).pos + 2 > old(self).data@.len() ==> r == Err::<u16, A2sError>(
                A2sError::EndOfBuffer,
            ) && final(self).pos == old(self).pos,
    {
        match self.take(2) {
            Ok(b) => Ok(b[0] as u16 + b[1] as u16 * 256),
            Err(e) => Err(e),
        }
    }

    /// The NUL-terminated string at the cursor (decoded as `from_utf8_lossy` does),
    /// stepping past its NUL. A string with no NUL before the end of the reply is
    /// malformed: it fails, without moving.
    pub fn cstr(&mut self) -> (r: Result<String, A2sError>)
        ensures
            final(self).data@ == old(self).data@,
            cstr_end(old(self).data@, old(self).pos as int) < old(self).data@.len() ==> (
            r matches Ok(s) && lossy_text(
                old(self).data@.subrange(
                    old(self).pos as int,
                    cstr_end(old(self).data@, old(self).pos as int),
                ),
                s@,
            ) && final(self).pos == cstr_end(old(self).data@, old(self).pos as int) + 1),
            cstr_end(old(self).data@, old(self).pos as int) >= old(self).data@.len() ==> r
                == Err::<String, A2sError>(A2sError::EndOfBuffer) && final(self).pos == old(
                self,
            ).pos,
    {
        let n = self.data.len();
        if self.pos >= n {
            return Err(A2sError::EndOfBuffer);
        }
        proof {
            lemma_cstr_end(self.data@, self.pos as int);
        }
        let start = self.pos;
        let mut e = start;
        while e < n && self.data[e] != 0
            invariant
                start <= e <= n == self.data@.len(),
                cstr_end(self.data@, start as int) == cstr_end(self.data@, e as int),
            decreases n - e,
        {
            e = e + 1;
        }
        if e == n {
            return Err(A2sError::EndOfBuffer);
        }
        let s = from_utf8_lossy(slice_subrange(self.data, start, e));
        self.pos = e + 1;
        Ok(s)
    }
}

/// The fields of an A2S_INFO body.
pub struct InfoReply {
    pub protocol: u8,
    pub name: String,
    pub map: String,
    pub folder: String,
    pub game: String,
    pub appid: u16,
    pub players: u8,
    pub max_players: u8,
    pub bots: u8,
    pub server_type: u8,
    pub environment: u8,
    pub visibility: u8,
    pub vac: u8,
    pub version: String,
}

/// Where the map string of a body whose protocol byte is at `b` starts.
pub open spec fn map_at(d: Seq<u8>, b: int) -> int {
    cstr_end(d, b + 1) + 1
}

/// Where the folder string starts.
pub open spec fn folder_at(d: Seq<u8>, b: int) -> int {
    cstr_end(d, map_at(d, b)) + 1
}

/// Where the game string starts.
pub open spec fn game_at(d: Seq<u8>, b: int) -> int {
    cstr_end(d, folder_at(d, b)) + 1
}

/// Where the fixed-size fields (app id and the seven one-byte fields) start.
pub open spec fn fixed_at(d: Seq<u8>, b: int) -> int {
    cstr_end(d, game_at(d, b)) + 1
}

/// Where the version string starts.
pub open spec fn version_at(d: Seq<u8>, b: int) -> int {
    fixed_at(d, b) + 9
}

/// Every string of the body whose protocol byte is at `b` ends with a NUL inside it,
/// and the fixed-size fields fit.
pub open spec fn info_complete(d: Seq<u8>, b: int) -> bool {
    &&& 0 <= b
    &&& b + 1 <= d.len()
    &&& cstr_end(d, b + 1) < d.len()
    &&& cstr_end(d, map_at(d, b)) < d.len()
    &&& cstr_end(d, folder_at(d, b)) < d.len()
    &&& cstr_end(d, game_at(d, b)) < d.len()
    &&& version_at(d, b) <= d.len()
    &&& cstr_end(d, version_at(d, b)) < d.len()
}

/// `t` is the text `from_utf8_lossy` makes of `bytes`: the bytes decoded as they are
/// when they are valid UTF-8.
pub open spec fn lossy_text(bytes: Seq<u8>, t: Seq<char>) -> bool {
    &&& t == utf8_lossy(bytes)
    &&& valid_utf8(bytes) ==> t == decode_utf8(bytes)
}

/// The bytes of the NUL-terminated string starting at `i`.
pub open spec fn cstr_bytes(d: Seq<u8>, i: int) -> Seq<u8> {
    d.subrange(i, cstr_end(d, i))
}

/// `r` holds the fields of the body whose protocol byte is at `b`.
pub open spec fn info_fields(d: Seq<u8>, b: int, r: InfoReply) -> bool {
    let f = fixed_at(d, b);
    &&& r.protocol == d[b]
    &&& lossy_text(cstr_bytes(d, b + 1), r.name@)
    &&& lossy_text(cstr_bytes(d, map_at(d, b)), r.map@)
    &&& lossy_text(cstr_bytes(d, folder_at(d, b)), r.folder@)
    &&& lossy_text(cstr_bytes(d, game_at(d, b)), r.game@)
    &&& r.appid as int == d[f] as int + d[f + 1] as int * 256
    &&& r.players == d[f + 2]
    &&& r.max_players == d[f + 3]
    &&& r.bots == d[f + 4]
    &&& r.server_type == d[f + 5]
    &&& r.environment == d[f + 6]
    &&& r.visibility == d[f + 7]
    &&& r.vac == d[f + 8]
    &&& lossy_text(cstr_bytes(d, version_at(d, b)), r.version@)
}

/// Reads an info body starting at the cursor (the protocol byte).
pub fn read_info(c: &mut Cursor) -> (r: Result<InfoReply, A2sError>)
    ensures
        info_complete(old(c).data@, old(c).pos as int) ==> (r matches Ok(i) && info_fields(
            old(c).data@,
            old(c).pos as int,
            i,
        )),
        !info_complete(old(c).data@, old(c).pos as int) ==> r == Err::<InfoReply, A2sError>(
            A2sError::EndOfBuffer,
        ),
{
    let ghost d = c.data@;
    let ghost b = c.pos as int;
    proof {
        if b + 1 <= d.len() {
            lemma_cstr_end(d, b + 1);
            if map_at(d, b) <= d.len() {
                lemma_cstr_end(d, map_at(d, b));
                if folder_at(d, b) <= d.len() {
                    lemma_cstr_end(d, folder_at(d, b));
                    if game_at(d, b) <= d.len() {
                        lemma_cstr_end(d, game_at(d, b));
                        if version_at(d, b) <= d.len() {
                            lemma_cstr_end(d, version_at(d, b));
                        }
                    }
                }
            }
        }
    }
    let protocol = c.u8()?;
    let name = c.cstr()?;
    let map = c.cstr()?;
    let folder = c.cstr()?;
    let game = c.cstr()?;
    let appid = c.u16le()?;
    let players = c.u8()?;
    let max_players = c.u8()?;
    let bots = c.u8()?;
    let server_type = c.u8()?;
    let environment = c.u8()?;
    let visibility = c.u8()?;
    let vac = c.u8()?;
    let version = c.cstr()?;
    Ok(
        InfoReply {
            protocol,
            name,
            map,
            folder,
            game,
            appid,
            players,
            max_players,
            bots,
            server_type,
            environment,
            visibility,
            vac,
            version,
        },
    )
}

/// The A2S_INFO request: four 0xFF bytes, 'T', "Source Engine Query" and a NUL.
pub open spec fn info_request_bytes() -> Seq<u8> {
    seq![
        0xFFu8, 0xFF, 0xFF, 0xFF, 0x54,
        0x53, 0x6F, 0x75, 0x72, 0x63, 0x65, 0x20,
        0x45, 0x6E, 0x67, 0x69, 0x6E, 0x65, 0x20,
        0x51, 0x75, 0x65, 0x72, 0x79, 0x00,
    ]
}

/// The A2S_INFO request.
pub fn info_request() -> (r: Vec<u8>)
    ensures
        r@ == info_request_bytes(),
{
    let r: Vec<u8> = vec![
        0xFFu8, 0xFF, 0xFF, 0xFF, 0x54,
        0x53, 0x6F, 0x75, 0x72, 0x63, 0x65, 0x20,
        0x45, 0x6E, 0x67, 0x69, 0x6E, 0x65, 0x20,
        0x51, 0x75, 0x65, 0x72, 0x79, 0x00,
    ];
    assert(r@ =~= info_request_bytes());
    r
}

/// What to do after a reply.
pub enum Reply {
    /// Send this request (the A2S_INFO request with the challenge appended) and read
    /// the next reply.
    Challenge(Vec<u8>),
    /// The server's info.
    Info(InfoReply),
}

/// The type byte of a challenge reply.
pub open spec fn is_challenge(d: Seq<u8>, challenged: bool) -> bool {
    !challenged && d.len() >= 5 && d[4] == 0x41
}

/// Handles one reply. `challenged` tells whether the challenge was answered already:
/// a first reply may be a challenge (0x41), and otherwise must be an info body (0x49).
pub fn on_reply(resp: &[u8], challenged: bool) -> (r: Result<Reply, A2sError>)
    ensures
        resp@.len() < 5 ==> r == Err::<Reply, A2sError>(A2sError::EndOfBuffer),
        is_challenge(resp@, challenged) ==> (if resp@.len() >= 9 {
            r matches Ok(Reply::Challenge(req)) && req@ == info_request_bytes() + resp@.subrange(
                5,
                9,
            )
        } else {
            r == Err::<Reply, A2sError>(A2sError::EndOfBuffer)
        }),
        resp@.len() >= 5 && !is_challenge(resp@, challenged) && resp@[4] != 0x49 ==> r == Err::<
            Reply,
            A2sError,
        >(A2sError::UnexpectedType(resp@[4])),
        resp@.len() >= 5 && resp@[4] == 0x49 ==> (if info_complete(resp@, 5) {
            r matches Ok(Reply::Info(i)) && info_fields(resp@, 5, i)
        } else {
            r == Err::<Reply, A2sError>(A2sError::EndOfBuffer)
        }),
{
    let mut c = Cursor::new(resp);
    c.skip(4)?;
    let kind = c.u8()?;
    if kind == 0x41 && !challenged {
        let challenge = c.take(4)?;
        let mut req = info_request();
        let ghost before = req@;
        for i in 0..4
            invariant
                challenge@.len() == 4,
                req@ == before + challenge@.take(i as int),
        {
            req.push(challenge[i]);
            assert(req@ =~= before + challenge@.take(i + 1));
        }
        assert(challenge@.take(4) =~= challenge@);
        return Ok(Reply::Challenge(req));
    }
    if kind != 0x49 {
        return Err(A2sError::UnexpectedType(kind));
    }
    let info = read_info(&mut c)?;
    Ok(Reply::Info(info))
}

impl ServerInfo {
    /// A live server from its info reply, address and measured latency; its country is
    /// filled in later.
    pub fn from_reply(addr: Addr, latency_nanos: u64, info: InfoReply) -> (s: ServerInfo)
        ensures
            s.addr == addr,
            s.latency_nanos == latency_nanos,
            s.protocol == info.protocol,
            s.name == info.name,
            s.map == info.map,
            s.folder == info.folder,
            s.game == info.game,
            s.players == info.players,
            s.max_players == info.max_players,
            s.bots == info.bots,
            s.version == info.version,
            s.country@ == Seq::<char>::empty(),
    {
        ServerInfo {
            addr,
            latency_nanos,
            protocol: info.protocol,
            name: info.name,
            map: info.map,
            folder: info.folder,
            game: info.game,
            players: info.players,
            max_players: info.max_players,
            bots: info.bots,
            version: info.version,
            country: String::new(),
        }
    }
}

} // verus!
