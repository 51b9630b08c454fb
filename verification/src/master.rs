//! The Steam master server's address list: one request for `\appid\730` from the
//! start of the list, and one reply page of addresses.
//!
//! A reply is the header FF FF FF FF 66 0A, then 6-byte entries (IPv4 address and
//! port, both big endian), up to the entry 0.0.0.0:0 that ends the list.

use vstd::prelude::*;
use crate::model::Addr;
use crate::a2s::{hex_byte, push_hex_byte};
use crate::text::{chars_of, string_of};

verus! {

/// The master server.
pub const MASTER: &'static str = "hl2master.steampowered.com:27011";

/// How long to wait for the master server or the known-good server, in milliseconds.
pub const PROBE_TIMEOUT_MS: u64 = 3000;

/// The request: 0x31, all regions (0xFF), seed "0.0.0.0:0", filter "\appid\730".
pub open spec fn master_request_bytes() -> Seq<u8> {
    seq![
        0x31u8, 0xFF,
        0x30, 0x2E, 0x30, 0x2E, 0x30, 0x2E, 0x30, 0x3A, 0x30, 0x00,
        0x5C, 0x61, 0x70, 0x70, 0x69, 0x64, 0x5C, 0x37, 0x33, 0x30, 0x00,
    ]
}

/// The master server request.
pub fn master_request() -> (r: Vec<u8>)
    ensures
        r@ == master_request_bytes(),
{
    let r: Vec<u8> = vec![
        0x31u8, 0xFF,
        0x30, 0x2E, 0x30, 0x2E, 0x30, 0x2E, 0x30, 0x3A, 0x30, 0x00,
        0x5C, 0x61, 0x70, 0x70, 0x69, 0x64, 0x5C, 0x37, 0x33, 0x30, 0x00,
    ];
    assert(r@ =~= master_request_bytes());
    r
}

/// The header every reply starts with.
pub open spec fn master_header() -> Seq<u8> {
    seq![0xFFu8, 0xFF, 0xFF, 0xFF, 0x66, 0x0A]
}

/// The entry at `i`: four address bytes and a big-endian port.
pub open spec fn entry_at(d: Seq<u8>, i: int) -> Addr {
    Addr {
        ip: (d[i] as int * 16777216 + d[i + 1] as int * 65536 + d[i + 2] as int * 256 + d[i
            + 3] as int) as u32,
        port: (d[i + 4] as int * 256 + d[i + 5] as int) as u16,
    }
}

/// The entries from `i` on, up to the 0.0.0.0:0 entry or the last whole entry.
pub open spec fn entries_from(d: Seq<u8>, i: int) -> Seq<Addr>
    decreases d.len() - i,
{
    if 0 <= i && i + 6 <= d.len() {
        let a = entry_at(d, i);
        if a.ip == 0 && a.port == 0 {
            Seq::empty()
        } else {
            seq![a] + entries_from(d, i + 6)
        }
    } else {
        Seq::empty()
    }
}

/// Why a reply page could not be read.
pub enum MasterError {
    /// The reply does not start with the header; holds its first bytes (up to six).
    BadHeader(Vec<u8>),
}

/// Bytes as `{:02X?}` writes a byte slice: "[FF, 0A]".
pub open spec fn hex_list(b: Seq<u8>) -> Seq<char>
    decreases b.len(),
{
    if b.len() == 0 {
        "[]"@
    } else {
        hex_list_items(b) + "]"@
    }
}

/// "[" and the bytes of `b` separated by ", ".
pub open spec fn hex_list_items(b: Seq<u8>) -> Seq<char>
    decreases b.len(),
{
    if b.len() == 0 {
        "["@
    } else if b.len() == 1 {
        "["@ + hex_byte(b[0])
    } else {
        hex_list_items(b.drop_last()) + ", "@ + hex_byte(b.last())
    }
}

/// The message of a page error.
pub open spec fn master_error_text(e: MasterError) -> Seq<char> {
    match e {
        MasterError::BadHeader(b) => "unexpected master header: "@ + hex_list(b@),
    }
}

impl MasterError {
    /// The error's message.
    pub fn message(&self) -> (s: String)
        ensures
            s@ == master_error_text(*self),
    {
        match self {
            MasterError::BadHeader(b) => {
                let mut cs = chars_of("unexpected master header: ");
                let ghost start = cs@;
                cs.push('[');
                proof {
                    reveal_strlit("[");
                    assert(cs@ =~= start + hex_list_items(b@.take(0)));
                }
                for i in 0..b.len()
                    invariant
                        cs@ == start + hex_list_items(b@.take(i as int)),
                {
                    if i > 0 {
                        cs.push(',');
                        cs.push(' ');
                    }
                    push_hex_byte(&mut cs, b[i]);
                    proof {
                        reveal_strlit(", ");
                        reveal_strlit("[");
                        let t = b@.take(i + 1);
                        assert(t.drop_last() =~= b@.take(i as int));
                        assert(t.last() == b@[i as int]);
                        if i == 0 {
                            assert(hex_list_items(t) =~= "["@ + hex_byte(b@[0]));
                        }
                        assert(cs@ =~= start + hex_list_items(t));
                    }
                }
                if b.len() == 0 {
                    cs.push(']');
                    proof {
                        reveal_strlit("[]");
                        reveal_strlit("[");
                        assert(cs@ =~= "unexpected master header: "@ + hex_list(b@));
                    }
                } else {
                    cs.push(']');
                    proof {
                        reveal_strlit("]");
                        assert(b@.take(b@.len() as int) =~= b@);
                        assert(cs@ =~= "unexpected master header: "@ + hex_list(b@));
                    }
                }
                string_of(cs.as_slice())
            },
        }
    }
}

/// Reads one reply page of the master server.
pub fn parse_master_page(data: &[u8]) -> (r: Result<Vec<Addr>, MasterError>)
    ensures
        (data@.len() >= 6 && data@.subrange(0, 6) == master_header()) ==> (r matches Ok(v) && v@
            == entries_from(data@, 6)),
        !(data@.len() >= 6 && data@.subrange(0, 6) == master_header()) ==> (r matches Err(
            MasterError::BadHeader(b),
        ) && b@ == data@.take(if data@.len() < 6 {
            data@.len() as int
        } else {
            6
        })),
{
    let n = data.len();
    let ok = n >= 6 && data[0] == 0xFF && data[1] == 0xFF && data[2] == 0xFF && data[3] == 0xFF
        && data[4] == 0x66 && data[5] == 0x0A;
    proof {
        if n >= 6 {
            assert(ok == (data@.subrange(0, 6) =~= master_header()));
        }
    }
    if !ok {
        let m = if n < 6 {
            n
        } else {
            6
        };
        let mut b: Vec<u8> = Vec::new();
        for i in 0..m
            invariant
                m <= n == data@.len(),
                b@ == data@.take(i as int),
        {
            b.push(data[i]);
            assert(b@ =~= data@.take(i + 1));
        }
        return Err(MasterError::BadHeader(b));
    }
    let mut out: Vec<Addr> = Vec::new();
    let mut i: usize = 6;
    while i <= n && n - i >= 6
        invariant
            6 <= i <= n == data@.len(),
            data@.subrange(0, 6) == master_header(),
            entries_from(data@, 6) == out@ + entries_from(data@, i as int),
        decreases n - i,
    {
        let ip: u32 = data[i] as u32 * 16777216 + data[i + 1] as u32 * 65536 + data[i + 2] as u32
            * 256 + data[i + 3] as u32;
        let port: u16 = data[i + 4] as u16 * 256 + data[i + 5] as u16;
        if ip == 0 && port == 0 {
            assert(entries_from(data@, i as int) =~= Seq::<Addr>::empty());
            assert(out@ + Seq::<Addr>::empty() =~= out@);
            return Ok(out);
        }
        let a = Addr { ip, port };
        assert(a == entry_at(data@, i as int));
        out.push(a);
        assert(out@.drop_last() + (seq![a] + entries_from(data@, i + 6)) =~= out@ + entries_from(
            data@,
            i + 6,
        ));
        i = i + 6;
    }
    assert(out@ + entries_from(data@, i as int) =~= out@);
    Ok(out)
}

} // verus!
