//! Reader of the kernel's IPv4 TCP connection table.
//!
//! The table is line-oriented text. The first line is a header; every other
//! line describes one socket through blank-separated fields, of which this
//! reader uses four: field 1 holds the local address and port as
//! `AAAAAAAA:PPPP` (hex), field 3 the connection state (hex) and field 9
//! the owning inode (decimal). The address is the 32-bit word as the kernel
//! stores it, so its hex digits list the octets in little-endian order.

use vstd::prelude::*;
use vstd::slice::slice_subrange;

use crate::text::{fields, lines, number_of, parse_number, split_fields, split_lines};

verus! {

/// An IPv4 address as its four octets, in dotted order (`a.b.c.d`).
#[derive(Clone, Copy, Debug, PartialEq, Eq, Structural)]
pub struct Ipv4 {
    pub a: u8,
    pub b: u8,
    pub c: u8,
    pub d: u8,
}

/// One data line of the connection table.
#[derive(Clone, Copy, Debug, PartialEq, Eq, Structural)]
pub struct ConnectionEntry {
    /// Local IPv4 address.
    pub addr: Ipv4,
    /// Local TCP port.
    pub port: u16,
    /// Connection state code, as the kernel numbers it.
    pub state: u8,
    /// Inode of the socket that owns the entry; 0 for none.
    pub inode: u64,
}

/// A table line that does not hold the required fields.
#[derive(Clone, Copy, Debug, PartialEq, Eq, Structural)]
pub struct ParseError {
    /// Index of the offending line in the table text, the header being 0.
    pub line: usize,
}

/// The loopback address 127.0.0.1.
pub open spec fn loopback() -> Ipv4 {
    Ipv4 { a: 127, b: 0, c: 0, d: 1 }
}

/// The address that a table word denotes: its least significant byte is the
/// first octet.
pub open spec fn word_octets(w: u32) -> Ipv4 {
    Ipv4 {
        a: (w & 0xff) as u8,
        b: ((w >> 8u32) & 0xff) as u8,
        c: ((w >> 16u32) & 0xff) as u8,
        d: ((w >> 24u32) & 0xff) as u8,
    }
}

/// The table word that holds an address.
pub open spec fn octets_word(ip: Ipv4) -> u32 {
    (ip.a as u32) | ((ip.b as u32) << 8u32) | ((ip.c as u32) << 16u32) | ((ip.d as u32) << 24u32)
}

/// The entry that a data line describes, if it holds the required fields.
pub open spec fn entry_of(line: Seq<u8>) -> Option<ConnectionEntry> {
    let f = fields(line);
    if f.len() < 10 || f[1].len() != 13 || f[1][8] != 0x3au8 {
        None
    } else {
        let addr = number_of(16, 0xffff_ffff, f[1].subrange(0, 8));
        let port = number_of(16, 0xffff, f[1].subrange(9, 13));
        let state = number_of(16, 0xff, f[3]);
        let inode = number_of(10, 0xffff_ffff_ffff_ffff, f[9]);
        if addr is Some && port is Some && state is Some && inode is Some {
            Some(
                ConnectionEntry {
                    addr: word_octets(addr->0 as u32),
                    port: port->0 as u16,
                    state: state->0 as u8,
                    inode: inode->0 as u64,
                },
            )
        } else {
            None
        }
    }
}

/// What the reader yields for line `k` of the table text.
pub open spec fn row_of(ls: Seq<Seq<u8>>, k: int) -> Result<ConnectionEntry, ParseError> {
    match entry_of(ls[k]) {
        Some(e) => Ok(e),
        None => Err(ParseError { line: k as usize }),
    }
}

/// The rows of a table text: one per line after the header, in order.
pub open spec fn table_rows(text: Seq<u8>) -> Seq<Result<ConnectionEntry, ParseError>> {
    let ls = lines(text);
    if ls.len() == 0 {
        Seq::empty()
    } else {
        Seq::new((ls.len() - 1) as nat, |k: int| row_of(ls, k + 1))
    }
}

/// Decoding a table word inverts encoding, octet by octet.
pub proof fn lemma_word_round_trip(ip: Ipv4)
    ensures
        word_octets(octets_word(ip)) == ip,
{
    let (a, b, c, d) = (ip.a, ip.b, ip.c, ip.d);
    let w = octets_word(ip);
    assert((w & 0xff) as u8 == a && ((w >> 8u32) & 0xff) as u8 == b && ((w >> 16u32) & 0xff) as u8
        == c && ((w >> 24u32) & 0xff) as u8 == d) by (bit_vector)
        requires
            w == (a as u32) | ((b as u32) << 8u32) | ((c as u32) << 16u32) | ((d as u32) << 24u32),
    ;
}

/// The word that the table writes as `0100007F` is the loopback address.
pub proof fn lemma_loopback_word()
    ensures
        word_octets(0x0100007f) == loopback(),
        octets_word(loopback()) == 0x0100007fu32,
{
    let w: u32 = 0x0100007f;
    assert((w & 0xff) as u8 == 127u8 && ((w >> 8u32) & 0xff) as u8 == 0u8 && ((w >> 16u32) & 0xff)
        as u8 == 0u8 && ((w >> 24u32) & 0xff) as u8 == 1u8) by (bit_vector)
        requires
            w == 0x0100007fu32,
    ;
    assert(((127u8 as u32) | ((0u8 as u32) << 8u32) | ((0u8 as u32) << 16u32) | ((1u8 as u32)
        << 24u32)) == 0x0100007fu32) by (bit_vector);
}

impl Ipv4 {
    /// The loopback address 127.0.0.1.
    pub fn loopback() -> (r: Ipv4)
        ensures
            r == loopback(),
    {
        Ipv4 { a: 127, b: 0, c: 0, d: 1 }
    }

    /// Whether this is the loopback address 127.0.0.1.
    pub fn is_loopback(&self) -> (r: bool)
        ensures
            r == (*self == loopback()),
    {
        self.a == 127 && self.b == 0 && self.c == 0 && self.d == 1
    }

    /// The address that a table word denotes.
    pub fn from_table_word(w: u32) -> (r: Ipv4)
        ensures
            r == word_octets(w),
    {
        Ipv4 {
            a: (w & 0xff) as u8,
            b: ((w >> 8u32) & 0xff) as u8,
            c: ((w >> 16u32) & 0xff) as u8,
            d: ((w >> 24u32) & 0xff) as u8,
        }
    }

    /// The table word that holds this address.
    pub fn to_table_word(&self) -> (r: u32)
        ensures
            r == octets_word(*self),
    {
        (self.a as u32) | ((self.b as u32) << 8u32) | ((self.c as u32) << 16u32) | ((self.d as u32)
            << 24u32)
    }
}

/// Parses one data line of the table; `None` where a required field is
/// missing or malformed.
pub fn parse_line(line: &[u8]) -> (r: Option<ConnectionEntry>)
    ensures
        r == entry_of(line@),
{
    let f = split_fields(line);
    proof {
        assert(f.deep_view().len() == f@.len());
    }
    if f.len() < 10 {
        return None;
    }
    let local = f[1].as_slice();
    assert(local@ == fields(line@)[1]);
    if local.len() != 13 || local[8] != 0x3au8 {
        return None;
    }
    let addr = parse_number(slice_subrange(local, 0, 8), 16, 0xffff_ffff);
    let port = parse_number(slice_subrange(local, 9, 13), 16, 0xffff);
    let state = parse_number(f[3].as_slice(), 16, 0xff);
    let inode = parse_number(f[9].as_slice(), 10, 0xffff_ffff_ffff_ffff);
    assert(f[3]@ == fields(line@)[3]);
    assert(f[9]@ == fields(line@)[9]);
    match (addr, port, state, inode) {
        (Some(a), Some(p), Some(s), Some(i)) => Some(
            ConnectionEntry {
                addr: Ipv4::from_table_word(a as u32),
                port: p as u16,
                state: s as u8,
                inode: i,
            },
        ),
        _ => None,
    }
}

/// Parses a whole table text: one row per line after the header, either the
/// entry the line describes or an error naming the line.
pub fn parse_table(text: &[u8]) -> (r: Vec<Result<ConnectionEntry, ParseError>>)
    ensures
        r@ == table_rows(text@),
{
    let ls = split_lines(text);
    let ghost lv = ls.deep_view();
    let mut rows: Vec<Result<ConnectionEntry, ParseError>> = Vec::new();
    if ls.len() == 0 {
        assert(rows@ =~= table_rows(text@));
        return rows;
    }
    let mut k: usize = 1;
    while k < ls.len()
        invariant
            lv == ls.deep_view(),
            lv == lines(text@),
            1 <= k <= ls@.len(),
            rows@.len() == k - 1,
            forall|j: int| 0 <= j < k - 1 ==> rows@[j] == #[trigger] row_of(lv, j + 1),
        decreases ls@.len() - k,
    {
        assert(ls[k as int]@ == lv[k as int]);
        let row = match parse_line(ls[k].as_slice()) {
            Some(e) => Ok(e),
            None => Err(ParseError { line: k }),
        };
        rows.push(row);
        k = k + 1;
    }
    assert(rows@ =~= table_rows(text@));
    rows
}

} // verus!
