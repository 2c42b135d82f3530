//! Socket inodes of a process, from the link targets of its file descriptors.
//!
//! A descriptor that refers to a socket links to `socket:[<inode>]`; any
//! other target is not a socket and is skipped. A descriptor that vanished
//! between listing the table and reading its link is skipped as well.

use vstd::prelude::*;
use vstd::slice::slice_subrange;

use crate::text::{number_of, parse_number};

verus! {

/// `l` starts with the bytes of `socket:[`.
pub open spec fn has_socket_prefix(l: Seq<u8>) -> bool {
    &&& l.len() >= 8
    &&& l[0] == 0x73u8
    &&& l[1] == 0x6fu8
    &&& l[2] == 0x63u8
    &&& l[3] == 0x6bu8
    &&& l[4] == 0x65u8
    &&& l[5] == 0x74u8
    &&& l[6] == 0x3au8
    &&& l[7] == 0x5bu8
}

/// The inode that a descriptor's link target names, if it is a socket.
pub open spec fn link_inode(l: Seq<u8>) -> Option<u64> {
    if l.len() >= 9 && has_socket_prefix(l) && l.last() == 0x5du8 {
        match number_of(10, 0xffff_ffff_ffff_ffff, l.subrange(8, l.len() - 1)) {
            Some(v) => Some(v as u64),
            None => None,
        }
    } else {
        None
    }
}

/// The socket inodes named by a list of descriptor link targets, in order;
/// `None` stands for a descriptor that vanished before its link was read.
pub open spec fn inodes_of(links: Seq<Option<Seq<u8>>>) -> Seq<u64>
    decreases links.len(),
{
    if links.len() == 0 {
        Seq::empty()
    } else {
        let rest = inodes_of(links.drop_last());
        match links.last() {
            Some(l) => match link_inode(l) {
                Some(i) => rest.push(i),
                None => rest,
            },
            None => rest,
        }
    }
}

/// A descriptor that vanished leaves the inodes of all the others as they
/// are: enumeration neither fails nor loses a socket on its account.
pub proof fn lemma_vanished_descriptor_ignored(
    before: Seq<Option<Seq<u8>>>,
    after: Seq<Option<Seq<u8>>>,
)
    ensures
        inodes_of(before + seq![None] + after) == inodes_of(before + after),
    decreases after.len(),
{
    let with = before + seq![None] + after;
    let without = before + after;
    if after.len() == 0 {
        assert(with.drop_last() =~= before);
        assert(without =~= before);
    } else {
        lemma_vanished_descriptor_ignored(before, after.drop_last());
        assert(with.drop_last() =~= before + seq![None] + after.drop_last());
        assert(without.drop_last() =~= before + after.drop_last());
    }
}

/// Reads the inode out of a descriptor's link target; `None` where the
/// target is not `socket:[<inode>]`.
pub fn parse_socket_link(link: &[u8]) -> (r: Option<u64>)
    ensures
        r == link_inode(link@),
{
    let n = link.len();
    if n < 9 || link[0] != 0x73u8 || link[1] != 0x6fu8 || link[2] != 0x63u8 || link[3] != 0x6bu8
        || link[4] != 0x65u8 || link[5] != 0x74u8 || link[6] != 0x3au8 || link[7] != 0x5bu8 || link[n
        - 1] != 0x5du8 {
        return None;
    }
    parse_number(slice_subrange(link, 8, n - 1), 10, 0xffff_ffff_ffff_ffff)
}

/// Collects the socket inodes named by the link targets of a process's
/// descriptors; non-socket targets and vanished descriptors are skipped.
pub fn socket_inodes(links: &Vec<Option<Vec<u8>>>) -> (r: Vec<u64>)
    ensures
        r@ == inodes_of(links.deep_view()),
{
    let ghost lv = links.deep_view();
    let mut out: Vec<u64> = Vec::new();
    let mut k: usize = 0;
    while k < links.len()
        invariant
            lv == links.deep_view(),
            0 <= k <= links@.len(),
            out@ == inodes_of(lv.take(k as int)),
        decreases links@.len() - k,
    {
        proof {
            assert(lv.take(k + 1).drop_last() =~= lv.take(k as int));
            assert(lv.take(k + 1).last() == lv[k as int]);
        }
        match &links[k] {
            Some(l) => {
                assert(lv[k as int] == Some(l@));
                match parse_socket_link(l.as_slice()) {
                    Some(inode) => out.push(inode),
                    None => {},
                }
            },
            None => {},
        }
        k = k + 1;
    }
    assert(lv.take(lv.len() as int) =~= lv);
    out
}

} // verus!
