//! Port resolution: correlating a process's socket inodes with the
//! connection table, and the decision taken after each poll round.
//!
//! The caller runs the poll loop. Each round it lists the process's
//! descriptors, reads the connection table, and hands both to
//! [`Resolver::step`] together with the time elapsed since the start; the
//! step says whether the port was found, the resolution failed, or the caller
//! should sleep for [`POLL_INTERVAL_MS`] and poll again.

use vstd::prelude::*;

use crate::socket::{inodes_of, socket_inodes};
use crate::tcp::{loopback, parse_table, table_rows, ConnectionEntry, ParseError};

verus! {

/// Pause between two poll rounds, in milliseconds.
pub const POLL_INTERVAL_MS: u64 = 1;

/// Time allowed for the port to appear when none is configured, in
/// milliseconds.
pub const DEFAULT_TIMEOUT_MS: u64 = 30_000;

/// Result of searching one snapshot of the connection table.
#[derive(Clone, Copy, Debug, PartialEq, Eq, Structural)]
pub enum SearchOutcome {
    /// A qualifying entry was found first; it is bound to this port.
    Hit(u16),
    /// A malformed line came before any qualifying entry.
    Malformed(ParseError),
    /// No qualifying entry and no malformed line.
    Miss,
}

/// Why a resolution failed.
#[derive(Clone, Copy, Debug, PartialEq, Eq, Structural)]
pub enum ResolveError {
    /// The process's descriptors or connection table could not be read: it
    /// has exited or is out of reach.
    Unreachable(u32),
    /// The connection table holds a line that does not parse.
    Malformed(ParseError),
    /// No qualifying entry appeared before the deadline.
    TimedOut(u32),
}

/// What the caller does after a poll round.
#[derive(Clone, Copy, Debug, PartialEq, Eq, Structural)]
pub enum Step {
    /// The process is bound to this loopback port.
    Found(u16),
    /// Resolution ends with this error.
    Failed(ResolveError),
    /// Sleep for the poll interval and poll again.
    Retry,
}

/// The entry belongs to a socket in `inodes`; inode 0 belongs to none.
pub open spec fn attributable(inodes: Seq<u64>, e: ConnectionEntry) -> bool {
    e.inode != 0 && inodes.contains(e.inode)
}

/// The entry belongs to the process and is bound to the loopback address.
pub open spec fn qualifies(inodes: Seq<u64>, e: ConnectionEntry) -> bool {
    attributable(inodes, e) && e.addr == loopback()
}

/// Scans the rows in order: the first qualifying entry gives the port, a
/// malformed line met before it ends the scan.
pub open spec fn search_rows(
    inodes: Seq<u64>,
    rows: Seq<Result<ConnectionEntry, ParseError>>,
) -> SearchOutcome
    decreases rows.len(),
{
    if rows.len() == 0 {
        SearchOutcome::Miss
    } else {
        match rows[0] {
            Err(e) => SearchOutcome::Malformed(e),
            Ok(e) => if qualifies(inodes, e) {
                SearchOutcome::Hit(e.port)
            } else {
                search_rows(inodes, rows.drop_first())
            },
        }
    }
}

/// The decision after one poll round of process `pid` with deadline
/// `timeout_ms`: `links` are the descriptor link targets (`None` when the
/// descriptor table could not be listed), `table` the connection table text
/// (`None` when it could not be read).
pub open spec fn step_of(
    pid: u32,
    timeout_ms: u64,
    links: Option<Seq<Option<Seq<u8>>>>,
    table: Option<Seq<u8>>,
    elapsed_ms: u64,
) -> Step {
    match links {
        None => Step::Failed(ResolveError::Unreachable(pid)),
        Some(ls) => match table {
            None => Step::Failed(ResolveError::Unreachable(pid)),
            Some(t) => match search_rows(inodes_of(ls), table_rows(t)) {
                SearchOutcome::Hit(p) => Step::Found(p),
                SearchOutcome::Malformed(e) => Step::Failed(ResolveError::Malformed(e)),
                SearchOutcome::Miss => if elapsed_ms >= timeout_ms {
                    Step::Failed(ResolveError::TimedOut(pid))
                } else {
                    Step::Retry
                },
            },
        },
    }
}

proof fn lemma_hit_has_witness(
    inodes: Seq<u64>,
    rows: Seq<Result<ConnectionEntry, ParseError>>,
    port: u16,
)
    requires
        search_rows(inodes, rows) == SearchOutcome::Hit(port),
    ensures
        exists|k: int|
            0 <= k < rows.len() && (#[trigger] rows[k]) is Ok && qualifies(inodes, rows[k]->Ok_0)
                && rows[k]->Ok_0.port == port,
    decreases rows.len(),
{
    match rows[0] {
        Err(_) => {},
        Ok(e) => {
            if qualifies(inodes, e) {
                assert(rows[0] is Ok);
            } else {
                let rest = rows.drop_first();
                lemma_hit_has_witness(inodes, rest, port);
                let k = choose|k: int|
                    0 <= k < rest.len() && (#[trigger] rest[k]) is Ok && qualifies(
                        inodes,
                        rest[k]->Ok_0,
                    ) && rest[k]->Ok_0.port == port;
                assert(rows[k + 1] == rest[k]);
            }
        },
    }
}

proof fn lemma_unique_row_hits(
    inodes: Seq<u64>,
    rows: Seq<Result<ConnectionEntry, ParseError>>,
    k: int,
)
    requires
        0 <= k < rows.len(),
        forall|j: int| 0 <= j < rows.len() ==> (#[trigger] rows[j]) is Ok,
        qualifies(inodes, rows[k]->Ok_0),
        forall|j: int| 0 <= j < rows.len() && j != k ==> !qualifies(inodes, (#[trigger] rows[j])->Ok_0),
    ensures
        search_rows(inodes, rows) == SearchOutcome::Hit(rows[k]->Ok_0.port),
    decreases rows.len(),
{
    assert(rows[0] is Ok);
    if k > 0 {
        let rest = rows.drop_first();
        assert forall|j: int| 0 <= j < rest.len() implies (#[trigger] rest[j]) is Ok by {
            assert(rest[j] == rows[j + 1]);
        }
        assert forall|j: int| 0 <= j < rest.len() && j != k - 1 implies !qualifies(
            inodes,
            (#[trigger] rest[j])->Ok_0,
        ) by {
            assert(rest[j] == rows[j + 1]);
        }
        assert(rest[k - 1] == rows[k]);
        lemma_unique_row_hits(inodes, rest, k - 1);
    }
}

/// A process with exactly one loopback socket whose inode it lists, over a
/// table that parses, resolves to that socket's port, whatever the time.
pub proof fn lemma_unique_loopback_socket_resolves(
    pid: u32,
    timeout_ms: u64,
    links: Seq<Option<Seq<u8>>>,
    table: Seq<u8>,
    elapsed_ms: u64,
    k: int,
)
    requires
        0 <= k < table_rows(table).len(),
        forall|j: int| 0 <= j < table_rows(table).len() ==> (#[trigger] table_rows(table)[j]) is Ok,
        qualifies(inodes_of(links), table_rows(table)[k]->Ok_0),
        forall|j: int|
            0 <= j < table_rows(table).len() && j != k ==> !qualifies(
                inodes_of(links),
                (#[trigger] table_rows(table)[j])->Ok_0,
            ),
    ensures
        step_of(pid, timeout_ms, Some(links), Some(table), elapsed_ms) == Step::Found(
            table_rows(table)[k]->Ok_0.port,
        ),
{
    lemma_unique_row_hits(inodes_of(links), table_rows(table), k);
}

/// A port is only ever reported for an entry whose inode the process's
/// descriptors name (and which is not 0).
pub proof fn lemma_found_entry_belongs_to_process(
    pid: u32,
    timeout_ms: u64,
    links: Seq<Option<Seq<u8>>>,
    table: Seq<u8>,
    elapsed_ms: u64,
    port: u16,
)
    requires
        step_of(pid, timeout_ms, Some(links), Some(table), elapsed_ms) == Step::Found(port),
    ensures
        exists|k: int|
            0 <= k < table_rows(table).len() && (#[trigger] table_rows(table)[k]) is Ok
                && table_rows(table)[k]->Ok_0.port == port && table_rows(table)[k]->Ok_0.inode != 0
                && inodes_of(links).contains(table_rows(table)[k]->Ok_0.inode),
{
    lemma_hit_has_witness(inodes_of(links), table_rows(table), port);
}

/// A port is only ever reported for an entry bound to the loopback address.
pub proof fn lemma_found_entry_is_loopback(
    pid: u32,
    timeout_ms: u64,
    links: Seq<Option<Seq<u8>>>,
    table: Seq<u8>,
    elapsed_ms: u64,
    port: u16,
)
    requires
        step_of(pid, timeout_ms, Some(links), Some(table), elapsed_ms) == Step::Found(port),
    ensures
        exists|k: int|
            0 <= k < table_rows(table).len() && (#[trigger] table_rows(table)[k]) is Ok
                && table_rows(table)[k]->Ok_0.port == port && table_rows(table)[k]->Ok_0.addr
                == loopback(),
{
    lemma_hit_has_witness(inodes_of(links), table_rows(table), port);
}

/// While no qualifying entry exists, a round times out exactly when the
/// deadline has passed, and otherwise asks for another round; a time-out is
/// never reported before the deadline.
pub proof fn lemma_timeout_exactly_at_deadline(
    pid: u32,
    timeout_ms: u64,
    links: Seq<Option<Seq<u8>>>,
    table: Seq<u8>,
    elapsed_ms: u64,
)
    requires
        search_rows(inodes_of(links), table_rows(table)) == SearchOutcome::Miss,
    ensures
        (step_of(pid, timeout_ms, Some(links), Some(table), elapsed_ms) == Step::Failed(
            ResolveError::TimedOut(pid),
        )) == (elapsed_ms >= timeout_ms),
        (step_of(pid, timeout_ms, Some(links), Some(table), elapsed_ms) == Step::Retry) == (
        elapsed_ms < timeout_ms),
{
}

/// Whether `x` is among `inodes`.
pub fn contains_inode(inodes: &Vec<u64>, x: u64) -> (r: bool)
    ensures
        r == inodes@.contains(x),
{
    let mut i: usize = 0;
    while i < inodes.len()
        invariant
            0 <= i <= inodes@.len(),
            forall|j: int| 0 <= j < i ==> inodes@[j] != x,
        decreases inodes@.len() - i,
    {
        if inodes[i] == x {
            assert(inodes@[i as int] == x);
            return true;
        }
        i = i + 1;
    }
    false
}

/// Searches one snapshot of the connection table for the first entry that
/// belongs to a socket in `inodes` and is bound to the loopback address.
pub fn search(inodes: &Vec<u64>, rows: &Vec<Result<ConnectionEntry, ParseError>>) -> (r:
    SearchOutcome)
    ensures
        r == search_rows(inodes@, rows@),
{
    let mut i: usize = 0;
    assert(rows@.subrange(0, rows@.len() as int) =~= rows@);
    while i < rows.len()
        invariant
            0 <= i <= rows@.len(),
            search_rows(inodes@, rows@) == search_rows(inodes@, rows@.subrange(i as int, rows@.len() as int)),
        decreases rows@.len() - i,
    {
        let ghost sub = rows@.subrange(i as int, rows@.len() as int);
        assert(sub[0] == rows@[i as int]);
        assert(sub.drop_first() =~= rows@.subrange(i + 1, rows@.len() as int));
        match &rows[i] {
            Err(e) => {
                return SearchOutcome::Malformed(*e);
            },
            Ok(e) => {
                if e.inode != 0 && contains_inode(inodes, e.inode) && e.addr.is_loopback() {
                    return SearchOutcome::Hit(e.port);
                }
            },
        }
        i = i + 1;
    }
    SearchOutcome::Miss
}

/// Resolution of the loopback port of one process, polled by the caller.
#[derive(Clone, Copy, Debug, PartialEq, Eq, Structural)]
pub struct Resolver {
    /// The process whose port is sought.
    pub pid: u32,
    /// Time allowed for the port to appear, in milliseconds.
    pub timeout_ms: u64,
}

impl Resolver {
    /// A resolver for process `pid` that gives up after `timeout_ms`.
    pub fn new(pid: u32, timeout_ms: u64) -> (r: Resolver)
        ensures
            r.pid == pid,
            r.timeout_ms == timeout_ms,
    {
        Resolver { pid, timeout_ms }
    }

    /// The decision after one poll round: `links` are the link targets of
    /// the process's descriptors (`None` when the descriptor table could not
    /// be listed; an inner `None` for a descriptor that vanished), `table`
    /// the connection table text (`None` when it could not be read), and
    /// `elapsed_ms` the time since resolution started.
    pub fn step(
        &self,
        links: Option<Vec<Option<Vec<u8>>>>,
        table: Option<Vec<u8>>,
        elapsed_ms: u64,
    ) -> (r: Step)
        ensures
            r == step_of(self.pid, self.timeout_ms, links.deep_view(), table.deep_view(), elapsed_ms),
    {
        match links {
            None => Step::Failed(ResolveError::Unreachable(self.pid)),
            Some(ls) => match table {
                None => Step::Failed(ResolveError::Unreachable(self.pid)),
                Some(t) => {
                    proof {
                        assert(t.deep_view() =~= t@);
                    }
                    let inodes = socket_inodes(&ls);
                    let rows = parse_table(t.as_slice());
                    match search(&inodes, &rows) {
                        SearchOutcome::Hit(p) => Step::Found(p),
                        SearchOutcome::Malformed(e) => Step::Failed(ResolveError::Malformed(e)),
                        SearchOutcome::Miss => {
                            if elapsed_ms >= self.timeout_ms {
                                Step::Failed(ResolveError::TimedOut(self.pid))
                            } else {
                                Step::Retry
                            }
                        },
                    }
                },
            },
        }
    }
}

} // verus!
