use vstd::prelude::*;
use crate::index::ProcessNameIndex;
use crate::model::{record_views, Protocol, SocketInfo};
use crate::report::{
    collect_records, filter_ports, is_report, port_wanted, raw_views, sort_by_port, wanted,
    RawSocket, RawView,
};

verus! {

/// The report for every socket in `raw` on a requested port, each named from
/// the process-name snapshot, sorted by port.
pub struct Scanner;

impl Scanner {
    /// Filters, names and orders the sockets that an enumeration found.
    /// No filter, or an empty one, keeps every port.
    pub fn scan(raw: &Vec<RawSocket>, ports_filter: Option<&[u16]>, index: &ProcessNameIndex) -> (r:
        Vec<SocketInfo>)
        ensures
            is_report(record_views(r@), raw_views(raw@), filter_ports(ports_filter), index@),
    {
        let records = collect_records(raw, ports_filter, index);
        sort_by_port(records)
    }
}

/// The socket inodes that one process holds open.
#[derive(Debug, Clone)]
pub struct ProcessSockets {
    pub pid: u32,
    pub socket_inodes: Vec<u64>,
}

/// Whether process `p` holds the socket `inode`.
pub open spec fn holds(p: ProcessSockets, inode: u64) -> bool {
    p.socket_inodes@.contains(inode)
}

/// The owner of `inode` by a walk over `procs` in order: the first process
/// that holds it, or none.
pub open spec fn first_owner(procs: Seq<ProcessSockets>, inode: u64) -> Option<u32>
    decreases procs.len(),
{
    if procs.len() == 0 {
        None
    } else if holds(procs[0], inode) {
        Some(procs[0].pid)
    } else {
        first_owner(procs.drop_first(), inode)
    }
}

/// Whether any process of `procs` holds `inode`.
pub open spec fn held_by_any(procs: Seq<ProcessSockets>, inode: u64) -> bool {
    exists|i: int| 0 <= i < procs.len() && holds(#[trigger] procs[i], inode)
}

proof fn lemma_first_owner_none(procs: Seq<ProcessSockets>, inode: u64)
    ensures
        first_owner(procs, inode) is None <==> !held_by_any(procs, inode),
    decreases procs.len(),
{
    if procs.len() > 0 {
        lemma_first_owner_none(procs.drop_first(), inode);
        if held_by_any(procs.drop_first(), inode) {
            let i = choose|i: int| 0 <= i < procs.len() - 1 && holds(#[trigger] procs.drop_first()[i], inode);
            assert(procs[i + 1] == procs.drop_first()[i]);
        }
        if held_by_any(procs, inode) && !holds(procs[0], inode) {
            let i = choose|i: int| 0 <= i < procs.len() && holds(#[trigger] procs[i], inode);
            assert(procs.drop_first()[i - 1] == procs[i]);
        }
    }
}

/// Whether `inodes` holds `inode`.
fn holds_inode(inodes: &Vec<u64>, inode: u64) -> (r: bool)
    ensures
        r == inodes@.contains(inode),
{
    let mut i: usize = 0;
    while i < inodes.len()
        invariant
            i <= inodes@.len(),
            forall|j: int| 0 <= j < i ==> inodes@[j] != inode,
        decreases inodes@.len() - i,
    {
        if inodes[i] == inode {
            assert(inodes@[i as int] == inode);
            return true;
        }
        i = i + 1;
    }
    false
}

/// The process that holds the socket `inode`: the first one in `procs` whose
/// descriptor table refers to it, or none when no process does (it may belong
/// to a process that could not be inspected, or have closed meanwhile).
pub fn find_pid_by_inode(procs: &Vec<ProcessSockets>, inode: u64) -> (r: Option<u32>)
    ensures
        r == first_owner(procs@, inode),
        r is None <==> !held_by_any(procs@, inode),
{
    proof {
        lemma_first_owner_none(procs@, inode);
        assert(procs@.subrange(0, procs@.len() as int) =~= procs@);
    }
    let mut i: usize = 0;
    while i < procs.len()
        invariant
            i <= procs@.len(),
            first_owner(procs@, inode) == first_owner(procs@.subrange(i as int, procs@.len() as int), inode),
        decreases procs@.len() - i,
    {
        let ghost rest = procs@.subrange(i as int, procs@.len() as int);
        assert(rest[0] == procs@[i as int]);
        if holds_inode(&procs[i].socket_inodes, inode) {
            return Some(procs[i].pid);
        }
        assert(rest.drop_first() =~= procs@.subrange(i + 1, procs@.len() as int));
        i = i + 1;
    }
    None
}

/// One entry of the kernel's socket tables.
#[derive(Debug, Clone)]
pub struct KernelSocket {
    pub protocol: Protocol,
    pub local_addr: String,
    pub local_port: u16,
    pub inode: u64,
    /// Whether a TCP socket is in the LISTEN state; UDP sockets have no such state.
    pub listening: bool,
}

/// Whether a kernel table entry is in use: a listening TCP socket or any
/// bound UDP socket.
pub open spec fn in_use(e: KernelSocket) -> bool {
    e.protocol == Protocol::UDP || e.listening
}

/// The raw socket for a kernel table entry whose owner is `pid`.
pub open spec fn raw_of_kernel(e: KernelSocket, pid: u32) -> RawView {
    RawView { protocol: e.protocol, address: e.local_addr@, port: e.local_port, pid, reported_name: None }
}

/// The owner of a kernel table entry; 0 when no process holds its inode.
pub open spec fn kernel_owner(procs: Seq<ProcessSockets>, inode: u64) -> u32 {
    match first_owner(procs, inode) {
        Some(pid) => pid,
        None => 0,
    }
}

/// The raw sockets of the kernel tables' entries that are in use and on a
/// wanted port, in table order, each with the owner found by inode correlation.
pub open spec fn kernel_raw(
    entries: Seq<KernelSocket>,
    procs: Seq<ProcessSockets>,
    ports: Seq<u16>,
) -> Seq<RawView>
    decreases entries.len(),
{
    if entries.len() == 0 {
        Seq::empty()
    } else {
        let e = entries.last();
        let rest = kernel_raw(entries.drop_last(), procs, ports);
        if in_use(e) && wanted(ports, e.local_port) {
            rest.push(raw_of_kernel(e, kernel_owner(procs, e.inode)))
        } else {
            rest
        }
    }
}

/// Turns kernel table entries into raw sockets: entries not in use or on an
/// unwanted port are dropped before their owner is looked up; the others get
/// the process that holds their inode, or 0.
pub fn kernel_sockets(entries: &Vec<KernelSocket>, procs: &Vec<ProcessSockets>, filter: Option<&[u16]>) -> (r:
    Vec<RawSocket>)
    ensures
        raw_views(r@) == kernel_raw(entries@, procs@, filter_ports(filter)),
{
    let mut out: Vec<RawSocket> = Vec::new();
    let mut i: usize = 0;
    while i < entries.len()
        invariant
            i <= entries@.len(),
            raw_views(out@) == kernel_raw(entries@.subrange(0, i as int), procs@, filter_ports(filter)),
        decreases entries@.len() - i,
    {
        let e = &entries[i];
        let ghost pre = entries@.subrange(0, i as int);
        let ghost next = entries@.subrange(0, i + 1);
        assert(next.drop_last() =~= pre);
        if (e.protocol == Protocol::UDP || e.listening) && port_wanted(filter, e.local_port) {
            let pid = match find_pid_by_inode(procs, e.inode) {
                Some(p) => p,
                None => 0,
            };
            let raw = RawSocket {
                protocol: e.protocol,
                local_addr: e.local_addr.clone(),
                local_port: e.local_port,
                pid,
                reported_name: None,
            };
            let ghost before = out@;
            out.push(raw);
            assert(raw_views(out@) =~= raw_views(before).push(raw@));
        }
        i = i + 1;
    }
    assert(entries@.subrange(0, entries@.len() as int) =~= entries@);
    out
}

} // verus!
