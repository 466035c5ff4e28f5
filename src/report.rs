use vstd::prelude::*;
use crate::index::{resolved_name, system_name, unresolved_name, ProcessNameIndex};
use crate::model::{record_views, Protocol, RecordView, SocketInfo};

verus! {

broadcast use vstd::seq_lib::group_filter_ensures;

/// A socket as an enumeration strategy observed it, before naming.
#[derive(Debug, Clone)]
pub struct RawSocket {
    pub protocol: Protocol,
    pub local_addr: String,
    pub local_port: u16,
    /// Owning process; 0 when none was identified.
    pub pid: u32,
    /// The process name the strategy itself observed, if it saw one.
    pub reported_name: Option<String>,
}

/// The mathematical content of a `RawSocket`.
pub struct RawView {
    pub protocol: Protocol,
    pub address: Seq<char>,
    pub port: u16,
    pub pid: u32,
    pub reported_name: Option<Seq<char>>,
}

impl View for RawSocket {
    type V = RawView;

    open spec fn view(&self) -> RawView {
        RawView {
            protocol: self.protocol,
            address: self.local_addr@,
            port: self.local_port,
            pid: self.pid,
            reported_name: match self.reported_name {
                Some(n) => Some(n@),
                None => None,
            },
        }
    }
}

/// The views of a sequence of raw sockets, position by position.
pub open spec fn raw_views(s: Seq<RawSocket>) -> Seq<RawView> {
    s.map_values(|r: RawSocket| r@)
}

/// The requested ports; no filter and an empty filter both mean every port.
pub open spec fn filter_ports(filter: Option<&[u16]>) -> Seq<u16> {
    match filter {
        Some(f) => f@,
        None => Seq::empty(),
    }
}

/// Whether a socket on `port` belongs in a report restricted to `ports`.
pub open spec fn wanted(ports: Seq<u16>, port: u16) -> bool {
    ports.len() == 0 || ports.contains(port)
}

/// Whether a raw socket is on a port of `ports`.
pub open spec fn on_wanted_port(ports: Seq<u16>) -> spec_fn(RawView) -> bool {
    |r: RawView| wanted(ports, r.port)
}

/// The sockets of `raw` whose port is wanted, in their order.
pub open spec fn selected(raw: Seq<RawView>, ports: Seq<u16>) -> Seq<RawView> {
    raw.filter(on_wanted_port(ports))
}

/// The name a report gives to a raw socket.
pub open spec fn name_of(r: RawView, index: Map<u32, Seq<char>>) -> Seq<char> {
    match r.reported_name {
        Some(n) => n,
        None => resolved_name(index, r.pid),
    }
}

/// The record a report holds for a raw socket.
pub open spec fn record_of(r: RawView, index: Map<u32, Seq<char>>) -> RecordView {
    RecordView { protocol: r.protocol, address: r.address, port: r.port, pid: r.pid, name: name_of(r, index) }
}

/// The records for `raw`, position by position.
pub open spec fn records_of(raw: Seq<RawView>, index: Map<u32, Seq<char>>) -> Seq<RecordView> {
    raw.map_values(|r: RawView| record_of(r, index))
}

/// Ports never decrease along `s`.
pub open spec fn sorted_by_port(s: Seq<RecordView>) -> bool {
    forall|i: int, j: int| 0 <= i < j < s.len() ==> s[i].port <= s[j].port
}

/// Whether a record is on port `port`.
pub open spec fn on_port(port: u16) -> spec_fn(RecordView) -> bool {
    |r: RecordView| r.port == port
}

/// The records of `s` on port `port`, in their order.
pub open spec fn with_port(s: Seq<RecordView>, port: u16) -> Seq<RecordView> {
    s.filter(on_port(port))
}

/// `out` is `input` sorted by port, records with equal ports keeping their order.
pub open spec fn stably_sorted(out: Seq<RecordView>, input: Seq<RecordView>) -> bool {
    &&& sorted_by_port(out)
    &&& forall|port: u16| #[trigger] with_port(out, port) == with_port(input, port)
}

/// The report for `raw` restricted to `ports`, named from `index`.
pub open spec fn is_report(
    out: Seq<RecordView>,
    raw: Seq<RawView>,
    ports: Seq<u16>,
    index: Map<u32, Seq<char>>,
) -> bool {
    stably_sorted(out, records_of(selected(raw, ports), index))
}

/// Whether a socket on `port` belongs in the report for `filter`.
pub fn port_wanted(filter: Option<&[u16]>, port: u16) -> (r: bool)
    ensures
        r == wanted(filter_ports(filter), port),
{
    match filter {
        None => true,
        Some(ports) => {
            if ports.len() == 0 {
                return true;
            }
            let mut i: usize = 0;
            while i < ports.len()
                invariant
                    filter == Some(ports),
                    i <= ports@.len(),
                    forall|j: int| 0 <= j < i ==> ports@[j] != port,
                decreases ports@.len() - i,
            {
                if ports[i] == port {
                    assert(ports@[i as int] == port);
                    return true;
                }
                i = i + 1;
            }
            false
        },
    }
}

/// The record for one raw socket, named from `index` unless the strategy
/// reported a name itself.
pub fn record_for(raw: &RawSocket, index: &ProcessNameIndex) -> (r: SocketInfo)
    ensures
        r@ == record_of(raw@, index@),
{
    let process_name = match &raw.reported_name {
        Some(n) => n.clone(),
        None => index.name_for(raw.pid),
    };
    SocketInfo {
        protocol: raw.protocol,
        local_addr: raw.local_addr.clone(),
        local_port: raw.local_port,
        pid: raw.pid,
        process_name,
    }
}

/// The records for the sockets of `raw` on a wanted port, in discovery order.
/// Sockets on other ports are dropped before any name is looked up.
pub fn collect_records(raw: &Vec<RawSocket>, filter: Option<&[u16]>, index: &ProcessNameIndex) -> (r:
    Vec<SocketInfo>)
    ensures
        record_views(r@) == records_of(selected(raw_views(raw@), filter_ports(filter)), index@),
{
    let ghost ports = filter_ports(filter);
    let ghost pred = on_wanted_port(ports);
    let ghost all = raw_views(raw@);
    let mut out: Vec<SocketInfo> = Vec::new();
    let mut i: usize = 0;
    while i < raw.len()
        invariant
            i <= raw@.len(),
            all == raw_views(raw@),
            ports == filter_ports(filter),
            pred == on_wanted_port(ports),
            record_views(out@) == records_of(all.subrange(0, i as int).filter(pred), index@),
        decreases raw@.len() - i,
    {
        let r = &raw[i];
        let keep = port_wanted(filter, r.local_port);
        assert(pred(r@) == keep);
        proof {
            reveal(Seq::filter);
            let pre = all.subrange(0, i as int);
            let next = all.subrange(0, i + 1);
            assert(next.drop_last() =~= pre);
            assert(next.last() == r@);
            assert(next.filter(pred) == if pred(r@) {
                pre.filter(pred).push(r@)
            } else {
                pre.filter(pred)
            });
        }
        if keep {
            let rec = record_for(r, index);
            let ghost before = out@;
            out.push(rec);
            proof {
                let pre = all.subrange(0, i as int).filter(pred);
                assert(out@ == before.push(rec));
                assert(record_views(out@) =~= record_views(before).push(rec@));
                assert(records_of(pre.push(r@), index@) =~= records_of(pre, index@).push(record_of(r@, index@)));
                assert(record_views(out@) =~= records_of(pre.push(r@), index@));
            }
        }
        i = i + 1;
    }
    assert(all.subrange(0, raw@.len() as int) =~= all);
    out
}

/// Sorts records by port; records with equal ports keep their order.
pub fn sort_by_port(v: Vec<SocketInfo>) -> (r: Vec<SocketInfo>)
    ensures
        stably_sorted(record_views(r@), record_views(v@)),
{
    let ghost orig = record_views(v@);
    let mut rest = v;
    let mut out: Vec<SocketInfo> = Vec::new();
    proof {
        reveal(Seq::filter);
        assert(record_views(out@) =~= Seq::<RecordView>::empty());
        assert(orig.subrange(orig.len() as int, orig.len() as int) =~= Seq::<RecordView>::empty());
    }
    // Records are taken from the back and each is placed before every record
    // with a port as large as its own, which keeps equal ports in order.
    while rest.len() > 0
        invariant
            rest@.len() <= orig.len(),
            record_views(rest@) == orig.subrange(0, rest@.len() as int),
            stably_sorted(record_views(out@), orig.subrange(rest@.len() as int, orig.len() as int)),
        decreases rest@.len(),
    {
        let ghost n = rest@.len();
        let ghost rv = record_views(rest@);
        let x = rest.pop().unwrap();
        assert(rv[n - 1] == x@);
        let mut pos: usize = 0;
        while pos < out.len() && out[pos].local_port < x.local_port
            invariant
                pos <= out@.len(),
                forall|j: int| 0 <= j < pos ==> out@[j].local_port < x.local_port,
            decreases out@.len() - pos,
        {
            pos = pos + 1;
        }
        let ghost before = record_views(out@);
        out.insert(pos, x);
        proof {
            let xv = x@;
            let pre = before.subrange(0, pos as int);
            let suf = before.subrange(pos as int, before.len() as int);
            let after = record_views(out@);
            assert(before =~= pre + suf);
            assert(after =~= pre + seq![xv] + suf);
            assert(forall|j: int| 0 <= j < suf.len() ==> suf[j].port >= xv.port) by {
                if pos < before.len() {
                    assert(before[pos as int].port >= xv.port);
                }
            }
            assert(sorted_by_port(after)) by {
                assert forall|i: int, j: int| 0 <= i < j < after.len() implies after[i].port <= after[j].port by {
                    if i < pos && j > pos {
                        assert(after[j] == suf[j - pos - 1]);
                    } else if i == pos && j > pos {
                        assert(after[j] == suf[j - pos - 1]);
                    } else if i < pos && j == pos {
                    } else if i > pos {
                        assert(after[i] == before[i - 1]);
                        assert(after[j] == before[j - 1]);
                    } else {
                        assert(after[i] == before[i]);
                        assert(after[j] == before[j]);
                    }
                };
            };
            let tail = orig.subrange(n as int, orig.len() as int);
            let tail2 = orig.subrange(n - 1, orig.len() as int);
            assert(tail2 =~= seq![xv] + tail);
            assert(record_views(rest@) =~= orig.subrange(0, rest@.len() as int));
            assert forall|port: u16| #[trigger] with_port(after, port) == with_port(tail2, port) by {
                let pred = on_port(port);
                Seq::filter_distributes_over_add(pre, seq![xv], pred);
                Seq::filter_distributes_over_add(pre + seq![xv], suf, pred);
                Seq::filter_distributes_over_add(pre, suf, pred);
                tail.lemma_filter_prepend(xv, pred);
                seq![xv].lemma_filter_prepend(xv, pred);
                if port == xv.port {
                    pre.lemma_all_neg_filter_empty(pred);
                    assert(pre.filter(pred) =~= Seq::<RecordView>::empty());
                }
                assert(with_port(before, port) == with_port(tail, port));
                assert(seq![xv] + Seq::<RecordView>::empty() =~= seq![xv]);
                assert(Seq::<RecordView>::empty().filter(pred) =~= Seq::<RecordView>::empty()) by {
                    reveal(Seq::filter);
                };
            };
        }
    }
    assert(orig.subrange(0, orig.len() as int) =~= orig);
    out
}

/// Each record of a report is the record of some raw socket on a wanted port.
proof fn lemma_report_record_origin(
    out: Seq<RecordView>,
    raw: Seq<RawView>,
    ports: Seq<u16>,
    index: Map<u32, Seq<char>>,
    i: int,
)
    requires
        is_report(out, raw, ports, index),
        0 <= i < out.len(),
    ensures
        exists|j: int|
            0 <= j < raw.len() && wanted(ports, (#[trigger] raw[j]).port) && out[i] == record_of(raw[j], index),
{
    let r = out[i];
    let pred = on_port(r.port);
    let sel = selected(raw, ports);
    let recs = records_of(sel, index);
    out.lemma_filter_contains(pred, i);
    assert(with_port(out, r.port) == with_port(recs, r.port));
    recs.lemma_filter_contains_rev(pred, r);
    let k = choose|k: int| 0 <= k < recs.len() && recs[k] == r;
    let x = sel[k];
    raw.lemma_filter_pred(on_wanted_port(ports), k);
    assert(sel.contains(x));
    raw.lemma_filter_contains_rev(on_wanted_port(ports), x);
    let j = choose|j: int| 0 <= j < raw.len() && raw[j] == x;
    assert(wanted(ports, x.port));
}

/// A report holds only sockets on requested ports, and every discovered
/// socket on a requested port is in it; with no ports requested, every
/// discovered socket is in it.
pub proof fn lemma_report_respects_filter(
    out: Seq<RecordView>,
    raw: Seq<RawView>,
    ports: Seq<u16>,
    index: Map<u32, Seq<char>>,
)
    requires
        is_report(out, raw, ports, index),
    ensures
        forall|i: int| 0 <= i < out.len() ==> wanted(ports, (#[trigger] out[i]).port),
        forall|j: int|
            0 <= j < raw.len() && wanted(ports, (#[trigger] raw[j]).port) ==> out.contains(record_of(raw[j], index)),
        ports.len() == 0 ==> forall|j: int| 0 <= j < raw.len() ==> out.contains(record_of(#[trigger] raw[j], index)),
{
    assert forall|i: int| 0 <= i < out.len() implies wanted(ports, (#[trigger] out[i]).port) by {
        lemma_report_record_origin(out, raw, ports, index, i);
    };
    assert forall|j: int| 0 <= j < raw.len() && wanted(ports, (#[trigger] raw[j]).port) implies out.contains(
        record_of(raw[j], index),
    ) by {
        let x = raw[j];
        let sel = selected(raw, ports);
        raw.lemma_filter_contains(on_wanted_port(ports), j);
        let k = choose|k: int| 0 <= k < sel.len() && sel[k] == x;
        let recs = records_of(sel, index);
        let r = record_of(x, index);
        assert(recs[k] == r);
        let pred = on_port(r.port);
        recs.lemma_filter_contains(pred, k);
        assert(with_port(out, r.port) == with_port(recs, r.port));
        out.lemma_filter_contains_rev(pred, r);
    };
}

/// Where neither the process index nor an enumeration strategy names any
/// process `System`, and none of them names pid 0, a report's record has
/// pid 0 exactly when its name is `System`.
pub proof fn lemma_system_name_iff_pid_zero(
    out: Seq<RecordView>,
    raw: Seq<RawView>,
    ports: Seq<u16>,
    index: Map<u32, Seq<char>>,
)
    requires
        is_report(out, raw, ports, index),
        !index.contains_key(0),
        forall|pid: u32| #[trigger] index.contains_key(pid) ==> index[pid] != system_name(),
        forall|j: int|
            0 <= j < raw.len() && (#[trigger] raw[j]).reported_name is Some ==> raw[j].pid != 0
                && raw[j].reported_name->0 != system_name(),
    ensures
        forall|i: int| 0 <= i < out.len() ==> ((#[trigger] out[i]).pid == 0 <==> out[i].name == system_name()),
{
    assert forall|i: int| 0 <= i < out.len() implies ((#[trigger] out[i]).pid == 0 <==> out[i].name
        == system_name()) by {
        lemma_report_record_origin(out, raw, ports, index, i);
        assert(unresolved_name() != system_name()) by {
            assert(unresolved_name().len() != system_name().len());
        };
    };
}

/// When no socket was discovered, the report is empty, whatever ports were
/// requested.
pub proof fn lemma_empty_discovery(out: Seq<RecordView>, ports: Seq<u16>, index: Map<u32, Seq<char>>)
    requires
        is_report(out, Seq::empty(), ports, index),
    ensures
        out.len() == 0,
{
    if out.len() > 0 {
        lemma_report_record_origin(out, Seq::empty(), ports, index, 0);
    }
}

} // verus!
