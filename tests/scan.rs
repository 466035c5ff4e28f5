use portsnap::index::ProcessNameIndex;
use portsnap::lsof::{parse_lsof_line, parse_lsof_output};
use portsnap::model::{Protocol, SocketInfo};
use portsnap::report::{collect_records, port_wanted, sort_by_port, RawSocket};
use portsnap::scanner::{find_pid_by_inode, kernel_sockets, KernelSocket, ProcessSockets, Scanner};

fn raw(protocol: Protocol, addr: &str, port: u16, pid: u32) -> RawSocket {
    RawSocket { protocol, local_addr: addr.to_string(), local_port: port, pid, reported_name: None }
}

fn record(protocol: Protocol, addr: &str, port: u16, pid: u32, name: &str) -> SocketInfo {
    SocketInfo {
        protocol,
        local_addr: addr.to_string(),
        local_port: port,
        pid,
        process_name: name.to_string(),
    }
}

fn scenario_input() -> Vec<RawSocket> {
    vec![raw(Protocol::TCP, "0.0.0.0", 8080, 123), raw(Protocol::UDP, "::", 53, 0)]
}

fn summary(v: &[SocketInfo]) -> Vec<(Protocol, String, u16, u32, String)> {
    v.iter()
        .map(|r| (r.protocol, r.local_addr.clone(), r.local_port, r.pid, r.process_name.clone()))
        .collect()
}

#[test]
fn scenario_no_filter_orders_by_port() {
    let index = ProcessNameIndex::new();
    let out = Scanner::scan(&scenario_input(), None, &index);
    assert_eq!(
        summary(&out),
        vec![
            (Protocol::UDP, "::".to_string(), 53, 0, "System".to_string()),
            (Protocol::TCP, "0.0.0.0".to_string(), 8080, 123, "-".to_string()),
        ]
    );
}

#[test]
fn scenario_no_filter_uses_index_names() {
    let mut index = ProcessNameIndex::new();
    index.insert(123, "node".to_string());
    let out = Scanner::scan(&scenario_input(), None, &index);
    assert_eq!(out.len(), 2);
    assert_eq!(out[0].local_port, 53);
    assert_eq!(out[0].process_name, "System");
    assert_eq!(out[1].local_port, 8080);
    assert_eq!(out[1].process_name, "node");
}

#[test]
fn scenario_filter_keeps_requested_port() {
    let index = ProcessNameIndex::new();
    let ports: Vec<u16> = vec![8080];
    let out = Scanner::scan(&scenario_input(), Some(ports.as_slice()), &index);
    assert_eq!(summary(&out), vec![(Protocol::TCP, "0.0.0.0".to_string(), 8080, 123, "-".to_string())]);
}

#[test]
fn empty_filter_keeps_every_port() {
    let index = ProcessNameIndex::new();
    let ports: Vec<u16> = vec![];
    let out = Scanner::scan(&scenario_input(), Some(ports.as_slice()), &index);
    assert_eq!(out.len(), 2);
}

#[test]
fn filter_on_absent_port_gives_nothing() {
    let index = ProcessNameIndex::new();
    let ports: Vec<u16> = vec![22, 443];
    let out = Scanner::scan(&scenario_input(), Some(ports.as_slice()), &index);
    assert!(out.is_empty());
}

#[test]
fn empty_discovery_gives_empty_list() {
    let index = ProcessNameIndex::new();
    let out = Scanner::scan(&Vec::new(), None, &index);
    assert!(out.is_empty());
}

#[test]
fn equal_ports_keep_discovery_order() {
    let index = ProcessNameIndex::new();
    let input = vec![
        raw(Protocol::TCP, "a", 80, 1),
        raw(Protocol::TCP, "b", 22, 2),
        raw(Protocol::UDP, "c", 80, 3),
        raw(Protocol::TCP, "d", 22, 4),
        raw(Protocol::UDP, "e", 65535, 5),
        raw(Protocol::UDP, "f", 0, 6),
    ];
    let out = Scanner::scan(&input, None, &index);
    let addrs: Vec<&str> = out.iter().map(|r| r.local_addr.as_str()).collect();
    assert_eq!(addrs, vec!["f", "b", "d", "a", "c", "e"]);
}

#[test]
fn sort_by_port_sorts_records() {
    let v = vec![
        record(Protocol::TCP, "x", 9000, 1, "a"),
        record(Protocol::TCP, "y", 80, 2, "b"),
        record(Protocol::TCP, "z", 80, 3, "c"),
    ];
    let out = sort_by_port(v);
    let pids: Vec<u32> = out.iter().map(|r| r.pid).collect();
    assert_eq!(pids, vec![2, 3, 1]);
}

#[test]
fn system_name_only_for_pid_zero() {
    let mut index = ProcessNameIndex::new();
    index.insert(7, "sshd".to_string());
    assert_eq!(index.name_for(0), "System");
    assert_eq!(index.name_for(7), "sshd");
    assert_eq!(index.name_for(8), "-");
    assert_eq!(index.get(7), Some("sshd".to_string()));
    assert_eq!(index.get(8), None);
}

#[test]
fn index_insert_replaces_name() {
    let mut index = ProcessNameIndex::new();
    index.insert(7, "old".to_string());
    index.insert(7, "new".to_string());
    assert_eq!(index.name_for(7), "new");
}

#[test]
fn reported_name_wins_over_index() {
    let mut index = ProcessNameIndex::new();
    index.insert(9, "from-index".to_string());
    let mut r = raw(Protocol::TCP, "*", 3000, 9);
    r.reported_name = Some("from-lsof".to_string());
    let out = collect_records(&vec![r], None, &index);
    assert_eq!(out[0].process_name, "from-lsof");
}

#[test]
fn port_wanted_cases() {
    let ports: Vec<u16> = vec![1, 2];
    assert!(port_wanted(None, 5));
    assert!(port_wanted(Some(ports.as_slice()), 2));
    assert!(!port_wanted(Some(ports.as_slice()), 3));
}

fn procs() -> Vec<ProcessSockets> {
    vec![
        ProcessSockets { pid: 10, socket_inodes: vec![100, 101] },
        ProcessSockets { pid: 11, socket_inodes: vec![] },
        ProcessSockets { pid: 12, socket_inodes: vec![101, 200] },
    ]
}

#[test]
fn inode_found_in_first_holder() {
    assert_eq!(find_pid_by_inode(&procs(), 101), Some(10));
    assert_eq!(find_pid_by_inode(&procs(), 200), Some(12));
}

#[test]
fn inode_not_found_then_placeholder_names() {
    assert_eq!(find_pid_by_inode(&procs(), 999), None);
    assert_eq!(find_pid_by_inode(&Vec::new(), 100), None);
    let index = ProcessNameIndex::new();
    assert_eq!(index.name_for(0), "System");
    assert_eq!(index.name_for(4242), "-");
}

fn kernel(protocol: Protocol, port: u16, inode: u64, listening: bool) -> KernelSocket {
    KernelSocket { protocol, local_addr: "127.0.0.1".to_string(), local_port: port, inode, listening }
}

#[test]
fn kernel_tables_keep_listening_tcp_and_all_udp() {
    let entries = vec![
        kernel(Protocol::TCP, 80, 100, true),
        kernel(Protocol::TCP, 81, 101, false),
        kernel(Protocol::UDP, 53, 200, false),
        kernel(Protocol::UDP, 54, 999, false),
    ];
    let out = kernel_sockets(&entries, &procs(), None);
    let got: Vec<(u16, u32)> = out.iter().map(|r| (r.local_port, r.pid)).collect();
    assert_eq!(got, vec![(80, 10), (53, 12), (54, 0)]);
    assert!(out.iter().all(|r| r.reported_name.is_none() && r.local_addr == "127.0.0.1"));
}

#[test]
fn kernel_tables_apply_filter() {
    let entries = vec![kernel(Protocol::TCP, 80, 100, true), kernel(Protocol::UDP, 53, 200, false)];
    let ports: Vec<u16> = vec![53];
    let out = kernel_sockets(&entries, &procs(), Some(ports.as_slice()));
    assert_eq!(out.len(), 1);
    assert_eq!(out[0].local_port, 53);
    assert_eq!(out[0].protocol, Protocol::UDP);
}

fn chars(s: &str) -> Vec<char> {
    s.chars().collect()
}

#[test]
fn lsof_line_parses_fields() {
    let line = chars("node    12345 alice   23u  IPv4 0x1234      0t0  TCP *:8080 (LISTEN)");
    let r = parse_lsof_line(&line).unwrap();
    assert_eq!(r.protocol, Protocol::TCP);
    assert_eq!(r.local_addr, "*");
    assert_eq!(r.local_port, 8080);
    assert_eq!(r.pid, 12345);
    assert_eq!(r.reported_name, Some("node".to_string()));
}

#[test]
fn lsof_line_udp_and_ipv6() {
    let r = parse_lsof_line(&chars("mDNSRespo 321 _mdns 8u IPv6 0xab 0t0 UDP [::1]:5353")).unwrap();
    assert_eq!(r.protocol, Protocol::UDP);
    assert_eq!(r.local_port, 5353);
    assert_eq!(r.pid, 321);
}

#[test]
fn lsof_line_rejects_other_shapes() {
    assert!(parse_lsof_line(&chars("COMMAND PID USER FD TYPE DEVICE SIZE/OFF NODE NAME")).is_none());
    assert!(parse_lsof_line(&chars("")).is_none());
    assert!(parse_lsof_line(&chars("node abc u 1 TCP *:80")).is_none());
    assert!(parse_lsof_line(&chars("node 1 u 1 TCP *:http")).is_none());
    assert!(parse_lsof_line(&chars("node 1 u 1 TCP *:65536")).is_none());
    assert!(parse_lsof_line(&chars("node 1 u 1 TCP noport")).is_none());
    assert!(parse_lsof_line(&chars("node 4294967296 u 1 TCP *:80")).is_none());
    assert!(parse_lsof_line(&chars("node 1 u 1 TCP")).is_none());
}

#[test]
fn lsof_largest_values() {
    let r = parse_lsof_line(&chars("x 4294967295 u 1 UDP *:65535")).unwrap();
    assert_eq!(r.pid, u32::MAX);
    assert_eq!(r.local_port, 65535);
}

#[test]
fn lsof_output_skips_bad_lines() {
    let text = "COMMAND PID USER FD TYPE DEVICE SIZE/OFF NODE NAME\n\
                node 100 me 3u IPv4 0x1 0t0 TCP *:3000 (LISTEN)\n\
                garbage line\n\
                \n\
                dns 5 root 4u IPv4 0x2 0t0 UDP 127.0.0.1:53\n";
    let listing = parse_lsof_output(text);
    assert_eq!(listing.skipped, 2);
    let got: Vec<(u16, u32)> = listing.sockets.iter().map(|r| (r.local_port, r.pid)).collect();
    assert_eq!(got, vec![(3000, 100), (53, 5)]);
    let index = ProcessNameIndex::new();
    let out = Scanner::scan(&listing.sockets, None, &index);
    assert_eq!(out[0].process_name, "dns");
    assert_eq!(out[1].process_name, "node");
}

#[test]
fn lsof_output_empty() {
    let listing = parse_lsof_output("");
    assert!(listing.sockets.is_empty());
    assert_eq!(listing.skipped, 0);
}

#[test]
fn text_row_columns() {
    let r = record(Protocol::TCP, "0.0.0.0", 8080, 123, "node");
    assert_eq!(r.to_text_row(), format!("{:<6} {:<25} {:<10} {}", "TCP", "0.0.0.0:8080", 123, "node"));
    assert_eq!(r.to_text_row(), "TCP    0.0.0.0:8080              123        node");
}

#[test]
fn text_row_long_fields_are_not_cut() {
    let addr = "fe80::1234:5678:9abc:def0%en0";
    let r = record(Protocol::UDP, addr, 0, 4294967295, "");
    assert_eq!(r.to_text_row(), format!("{:<6} {:<25} {:<10} {}", "UDP", format!("{}:0", addr), 4294967295u32, ""));
}

#[test]
fn protocol_text() {
    assert_eq!(Protocol::TCP.to_text(), "TCP");
    assert_eq!(Protocol::UDP.to_text(), "UDP");
}

fn to_json(r: &SocketInfo) -> serde_json::Value {
    let mut m = serde_json::Map::new();
    m.insert("protocol".to_string(), serde_json::Value::String(r.protocol.to_text()));
    m.insert("local_addr".to_string(), serde_json::Value::String(r.local_addr.clone()));
    m.insert("local_port".to_string(), serde_json::Value::from(r.local_port));
    m.insert("pid".to_string(), serde_json::Value::from(r.pid));
    m.insert("process_name".to_string(), serde_json::Value::String(r.process_name.clone()));
    serde_json::Value::Object(m)
}

fn from_json(v: &serde_json::Value) -> SocketInfo {
    let protocol = match v["protocol"].as_str().unwrap() {
        "TCP" => Protocol::TCP,
        _ => Protocol::UDP,
    };
    SocketInfo {
        protocol,
        local_addr: v["local_addr"].as_str().unwrap().to_string(),
        local_port: v["local_port"].as_u64().unwrap() as u16,
        pid: v["pid"].as_u64().unwrap() as u32,
        process_name: v["process_name"].as_str().unwrap().to_string(),
    }
}

#[test]
fn serialized_report_round_trips() {
    let mut index = ProcessNameIndex::new();
    index.insert(123, "node".to_string());
    let out = Scanner::scan(&scenario_input(), None, &index);
    let text = serde_json::to_string(&serde_json::Value::Array(out.iter().map(to_json).collect())).unwrap();
    let back: serde_json::Value = serde_json::from_str(&text).unwrap();
    let parsed: Vec<SocketInfo> = back.as_array().unwrap().iter().map(from_json).collect();
    assert_eq!(summary(&parsed), summary(&out));
}
