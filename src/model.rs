use vstd::prelude::*;
use crate::text::{decimal, pad_right, push_char, push_decimal, push_padded, push_str};

verus! {

/// Transport protocol of a socket.
#[derive(Debug, Clone, Copy, PartialEq, Eq, Structural)]
pub enum Protocol {
    TCP,
    UDP,
}

/// The name under which a protocol is shown.
pub open spec fn protocol_text(p: Protocol) -> Seq<char> {
    match p {
        Protocol::TCP => seq!['T', 'C', 'P'],
        Protocol::UDP => seq!['U', 'D', 'P'],
    }
}

impl Protocol {
    /// The protocol's name, `TCP` or `UDP`.
    pub fn to_text(&self) -> (r: String)
        ensures
            r@ == protocol_text(*self),
    {
        let mut r = String::new();
        match self {
            Protocol::TCP => {
                push_char(&mut r, 'T');
                push_char(&mut r, 'C');
                push_char(&mut r, 'P');
            },
            Protocol::UDP => {
                push_char(&mut r, 'U');
                push_char(&mut r, 'D');
                push_char(&mut r, 'P');
            },
        }
        assert(r@ =~= protocol_text(*self));
        r
    }
}

/// One listening TCP socket or bound UDP socket, with the process that owns it.
#[derive(Debug, Clone)]
pub struct SocketInfo {
    pub protocol: Protocol,
    pub local_addr: String,
    pub local_port: u16,
    pub pid: u32,
    pub process_name: String,
}

/// Column widths of the text form of a record.
pub const PROTOCOL_WIDTH: usize = 6;
pub const ENDPOINT_WIDTH: usize = 25;
pub const PID_WIDTH: usize = 10;

/// `address:port`, as shown in the second column.
pub open spec fn endpoint_text(addr: Seq<char>, port: u16) -> Seq<char> {
    addr + seq![':'] + decimal(port as nat)
}

/// The text row of a record: protocol, endpoint and pid in fixed-width columns,
/// then the process name, separated by single blanks.
pub open spec fn text_row(r: SocketInfo) -> Seq<char> {
    pad_right(protocol_text(r.protocol), PROTOCOL_WIDTH as nat) + seq![' ']
        + pad_right(endpoint_text(r.local_addr@, r.local_port), ENDPOINT_WIDTH as nat) + seq![' ']
        + pad_right(decimal(r.pid as nat), PID_WIDTH as nat) + seq![' ']
        + r.process_name@
}

/// The mathematical content of a `SocketInfo`.
pub struct RecordView {
    pub protocol: Protocol,
    pub address: Seq<char>,
    pub port: u16,
    pub pid: u32,
    pub name: Seq<char>,
}

impl View for SocketInfo {
    type V = RecordView;

    open spec fn view(&self) -> RecordView {
        RecordView {
            protocol: self.protocol,
            address: self.local_addr@,
            port: self.local_port,
            pid: self.pid,
            name: self.process_name@,
        }
    }
}

/// The views of a sequence of records, position by position.
pub open spec fn record_views(s: Seq<SocketInfo>) -> Seq<RecordView> {
    s.map_values(|r: SocketInfo| r@)
}

impl SocketInfo {
    /// The record as one line of the columnar text report.
    pub fn to_text_row(&self) -> (r: String)
        ensures
            r@ == text_row(*self),
    {
        let proto = self.protocol.to_text();
        let mut endpoint = String::new();
        push_str(&mut endpoint, self.local_addr.as_str());
        push_char(&mut endpoint, ':');
        push_decimal(&mut endpoint, self.local_port as u32);
        let mut pid = String::new();
        push_decimal(&mut pid, self.pid);
        let mut r = String::new();
        push_padded(&mut r, proto.as_str(), PROTOCOL_WIDTH);
        push_char(&mut r, ' ');
        push_padded(&mut r, endpoint.as_str(), ENDPOINT_WIDTH);
        push_char(&mut r, ' ');
        push_padded(&mut r, pid.as_str(), PID_WIDTH);
        push_char(&mut r, ' ');
        push_str(&mut r, self.process_name.as_str());
        assert(endpoint@ =~= endpoint_text(self.local_addr@, self.local_port));
        assert(r@ =~= text_row(*self));
        r
    }
}

} // verus!
