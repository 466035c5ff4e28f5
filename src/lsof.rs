use vstd::prelude::*;
use crate::model::Protocol;
use crate::report::{raw_views, RawSocket, RawView};
use crate::text::{chars_of, push_char, push_chars};

verus! {

/// Whether `c` ends a field: a line break when splitting into lines, any blank
/// when splitting a line into columns.
pub open spec fn is_separator(c: char, lines: bool) -> bool {
    if lines {
        c == '\n'
    } else {
        c == ' ' || c == '\t' || c == '\r' || c == '\n'
    }
}

/// After the first `n` characters of `s`: the fields completed so far, and the
/// field being read.
pub open spec fn split_state(s: Seq<char>, n: nat, lines: bool) -> (Seq<Seq<char>>, Seq<char>)
    decreases n,
{
    if n == 0 {
        (Seq::empty(), Seq::empty())
    } else {
        let (done, cur) = split_state(s, (n - 1) as nat, lines);
        let c = s[n - 1];
        if is_separator(c, lines) {
            if cur.len() > 0 {
                (done.push(cur), Seq::empty())
            } else {
                (done, cur)
            }
        } else {
            (done, cur.push(c))
        }
    }
}

/// The maximal non-empty runs of non-separator characters of `s`, in order.
pub open spec fn fields(s: Seq<char>, lines: bool) -> Seq<Seq<char>> {
    let (done, cur) = split_state(s, s.len(), lines);
    if cur.len() > 0 {
        done.push(cur)
    } else {
        done
    }
}

/// The views of a sequence of character vectors, position by position.
pub open spec fn char_views(v: Seq<Vec<char>>) -> Seq<Seq<char>> {
    v.map_values(|f: Vec<char>| f@)
}

/// Splits `s` into lines (`lines`) or into blank-separated columns; empty
/// fields are dropped.
pub fn split_fields(s: &[char], lines: bool) -> (r: Vec<Vec<char>>)
    ensures
        char_views(r@) == fields(s@, lines),
{
    let mut done: Vec<Vec<char>> = Vec::new();
    let mut cur: Vec<char> = Vec::new();
    let mut i: usize = 0;
    while i < s.len()
        invariant
            i <= s@.len(),
            (char_views(done@), cur@) == split_state(s@, i as nat, lines),
        decreases s@.len() - i,
    {
        let c = s[i];
        let sep = if lines {
            c == '\n'
        } else {
            c == ' ' || c == '\t' || c == '\r' || c == '\n'
        };
        let ghost before = done@;
        let ghost field = cur@;
        if sep {
            if cur.len() > 0 {
                done.push(cur);
                cur = Vec::new();
                assert(char_views(done@) =~= char_views(before).push(field));
            }
        } else {
            cur.push(c);
        }
        i = i + 1;
    }
    let ghost before = done@;
    let ghost field = cur@;
    if cur.len() > 0 {
        done.push(cur);
        assert(char_views(done@) =~= char_views(before).push(field));
    }
    done
}

/// Whether `c` is an ASCII decimal digit.
pub open spec fn is_digit(c: char) -> bool {
    '0' <= c && c <= '9'
}

/// The value of a run of decimal digits.
pub open spec fn digits_value(s: Seq<char>) -> nat
    decreases s.len(),
{
    if s.len() == 0 {
        0
    } else {
        digits_value(s.drop_last()) * 10 + ((s.last() as u32) - 48) as nat
    }
}

/// The number that `s` spells in decimal, if it is a non-empty run of digits
/// whose value is at most `max`.
pub open spec fn decimal_field(s: Seq<char>, max: nat) -> Option<nat> {
    if s.len() > 0 && (forall|i: int| 0 <= i < s.len() ==> is_digit(#[trigger] s[i])) && digits_value(s)
        <= max {
        Some(digits_value(s))
    } else {
        None
    }
}

proof fn lemma_prefix_value(s: Seq<char>, k: int)
    requires
        0 <= k <= s.len(),
        forall|i: int| 0 <= i < s.len() ==> is_digit(#[trigger] s[i]),
    ensures
        digits_value(s.subrange(0, k)) <= digits_value(s),
    decreases s.len(),
{
    if k < s.len() {
        assert(s.drop_last().subrange(0, k) =~= s.subrange(0, k));
        lemma_prefix_value(s.drop_last(), k);
    } else {
        assert(s.subrange(0, k) =~= s);
    }
}

/// The number spelled by `s[from..]`, as `decimal_field` gives it.
pub fn parse_number(s: &[char], from: usize, max: u32) -> (r: Option<u32>)
    requires
        from <= s@.len(),
    ensures
        r is Some <==> decimal_field(s@.subrange(from as int, s@.len() as int), max as nat) is Some,
        r is Some ==> r->0 as nat == decimal_field(s@.subrange(from as int, s@.len() as int), max as nat)->0,
{
    let ghost t = s@.subrange(from as int, s@.len() as int);
    let mut val: u64 = 0;
    let mut i: usize = from;
    while i < s.len()
        invariant
            from <= i <= s@.len(),
            t == s@.subrange(from as int, s@.len() as int),
            val <= max,
            val == digits_value(t.subrange(0, i - from)),
            forall|j: int| 0 <= j < i - from ==> is_digit(#[trigger] t[j]),
        decreases s@.len() - i,
    {
        let c = s[i];
        if !('0' <= c && c <= '9') {
            assert(!is_digit(t[i - from]));
            return None;
        }
        assert(t.subrange(0, i + 1 - from).drop_last() =~= t.subrange(0, i - from));
        val = val * 10 + ((c as u32) - 48) as u64;
        i = i + 1;
        if val > max as u64 {
            proof {
                if forall|j: int| 0 <= j < t.len() ==> is_digit(#[trigger] t[j]) {
                    lemma_prefix_value(t, i - from);
                }
            }
            return None;
        }
    }
    assert(t.subrange(0, i - from) =~= t);
    if i == from {
        return None;
    }
    Some(val as u32)
}

/// The protocol a column names, `TCP` or `UDP`.
pub open spec fn protocol_of(t: Seq<char>) -> Option<Protocol> {
    if t == seq!['T', 'C', 'P'] {
        Some(Protocol::TCP)
    } else if t == seq!['U', 'D', 'P'] {
        Some(Protocol::UDP)
    } else {
        None
    }
}

/// The protocol a column names, as `protocol_of` gives it.
fn protocol_token(t: &Vec<char>) -> (r: Option<Protocol>)
    ensures
        r == protocol_of(t@),
{
    if t.len() == 3 && t[0] == 'T' && t[1] == 'C' && t[2] == 'P' {
        assert(t@ =~= seq!['T', 'C', 'P']);
        Some(Protocol::TCP)
    } else if t.len() == 3 && t[0] == 'U' && t[1] == 'D' && t[2] == 'P' {
        assert(t@ =~= seq!['U', 'D', 'P']);
        Some(Protocol::UDP)
    } else {
        assert(t@.len() == 3 ==> t@ != seq!['T', 'C', 'P'] ==> (t@[0] != 'T' || t@[1] != 'C' || t@[2] != 'P'));
        assert(t@.len() == 3 ==> t@ != seq!['U', 'D', 'P'] ==> (t@[0] != 'U' || t@[1] != 'D' || t@[2] != 'P'));
        None
    }
}

/// The last column at index `k` or below, but not below 2, that names a
/// protocol; -1 if there is none.
pub open spec fn last_protocol_column(cols: Seq<Seq<char>>, k: int) -> int
    decreases k,
{
    if k < 2 || k >= cols.len() {
        -1
    } else if protocol_of(cols[k]) is Some {
        k
    } else {
        last_protocol_column(cols, k - 1)
    }
}

/// The last position at index `k` or below where `t` holds a colon; -1 if none.
pub open spec fn last_colon(t: Seq<char>, k: int) -> int
    decreases k + 1,
{
    if k < 0 || k >= t.len() {
        -1
    } else if t[k] == ':' {
        k
    } else {
        last_colon(t, k - 1)
    }
}

/// The socket that one line of `lsof -iTCP -iUDP -sTCP:LISTEN -P -n` output
/// describes. The columns are `COMMAND PID ...`, then a protocol column (`TCP`
/// or `UDP`, the last such column that has one after it) and the endpoint
/// column after it, whose digits after the last colon give the port. Lines of
/// another shape describe no socket. The output does not give the local
/// address in a usable form, so it is reported as `*`.
pub open spec fn lsof_line(line: Seq<char>) -> Option<RawView> {
    let cols = fields(line, false);
    let p = last_protocol_column(cols, cols.len() - 2);
    if p < 2 {
        None
    } else {
        let endpoint = cols[p + 1];
        let c = last_colon(endpoint, endpoint.len() - 1);
        let pid = decimal_field(cols[1], 0xffff_ffff);
        let port = decimal_field(endpoint.subrange(c + 1, endpoint.len() as int), 0xffff);
        if c < 0 || pid is None || port is None {
            None
        } else {
            Some(
                RawView {
                    protocol: protocol_of(cols[p])->0,
                    address: seq!['*'],
                    port: port->0 as u16,
                    pid: pid->0 as u32,
                    reported_name: Some(cols[0]),
                },
            )
        }
    }
}

/// Parses one line of lsof output, as `lsof_line` describes.
pub fn parse_lsof_line(line: &[char]) -> (r: Option<RawSocket>)
    ensures
        r is None <==> lsof_line(line@) is None,
        r is Some ==> r->0@ == lsof_line(line@)->0,
{
    let cols = split_fields(line, false);
    let ghost cv = char_views(cols@);
    assert(cv == fields(line@, false));
    let n = cols.len();
    if n < 4 {
        return None;
    }
    let mut k: usize = n - 2;
    while k >= 2 && protocol_token(&cols[k]).is_none()
        invariant
            n == cols@.len(),
            cv == char_views(cols@),
            1 <= k <= n - 2,
            last_protocol_column(cv, n - 2) == last_protocol_column(cv, k as int),
        decreases k,
    {
        k = k - 1;
    }
    assert(cv[k as int] == cols@[k as int]@);
    assert(cv[k + 1] == cols@[k + 1]@);
    let protocol = match protocol_token(&cols[k]) {
        Some(p) => p,
        None => {
            return None;
        },
    };
    if k < 2 {
        return None;
    }
    let endpoint = &cols[k + 1];
    let mut j: usize = endpoint.len();
    while j > 0 && endpoint[j - 1] != ':'
        invariant
            j <= endpoint@.len(),
            last_colon(endpoint@, endpoint@.len() - 1) == last_colon(endpoint@, j - 1),
        decreases j,
    {
        j = j - 1;
    }
    if j == 0 {
        return None;
    }
    assert(last_colon(endpoint@, j - 1) == j - 1);
    assert(cols[1]@.subrange(0, cols[1]@.len() as int) =~= cols[1]@);
    assert(cv[1] == cols@[1]@);
    let pid = match parse_number(cols[1].as_slice(), 0, 0xffff_ffff) {
        Some(v) => v,
        None => {
            return None;
        },
    };
    let port = match parse_number(endpoint.as_slice(), j, 0xffff) {
        Some(v) => v as u16,
        None => {
            return None;
        },
    };
    let mut local_addr = String::new();
    push_char(&mut local_addr, '*');
    let mut name = String::new();
    push_chars(&mut name, cols[0].as_slice());
    assert(local_addr@ =~= seq!['*']);
    assert(name@ =~= cv[0]);
    Some(RawSocket { protocol, local_addr, local_port: port, pid, reported_name: Some(name) })
}

/// The sockets that the lines describe, in order.
pub open spec fn lsof_sockets(lines: Seq<Seq<char>>) -> Seq<RawView>
    decreases lines.len(),
{
    if lines.len() == 0 {
        Seq::empty()
    } else {
        let rest = lsof_sockets(lines.drop_last());
        match lsof_line(lines.last()) {
            Some(r) => rest.push(r),
            None => rest,
        }
    }
}

/// How many of the lines describe no socket.
pub open spec fn lsof_skipped(lines: Seq<Seq<char>>) -> nat
    decreases lines.len(),
{
    if lines.len() == 0 {
        0
    } else {
        lsof_skipped(lines.drop_last()) + if lsof_line(lines.last()) is Some {
            0nat
        } else {
            1nat
        }
    }
}

/// The sockets found in lsof output, and how many non-empty lines were
/// skipped because they have another shape.
pub struct LsofListing {
    pub sockets: Vec<RawSocket>,
    pub skipped: usize,
}

/// Parses the whole output of lsof, line by line; a line of another shape is
/// skipped and counted, never an error.
pub fn parse_lsof_output(text: &str) -> (r: LsofListing)
    ensures
        raw_views(r.sockets@) == lsof_sockets(fields(text@, true)),
        r.skipped == lsof_skipped(fields(text@, true)),
{
    let chars = chars_of(text);
    let lines = split_fields(chars.as_slice(), true);
    let ghost lv = char_views(lines@);
    let mut sockets: Vec<RawSocket> = Vec::new();
    let mut skipped: usize = 0;
    let mut i: usize = 0;
    while i < lines.len()
        invariant
            i <= lines@.len(),
            lv == char_views(lines@),
            skipped <= i,
            raw_views(sockets@) == lsof_sockets(lv.subrange(0, i as int)),
            skipped == lsof_skipped(lv.subrange(0, i as int)),
        decreases lines@.len() - i,
    {
        assert(lv.subrange(0, i + 1).drop_last() =~= lv.subrange(0, i as int));
        assert(lv.subrange(0, i + 1).last() == lines[i as int]@);
        let ghost before = sockets@;
        match parse_lsof_line(lines[i].as_slice()) {
            Some(s) => {
                sockets.push(s);
                assert(raw_views(sockets@) =~= raw_views(before).push(s@));
            },
            None => {
                skipped = skipped + 1;
            },
        }
        i = i + 1;
    }
    assert(lv.subrange(0, lines@.len() as int) =~= lv);
    LsofListing { sockets, skipped }
}

} // verus!
