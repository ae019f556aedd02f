use vstd::prelude::*;
use crate::control_process::cgroup_v2_path;
use crate::control_process::cgroup_v2_path_exec;
use crate::scan::{
    chars_eq, lines, lines_exec, parse_unsigned, parse_unsigned_exec, split_char, split_char_exec,
    split_once, split_once_exec, split_whitespace, split_whitespace_exec, strip_prefix,
    strip_prefix_exec, strip_suffix, strip_suffix_exec, utf8_len, utf8_len_eq, views,
};
use crate::text::{chars_of, decimal, push_str, push_u64, string_of};
use vstd::string::*;

verus! {

broadcast use vstd::seq_lib::group_seq_properties;

/// The outcome of a network control action.
#[derive(Clone, Debug)]
pub struct ActionResult {
    pub ok: bool,
    pub message: String,
}

/// A successful outcome with the given message.
pub fn ok(msg: String) -> (r: ActionResult)
    ensures
        r.ok,
        r.message@ == msg@,
{
    ActionResult { ok: true, message: msg }
}

/// A failed outcome with the given message.
pub fn err(msg: String) -> (r: ActionResult)
    ensures
        !r.ok,
        r.message@ == msg@,
{
    ActionResult { ok: false, message: msg }
}

/// One TCP connection of a process.
#[derive(Clone, Debug)]
pub struct ConnectionInfo {
    pub pid: u32,
    pub process_name: String,
    pub local_addr: String,
    pub remote_addr: String,
    pub state: String,
}

// ---------------------------------------------------------------------------
// Decoding /proc/net/tcp
// ---------------------------------------------------------------------------

/// Dotted-quad text of an IPv4 address held little-endian in `n`, as the kernel prints it.
pub open spec fn ipv4_text(n: nat) -> Seq<char> {
    decimal(n % 256) + "."@ + decimal((n / 256) % 256) + "."@ + decimal((n / 65536) % 256) + "."@
        + decimal((n / 16777216) % 256)
}

/// An IPv4 address in the kernel's hex form rendered as dotted quad; text that
/// is not a hex `u32` comes back unchanged.
pub open spec fn hex_to_ipv4_spec(hex: Seq<char>) -> Seq<char> {
    match parse_unsigned(hex, 16, u32::MAX as nat) {
        Some(n) => ipv4_text(n),
        None => hex,
    }
}

fn hex_to_ipv4_chars(hex: &Vec<char>) -> (r: String)
    ensures
        r@ == hex_to_ipv4_spec(hex@),
{
    match parse_unsigned_exec(hex, 16, u32::MAX as u64) {
        Some(n) => {
            let mut r = String::new();
            push_u64(&mut r, n % 256);
            push_str(&mut r, ".");
            push_u64(&mut r, (n / 256) % 256);
            push_str(&mut r, ".");
            push_u64(&mut r, (n / 65536) % 256);
            push_str(&mut r, ".");
            push_u64(&mut r, (n / 16777216) % 256);
            r
        },
        None => string_of(hex),
    }
}

/// Renders an IPv4 address given in the kernel's little-endian hex form.
pub fn hex_to_ipv4(hex: &str) -> (r: String)
    ensures
        r@ == hex_to_ipv4_spec(hex@),
{
    hex_to_ipv4_chars(&chars_of(hex))
}

/// An "address:port" pair from /proc/net/tcp, both in hex, rendered as
/// "ip:port". IPv6 addresses are shown as "[ipv6]".
pub open spec fn decode_addr_spec(hex_addr: Seq<char>) -> Option<Seq<char>> {
    match split_once(hex_addr, ':') {
        None => None,
        Some((ip_hex, port_hex)) => match parse_unsigned(port_hex, 16, u16::MAX as nat) {
            None => None,
            Some(port) => Some(
                (if utf8_len(ip_hex) == 8 { hex_to_ipv4_spec(ip_hex) } else { "[ipv6]"@ }) + ":"@
                    + decimal(port),
            ),
        },
    }
}

fn decode_addr_chars(hex_addr: &Vec<char>) -> (r: Option<String>)
    ensures
        match r {
            Some(s) => decode_addr_spec(hex_addr@) == Some(s@),
            None => decode_addr_spec(hex_addr@) is None,
        },
{
    let (ip_hex, port_hex) = match split_once_exec(hex_addr, ':') {
        Some(p) => p,
        None => return None,
    };
    let port = match parse_unsigned_exec(&port_hex, 16, u16::MAX as u64) {
        Some(p) => p,
        None => return None,
    };
    let mut r = if utf8_len_eq(&ip_hex, 8) {
        hex_to_ipv4_chars(&ip_hex)
    } else {
        String::from_str("[ipv6]")
    };
    push_str(&mut r, ":");
    push_u64(&mut r, port);
    Some(r)
}

/// Decodes an "address:port" pair from /proc/net/tcp.
pub fn decode_addr(hex_addr: &str) -> (r: Option<String>)
    ensures
        match r {
            Some(s) => decode_addr_spec(hex_addr@) == Some(s@),
            None => decode_addr_spec(hex_addr@) is None,
        },
{
    decode_addr_chars(&chars_of(hex_addr))
}

/// The name of a TCP state code from /proc/net/tcp.
pub open spec fn tcp_state_spec(code: Seq<char>) -> Seq<char> {
    if code == "01"@ { "ESTABLISHED"@ }
    else if code == "02"@ { "SYN_SENT"@ }
    else if code == "03"@ { "SYN_RECV"@ }
    else if code == "04"@ { "FIN_WAIT1"@ }
    else if code == "05"@ { "FIN_WAIT2"@ }
    else if code == "06"@ { "TIME_WAIT"@ }
    else if code == "07"@ { "CLOSE"@ }
    else if code == "08"@ { "CLOSE_WAIT"@ }
    else if code == "09"@ { "LAST_ACK"@ }
    else if code == "0A"@ { "LISTEN"@ }
    else if code == "0B"@ { "CLOSING"@ }
    else { "UNKNOWN"@ }
}

/// The kernel's TCP state codes as /proc/net/tcp prints them, in the order of
/// its state numbers 1 to 11.
pub open spec fn kernel_tcp_codes() -> Seq<Seq<char>> {
    seq!["01"@, "02"@, "03"@, "04"@, "05"@, "06"@, "07"@, "08"@, "09"@, "0A"@, "0B"@]
}

/// The kernel's names for TCP states 1 to 11 (include/net/tcp_states.h).
pub open spec fn kernel_tcp_names() -> Seq<Seq<char>> {
    seq![
        "ESTABLISHED"@, "SYN_SENT"@, "SYN_RECV"@, "FIN_WAIT1"@, "FIN_WAIT2"@, "TIME_WAIT"@,
        "CLOSE"@, "CLOSE_WAIT"@, "LAST_ACK"@, "LISTEN"@, "CLOSING"@,
    ]
}

proof fn lemma_tcp_state_name_at(i: int)
    requires
        0 <= i < 11,
    ensures
        tcp_state_spec(kernel_tcp_codes()[i]) == kernel_tcp_names()[i],
{
    reveal_strlit("01");
    reveal_strlit("02");
    reveal_strlit("03");
    reveal_strlit("04");
    reveal_strlit("05");
    reveal_strlit("06");
    reveal_strlit("07");
    reveal_strlit("08");
    reveal_strlit("09");
    reveal_strlit("0A");
    reveal_strlit("0B");
    let c = kernel_tcp_codes()[i];
    if i == 0 {
    }
    if i == 1 {
        assert(c[1] != "01"@[1]);
    }
    if i == 2 {
        assert(c[1] != "01"@[1]);
        assert(c[1] != "02"@[1]);
    }
    if i == 3 {
        assert(c[1] != "01"@[1]);
        assert(c[1] != "02"@[1]);
        assert(c[1] != "03"@[1]);
    }
    if i == 4 {
        assert(c[1] != "01"@[1]);
        assert(c[1] != "02"@[1]);
        assert(c[1] != "03"@[1]);
        assert(c[1] != "04"@[1]);
    }
    if i == 5 {
        assert(c[1] != "01"@[1]);
        assert(c[1] != "02"@[1]);
        assert(c[1] != "03"@[1]);
        assert(c[1] != "04"@[1]);
        assert(c[1] != "05"@[1]);
    }
    if i == 6 {
        assert(c[1] != "01"@[1]);
        assert(c[1] != "02"@[1]);
        assert(c[1] != "03"@[1]);
        assert(c[1] != "04"@[1]);
        assert(c[1] != "05"@[1]);
        assert(c[1] != "06"@[1]);
    }
    if i == 7 {
        assert(c[1] != "01"@[1]);
        assert(c[1] != "02"@[1]);
        assert(c[1] != "03"@[1]);
        assert(c[1] != "04"@[1]);
        assert(c[1] != "05"@[1]);
        assert(c[1] != "06"@[1]);
        assert(c[1] != "07"@[1]);
    }
    if i == 8 {
        assert(c[1] != "01"@[1]);
        assert(c[1] != "02"@[1]);
        assert(c[1] != "03"@[1]);
        assert(c[1] != "04"@[1]);
        assert(c[1] != "05"@[1]);
        assert(c[1] != "06"@[1]);
        assert(c[1] != "07"@[1]);
        assert(c[1] != "08"@[1]);
    }
    if i == 9 {
        assert(c[1] != "01"@[1]);
        assert(c[1] != "02"@[1]);
        assert(c[1] != "03"@[1]);
        assert(c[1] != "04"@[1]);
        assert(c[1] != "05"@[1]);
        assert(c[1] != "06"@[1]);
        assert(c[1] != "07"@[1]);
        assert(c[1] != "08"@[1]);
        assert(c[1] != "09"@[1]);
    }
    if i == 10 {
        assert(c[1] != "01"@[1]);
        assert(c[1] != "02"@[1]);
        assert(c[1] != "03"@[1]);
        assert(c[1] != "04"@[1]);
        assert(c[1] != "05"@[1]);
        assert(c[1] != "06"@[1]);
        assert(c[1] != "07"@[1]);
        assert(c[1] != "08"@[1]);
        assert(c[1] != "09"@[1]);
        assert(c[1] != "0A"@[1]);
    }
}

/// Every known state code is shown under the kernel's name for that state,
/// so different states are never shown under one name, and no known state is
/// shown as unknown.
pub proof fn lemma_tcp_state_names(i: int, j: int)
    requires
        0 <= i < 11,
        0 <= j < 11,
    ensures
        tcp_state_spec(kernel_tcp_codes()[i]) == kernel_tcp_names()[i],
        tcp_state_spec(kernel_tcp_codes()[i]) != "UNKNOWN"@,
        i != j ==> tcp_state_spec(kernel_tcp_codes()[i]) != tcp_state_spec(kernel_tcp_codes()[j]),
{
    lemma_tcp_state_name_at(i);
    lemma_tcp_state_name_at(j);
    reveal_strlit("UNKNOWN");
    reveal_strlit("ESTABLISHED");
    reveal_strlit("SYN_SENT");
    reveal_strlit("SYN_RECV");
    reveal_strlit("FIN_WAIT1");
    reveal_strlit("FIN_WAIT2");
    reveal_strlit("TIME_WAIT");
    reveal_strlit("CLOSE");
    reveal_strlit("CLOSE_WAIT");
    reveal_strlit("LAST_ACK");
    reveal_strlit("LISTEN");
    reveal_strlit("CLOSING");
    if i != j {
        let a = kernel_tcp_names()[i];
        let b = kernel_tcp_names()[j];
        if a.len() == b.len() {
            if (i == 1 && j == 2) || (i == 2 && j == 1) { assert(a[4] != b[4]); }
            if (i == 1 && j == 8) || (i == 8 && j == 1) { assert(a[0] != b[0]); }
            if (i == 2 && j == 8) || (i == 8 && j == 2) { assert(a[0] != b[0]); }
            if (i == 3 && j == 4) || (i == 4 && j == 3) { assert(a[8] != b[8]); }
            if (i == 3 && j == 5) || (i == 5 && j == 3) { assert(a[0] != b[0]); }
            if (i == 4 && j == 5) || (i == 5 && j == 4) { assert(a[0] != b[0]); }
        }
    }
    let u = "UNKNOWN"@;
    let a = kernel_tcp_names()[i];
    if a.len() == u.len() {
        if i == 10 { assert(a[0] != u[0]); }
    }
}


fn is_code(code: &Vec<char>, lit: &str) -> (r: bool)
    ensures
        r == (code@ == lit@),
{
    chars_eq(code, &chars_of(lit))
}

fn tcp_state_chars(code: &Vec<char>) -> (r: &'static str)
    ensures
        r@ == tcp_state_spec(code@),
{
    if is_code(code, "01") { "ESTABLISHED" }
    else if is_code(code, "02") { "SYN_SENT" }
    else if is_code(code, "03") { "SYN_RECV" }
    else if is_code(code, "04") { "FIN_WAIT1" }
    else if is_code(code, "05") { "FIN_WAIT2" }
    else if is_code(code, "06") { "TIME_WAIT" }
    else if is_code(code, "07") { "CLOSE" }
    else if is_code(code, "08") { "CLOSE_WAIT" }
    else if is_code(code, "09") { "LAST_ACK" }
    else if is_code(code, "0A") { "LISTEN" }
    else if is_code(code, "0B") { "CLOSING" }
    else { "UNKNOWN" }
}

/// The name of a TCP state code.
pub fn tcp_state_name(code: &str) -> (r: &'static str)
    ensures
        r@ == tcp_state_spec(code@),
{
    tcp_state_chars(&chars_of(code))
}

/// The address and port of an "address:port" pair from /proc/net/tcp, the
/// address left in hex and the port read as a hex `u16`.
pub open spec fn parse_hex_port_spec(hex_addr: Seq<char>) -> Option<(Seq<char>, nat)> {
    match split_once(hex_addr, ':') {
        None => None,
        Some((ip_hex, port_hex)) => match parse_unsigned(port_hex, 16, u16::MAX as nat) {
            None => None,
            Some(port) => Some((ip_hex, port)),
        },
    }
}

fn parse_hex_port_chars(hex_addr: &Vec<char>) -> (r: Option<(Vec<char>, u16)>)
    ensures
        match r {
            Some((ip, port)) => parse_hex_port_spec(hex_addr@) == Some((ip@, port as nat)),
            None => parse_hex_port_spec(hex_addr@) is None,
        },
{
    let (ip_hex, port_hex) = match split_once_exec(hex_addr, ':') {
        Some(p) => p,
        None => return None,
    };
    match parse_unsigned_exec(&port_hex, 16, u16::MAX as u64) {
        Some(p) => Some((ip_hex, p as u16)),
        None => None,
    }
}

/// Splits an "address:port" pair, reading the port.
pub fn parse_hex_port(hex_addr: &str) -> (r: Option<(String, u16)>)
    ensures
        match r {
            Some((ip, port)) => parse_hex_port_spec(hex_addr@) == Some((ip@, port as nat)),
            None => parse_hex_port_spec(hex_addr@) is None,
        },
{
    match parse_hex_port_chars(&chars_of(hex_addr)) {
        Some((ip, port)) => Some((string_of(&ip), port)),
        None => None,
    }
}

/// One decoded row of /proc/net/tcp: socket inode, local and remote
/// addresses, and state name.
#[derive(Clone, Debug)]
pub struct SocketRow {
    pub inode: String,
    pub local: String,
    pub remote: String,
    pub state: String,
}

pub open spec fn row_view(r: SocketRow) -> (Seq<char>, Seq<char>, Seq<char>, Seq<char>) {
    (r.inode@, r.local@, r.remote@, r.state@)
}

/// A row of /proc/net/tcp decoded: rows with fewer than ten fields, or with an
/// address that does not decode, are skipped.
pub open spec fn socket_row_spec(line: Seq<char>) -> Option<(Seq<char>, Seq<char>, Seq<char>, Seq<char>)> {
    let f = split_whitespace(line);
    if f.len() < 10 {
        None
    } else {
        match (decode_addr_spec(f[1]), decode_addr_spec(f[2])) {
            (Some(local), Some(remote)) => Some((f[9], local, remote, tcp_state_spec(f[3]))),
            _ => None,
        }
    }
}

/// Decodes one row of /proc/net/tcp.
pub fn socket_row(line: &Vec<char>) -> (r: Option<SocketRow>)
    ensures
        match r {
            Some(row) => socket_row_spec(line@) == Some(row_view(row)),
            None => socket_row_spec(line@) is None,
        },
{
    let f = split_whitespace_exec(line);
    if f.len() < 10 {
        return None;
    }
    assert(f@[1]@ == views(f@)[1]);
    assert(f@[2]@ == views(f@)[2]);
    assert(f@[3]@ == views(f@)[3]);
    assert(f@[9]@ == views(f@)[9]);
    let local = decode_addr_chars(&f[1]);
    let remote = decode_addr_chars(&f[2]);
    match (local, remote) {
        (Some(local), Some(remote)) => Some(SocketRow {
            inode: string_of(&f[9]),
            local,
            remote,
            state: String::from_str(tcp_state_chars(&f[3])),
        }),
        _ => None,
    }
}

/// The lines after the first, as `lines().skip(1)` yields them.
pub open spec fn skip_header(ls: Seq<Seq<char>>) -> Seq<Seq<char>> {
    if ls.len() == 0 { ls } else { ls.skip(1) }
}

/// The decoded rows of one /proc/net/tcp listing, after its header line.
pub open spec fn socket_rows_spec(text: Seq<char>) -> Seq<(Seq<char>, Seq<char>, Seq<char>, Seq<char>)> {
    skip_header(lines(text)).filter_map(|l: Seq<char>| socket_row_spec(l))
}

/// Decodes a /proc/net/tcp listing.
#[verifier::rlimit(40)]
pub fn socket_rows(text: &str) -> (r: Vec<SocketRow>)
    ensures
        r@.map_values(|x: SocketRow| row_view(x)) == socket_rows_spec(text@),
{
    let ls = lines_exec(&chars_of(text));
    let ghost body = skip_header(lines(text@));
    let ghost f = |l: Seq<char>| socket_row_spec(l);
    let mut r: Vec<SocketRow> = Vec::new();
    if ls.len() == 0 {
        assert(body.len() == 0);
        assert(r@.map_values(|x: SocketRow| row_view(x)) =~= socket_rows_spec(text@));
        return r;
    }
    let n = ls.len();
    assert(body.take(0).filter_map(f) =~= Seq::empty());
    for i in 1..n
        invariant
            n == ls@.len(),
            n >= 1,
            views(ls@) == lines(text@),
            body == skip_header(lines(text@)),
            f == (|l: Seq<char>| socket_row_spec(l)),
            r@.map_values(|x: SocketRow| row_view(x)) == body.take(i - 1).filter_map(f),
    {
        assert(body[i - 1] == ls@[i as int]@);
        proof {
            body.lemma_filter_map_take_succ(f, i - 1);
        }
        let ghost old_r = r@;
        match socket_row(&ls[i]) {
            Some(row) => {
                r.push(row);
                assert(r@.map_values(|x: SocketRow| row_view(x)) =~= old_r.map_values(|x: SocketRow| row_view(x)) + seq![row_view(row)]);
            },
            None => {},
        }
    }
    assert(body.take(n - 1) =~= body);
    r
}

/// The row that a map keyed by inode ends up holding for `inode` after every
/// row is inserted in order: the last row with that inode.
pub open spec fn lookup_last(rows: Seq<(Seq<char>, Seq<char>, Seq<char>, Seq<char>)>, inode: Seq<char>) -> Option<(Seq<char>, Seq<char>, Seq<char>, Seq<char>)>
    decreases rows.len(),
{
    if rows.len() == 0 {
        None
    } else if rows.last().0 == inode {
        Some(rows.last())
    } else {
        lookup_last(rows.drop_last(), inode)
    }
}

/// The index of the row for `inode`, as `lookup_last` picks it.
pub fn lookup_socket(rows: &Vec<SocketRow>, inode: &Vec<char>) -> (r: Option<usize>)
    ensures
        match r {
            Some(k) => k < rows@.len() && lookup_last(rows@.map_values(|x: SocketRow| row_view(x)), inode@) == Some(row_view(rows@[k as int])),
            None => lookup_last(rows@.map_values(|x: SocketRow| row_view(x)), inode@) is None,
        },
{
    let ghost all = rows@.map_values(|x: SocketRow| row_view(x));
    let mut k = rows.len();
    while k > 0
        invariant
            k <= rows@.len(),
            all == rows@.map_values(|x: SocketRow| row_view(x)),
            lookup_last(all, inode@) == lookup_last(all.take(k as int), inode@),
        decreases k,
    {
        let ghost pre = all.take(k as int);
        assert(pre.last() == row_view(rows@[k - 1]));
        assert(pre.drop_last() =~= all.take(k - 1));
        if chars_eq(&chars_of(rows[k - 1].inode.as_str()), inode) {
            return Some(k - 1);
        }
        k = k - 1;
    }
    assert(all.take(0).len() == 0);
    None
}

/// The inode of a file-descriptor link target "socket:[<inode>]".
pub open spec fn socket_inode_spec(link: Seq<char>) -> Option<Seq<char>> {
    match strip_prefix(link, "socket:["@) {
        Some(rest) => strip_suffix(rest, "]"@),
        None => None,
    }
}

/// The socket inode a file-descriptor link points at, if it is a socket.
pub fn socket_inode(link: &str) -> (r: Option<String>)
    ensures
        match r {
            Some(x) => socket_inode_spec(link@) == Some(x@),
            None => socket_inode_spec(link@) is None,
        },
{
    match strip_prefix_exec(&chars_of(link), &chars_of("socket:[")) {
        Some(rest) => match strip_suffix_exec(&rest, &chars_of("]")) {
            Some(x) => Some(string_of(&x)),
            None => None,
        },
        None => None,
    }
}

pub open spec fn conn_view(c: ConnectionInfo) -> (u32, Seq<char>, Seq<char>, Seq<char>, Seq<char>) {
    (c.pid, c.process_name@, c.local_addr@, c.remote_addr@, c.state@)
}

/// The connection that a descriptor link of process `pid` stands for, if it is
/// a socket that the socket table knows.
pub open spec fn link_connection(
    pid: u32,
    name: Seq<char>,
    rows: Seq<(Seq<char>, Seq<char>, Seq<char>, Seq<char>)>,
    link: Seq<char>,
) -> Option<(u32, Seq<char>, Seq<char>, Seq<char>, Seq<char>)> {
    match socket_inode_spec(link) {
        Some(inode) => match lookup_last(rows, inode) {
            Some(row) => Some((pid, name, row.1, row.2, row.3)),
            None => None,
        },
        None => None,
    }
}

/// The connections of process `pid`, given the targets of its descriptor links
/// in order and the socket rows of /proc/net/tcp and /proc/net/tcp6.
#[verifier::rlimit(40)]
pub fn connections_of(pid: u32, process_name: &str, links: &Vec<String>, rows: &Vec<SocketRow>) -> (r: Vec<ConnectionInfo>)
    ensures
        r@.map_values(|c: ConnectionInfo| conn_view(c)) == links@.map_values(|l: String| l@).filter_map(
            |l: Seq<char>| link_connection(pid, process_name@, rows@.map_values(|x: SocketRow| row_view(x)), l),
        ),
{
    let ghost ls = links@.map_values(|l: String| l@);
    let ghost f = |l: Seq<char>| link_connection(pid, process_name@, rows@.map_values(|x: SocketRow| row_view(x)), l);
    let mut r: Vec<ConnectionInfo> = Vec::new();
    let n = links.len();
    assert(ls.take(0).filter_map(f) =~= Seq::empty());
    for i in 0..n
        invariant
            n == links@.len(),
            ls == links@.map_values(|l: String| l@),
            f == (|l: Seq<char>| link_connection(pid, process_name@, rows@.map_values(|x: SocketRow| row_view(x)), l)),
            r@.map_values(|c: ConnectionInfo| conn_view(c)) == ls.take(i as int).filter_map(f),
    {
        proof {
            ls.lemma_filter_map_take_succ(f, i as int);
        }
        let ghost old_r = r@;
        match socket_inode(links[i].as_str()) {
            Some(inode) => {
                let inode_chars = chars_of(inode.as_str());
                match lookup_socket(rows, &inode_chars) {
                    Some(k) => {
                        let c = ConnectionInfo {
                            pid,
                            process_name: String::from_str(process_name),
                            local_addr: rows[k].local.clone(),
                            remote_addr: rows[k].remote.clone(),
                            state: rows[k].state.clone(),
                        };
                        r.push(c);
                        assert(r@.map_values(|c: ConnectionInfo| conn_view(c)) =~= old_r.map_values(|c: ConnectionInfo| conn_view(c)) + seq![conn_view(c)]);
                    },
                    None => {},
                }
            },
            None => {},
        }
    }
    assert(ls.take(n as int) =~= ls);
    r
}

/// Whether a process is one the listing is restricted to.
pub fn wanted_pid(only_pid: Option<u32>, pid: u32) -> (r: bool)
    ensures
        r == (match only_pid {
            Some(w) => w == pid,
            None => true,
        }),
{
    match only_pid {
        Some(w) => w == pid,
        None => true,
    }
}

} // verus!

verus! {

// ---------------------------------------------------------------------------
// Which sockets listen on a port
// ---------------------------------------------------------------------------

/// The inode of a /proc/net/tcp row whose local port is `port`.
pub open spec fn port_row_inode(line: Seq<char>, port: nat) -> Option<Seq<char>> {
    let f = split_whitespace(line);
    if f.len() >= 10 && (parse_hex_port_spec(f[1]) matches Some((_, p)) && p == port) {
        Some(f[9])
    } else {
        None
    }
}

/// The inodes of the sockets of one /proc/net/tcp listing whose local port is `port`.
pub open spec fn port_inodes_spec(text: Seq<char>, port: nat) -> Seq<Seq<char>> {
    skip_header(lines(text)).filter_map(|l: Seq<char>| port_row_inode(l, port))
}

/// Finds the sockets of one /proc/net/tcp listing bound locally to `port`.
#[verifier::rlimit(40)]
pub fn port_inodes(text: &str, port: u16) -> (r: Vec<String>)
    ensures
        r@.map_values(|s: String| s@) == port_inodes_spec(text@, port as nat),
{
    let ls = lines_exec(&chars_of(text));
    let ghost body = skip_header(lines(text@));
    let ghost f = |l: Seq<char>| port_row_inode(l, port as nat);
    let mut r: Vec<String> = Vec::new();
    if ls.len() == 0 {
        assert(r@.map_values(|s: String| s@) =~= port_inodes_spec(text@, port as nat));
        return r;
    }
    let n = ls.len();
    assert(body.take(0).filter_map(f) =~= Seq::empty());
    for i in 1..n
        invariant
            n == ls@.len(),
            n >= 1,
            views(ls@) == lines(text@),
            body == skip_header(lines(text@)),
            f == (|l: Seq<char>| port_row_inode(l, port as nat)),
            r@.map_values(|s: String| s@) == body.take(i - 1).filter_map(f),
    {
        assert(body[i - 1] == ls@[i as int]@);
        proof {
            body.lemma_filter_map_take_succ(f, i - 1);
        }
        let ghost old_r = r@;
        let fields = split_whitespace_exec(&ls[i]);
        if fields.len() >= 10 {
            assert(fields@[1]@ == views(fields@)[1]);
            assert(fields@[9]@ == views(fields@)[9]);
            match parse_hex_port_chars(&fields[1]) {
                Some((_, p)) => {
                    if p == port {
                        let inode = string_of(&fields[9]);
                        r.push(inode);
                        assert(r@.map_values(|s: String| s@) =~= old_r.map_values(|s: String| s@) + seq![inode@]);
                    }
                },
                None => {},
            }
        }
    }
    assert(body.take(n - 1) =~= body);
    r
}

/// Whether one of a process's descriptor links is one of the given sockets.
pub fn uses_any_socket(links: &Vec<String>, inodes: &Vec<String>) -> (r: bool)
    ensures
        r == exists|k: int, j: int|
            0 <= k < links@.len() && 0 <= j < inodes@.len() && socket_inode_spec(#[trigger] links@[k]@)
                == Some(#[trigger] inodes@[j]@),
{
    let n = links.len();
    for k in 0..n
        invariant
            n == links@.len(),
            forall|k2: int, j: int|
                0 <= k2 < k && 0 <= j < inodes@.len() ==> socket_inode_spec(#[trigger] links@[k2]@)
                    != Some(#[trigger] inodes@[j]@),
    {
        match socket_inode(links[k].as_str()) {
            Some(inode) => {
                let inode_chars = chars_of(inode.as_str());
                let m = inodes.len();
                for j in 0..m
                    invariant
                        m == inodes@.len(),
                        k < links@.len(),
                        socket_inode_spec(links@[k as int]@) == Some(inode_chars@),
                        forall|j2: int| 0 <= j2 < j ==> inodes@[j2]@ != inode_chars@,
                {
                    if chars_eq(&chars_of(inodes[j].as_str()), &inode_chars) {
                        assert(socket_inode_spec(links@[k as int]@) == Some(inodes@[j as int]@));
                        return true;
                    }
                }
            },
            None => {},
        }
    }
    false
}

// ---------------------------------------------------------------------------
// Interface shaping and per-process blocking
// ---------------------------------------------------------------------------

/// The interfaces that can be shaped: every one but the loopback.
pub fn shapeable_interfaces(names: Vec<String>) -> (r: Vec<String>)
    ensures
        r@.map_values(|s: String| s@) == names@.map_values(|s: String| s@).filter(|n: Seq<char>| n != "lo"@),
{
    let ghost all = names@.map_values(|s: String| s@);
    let ghost p = |n: Seq<char>| n != "lo"@;
    let lo = chars_of("lo");
    let mut r: Vec<String> = Vec::new();
    let n = names.len();
    assert(all.take(0).filter(p) =~= Seq::empty()) by {
        reveal(Seq::filter);
    }
    for i in 0..n
        invariant
            n == names@.len(),
            lo@ == "lo"@,
            all == names@.map_values(|s: String| s@),
            p == (|n: Seq<char>| n != "lo"@),
            r@.map_values(|s: String| s@) == all.take(i as int).filter(p),
    {
        assert(all.take(i + 1) =~= all.take(i as int).push(all[i as int]));
        proof {
            all.take(i as int).lemma_filter_push(all[i as int], p);
        }
        let ghost old_r = r@;
        if !chars_eq(&chars_of(names[i].as_str()), &lo) {
            let name = names[i].clone();
            r.push(name);
            assert(r@.map_values(|s: String| s@) =~= old_r.map_values(|s: String| s@).push(name@));
        }
    }
    assert(all.take(n as int) =~= all);
    r
}

/// The token-bucket rate argument for `tc`, such as "512kbit".
pub fn tbf_rate(rate_kbit: u32) -> (r: String)
    ensures
        r@ == decimal(rate_kbit as nat) + "kbit"@,
{
    let mut r = String::new();
    push_u64(&mut r, rate_kbit as u64);
    push_str(&mut r, "kbit");
    r
}

/// The outcome of shaping an interface to `rate_kbit`, given how `tc` went.
pub fn limit_interface(iface: &str, rate_kbit: u32, run: Result<String, String>) -> (r: ActionResult)
    ensures
        r.ok == run is Ok,
        r.message@ == (match run {
            Ok(_) => "Limited "@ + iface@ + " to "@ + decimal(rate_kbit as nat) + " kbit/s (tc tbf)"@,
            Err(e) => "Failed to shape "@ + iface@ + ": "@ + e@
                + " (tc qdisc changes need CAP_NET_ADMIN — usually root)"@,
        }),
{
    let mut m = String::new();
    match run {
        Ok(_) => {
            push_str(&mut m, "Limited ");
            push_str(&mut m, iface);
            push_str(&mut m, " to ");
            push_u64(&mut m, rate_kbit as u64);
            push_str(&mut m, " kbit/s (tc tbf)");
            ok(m)
        },
        Err(e) => {
            push_str(&mut m, "Failed to shape ");
            push_str(&mut m, iface);
            push_str(&mut m, ": ");
            push_str(&mut m, e.as_str());
            push_str(&mut m, " (tc qdisc changes need CAP_NET_ADMIN — usually root)");
            err(m)
        },
    }
}

/// The outcome of removing an interface's shaping, given how `tc` went.
pub fn clear_interface_limit(iface: &str, run: Result<String, String>) -> (r: ActionResult)
    ensures
        r.ok == run is Ok,
        r.message@ == (match run {
            Ok(_) => "Removed bandwidth limit on "@ + iface@,
            Err(e) => "Failed to clear shaping on "@ + iface@ + ": "@ + e@,
        }),
{
    let mut m = String::new();
    match run {
        Ok(_) => {
            push_str(&mut m, "Removed bandwidth limit on ");
            push_str(&mut m, iface);
            ok(m)
        },
        Err(e) => {
            push_str(&mut m, "Failed to clear shaping on ");
            push_str(&mut m, iface);
            push_str(&mut m, ": ");
            push_str(&mut m, e.as_str());
            err(m)
        },
    }
}

/// The cgroup v2 path (relative to the hierarchy root) of a process, from the
/// outcome of reading its `/proc/<pid>/cgroup` file.
pub fn process_cgroup_path(pid: u32, read: Result<String, String>) -> (r: Result<String, String>)
    ensures
        match read {
            Err(e) => r matches Err(m) && m@ == "Cannot read /proc/"@ + decimal(pid as nat) + "/cgroup: "@ + e@,
            Ok(text) => match cgroup_v2_path(text@) {
                Some(rest) => r matches Ok(p) && p@ == rest,
                None => r matches Err(m) && m@ == "Process is not on the unified (v2) cgroup hierarchy"@,
            },
        },
{
    match read {
        Err(e) => {
            let mut m = String::new();
            push_str(&mut m, "Cannot read /proc/");
            push_u64(&mut m, pid as u64);
            push_str(&mut m, "/cgroup: ");
            push_str(&mut m, e.as_str());
            Err(m)
        },
        Ok(text) => match cgroup_v2_path_exec(text.as_str()) {
            Some(rest) => Ok(string_of(&rest)),
            None => Err(String::from_str("Process is not on the unified (v2) cgroup hierarchy")),
        },
    }
}

/// The depth of a cgroup path: the number of its non-empty `/`-separated parts.
pub open spec fn cgroup_level_spec(path: Seq<char>) -> nat {
    split_char(path, '/').filter(|p: Seq<char>| p.len() > 0).len()
}

/// The depth of a cgroup path.
pub fn cgroup_level(path: &str) -> (r: usize)
    ensures
        r as nat == cgroup_level_spec(path@),
{
    let parts = split_char_exec(&chars_of(path), '/');
    let ghost ps = views(parts@);
    let ghost p = |x: Seq<char>| x.len() > 0;
    let mut count: usize = 0;
    let n = parts.len();
    assert(ps.take(0).filter(p) =~= Seq::empty()) by {
        reveal(Seq::filter);
    }
    for i in 0..n
        invariant
            n == parts@.len(),
            ps == views(parts@),
            p == (|x: Seq<char>| x.len() > 0),
            count as nat == ps.take(i as int).filter(p).len(),
            count <= i,
    {
        assert(ps.take(i + 1) =~= ps.take(i as int).push(ps[i as int]));
        proof {
            ps.take(i as int).lemma_filter_push(ps[i as int], p);
        }
        if parts[i].len() > 0 {
            count = count + 1;
        }
    }
    assert(ps.take(n as int) =~= ps);
    count
}

/// The nftables rule that drops a cgroup's outbound traffic, as shown to the user.
pub open spec fn nft_rule_spec(level: nat, path: Seq<char>) -> Seq<char> {
    "socket cgroupv2 level "@ + decimal(level) + " \""@ + path + "\" drop"@
}

/// The outcome when the nftables table and chain could not be prepared.
pub fn block_prepare_failed(e: &str) -> (r: ActionResult)
    ensures
        !r.ok,
        r.message@ == "Failed to prepare nft table: "@ + e@ + " (needs root/CAP_NET_ADMIN)"@,
{
    let mut m = String::new();
    push_str(&mut m, "Failed to prepare nft table: ");
    push_str(&mut m, e);
    push_str(&mut m, " (needs root/CAP_NET_ADMIN)");
    err(m)
}

/// The outcome of adding the rule that blocks the cgroup `path`, given how `nft` went.
pub fn block_process_network(path: &str, level: usize, run: Result<String, String>) -> (r: ActionResult)
    ensures
        r.ok == run is Ok,
        r.message@ == (match run {
            Ok(_) => "Blocked outbound traffic for cgroup "@ + path@ + " (nft rule: "@
                + nft_rule_spec(level as nat, path@) + ")"@,
            Err(e) => "Failed to add nft rule: "@ + e@ + " (needs root/CAP_NET_ADMIN)"@,
        }),
{
    let mut m = String::new();
    match run {
        Ok(_) => {
            push_str(&mut m, "Blocked outbound traffic for cgroup ");
            push_str(&mut m, path);
            push_str(&mut m, " (nft rule: ");
            push_str(&mut m, "socket cgroupv2 level ");
            push_u64(&mut m, level as u64);
            push_str(&mut m, " \"");
            push_str(&mut m, path);
            push_str(&mut m, "\" drop");
            push_str(&mut m, ")");
            ok(m)
        },
        Err(e) => {
            push_str(&mut m, "Failed to add nft rule: ");
            push_str(&mut m, e.as_str());
            push_str(&mut m, " (needs root/CAP_NET_ADMIN)");
            err(m)
        },
    }
}

/// The outcome of deleting the blocking table, given how `nft` went.
pub fn unblock_all_network(run: Result<String, String>) -> (r: ActionResult)
    ensures
        r.ok == run is Ok,
        r.message@ == (match run {
            Ok(_) => "Removed all Trace network blocks"@,
            Err(e) => "Failed to clear nft table: "@ + e@,
        }),
{
    match run {
        Ok(_) => ok(String::from_str("Removed all Trace network blocks")),
        Err(e) => {
            let mut m = String::new();
            push_str(&mut m, "Failed to clear nft table: ");
            push_str(&mut m, e.as_str());
            err(m)
        },
    }
}

} // verus!
