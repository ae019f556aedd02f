use trace::network_control::{
    block_prepare_failed, block_process_network, cgroup_level, clear_interface_limit, connections_of, decode_addr,
    hex_to_ipv4, limit_interface, lookup_socket, parse_hex_port, port_inodes, process_cgroup_path, shapeable_interfaces,
    socket_inode, socket_rows, tbf_rate, tcp_state_name, unblock_all_network, uses_any_socket, wanted_pid,
};

const TCP: &str = "  sl  local_address rem_address   st tx_queue rx_queue tr tm->when retrnsmt   uid  timeout inode\n   0: 0100007F:0277 00000000:0000 0A 00000000:00000000 00:00000000 00000000     0        0 12345 1 0000000000000000 100 0 0 10 0\n   1: 0100007F:0016 0100007F:D2F0 01 00000000:00000000 00:00000000 00000000  1000        0 777 1 0000000000000000 20 4 30 10 -1\n   2: short line\n";

#[test]
fn decodes_ipv4_hex() {
    assert_eq!(hex_to_ipv4("0100007F"), "127.0.0.1");
    assert_eq!(hex_to_ipv4("0101A8C0"), "192.168.1.1");
    assert_eq!(hex_to_ipv4("GG"), "GG");
}

#[test]
fn decodes_addresses() {
    assert_eq!(decode_addr("0100007F:0050"), Some("127.0.0.1:80".to_string()));
    assert_eq!(decode_addr("00000000000000000000000001000000:01BB"), Some("[ipv6]:443".to_string()));
    assert_eq!(decode_addr("0100007F"), None);
    assert_eq!(decode_addr("0100007F:XYZ"), None);
    assert_eq!(decode_addr("0100007F:10000"), None);
}

#[test]
fn names_tcp_states() {
    assert_eq!(tcp_state_name("01"), "ESTABLISHED");
    assert_eq!(tcp_state_name("06"), "TIME_WAIT");
    assert_eq!(tcp_state_name("0A"), "LISTEN");
    assert_eq!(tcp_state_name("0B"), "CLOSING");
    assert_eq!(tcp_state_name("0C"), "UNKNOWN");
    assert_eq!(tcp_state_name("0a"), "UNKNOWN");
}

#[test]
fn parses_hex_ports() {
    assert_eq!(parse_hex_port("0100007F:0277"), Some(("0100007F".to_string(), 631)));
    assert_eq!(parse_hex_port("nocolon"), None);
}

#[test]
fn reads_socket_table_and_connections() {
    let rows = socket_rows(TCP);
    assert_eq!(rows.len(), 2);
    assert_eq!(rows[0].inode, "12345");
    assert_eq!(rows[0].local, "127.0.0.1:631");
    assert_eq!(rows[0].remote, "0.0.0.0:0");
    assert_eq!(rows[0].state, "LISTEN");
    assert_eq!(rows[1].remote, "127.0.0.1:54000");
    assert_eq!(rows[1].state, "ESTABLISHED");
    assert_eq!(lookup_socket(&rows, &"777".chars().collect()), Some(1));
    assert_eq!(lookup_socket(&rows, &"1".chars().collect()), None);
    let links = vec!["socket:[777]".to_string(), "/dev/null".to_string(), "socket:[999]".to_string(), "socket:[12345]".to_string()];
    let conns = connections_of(321, "sshd", &links, &rows);
    assert_eq!(conns.len(), 2);
    assert_eq!(conns[0].pid, 321);
    assert_eq!(conns[0].process_name, "sshd");
    assert_eq!(conns[0].local_addr, "127.0.0.1:22");
    assert_eq!(conns[1].state, "LISTEN");
}

#[test]
fn later_rows_win_for_the_same_inode() {
    let mut rows = socket_rows(TCP);
    rows.extend(socket_rows("header\n 0: 0100007F:0050 00000000:0000 0A 0 0 0 0 0 12345\n"));
    let conns = connections_of(1, "p", &vec!["socket:[12345]".to_string()], &rows);
    assert_eq!(conns.len(), 1);
    assert_eq!(conns[0].local_addr, "127.0.0.1:80");
}

#[test]
fn finds_sockets_on_a_port() {
    assert_eq!(port_inodes(TCP, 631), vec!["12345".to_string()]);
    assert_eq!(port_inodes(TCP, 22), vec!["777".to_string()]);
    assert!(port_inodes(TCP, 8080).is_empty());
    assert!(port_inodes("", 631).is_empty());
    let inodes = vec!["12345".to_string()];
    assert!(uses_any_socket(&vec!["pipe:[1]".to_string(), "socket:[12345]".to_string()], &inodes));
    assert!(!uses_any_socket(&vec!["socket:[1]".to_string()], &inodes));
    assert_eq!(socket_inode("socket:[42]"), Some("42".to_string()));
    assert_eq!(socket_inode("anon_inode:[eventfd]"), None);
}

#[test]
fn interfaces_and_pid_filter() {
    let names = vec!["lo".to_string(), "eth0".to_string(), "wlan0".to_string()];
    assert_eq!(shapeable_interfaces(names), vec!["eth0".to_string(), "wlan0".to_string()]);
    assert!(wanted_pid(None, 5));
    assert!(wanted_pid(Some(5), 5));
    assert!(!wanted_pid(Some(5), 6));
}

#[test]
fn shaping_messages() {
    assert_eq!(tbf_rate(512), "512kbit");
    assert_eq!(limit_interface("eth0", 512, Ok(String::new())).message, "Limited eth0 to 512 kbit/s (tc tbf)");
    assert_eq!(
        limit_interface("eth0", 512, Err("Operation not permitted".to_string())).message,
        "Failed to shape eth0: Operation not permitted (tc qdisc changes need CAP_NET_ADMIN — usually root)"
    );
    assert_eq!(clear_interface_limit("eth0", Ok(String::new())).message, "Removed bandwidth limit on eth0");
    assert!(!clear_interface_limit("eth0", Err("x".to_string())).ok);
}

#[test]
fn blocking_a_cgroup() {
    assert_eq!(
        process_cgroup_path(3, Ok("0::/user.slice/app.scope\n".to_string())),
        Ok("/user.slice/app.scope".to_string())
    );
    assert_eq!(cgroup_level("/user.slice/app.scope"), 2);
    assert_eq!(cgroup_level("/"), 0);
    assert_eq!(cgroup_level("//a//b/"), 2);
    let r = block_process_network("/user.slice/app.scope", 2, Ok(String::new()));
    assert!(r.ok);
    assert_eq!(
        r.message,
        "Blocked outbound traffic for cgroup /user.slice/app.scope (nft rule: socket cgroupv2 level 2 \"/user.slice/app.scope\" drop)"
    );
    assert_eq!(
        block_process_network("/a", 1, Err("denied".to_string())).message,
        "Failed to add nft rule: denied (needs root/CAP_NET_ADMIN)"
    );
    assert_eq!(block_prepare_failed("no nft").message, "Failed to prepare nft table: no nft (needs root/CAP_NET_ADMIN)");
    assert_eq!(unblock_all_network(Ok(String::new())).message, "Removed all Trace network blocks");
    assert_eq!(unblock_all_network(Err("e".to_string())).message, "Failed to clear nft table: e");
}
