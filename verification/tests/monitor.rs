use std::collections::VecDeque;
use trace::db::{ok_column, ok_from_column, EventRow};
use trace::monitor::{
    battery_info, diagnose_slowness, disk_used_bytes, has_traffic, is_amd_vendor, is_gpu_card, mib_to_bytes, millidegrees,
    net_dev_counters, nothing_on_port, nvidia_fields, port_kill_summary, port_owner, position_of, record_clipboard,
    sensor_label, swap_activated, sysfs_u64, temp_label_file, top_by_memory, NetCounters,
};
use trace::namespace_control::{group_namespaces, ns_inode, ns_type, NsMember};

fn ev(t: &str) -> EventRow {
    EventRow { ts: 1, event_type: t.to_string(), severity: "warn".to_string(), message: String::new() }
}

#[test]
fn diagnosis_ranks_memory_pressure_first() {
    let d = diagnose_slowness(vec![ev("ram_increase"), ev("swap_activated"), ev("ram_increase"), ev("cpu_high"), ev("cpu_high")]);
    assert_eq!(d.cause, "Memory pressure → swapping");
    assert_eq!(d.confidence, "HIGH");
    assert_eq!(
        d.evidence,
        vec![
            "RAM increased in 2 interval(s)",
            "Swap usage activated after RAM growth",
            "Disk I/O and responsiveness typically drop once swapping starts"
        ]
    );
    assert_eq!(d.events.len(), 5);
}

#[test]
fn diagnosis_other_causes() {
    let d = diagnose_slowness(vec![ev("swap_activated")]);
    assert_eq!((d.cause.as_str(), d.confidence.as_str()), ("Swap activated — memory is under pressure", "MEDIUM"));
    let d = diagnose_slowness(vec![ev("cpu_high"), ev("load_high"), ev("cpu_high"), ev("cpu_high")]);
    assert_eq!(d.cause, "Sustained high CPU usage");
    assert_eq!(d.evidence, vec!["CPU crossed 90% 3 times in the last hour"]);
    let d = diagnose_slowness(vec![ev("cpu_high"), ev("load_high")]);
    assert_eq!(d.cause, "Load average exceeded available cores");
    let d = diagnose_slowness(vec![ev("ram_increase"), ev("disk_growth")]);
    assert_eq!(d.cause, "Memory usage rising but no swap yet");
    assert_eq!(d.confidence, "LOW");
    assert_eq!(d.evidence, vec!["RAM grew in 1 interval(s), no swap triggered"]);
    let d = diagnose_slowness(vec![]);
    assert_eq!(d.cause, "No clear performance incident detected in the last hour");
    assert_eq!(d.evidence, vec!["Resource usage has stayed within normal bounds"]);
}

#[test]
fn clipboard_history_rules() {
    let mut h: VecDeque<String> = VecDeque::new();
    record_clipboard(&mut h, "  hello \n");
    record_clipboard(&mut h, "hello");
    record_clipboard(&mut h, "   ");
    record_clipboard(&mut h, "world");
    assert_eq!(h, VecDeque::from(vec!["world".to_string(), "hello".to_string()]));
    record_clipboard(&mut h, &"x".repeat(20_001));
    assert_eq!(h.len(), 2);
    record_clipboard(&mut h, &"é".repeat(10_001));
    assert_eq!(h.len(), 2);
    for i in 0..60 {
        record_clipboard(&mut h, &format!("item {i}"));
    }
    assert_eq!(h.len(), 50);
    assert_eq!(h[0], "item 59");
    assert_eq!(h[49], "item 10");
}

#[test]
fn port_owners_and_kills() {
    let a = port_owner(10, "nginx".to_string(), 8080);
    assert_eq!(a.local_address, "port 8080");
    let b = port_owner(11, "node".to_string(), 8080);
    let ok = trace::control_process::kill(10, false, Ok(()));
    let bad = trace::control_process::kill(11, false, Err("denied".to_string()));
    let r = port_kill_summary(&vec![a, b], &vec![ok, bad]);
    assert!(!r.ok);
    assert_eq!(r.message, "nginx (PID 10): Sent SIGTERM to PID 10; node (PID 11): Failed to signal PID 11: denied");
    let none = nothing_on_port(9);
    assert!(!none.ok);
    assert_eq!(none.message, "Nothing is listening on port 9");
}

#[test]
fn battery_and_disks() {
    let b = battery_info(Some("87\n".to_string()), Some("Discharging\n".to_string())).unwrap();
    assert_eq!(b.percent, 87);
    assert_eq!(b.status, "Discharging");
    assert!(battery_info(Some("300".to_string()), None).is_none());
    assert!(battery_info(None, Some("Full".to_string())).is_none());
    assert_eq!(battery_info(Some("5".to_string()), None).unwrap().status, "");
    assert_eq!(disk_used_bytes(100, 40), 60);
}

#[test]
fn proc_and_sys_counters() {
    let dev = "Inter-|   Receive\n face |bytes    packets\n    lo: 100 1 0 0 0 0 0 0 100 1 0 0 0 0 0 0\n  eth0: 2000 20 0 0 0 0 0 0 3000 30 0 0 0 0 0 0\n wlan0: 5 1 0\n";
    let c = net_dev_counters(dev);
    assert_eq!(c.len(), 1);
    assert_eq!(c[0].interface, "eth0");
    assert_eq!(c[0].rx_bytes, 2000);
    assert_eq!(c[0].tx_bytes, 3000);
    assert!(is_gpu_card("card0"));
    assert!(!is_gpu_card("card0-DP-1"));
    assert!(!is_gpu_card("renderD128"));
    assert!(is_amd_vendor("0x1002\n"));
    assert!(!is_amd_vendor("0x10de\n"));
    assert_eq!(sysfs_u64(Some(" 1024\n".to_string())), 1024);
    assert_eq!(sysfs_u64(Some("n/a".to_string())), 0);
    assert_eq!(sysfs_u64(None), 0);
}

#[test]
fn gpu_and_temperature_fields() {
    let f = nvidia_fields("NVIDIA GeForce RTX 3060, 12, 1024, 12288, 45, 30.5").unwrap();
    assert_eq!(f, vec!["NVIDIA GeForce RTX 3060", "12", "1024", "12288", "45", "30.5"]);
    assert!(nvidia_fields("a, b").is_none());
    assert_eq!(mib_to_bytes("1024"), 1024 * 1024 * 1024);
    assert_eq!(mib_to_bytes("[N/A]"), 0);
    assert_eq!(temp_label_file("temp1_input"), Some("temp1_label".to_string()));
    assert_eq!(temp_label_file("fan1_input"), None);
    assert_eq!(temp_label_file("temp1_max"), None);
    assert_eq!(millidegrees("45000\n"), Some(45000));
    assert_eq!(millidegrees("-5"), Some(-5));
    assert_eq!(millidegrees("hot"), None);
    assert_eq!(sensor_label("coretemp", "Core 0"), "coretemp Core 0");
}

#[test]
fn snapshot_helpers() {
    assert_eq!(top_by_memory(&vec![10, 50, 20, 50, 5], 3), vec![1, 3, 2]);
    assert_eq!(top_by_memory(&vec![1, 2], 15), vec![1, 0]);
    let keys = vec!["/".to_string(), "/home".to_string(), "/home".to_string()];
    assert_eq!(position_of(&keys, "/home"), Some(1));
    assert_eq!(position_of(&keys, "/boot"), None);
    assert!(swap_activated(0, 1));
    assert!(!swap_activated(1, 2));
    assert!(!swap_activated(0, 0));
    assert_eq!(ok_column(true), 1);
    assert_eq!(ok_column(false), 0);
    assert!(ok_from_column(ok_column(true)));
    assert!(!ok_from_column(ok_column(false)));
}

fn member(pid: u32, t: &str, i: &str) -> NsMember {
    NsMember { pid, ns_type: t.to_string(), inode: i.to_string() }
}

#[test]
fn namespaces_grouped_and_ordered() {
    assert_eq!(ns_type(0), "net");
    assert_eq!(ns_type(6), "cgroup");
    assert_eq!(ns_inode("net", "net:[4026531840]"), Some("4026531840".to_string()));
    assert_eq!(ns_inode("net", "pid:[4026531840]"), None);
    let members = vec![
        member(10, "net", "A"),
        member(5, "net", "A"),
        member(10, "pid", "B"),
        member(10, "net", "A"),
        member(7, "net", "C"),
    ];
    let table = vec![(5, "sshd".to_string()), (10, "bash".to_string())];
    let groups = group_namespaces(&members, &table);
    let got: Vec<(&str, &str, Vec<u32>, Vec<&str>)> = groups
        .iter()
        .map(|g| (g.ns_type.as_str(), g.inode.as_str(), g.pids.clone(), g.process_names.iter().map(|s| s.as_str()).collect()))
        .collect();
    assert_eq!(
        got,
        vec![
            ("net", "C", vec![7], vec!["?"]),
            ("net", "A", vec![5, 10], vec!["sshd", "bash"]),
            ("pid", "B", vec![10], vec!["bash"]),
        ]
    );
}

#[test]
fn no_members_no_namespace_groups() {
    assert!(group_namespaces(&Vec::new(), &vec![(1, "init".to_string())]).is_empty());
    let members = vec![NsMember { pid: 9, ns_type: "uts".to_string(), inode: "4026531838".to_string() }];
    let groups = group_namespaces(&members, &Vec::new());
    assert_eq!(groups.len(), 1);
    assert_eq!(groups[0].pids, vec![9]);
    assert_eq!(groups[0].process_names, vec!["?".to_string()]);
}

#[test]
fn idle_interfaces_have_no_traffic() {
    let c = |rx, tx| NetCounters { interface: "eth0".to_string(), rx_bytes: rx, tx_bytes: tx };
    assert!(!has_traffic(&c(0, 0)));
    assert!(has_traffic(&c(1, 0)));
    assert!(has_traffic(&c(0, 7)));
}
