use trace::control_process::{
    cpu_max_value, freeze, into_result, kill, kill_signal, memory_max_value, oom_score, oom_score_value,
    priority_nice, proc_file, process_cgroup_path, resume, set_affinity, set_cpu_limit, set_memory_limit,
    set_oom_score_adj, set_priority,
};

#[test]
fn signal_messages() {
    let r = freeze(42, Ok(()));
    assert!(r.ok);
    assert_eq!(r.message, "Froze PID 42 (SIGSTOP)");
    let r = freeze(42, Err("No such process (os error 3)".to_string()));
    assert!(!r.ok);
    assert_eq!(r.message, "Failed to freeze PID 42: No such process (os error 3)");
    assert_eq!(resume(7, Ok(())).message, "Resumed PID 7 (SIGCONT)");
    assert_eq!(resume(7, Err("e".to_string())).message, "Failed to resume PID 7: e");
    assert_eq!(kill(5, true, Ok(())).message, "Sent SIGKILL to PID 5");
    assert_eq!(kill(5, false, Ok(())).message, "Sent SIGTERM to PID 5");
    assert_eq!(kill(5, false, Err("x".to_string())).message, "Failed to signal PID 5: x");
    assert_eq!(kill_signal(true), "SIGKILL");
    assert_eq!(kill_signal(false), "SIGTERM");
}

#[test]
fn priority_is_clamped() {
    assert_eq!(priority_nice(-50), -20);
    assert_eq!(priority_nice(30), 19);
    assert_eq!(priority_nice(10), 10);
    assert_eq!(set_priority(3, -5, Ok(())).message, "Set PID 3 priority (nice) to -5");
    assert_eq!(
        set_priority(3, -20, Err("Permission denied".to_string())).message,
        "Failed to set priority for PID 3: Permission denied (raising priority usually needs root)"
    );
}

#[test]
fn affinity_lists_cores() {
    assert_eq!(set_affinity(8, &vec![0, 2, 3], Ok(())).message, "Pinned PID 8 to cores [0, 2, 3]");
    assert_eq!(set_affinity(8, &vec![], Ok(())).message, "Pinned PID 8 to cores []");
    assert_eq!(set_affinity(8, &vec![5], Ok(())).message, "Pinned PID 8 to cores [5]");
    assert_eq!(set_affinity(8, &vec![1], Err("bad".to_string())).message, "Failed to set affinity for PID 8: bad");
}

#[test]
fn cgroup_path_from_proc() {
    assert_eq!(proc_file(12, "cgroup"), "/proc/12/cgroup");
    let p = process_cgroup_path(12, Ok("0::/user.slice/app.scope\n".to_string()));
    assert_eq!(p, Ok("/sys/fs/cgroup/user.slice/app.scope".to_string()));
    let p = process_cgroup_path(12, Ok("12:cpu:/x\n1:name=systemd:/y\n0::/z\n".to_string()));
    assert_eq!(p, Ok("/sys/fs/cgroup/z".to_string()));
    let p = process_cgroup_path(12, Ok("12:cpu:/x\n".to_string()));
    assert_eq!(p, Err("Process is not on the unified (v2) cgroup hierarchy".to_string()));
    let p = process_cgroup_path(12, Err("No such file".to_string()));
    assert_eq!(p, Err("Cannot read /proc/12/cgroup: No such file".to_string()));
}

#[test]
fn cpu_quota_formula() {
    assert_eq!(cpu_max_value(50), "50000 100000");
    assert_eq!(cpu_max_value(0), "1000 100000");
    assert_eq!(cpu_max_value(1), "1000 100000");
    assert_eq!(cpu_max_value(250), "250000 100000");
    assert_eq!(
        set_cpu_limit(4, 50, "/sys/fs/cgroup/a", Ok(())).message,
        "Limited PID 4's cgroup to 50% CPU (/sys/fs/cgroup/a/cpu.max)"
    );
    assert_eq!(
        set_cpu_limit(4, 50, "/sys/fs/cgroup/a", Err("Permission denied".to_string())).message,
        "Failed to write cpu.max at /sys/fs/cgroup/a: Permission denied (this cgroup may not be user-writable — often needs root or systemd delegation)"
    );
}

#[test]
fn memory_limit_in_bytes() {
    assert_eq!(memory_max_value(2), "2097152");
    assert_eq!(memory_max_value(0), "0");
    assert_eq!(
        set_memory_limit(4, 512, "/c", Ok(())).message,
        "Limited PID 4's cgroup to 512 MB (/c/memory.max)"
    );
    assert!(!set_memory_limit(4, 512, "/c", Err("e".to_string())).ok);
}

#[test]
fn oom_score_is_clamped() {
    assert_eq!(oom_score(-5000), -1000);
    assert_eq!(oom_score(5000), 1000);
    assert_eq!(oom_score(-3), -3);
    assert_eq!(oom_score_value(-1000), "-1000");
    assert_eq!(set_oom_score_adj(9, 500, Ok(())).message, "Set PID 9 oom_score_adj to 500");
    assert_eq!(set_oom_score_adj(9, 500, Err("e".to_string())).message, "Failed to set oom_score_adj for PID 9: e");
}

#[test]
fn results_convert_for_profiles() {
    assert_eq!(into_result(freeze(1, Ok(()))), Ok("Froze PID 1 (SIGSTOP)".to_string()));
    assert_eq!(into_result(resume(1, Err("e".to_string()))), Err("Failed to resume PID 1: e".to_string()));
}
