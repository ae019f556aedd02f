use trace::command::output_result;
use trace::gpu_control::{
    check_clock_range, clock_range_arg, parse_clock, persistence_flag, reset_gpu_clock_lock, set_gpu_clock_lock,
    set_persistence_mode, set_power_limit, smi_unavailable,
};
use trace::monitor::pid_of_entry;

#[test]
fn persistence_flag_is_one_or_zero() {
    assert_eq!(persistence_flag(true), "1");
    assert_eq!(persistence_flag(false), "0");
}

#[test]
fn smi_unavailable_names_the_tool() {
    assert_eq!(smi_unavailable("No such file"), "nvidia-smi not available: No such file");
}

#[test]
fn persistence_mode_messages() {
    assert_eq!(set_persistence_mode(true, true, ""), Ok("Persistence mode enabled".to_string()));
    assert_eq!(set_persistence_mode(false, true, ""), Ok("Persistence mode disabled".to_string()));
    assert_eq!(
        set_persistence_mode(true, false, "denied"),
        Err("nvidia-smi -pm 1 failed: denied (usually requires root)".to_string())
    );
}

#[test]
fn power_limit_messages() {
    assert_eq!(set_power_limit(250, true, ""), Ok("GPU power limit set to 250W".to_string()));
    assert_eq!(
        set_power_limit(9, false, "out of range"),
        Err("nvidia-smi -pl 9 failed: out of range (usually requires root, and must be within the card's supported range)"
            .to_string())
    );
}

#[test]
fn clock_range_is_checked_before_locking() {
    assert_eq!(clock_range_arg(300, 1800), "300,1800");
    assert_eq!(check_clock_range(300, 1800), Ok(()));
    assert_eq!(check_clock_range(1800, 1800), Ok(()));
    assert_eq!(check_clock_range(1801, 1800), Err("min clock must be <= max clock".to_string()));
}

#[test]
fn clock_lock_reports_the_applied_clock() {
    assert_eq!(
        set_gpu_clock_lock(300, 1800, true, "", Some(1750)),
        Ok("Locked GPU clock to [300, 1800] MHz (driver reports applications clock now 1750 MHz)".to_string())
    );
    assert_eq!(
        set_gpu_clock_lock(300, 1800, true, "", None),
        Ok("Locked GPU clock to [300, 1800] MHz (could not read back applied value to confirm)".to_string())
    );
    assert_eq!(
        set_gpu_clock_lock(300, 1800, false, "nope", None),
        Err("nvidia-smi -lgc 300,1800 failed: nope (usually requires root, and the range must be within clocks.max.graphics)"
            .to_string())
    );
}

#[test]
fn clock_reset_messages() {
    assert_eq!(reset_gpu_clock_lock(true, ""), Ok("GPU clock lock reset to driver defaults".to_string()));
    assert_eq!(reset_gpu_clock_lock(false, "x"), Err("nvidia-smi -rgc failed: x (usually requires root)".to_string()));
}

#[test]
fn parse_clock_reads_a_trimmed_number() {
    assert_eq!(parse_clock(" 1750\n"), Some(1750));
    assert_eq!(parse_clock("+42"), Some(42));
    assert_eq!(parse_clock("N/A"), None);
    assert_eq!(parse_clock(""), None);
    assert_eq!(parse_clock("4294967296"), None);
}

#[test]
fn output_result_trims_as_asked() {
    assert_eq!(output_result(true, "  out \n", "err", true), Ok("out".to_string()));
    assert_eq!(output_result(true, "  out \n", "err", false), Ok("  out \n".to_string()));
    assert_eq!(output_result(false, "out", "  bad thing\n", true), Err("bad thing".to_string()));
    assert_eq!(output_result(false, "out", "  bad thing\n", false), Err("bad thing".to_string()));
}

#[test]
fn proc_entries_that_are_pids() {
    assert_eq!(pid_of_entry("1234"), Some(1234));
    assert_eq!(pid_of_entry("self"), None);
    assert_eq!(pid_of_entry(""), None);
    assert_eq!(pid_of_entry("4294967295"), Some(u32::MAX));
    assert_eq!(pid_of_entry("4294967296"), None);
    assert_eq!(pid_of_entry("12a"), None);
}

#[test]
fn inverted_clock_range_is_refused_whatever_the_tool_said() {
    let refused = Err("min clock must be <= max clock".to_string());
    assert_eq!(set_gpu_clock_lock(5, 3, true, "", None), refused);
    assert_eq!(set_gpu_clock_lock(5, 3, false, "boom", Some(4)), refused);
}
