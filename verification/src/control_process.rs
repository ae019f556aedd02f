use vstd::prelude::*;
use crate::scan::{first_with_prefix, first_with_prefix_exec, lines, lines_exec};
use vstd::string::*;
use crate::text::{chars_of, decimal, push_chars, push_i64, push_str, push_u64, signed_decimal};

verus! {

/// The outcome of a control action, as shown to the user and written to the audit log.
#[derive(Clone, Debug)]
pub struct ActionResult {
    pub ok: bool,
    pub message: String,
}

/// A successful outcome with the given message.
pub fn ok(msg: String) -> (r: ActionResult)
    ensures
        r.ok,
        r.message@ == msg@,
{
    ActionResult { ok: true, message: msg }
}

/// A failed outcome with the given message.
pub fn err(msg: String) -> (r: ActionResult)
    ensures
        !r.ok,
        r.message@ == msg@,
{
    ActionResult { ok: false, message: msg }
}

/// The outcome of stopping a process with SIGSTOP, given whether the signal was delivered.
pub fn freeze(pid: u32, sent: Result<(), String>) -> (r: ActionResult)
    ensures
        r.ok == sent is Ok,
        r.message@ == (match sent {
            Ok(_) => "Froze PID "@ + decimal(pid as nat) + " (SIGSTOP)"@,
            Err(e) => "Failed to freeze PID "@ + decimal(pid as nat) + ": "@ + e@,
        }),
{
    let mut m = String::new();
    match sent {
        Ok(()) => {
            push_str(&mut m, "Froze PID ");
            push_u64(&mut m, pid as u64);
            push_str(&mut m, " (SIGSTOP)");
            ok(m)
        },
        Err(e) => {
            push_str(&mut m, "Failed to freeze PID ");
            push_u64(&mut m, pid as u64);
            push_str(&mut m, ": ");
            push_str(&mut m, e.as_str());
            err(m)
        },
    }
}

/// The outcome of continuing a process with SIGCONT, given whether the signal was delivered.
pub fn resume(pid: u32, sent: Result<(), String>) -> (r: ActionResult)
    ensures
        r.ok == sent is Ok,
        r.message@ == (match sent {
            Ok(_) => "Resumed PID "@ + decimal(pid as nat) + " (SIGCONT)"@,
            Err(e) => "Failed to resume PID "@ + decimal(pid as nat) + ": "@ + e@,
        }),
{
    let mut m = String::new();
    match sent {
        Ok(()) => {
            push_str(&mut m, "Resumed PID ");
            push_u64(&mut m, pid as u64);
            push_str(&mut m, " (SIGCONT)");
            ok(m)
        },
        Err(e) => {
            push_str(&mut m, "Failed to resume PID ");
            push_u64(&mut m, pid as u64);
            push_str(&mut m, ": ");
            push_str(&mut m, e.as_str());
            err(m)
        },
    }
}

/// The signal a kill sends: SIGKILL when forced, SIGTERM otherwise.
pub open spec fn kill_signal_spec(force: bool) -> Seq<char> {
    if force { "SIGKILL"@ } else { "SIGTERM"@ }
}

/// The name of the signal a kill sends.
pub fn kill_signal(force: bool) -> (r: &'static str)
    ensures
        r@ == kill_signal_spec(force),
{
    if force { "SIGKILL" } else { "SIGTERM" }
}

/// The outcome of signalling a process to end, given whether the signal was delivered.
pub fn kill(pid: u32, force: bool, sent: Result<(), String>) -> (r: ActionResult)
    ensures
        r.ok == sent is Ok,
        r.message@ == (match sent {
            Ok(_) => "Sent "@ + kill_signal_spec(force) + " to PID "@ + decimal(pid as nat),
            Err(e) => "Failed to signal PID "@ + decimal(pid as nat) + ": "@ + e@,
        }),
{
    let mut m = String::new();
    match sent {
        Ok(()) => {
            push_str(&mut m, "Sent ");
            push_str(&mut m, kill_signal(force));
            push_str(&mut m, " to PID ");
            push_u64(&mut m, pid as u64);
            ok(m)
        },
        Err(e) => {
            push_str(&mut m, "Failed to signal PID ");
            push_u64(&mut m, pid as u64);
            push_str(&mut m, ": ");
            push_str(&mut m, e.as_str());
            err(m)
        },
    }
}

/// `x` limited to `[lo, hi]`.
pub open spec fn clamp(x: int, lo: int, hi: int) -> int {
    if x < lo { lo } else if x > hi { hi } else { x }
}

/// The nice value actually requested: the given one limited to `[-20, 19]`.
pub fn priority_nice(nice: i32) -> (r: i32)
    ensures
        r == clamp(nice as int, -20, 19),
{
    if nice < -20 { -20 } else if nice > 19 { 19 } else { nice }
}

/// The outcome of setting a process's nice value to `clamped`, given whether the call succeeded.
pub fn set_priority(pid: u32, clamped: i32, set: Result<(), String>) -> (r: ActionResult)
    ensures
        r.ok == set is Ok,
        r.message@ == (match set {
            Ok(_) => "Set PID "@ + decimal(pid as nat) + " priority (nice) to "@ + signed_decimal(clamped as int),
            Err(e) => "Failed to set priority for PID "@ + decimal(pid as nat) + ": "@ + e@
                + " (raising priority usually needs root)"@,
        }),
{
    let mut m = String::new();
    match set {
        Ok(()) => {
            push_str(&mut m, "Set PID ");
            push_u64(&mut m, pid as u64);
            push_str(&mut m, " priority (nice) to ");
            push_i64(&mut m, clamped as i64);
            ok(m)
        },
        Err(e) => {
            push_str(&mut m, "Failed to set priority for PID ");
            push_u64(&mut m, pid as u64);
            push_str(&mut m, ": ");
            push_str(&mut m, e.as_str());
            push_str(&mut m, " (raising priority usually needs root)");
            err(m)
        },
    }
}

/// The debug rendering of a list of core numbers, such as "[0, 2, 3]".
pub open spec fn list_debug(items: Seq<usize>) -> Seq<char>
    decreases items.len(),
{
    if items.len() == 0 {
        "[]"@
    } else {
        list_debug_inner(items) + "]"@
    }
}

/// "[" and the items joined by ", ".
pub open spec fn list_debug_inner(items: Seq<usize>) -> Seq<char>
    decreases items.len(),
{
    if items.len() == 0 {
        "["@
    } else if items.len() == 1 {
        "["@ + decimal(items[0] as nat)
    } else {
        list_debug_inner(items.drop_last()) + ", "@ + decimal(items.last() as nat)
    }
}

fn push_list_debug(m: &mut String, items: &Vec<usize>)
    ensures
        final(m)@ == old(m)@ + list_debug(items@),
{
    if items.len() == 0 {
        push_str(m, "[]");
        return;
    }
    let ghost start = m@;
    push_str(m, "[");
    push_u64(m, items[0] as u64);
    assert(items@.take(1).drop_last() =~= Seq::<usize>::empty());
    assert(m@ == start + list_debug_inner(items@.take(1)));
    let n = items.len();
    for i in 1..n
        invariant
            n == items@.len(),
            n >= 1,
            m@ == start + list_debug_inner(items@.take(i as int)),
    {
        push_str(m, ", ");
        push_u64(m, items[i] as u64);
        assert(items@.take(i + 1).drop_last() =~= items@.take(i as int));
        assert(m@ =~= start + list_debug_inner(items@.take(i + 1)));
    }
    assert(items@.take(n as int) =~= items@);
    push_str(m, "]");
}

/// The outcome of pinning a process to the given cores, given whether the call succeeded.
pub fn set_affinity(pid: u32, cores: &Vec<usize>, set: Result<(), String>) -> (r: ActionResult)
    ensures
        r.ok == set is Ok,
        r.message@ == (match set {
            Ok(_) => "Pinned PID "@ + decimal(pid as nat) + " to cores "@ + list_debug(cores@),
            Err(e) => "Failed to set affinity for PID "@ + decimal(pid as nat) + ": "@ + e@,
        }),
{
    let mut m = String::new();
    match set {
        Ok(()) => {
            push_str(&mut m, "Pinned PID ");
            push_u64(&mut m, pid as u64);
            push_str(&mut m, " to cores ");
            push_list_debug(&mut m, cores);
            ok(m)
        },
        Err(e) => {
            push_str(&mut m, "Failed to set affinity for PID ");
            push_u64(&mut m, pid as u64);
            push_str(&mut m, ": ");
            push_str(&mut m, e.as_str());
            err(m)
        },
    }
}

} // verus!

verus! {

/// The path of a file under a process's `/proc` directory.
pub fn proc_file(pid: u32, name: &str) -> (r: String)
    ensures
        r@ == "/proc/"@ + decimal(pid as nat) + "/"@ + name@,
{
    let mut r = String::new();
    push_str(&mut r, "/proc/");
    push_u64(&mut r, pid as u64);
    push_str(&mut r, "/");
    push_str(&mut r, name);
    r
}

/// The cgroup v2 path in a `/proc/<pid>/cgroup` listing: the rest of the
/// first line that starts with "0::".
pub open spec fn cgroup_v2_path(text: Seq<char>) -> Option<Seq<char>> {
    first_with_prefix(lines(text), "0::"@)
}

/// The relative cgroup v2 path in a `/proc/<pid>/cgroup` listing.
pub fn cgroup_v2_path_exec(text: &str) -> (r: Option<Vec<char>>)
    ensures
        match r {
            Some(x) => cgroup_v2_path(text@) == Some(x@),
            None => cgroup_v2_path(text@) is None,
        },
{
    let ls = lines_exec(&chars_of(text));
    first_with_prefix_exec(&ls, &chars_of("0::"))
}

/// The directory under /sys/fs/cgroup that a process belongs to, from the
/// outcome of reading its `/proc/<pid>/cgroup` file.
pub fn process_cgroup_path(pid: u32, read: Result<String, String>) -> (r: Result<String, String>)
    ensures
        match read {
            Err(e) => r matches Err(m) && m@ == "Cannot read /proc/"@ + decimal(pid as nat) + "/cgroup: "@ + e@,
            Ok(text) => match cgroup_v2_path(text@) {
                Some(rest) => r matches Ok(p) && p@ == "/sys/fs/cgroup"@ + rest,
                None => r matches Err(m) && m@ == "Process is not on the unified (v2) cgroup hierarchy"@,
            },
        },
{
    match read {
        Err(e) => {
            let mut m = String::new();
            push_str(&mut m, "Cannot read /proc/");
            push_u64(&mut m, pid as u64);
            push_str(&mut m, "/cgroup: ");
            push_str(&mut m, e.as_str());
            Err(m)
        },
        Ok(text) => match cgroup_v2_path_exec(text.as_str()) {
            Some(rest) => {
                let mut p = String::new();
                push_str(&mut p, "/sys/fs/cgroup");
                push_chars(&mut p, &rest);
                Ok(p)
            },
            None => Err(String::from_str("Process is not on the unified (v2) cgroup hierarchy")),
        },
    }
}

/// The CPU quota, in microseconds per 100 ms period, for a limit of
/// `percent`% of one core: at least 1000, kept to its low 32 bits.
pub open spec fn cpu_quota(percent: u32) -> int {
    let q = if 1000 * percent >= 1000 { 1000 * percent } else { 1000 };
    q % 0x1_0000_0000
}

/// The line written to `cpu.max`: "<quota> <period>".
pub fn cpu_max_value(percent: u32) -> (r: String)
    ensures
        r@ == decimal(cpu_quota(percent) as nat) + " 100000"@,
{
    let period: u64 = 100_000;
    let raw: u64 = period * percent as u64 / 100;
    let q: u64 = if raw > 1000 { raw } else { 1000 };
    let quota: u32 = (q % 0x1_0000_0000) as u32;
    assert(raw == 1000 * percent);
    let mut r = String::new();
    push_u64(&mut r, quota as u64);
    push_str(&mut r, " 100000");
    r
}

/// The outcome of writing a CPU limit into the cgroup directory `path`.
pub fn set_cpu_limit(pid: u32, percent: u32, path: &str, write: Result<(), String>) -> (r: ActionResult)
    ensures
        r.ok == write is Ok,
        r.message@ == (match write {
            Ok(_) => "Limited PID "@ + decimal(pid as nat) + "'s cgroup to "@ + decimal(percent as nat)
                + "% CPU ("@ + path@ + "/cpu.max)"@,
            Err(e) => "Failed to write cpu.max at "@ + path@ + ": "@ + e@
                + " (this cgroup may not be user-writable — often needs root or systemd delegation)"@,
        }),
{
    let mut m = String::new();
    match write {
        Ok(()) => {
            push_str(&mut m, "Limited PID ");
            push_u64(&mut m, pid as u64);
            push_str(&mut m, "'s cgroup to ");
            push_u64(&mut m, percent as u64);
            push_str(&mut m, "% CPU (");
            push_str(&mut m, path);
            push_str(&mut m, "/cpu.max)");
            ok(m)
        },
        Err(e) => {
            push_str(&mut m, "Failed to write cpu.max at ");
            push_str(&mut m, path);
            push_str(&mut m, ": ");
            push_str(&mut m, e.as_str());
            push_str(&mut m, " (this cgroup may not be user-writable — often needs root or systemd delegation)");
            err(m)
        },
    }
}

/// The value written to `memory.max` for a limit of `mb` megabytes: the limit in bytes.
pub fn memory_max_value(mb: u64) -> (r: String)
    requires
        mb * 1024 * 1024 <= u64::MAX,
    ensures
        r@ == decimal((mb * 1024 * 1024) as nat),
{
    let mut r = String::new();
    push_u64(&mut r, mb * 1024 * 1024);
    r
}

/// The outcome of writing a memory limit into the cgroup directory `path`.
pub fn set_memory_limit(pid: u32, mb: u64, path: &str, write: Result<(), String>) -> (r: ActionResult)
    ensures
        r.ok == write is Ok,
        r.message@ == (match write {
            Ok(_) => "Limited PID "@ + decimal(pid as nat) + "'s cgroup to "@ + decimal(mb as nat)
                + " MB ("@ + path@ + "/memory.max)"@,
            Err(e) => "Failed to write memory.max at "@ + path@ + ": "@ + e@
                + " (this cgroup may not be user-writable — often needs root or systemd delegation)"@,
        }),
{
    let mut m = String::new();
    match write {
        Ok(()) => {
            push_str(&mut m, "Limited PID ");
            push_u64(&mut m, pid as u64);
            push_str(&mut m, "'s cgroup to ");
            push_u64(&mut m, mb);
            push_str(&mut m, " MB (");
            push_str(&mut m, path);
            push_str(&mut m, "/memory.max)");
            ok(m)
        },
        Err(e) => {
            push_str(&mut m, "Failed to write memory.max at ");
            push_str(&mut m, path);
            push_str(&mut m, ": ");
            push_str(&mut m, e.as_str());
            push_str(&mut m, " (this cgroup may not be user-writable — often needs root or systemd delegation)");
            err(m)
        },
    }
}

/// The OOM score adjustment actually written: the given one limited to `[-1000, 1000]`.
pub fn oom_score(score: i32) -> (r: i32)
    ensures
        r == clamp(score as int, -1000, 1000),
{
    if score < -1000 { -1000 } else if score > 1000 { 1000 } else { score }
}

/// The text written to `oom_score_adj`.
pub fn oom_score_value(clamped: i32) -> (r: String)
    ensures
        r@ == signed_decimal(clamped as int),
{
    let mut r = String::new();
    push_i64(&mut r, clamped as i64);
    assert(r@ =~= signed_decimal(clamped as int));
    r
}

/// The outcome of writing an OOM score adjustment of `clamped`.
pub fn set_oom_score_adj(pid: u32, clamped: i32, write: Result<(), String>) -> (r: ActionResult)
    ensures
        r.ok == write is Ok,
        r.message@ == (match write {
            Ok(_) => "Set PID "@ + decimal(pid as nat) + " oom_score_adj to "@ + signed_decimal(clamped as int),
            Err(e) => "Failed to set oom_score_adj for PID "@ + decimal(pid as nat) + ": "@ + e@,
        }),
{
    let mut m = String::new();
    match write {
        Ok(()) => {
            push_str(&mut m, "Set PID ");
            push_u64(&mut m, pid as u64);
            push_str(&mut m, " oom_score_adj to ");
            push_i64(&mut m, clamped as i64);
            ok(m)
        },
        Err(e) => {
            push_str(&mut m, "Failed to set oom_score_adj for PID ");
            push_u64(&mut m, pid as u64);
            push_str(&mut m, ": ");
            push_str(&mut m, e.as_str());
            err(m)
        },
    }
}

} // verus!

verus! {

/// An action's outcome as the `Result` a profile step reports.
pub fn into_result(r: ActionResult) -> (res: Result<String, String>)
    ensures
        r.ok ==> (res matches Ok(m) && m@ == r.message@),
        !r.ok ==> (res matches Err(m) && m@ == r.message@),
{
    if r.ok { Ok(r.message) } else { Err(r.message) }
}

} // verus!
