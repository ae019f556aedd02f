use vstd::prelude::*;
use crate::scan::{parse_unsigned, parse_unsigned_exec, trim, trim_exec};
use crate::text::{chars_of, decimal, push_str, push_u64};
use vstd::string::*;

verus! {

/// The `nvidia-smi -pm` flag for a persistence mode.
pub fn persistence_flag(enabled: bool) -> (r: &'static str)
    ensures
        r@ == (if enabled { "1"@ } else { "0"@ }),
{
    if enabled { "1" } else { "0" }
}

/// The error when `nvidia-smi` could not be started.
pub fn smi_unavailable(e: &str) -> (r: String)
    ensures
        r@ == "nvidia-smi not available: "@ + e@,
{
    let mut m = String::new();
    push_str(&mut m, "nvidia-smi not available: ");
    push_str(&mut m, e);
    m
}

/// What switching persistence mode reports, given whether `nvidia-smi` succeeded and its error output.
pub fn set_persistence_mode(enabled: bool, success: bool, stderr: &str) -> (r: Result<String, String>)
    ensures
        success ==> (r matches Ok(m) && m@ == "Persistence mode "@ + (if enabled { "enabled"@ } else { "disabled"@ })),
        !success ==> (r matches Err(m) && m@ == "nvidia-smi -pm "@ + (if enabled { "1"@ } else { "0"@ }) + " failed: "@
            + stderr@ + " (usually requires root)"@),
{
    let mut m = String::new();
    if success {
        push_str(&mut m, "Persistence mode ");
        push_str(&mut m, if enabled { "enabled" } else { "disabled" });
        Ok(m)
    } else {
        push_str(&mut m, "nvidia-smi -pm ");
        push_str(&mut m, persistence_flag(enabled));
        push_str(&mut m, " failed: ");
        push_str(&mut m, stderr);
        push_str(&mut m, " (usually requires root)");
        Err(m)
    }
}

/// What setting the power limit reports, given whether `nvidia-smi` succeeded and its error output.
pub fn set_power_limit(watts: u32, success: bool, stderr: &str) -> (r: Result<String, String>)
    ensures
        success ==> (r matches Ok(m) && m@ == "GPU power limit set to "@ + decimal(watts as nat) + "W"@),
        !success ==> (r matches Err(m) && m@ == "nvidia-smi -pl "@ + decimal(watts as nat) + " failed: "@ + stderr@
            + " (usually requires root, and must be within the card's supported range)"@),
{
    let mut m = String::new();
    if success {
        push_str(&mut m, "GPU power limit set to ");
        push_u64(&mut m, watts as u64);
        push_str(&mut m, "W");
        Ok(m)
    } else {
        push_str(&mut m, "nvidia-smi -pl ");
        push_u64(&mut m, watts as u64);
        push_str(&mut m, " failed: ");
        push_str(&mut m, stderr);
        push_str(&mut m, " (usually requires root, and must be within the card's supported range)");
        Err(m)
    }
}

/// The `nvidia-smi -lgc` range argument, "min,max".
pub fn clock_range_arg(min_mhz: u32, max_mhz: u32) -> (r: String)
    ensures
        r@ == decimal(min_mhz as nat) + ","@ + decimal(max_mhz as nat),
{
    let mut m = String::new();
    push_u64(&mut m, min_mhz as u64);
    push_str(&mut m, ",");
    push_u64(&mut m, max_mhz as u64);
    m
}

/// Whether a clock lock may be attempted: the range must not be inverted.
pub fn check_clock_range(min_mhz: u32, max_mhz: u32) -> (r: Result<(), String>)
    ensures
        r is Ok <==> min_mhz <= max_mhz,
        r matches Err(e) ==> e@ == "min clock must be <= max clock"@,
{
    if min_mhz > max_mhz {
        Err(String::from_str("min clock must be <= max clock"))
    } else {
        Ok(())
    }
}

/// What locking the clock reports. An inverted range is refused before
/// `nvidia-smi` runs, so `success`, `stderr` and `applied` are then not looked
/// at; otherwise the report follows from whether `nvidia-smi -lgc` succeeded,
/// its error output, and the applications clock read back afterwards.
pub fn set_gpu_clock_lock(min_mhz: u32, max_mhz: u32, success: bool, stderr: &str, applied: Option<u32>) -> (r: Result<String, String>)
    ensures
        min_mhz > max_mhz ==> (r matches Err(m) && m@ == "min clock must be <= max clock"@),
        min_mhz <= max_mhz && !success ==> (r matches Err(m) && m@ == "nvidia-smi -lgc "@ + decimal(min_mhz as nat) + ","@
            + decimal(max_mhz as nat) + " failed: "@ + stderr@
            + " (usually requires root, and the range must be within clocks.max.graphics)"@),
        min_mhz <= max_mhz && success ==> (r matches Ok(m) && m@ == "Locked GPU clock to ["@ + decimal(min_mhz as nat) + ", "@
            + decimal(max_mhz as nat) + "] MHz ("@ + (match applied {
                Some(mhz) => "driver reports applications clock now "@ + decimal(mhz as nat) + " MHz)"@,
                None => "could not read back applied value to confirm)"@,
            })),
{
    if let Err(e) = check_clock_range(min_mhz, max_mhz) {
        return Err(e);
    }
    let mut m = String::new();
    if !success {
        push_str(&mut m, "nvidia-smi -lgc ");
        push_u64(&mut m, min_mhz as u64);
        push_str(&mut m, ",");
        push_u64(&mut m, max_mhz as u64);
        push_str(&mut m, " failed: ");
        push_str(&mut m, stderr);
        push_str(&mut m, " (usually requires root, and the range must be within clocks.max.graphics)");
        return Err(m);
    }
    push_str(&mut m, "Locked GPU clock to [");
    push_u64(&mut m, min_mhz as u64);
    push_str(&mut m, ", ");
    push_u64(&mut m, max_mhz as u64);
    push_str(&mut m, "] MHz (");
    match applied {
        Some(mhz) => {
            push_str(&mut m, "driver reports applications clock now ");
            push_u64(&mut m, mhz as u64);
            push_str(&mut m, " MHz)");
        },
        None => {
            push_str(&mut m, "could not read back applied value to confirm)");
        },
    }
    Ok(m)
}

/// What resetting the clock lock reports, given whether `nvidia-smi -rgc` succeeded and its error output.
pub fn reset_gpu_clock_lock(success: bool, stderr: &str) -> (r: Result<String, String>)
    ensures
        success ==> (r matches Ok(m) && m@ == "GPU clock lock reset to driver defaults"@),
        !success ==> (r matches Err(m) && m@ == "nvidia-smi -rgc failed: "@ + stderr@ + " (usually requires root)"@),
{
    if success {
        Ok(String::from_str("GPU clock lock reset to driver defaults"))
    } else {
        let mut m = String::new();
        push_str(&mut m, "nvidia-smi -rgc failed: ");
        push_str(&mut m, stderr);
        push_str(&mut m, " (usually requires root)");
        Err(m)
    }
}

/// The clock `nvidia-smi --query-gpu` printed, when it is a number.
pub fn parse_clock(stdout: &str) -> (r: Option<u32>)
    ensures
        match r {
            Some(n) => parse_unsigned(trim(stdout@), 10, u32::MAX as nat) == Some(n as nat),
            None => parse_unsigned(trim(stdout@), 10, u32::MAX as nat) is None,
        },
{
    match parse_unsigned_exec(&trim_exec(&chars_of(stdout)), 10, u32::MAX as u64) {
        Some(n) => Some(n as u32),
        None => None,
    }
}

} // verus!
