use vstd::prelude::*;
use crate::scan::{trim, trim_exec};
use crate::text::{chars_of, string_of};

verus! {

/// How a finished external command is reported: its standard output on
/// success (trimmed of surrounding whitespace when `trim_stdout`), its
/// trimmed standard error otherwise.
pub fn output_result(success: bool, stdout: &str, stderr: &str, trim_stdout: bool) -> (r: Result<String, String>)
    ensures
        success ==> (r matches Ok(out) && out@ == (if trim_stdout { trim(stdout@) } else { stdout@ })),
        !success ==> (r matches Err(e) && e@ == trim(stderr@)),
{
    if success {
        if trim_stdout {
            Ok(string_of(&trim_exec(&chars_of(stdout))))
        } else {
            Ok(string_of(&chars_of(stdout)))
        }
    } else {
        Err(string_of(&trim_exec(&chars_of(stderr))))
    }
}

} // verus!
