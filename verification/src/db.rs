use vstd::prelude::*;

verus! {

/// One stored disk-usage sample.
#[derive(Clone, Debug)]
pub struct DiskPoint {
    pub ts: i64,
    pub mount_point: String,
    pub used_bytes: u64,
    pub total_bytes: u64,
}

/// One audit-log entry of a control action.
#[derive(Clone, Debug)]
pub struct ActionRow {
    pub ts: i64,
    pub action: String,
    pub ok: bool,
    pub message: String,
}

/// One detected event.
#[derive(Clone, Debug)]
pub struct EventRow {
    pub ts: i64,
    pub event_type: String,
    pub severity: String,
    pub message: String,
}

/// How an action's success is stored in the log's integer column.
pub fn ok_column(ok: bool) -> (r: i32)
    ensures
        r == (if ok { 1i32 } else { 0i32 }),
{
    if ok { 1 } else { 0 }
}

/// How the log's integer column reads back as success: any non-zero value.
pub fn ok_from_column(v: i32) -> (r: bool)
    ensures
        r == (v != 0),
{
    v != 0
}

/// Storing success and reading it back gives it unchanged.
pub proof fn lemma_ok_column_round_trip(ok: bool)
    ensures
        (if ok { 1i32 } else { 0i32 }) != 0 <==> ok,
{
}

} // verus!
