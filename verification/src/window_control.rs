use vstd::prelude::*;
use crate::text::{push_i64, push_str, signed_decimal};
use vstd::string::*;

verus! {

/// The outcome of a window-manager action.
#[derive(Clone, Debug)]
pub struct ActionResult {
    pub ok: bool,
    pub message: String,
}

/// A successful outcome with the given message.
pub fn ok(msg: String) -> (r: ActionResult)
    ensures
        r.ok,
        r.message@ == msg@,
{
    ActionResult { ok: true, message: msg }
}

/// A failed outcome with the given message.
pub fn err(msg: String) -> (r: ActionResult)
    ensures
        !r.ok,
        r.message@ == msg@,
{
    ActionResult { ok: false, message: msg }
}

/// The workspace a window is on.
#[derive(Clone, Debug)]
pub struct HyprWorkspaceRef {
    pub id: i32,
    pub name: String,
}

/// A window as Hyprland lists it.
#[derive(Clone, Debug)]
pub struct WindowInfo {
    pub address: String,
    pub class: String,
    pub title: String,
    pub pid: u32,
    pub workspace: HyprWorkspaceRef,
}

/// Why windows cannot be listed outside Hyprland.
pub fn windows_unsupported() -> (r: String)
    ensures
        r@ == "Not running under Hyprland (only compositor supported so far)"@,
{
    String::from_str("Not running under Hyprland (only compositor supported so far)")
}

/// The error reported when `hyprctl clients -j` printed something that is not a window list.
pub fn windows_parse_error(e: &str) -> (r: String)
    ensures
        r@ == "Failed to parse hyprctl output: "@ + e@,
{
    let mut m = String::new();
    push_str(&mut m, "Failed to parse hyprctl output: ");
    push_str(&mut m, e);
    m
}

/// The outcome of a window action attempted outside Hyprland.
pub fn not_hyprland() -> (r: ActionResult)
    ensures
        !r.ok,
        r.message@ == "Not running under Hyprland"@,
{
    err(String::from_str("Not running under Hyprland"))
}

/// The `hyprctl dispatch movetoworkspacesilent` argument: "<workspace>,address:<address>".
pub fn move_window_arg(address: &str, workspace: i32) -> (r: String)
    ensures
        r@ == signed_decimal(workspace as int) + ",address:"@ + address@,
{
    let mut r = String::new();
    push_i64(&mut r, workspace as i64);
    push_str(&mut r, ",address:");
    push_str(&mut r, address);
    assert(r@ =~= signed_decimal(workspace as int) + ",address:"@ + address@);
    r
}

/// The outcome of moving a window, given how `hyprctl` went.
pub fn move_window_to_workspace(address: &str, workspace: i32, run: Result<String, String>) -> (r: ActionResult)
    ensures
        r.ok == run is Ok,
        r.message@ == (match run {
            Ok(_) => "Moved window "@ + address@ + " to workspace "@ + signed_decimal(workspace as int),
            Err(e) => "Failed to move window: "@ + e@,
        }),
{
    let mut m = String::new();
    match run {
        Ok(_) => {
            push_str(&mut m, "Moved window ");
            push_str(&mut m, address);
            push_str(&mut m, " to workspace ");
            push_i64(&mut m, workspace as i64);
            ok(m)
        },
        Err(e) => {
            push_str(&mut m, "Failed to move window: ");
            push_str(&mut m, e.as_str());
            err(m)
        },
    }
}

/// The `hyprctl dispatch workspace` argument.
pub fn workspace_arg(workspace: i32) -> (r: String)
    ensures
        r@ == signed_decimal(workspace as int),
{
    let mut r = String::new();
    push_i64(&mut r, workspace as i64);
    assert(r@ =~= signed_decimal(workspace as int));
    r
}

/// The outcome of switching workspace, given how `hyprctl` went.
pub fn focus_workspace(workspace: i32, run: Result<String, String>) -> (r: ActionResult)
    ensures
        r.ok == run is Ok,
        r.message@ == (match run {
            Ok(_) => "Switched to workspace "@ + signed_decimal(workspace as int),
            Err(e) => "Failed to switch workspace: "@ + e@,
        }),
{
    let mut m = String::new();
    match run {
        Ok(_) => {
            push_str(&mut m, "Switched to workspace ");
            push_i64(&mut m, workspace as i64);
            ok(m)
        },
        Err(e) => {
            push_str(&mut m, "Failed to switch workspace: ");
            push_str(&mut m, e.as_str());
            err(m)
        },
    }
}

/// The `hyprctl dispatch closewindow` argument: "address:<address>".
pub fn close_window_arg(address: &str) -> (r: String)
    ensures
        r@ == "address:"@ + address@,
{
    let mut r = String::new();
    push_str(&mut r, "address:");
    push_str(&mut r, address);
    r
}

/// The outcome of closing a window, given how `hyprctl` went.
pub fn close_window(address: &str, run: Result<String, String>) -> (r: ActionResult)
    ensures
        r.ok == run is Ok,
        r.message@ == (match run {
            Ok(_) => "Closed window "@ + address@,
            Err(e) => "Failed to close window: "@ + e@,
        }),
{
    let mut m = String::new();
    match run {
        Ok(_) => {
            push_str(&mut m, "Closed window ");
            push_str(&mut m, address);
            ok(m)
        },
        Err(e) => {
            push_str(&mut m, "Failed to close window: ");
            push_str(&mut m, e.as_str());
            err(m)
        },
    }
}

} // verus!
