use vstd::prelude::*;
use crate::scan::{trim_start_char, trim_start_char_exec};
use crate::text::{chars_of, push_str, slice_chars, string_of};

verus! {

/// A Docker container as listed to the user.
#[derive(Clone, Debug)]
pub struct ContainerInfo {
    pub id: String,
    pub name: String,
    pub image: String,
    pub state: String,
    pub status: String,
}

/// The text of an optional field, empty when absent.
pub open spec fn or_empty(s: Option<String>) -> Seq<char> {
    match s {
        Some(t) => t@,
        None => Seq::empty(),
    }
}

/// The first twelve characters of a container id (all of it when shorter).
pub open spec fn short_id(id: Seq<char>) -> Seq<char> {
    if id.len() > 12 { id.take(12) } else { id }
}

/// A container's first name without its leading slashes.
pub open spec fn display_name(names: Option<Vec<String>>) -> Seq<char> {
    let first = match names {
        Some(n) => if n@.len() > 0 { n@[0]@ } else { Seq::empty() },
        None => Seq::empty(),
    };
    trim_start_char(first, '/')
}

/// The listing of one container from the daemon's summary of it; `state` is
/// the state's debug rendering.
pub fn container_info(
    id: Option<String>,
    names: Option<Vec<String>>,
    image: Option<String>,
    state: Option<String>,
    status: Option<String>,
) -> (r: ContainerInfo)
    ensures
        r.id@ == short_id(or_empty(id)),
        r.name@ == display_name(names),
        r.image@ == or_empty(image),
        r.state@ == or_empty(state),
        r.status@ == or_empty(status),
{
    let id_chars = match &id {
        Some(s) => chars_of(s.as_str()),
        None => Vec::new(),
    };
    let take = if id_chars.len() > 12 { 12 } else { id_chars.len() };
    let short = slice_chars(&id_chars, 0, take);
    assert(short@ =~= short_id(or_empty(id)));
    let first = match &names {
        Some(n) => if n.len() > 0 { chars_of(n[0].as_str()) } else { Vec::new() },
        None => Vec::new(),
    };
    let name = trim_start_char_exec(&first, '/');
    ContainerInfo {
        id: string_of(&short),
        name: string_of(&name),
        image: match image {
            Some(s) => s,
            None => String::new(),
        },
        state: match state {
            Some(s) => s,
            None => String::new(),
        },
        status: match status {
            Some(s) => s,
            None => String::new(),
        },
    }
}

/// The error when the Docker daemon cannot be reached.
pub fn connect_error(e: &str) -> (r: String)
    ensures
        r@ == "Cannot connect to Docker daemon: "@ + e@
            + " (is Docker running / is your user in the docker group?)"@,
{
    let mut m = String::new();
    push_str(&mut m, "Cannot connect to Docker daemon: ");
    push_str(&mut m, e);
    push_str(&mut m, " (is Docker running / is your user in the docker group?)");
    m
}

/// What starting a container reports, given the daemon's answer.
pub fn start_container(id: &str, call: Result<(), String>) -> (r: Result<String, String>)
    ensures
        match call {
            Ok(_) => r matches Ok(m) && m@ == "Started container "@ + id@,
            Err(e) => r matches Err(m) && m@ == "Failed to start "@ + id@ + ": "@ + e@,
        },
{
    let mut m = String::new();
    match call {
        Ok(()) => {
            push_str(&mut m, "Started container ");
            push_str(&mut m, id);
            Ok(m)
        },
        Err(e) => {
            push_str(&mut m, "Failed to start ");
            push_str(&mut m, id);
            push_str(&mut m, ": ");
            push_str(&mut m, e.as_str());
            Err(m)
        },
    }
}

/// What stopping a container reports, given the daemon's answer.
pub fn stop_container(id: &str, call: Result<(), String>) -> (r: Result<String, String>)
    ensures
        match call {
            Ok(_) => r matches Ok(m) && m@ == "Stopped container "@ + id@,
            Err(e) => r matches Err(m) && m@ == "Failed to stop "@ + id@ + ": "@ + e@,
        },
{
    let mut m = String::new();
    match call {
        Ok(()) => {
            push_str(&mut m, "Stopped container ");
            push_str(&mut m, id);
            Ok(m)
        },
        Err(e) => {
            push_str(&mut m, "Failed to stop ");
            push_str(&mut m, id);
            push_str(&mut m, ": ");
            push_str(&mut m, e.as_str());
            Err(m)
        },
    }
}

/// What restarting a container reports, given the daemon's answer.
pub fn restart_container(id: &str, call: Result<(), String>) -> (r: Result<String, String>)
    ensures
        match call {
            Ok(_) => r matches Ok(m) && m@ == "Restarted container "@ + id@,
            Err(e) => r matches Err(m) && m@ == "Failed to restart "@ + id@ + ": "@ + e@,
        },
{
    let mut m = String::new();
    match call {
        Ok(()) => {
            push_str(&mut m, "Restarted container ");
            push_str(&mut m, id);
            Ok(m)
        },
        Err(e) => {
            push_str(&mut m, "Failed to restart ");
            push_str(&mut m, id);
            push_str(&mut m, ": ");
            push_str(&mut m, e.as_str());
            Err(m)
        },
    }
}

} // verus!
