use vstd::prelude::*;
use crate::scan::{chars_eq, ends_with, ends_with_exec};
use crate::sort::{lemma_lex_total, lemma_lex_transitive, lex_le, lex_le_exec, stable_sort, stable_sort_of, SortKey};
use crate::text::{chars_of, push_str};

verus! {

broadcast use vstd::seq_lib::group_seq_properties;

/// A systemd unit as the manager lists it.
#[derive(Clone, Debug)]
pub struct UnitInfo {
    pub name: String,
    pub description: String,
    pub load_state: String,
    pub active_state: String,
    pub sub_state: String,
}

impl SortKey for UnitInfo {
    open spec fn key_le(self, other: Self) -> bool {
        lex_le(self.name@, other.name@)
    }

    fn le(&self, other: &Self) -> (r: bool) {
        lex_le_exec(&chars_of(self.name.as_str()), &chars_of(other.name.as_str()))
    }

    proof fn lemma_total(a: Self, b: Self) {
        lemma_lex_total(a.name@, b.name@);
    }

    proof fn lemma_transitive(a: Self, b: Self, c: Self) {
        lemma_lex_transitive(a.name@, b.name@, c.name@);
    }
}

/// A unit is listed: it is a service and, when only running or failed units
/// are wanted, it is active or failed.
pub open spec fn unit_listed(u: UnitInfo, running_or_failed_only: bool) -> bool {
    &&& ends_with(u.name@, ".service"@)
    &&& running_or_failed_only ==> (u.active_state@ == "active"@ || u.active_state@ == "failed"@)
}

/// The services to show out of every unit the manager listed, sorted by name.
pub fn select_units(units: Vec<UnitInfo>, running_or_failed_only: bool) -> (r: Vec<UnitInfo>)
    ensures
        stable_sort_of(r@, units@.filter(|u: UnitInfo| unit_listed(u, running_or_failed_only))),
{
    let ghost orig = units@;
    let ghost p = |u: UnitInfo| unit_listed(u, running_or_failed_only);
    let suffix = chars_of(".service");
    let active = chars_of("active");
    let failed = chars_of("failed");
    let mut units = units;
    let mut rev: Vec<UnitInfo> = Vec::new();
    // Taken from the back, so the kept units come out reversed.
    while units.len() > 0
        invariant
            suffix@ == ".service"@,
            active@ == "active"@,
            failed@ == "failed"@,
            p == (|u: UnitInfo| unit_listed(u, running_or_failed_only)),
            units@ == orig.take(units@.len() as int),
            units@.len() <= orig.len(),
            rev@.reverse() == orig.skip(units@.len() as int).filter(p),
        decreases units@.len(),
    {
        let ghost before = units@;
        let u = units.pop().unwrap();
        let k = units.len();
        assert(orig.skip(k as int) =~= seq![u] + orig.skip(k + 1));
        let keep = ends_with_exec(&chars_of(u.name.as_str()), &suffix) && (!running_or_failed_only || {
            let a = chars_of(u.active_state.as_str());
            chars_eq(&a, &active) || chars_eq(&a, &failed)
        });
        assert(keep == p(u));
        proof {
            Seq::filter_distributes_over_add(seq![u], orig.skip(k + 1), p);
            assert(seq![u] =~= Seq::<UnitInfo>::empty().push(u));
            Seq::<UnitInfo>::empty().lemma_filter_push(u, p);
            assert(Seq::<UnitInfo>::empty().filter(p) =~= Seq::<UnitInfo>::empty()) by {
                reveal(Seq::filter);
            }
        }
        let ghost old_rev = rev@;
        if keep {
            rev.push(u);
            assert(rev@.reverse() =~= seq![u] + old_rev.reverse());
        }
        assert(units@ =~= orig.take(units@.len() as int));
    }
    assert(orig.skip(0) =~= orig);
    let mut kept: Vec<UnitInfo> = Vec::new();
    while rev.len() > 0
        invariant
            kept@ + rev@.reverse() == orig.filter(p),
        decreases rev@.len(),
    {
        let ghost before = rev@;
        let u = rev.pop().unwrap();
        assert(before.reverse() =~= seq![u] + rev@.reverse());
        kept.push(u);
        assert(kept@ + rev@.reverse() =~= orig.filter(p));
    }
    assert(rev@.reverse() =~= Seq::<UnitInfo>::empty());
    assert(kept@ =~= orig.filter(p));
    stable_sort(kept)
}

/// The error when the system bus cannot be reached.
pub fn bus_error(e: &str) -> (r: String)
    ensures
        r@ == "Cannot connect to system D-Bus: "@ + e@,
{
    let mut m = String::new();
    push_str(&mut m, "Cannot connect to system D-Bus: ");
    push_str(&mut m, e);
    m
}

/// What starting a unit reports, given the manager's answer.
pub fn start_unit(name: &str, call: Result<(), String>) -> (r: Result<String, String>)
    ensures
        match call {
            Ok(_) => r matches Ok(m) && m@ == "Started "@ + name@,
            Err(e) => r matches Err(m) && m@ == "Failed to start "@ + name@ + ": "@ + e@
                + " (systemd will normally prompt for authorization via polkit)"@,
        },
{
    let mut m = String::new();
    match call {
        Ok(()) => {
            push_str(&mut m, "Started ");
            push_str(&mut m, name);
            Ok(m)
        },
        Err(e) => {
            push_str(&mut m, "Failed to start ");
            push_str(&mut m, name);
            push_str(&mut m, ": ");
            push_str(&mut m, e.as_str());
            push_str(&mut m, " (systemd will normally prompt for authorization via polkit)");
            Err(m)
        },
    }
}

/// What stopping a unit reports, given the manager's answer.
pub fn stop_unit(name: &str, call: Result<(), String>) -> (r: Result<String, String>)
    ensures
        match call {
            Ok(_) => r matches Ok(m) && m@ == "Stopped "@ + name@,
            Err(e) => r matches Err(m) && m@ == "Failed to stop "@ + name@ + ": "@ + e@,
        },
{
    let mut m = String::new();
    match call {
        Ok(()) => {
            push_str(&mut m, "Stopped ");
            push_str(&mut m, name);
            Ok(m)
        },
        Err(e) => {
            push_str(&mut m, "Failed to stop ");
            push_str(&mut m, name);
            push_str(&mut m, ": ");
            push_str(&mut m, e.as_str());
            Err(m)
        },
    }
}

/// What restarting a unit reports, given the manager's answer.
pub fn restart_unit(name: &str, call: Result<(), String>) -> (r: Result<String, String>)
    ensures
        match call {
            Ok(_) => r matches Ok(m) && m@ == "Restarted "@ + name@,
            Err(e) => r matches Err(m) && m@ == "Failed to restart "@ + name@ + ": "@ + e@,
        },
{
    let mut m = String::new();
    match call {
        Ok(()) => {
            push_str(&mut m, "Restarted ");
            push_str(&mut m, name);
            Ok(m)
        },
        Err(e) => {
            push_str(&mut m, "Failed to restart ");
            push_str(&mut m, name);
            push_str(&mut m, ": ");
            push_str(&mut m, e.as_str());
            Err(m)
        },
    }
}

} // verus!
