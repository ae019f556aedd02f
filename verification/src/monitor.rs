use vstd::prelude::*;
use crate::db::EventRow;
use crate::scan::{
    chars_eq, ends_with, ends_with_exec, join_sep, lines, lines_exec, parse_i64_exec, parse_signed,
    parse_unsigned, parse_unsigned_exec, replace_all, replace_all_exec, split_char, split_char_exec,
    split_once, split_once_exec, split_whitespace, split_whitespace_exec, starts_with, starts_with_exec,
    trim, trim_exec, utf8_len, utf8_len_at_most, views,
};
use crate::sort::{stable_sort, stable_sort_of, SortKey};
use crate::text::{chars_of, decimal, push_str, push_u64, string_of};
use vstd::string::*;
use std::collections::VecDeque;

verus! {

broadcast use vstd::seq_lib::group_seq_properties;

// ---------------------------------------------------------------------------
// Diagnosing slowness from the last hour's events
// ---------------------------------------------------------------------------

/// Why the machine is probably slow, how sure the diagnosis is, what supports
/// it, and the events it was drawn from.
#[derive(Clone, Debug)]
pub struct Diagnosis {
    pub cause: String,
    pub confidence: String,
    pub evidence: Vec<String>,
    pub events: Vec<EventRow>,
}

/// How many events are of type `t`.
pub open spec fn count_type(types: Seq<Seq<char>>, t: Seq<char>) -> nat {
    types.filter(|x: Seq<char>| x == t).len()
}

/// The types of the events, in order.
pub open spec fn event_types(events: Seq<EventRow>) -> Seq<Seq<char>> {
    events.map_values(|e: EventRow| e.event_type@)
}

/// The diagnosis drawn from the types of the recent events: cause, confidence
/// and evidence. Memory pressure with swapping outranks swapping alone, which
/// outranks repeated CPU spikes, then load above the core count, then rising
/// memory; otherwise nothing stands out.
pub open spec fn diagnosis_spec(types: Seq<Seq<char>>) -> (Seq<char>, Seq<char>, Seq<Seq<char>>) {
    let swap = count_type(types, "swap_activated"@);
    let ram = count_type(types, "ram_increase"@);
    let cpu = count_type(types, "cpu_high"@);
    let load = count_type(types, "load_high"@);
    if swap > 0 && ram > 0 {
        (
            "Memory pressure → swapping"@,
            "HIGH"@,
            seq![
                "RAM increased in "@ + decimal(ram) + " interval(s)"@,
                "Swap usage activated after RAM growth"@,
                "Disk I/O and responsiveness typically drop once swapping starts"@,
            ],
        )
    } else if swap > 0 {
        ("Swap activated — memory is under pressure"@, "MEDIUM"@, seq!["System began paging memory to disk"@])
    } else if cpu >= 2 {
        (
            "Sustained high CPU usage"@,
            "MEDIUM"@,
            seq!["CPU crossed 90% "@ + decimal(cpu) + " times in the last hour"@],
        )
    } else if load > 0 {
        (
            "Load average exceeded available cores"@,
            "MEDIUM"@,
            seq!["More runnable processes than CPU cores can service at once"@],
        )
    } else if ram > 0 {
        (
            "Memory usage rising but no swap yet"@,
            "LOW"@,
            seq!["RAM grew in "@ + decimal(ram) + " interval(s), no swap triggered"@],
        )
    } else {
        (
            "No clear performance incident detected in the last hour"@,
            "LOW"@,
            seq!["Resource usage has stayed within normal bounds"@],
        )
    }
}

/// The diagnosis ranks causes: swapping after RAM growth outranks everything;
/// swapping without RAM growth outranks CPU spikes, load and RAM growth alone;
/// CPU spikes (two or more) outrank high load; high load outranks RAM growth
/// alone; with none of these the hour was quiet. Each rank has its cause and
/// confidence, whatever the counts of the lower-ranked events.
pub proof fn lemma_diagnosis_ranking(types: Seq<Seq<char>>)
    ensures
        ({
            let (cause, confidence, evidence) = diagnosis_spec(types);
            let swap = count_type(types, "swap_activated"@);
            let ram = count_type(types, "ram_increase"@);
            let cpu = count_type(types, "cpu_high"@);
            let load = count_type(types, "load_high"@);
            &&& (swap > 0 && ram > 0) ==> (cause == "Memory pressure → swapping"@ && confidence == "HIGH"@
                && evidence.len() == 3)
            &&& (swap > 0 && ram == 0) ==> (cause == "Swap activated — memory is under pressure"@
                && confidence == "MEDIUM"@ && evidence == seq!["System began paging memory to disk"@])
            &&& (swap == 0 && cpu >= 2) ==> (cause == "Sustained high CPU usage"@ && confidence == "MEDIUM"@)
            &&& (swap == 0 && cpu < 2 && load > 0) ==> (cause == "Load average exceeded available cores"@
                && confidence == "MEDIUM"@)
            &&& (swap == 0 && cpu < 2 && load == 0 && ram > 0) ==> (cause == "Memory usage rising but no swap yet"@
                && confidence == "LOW"@)
            &&& (swap == 0 && cpu < 2 && load == 0 && ram == 0) ==> (cause
                == "No clear performance incident detected in the last hour"@ && confidence == "LOW"@)
        }),
{
}

/// Counts the events of type `t`.
fn count_events(events: &Vec<EventRow>, t: &str) -> (r: u64)
    ensures
        r as nat == count_type(event_types(events@), t@),
{
    let ghost types = event_types(events@);
    let ghost p = |x: Seq<char>| x == t@;
    let target = chars_of(t);
    let mut count: u64 = 0;
    let n = events.len();
    assert(types.take(0).filter(p) =~= Seq::empty()) by {
        reveal(Seq::filter);
    }
    for i in 0..n
        invariant
            n == events@.len(),
            types == event_types(events@),
            p == (|x: Seq<char>| x == t@),
            target@ == t@,
            count as nat == types.take(i as int).filter(p).len(),
            count <= i,
    {
        assert(types.take(i + 1) =~= types.take(i as int).push(types[i as int]));
        proof {
            types.take(i as int).lemma_filter_push(types[i as int], p);
        }
        if chars_eq(&chars_of(events[i].event_type.as_str()), &target) {
            count = count + 1;
        }
    }
    assert(types.take(n as int) =~= types);
    count
}

fn evidence_line(before: &str, n: u64, after: &str) -> (r: String)
    ensures
        r@ == before@ + decimal(n as nat) + after@,
{
    let mut s = String::new();
    push_str(&mut s, before);
    push_u64(&mut s, n);
    push_str(&mut s, after);
    s
}

fn one(s: &str) -> (r: Vec<String>)
    ensures
        r@.map_values(|x: String| x@) == seq![s@],
{
    let mut v: Vec<String> = Vec::new();
    v.push(String::from_str(s));
    assert(v@.map_values(|x: String| x@) =~= seq![s@]);
    v
}

/// Diagnoses slowness from the events of the last hour.
pub fn diagnose_slowness(events: Vec<EventRow>) -> (r: Diagnosis)
    ensures
        (r.cause@, r.confidence@, r.evidence@.map_values(|x: String| x@)) == diagnosis_spec(event_types(events@)),
        r.events@ == events@,
{
    let swap = count_events(&events, "swap_activated");
    let ram = count_events(&events, "ram_increase");
    let cpu = count_events(&events, "cpu_high");
    let load = count_events(&events, "load_high");
    let (cause, confidence, evidence) = if swap > 0 && ram > 0 {
        let mut ev: Vec<String> = Vec::new();
        ev.push(evidence_line("RAM increased in ", ram, " interval(s)"));
        ev.push(String::from_str("Swap usage activated after RAM growth"));
        ev.push(String::from_str("Disk I/O and responsiveness typically drop once swapping starts"));
        ("Memory pressure → swapping", "HIGH", ev)
    } else if swap > 0 {
        ("Swap activated — memory is under pressure", "MEDIUM", one("System began paging memory to disk"))
    } else if cpu >= 2 {
        let mut ev: Vec<String> = Vec::new();
        ev.push(evidence_line("CPU crossed 90% ", cpu, " times in the last hour"));
        ("Sustained high CPU usage", "MEDIUM", ev)
    } else if load > 0 {
        ("Load average exceeded available cores", "MEDIUM", one("More runnable processes than CPU cores can service at once"))
    } else if ram > 0 {
        let mut ev: Vec<String> = Vec::new();
        ev.push(evidence_line("RAM grew in ", ram, " interval(s), no swap triggered"));
        ("Memory usage rising but no swap yet", "LOW", ev)
    } else {
        ("No clear performance incident detected in the last hour", "LOW", one("Resource usage has stayed within normal bounds"))
    };
    let r = Diagnosis {
        cause: String::from_str(cause),
        confidence: String::from_str(confidence),
        evidence,
        events,
    };
    assert(r.evidence@.map_values(|x: String| x@) =~= diagnosis_spec(event_types(events@)).2);
    r
}

// ---------------------------------------------------------------------------
// Clipboard history
// ---------------------------------------------------------------------------

/// The most clipboard entries kept.
pub const CLIPBOARD_HISTORY_LIMIT: usize = 50;

/// The texts of a history, newest first.
pub open spec fn texts(h: Seq<String>) -> Seq<Seq<char>> {
    h.map_values(|s: String| s@)
}

/// The clipboard history after the clipboard read `text`: its trimmed form is
/// added at the front unless it is empty, longer than 20 000 bytes, or the
/// same as the newest entry; the history keeps its newest fifty entries.
pub open spec fn clipboard_after(h: Seq<Seq<char>>, text: Seq<char>) -> Seq<Seq<char>> {
    let t = trim(text);
    if t.len() == 0 || utf8_len(t) > 20000 || (h.len() > 0 && h[0] == t) {
        h
    } else {
        let added = seq![t] + h;
        if added.len() > 50 { added.take(50) } else { added }
    }
}

/// Records what the clipboard holds now.
pub fn record_clipboard(history: &mut VecDeque<String>, text: &str)
    ensures
        texts(final(history)@) == clipboard_after(texts(old(history)@), text@),
{
    let t = trim_exec(&chars_of(text));
    if t.len() == 0 || !utf8_len_at_most(&t, 20000) {
        return;
    }
    if history.len() > 0 {
        let front = chars_of(history[0].as_str());
        if chars_eq(&front, &t) {
            return;
        }
    }
    let ghost before = history@;
    let entry = string_of(&t);
    history.push_front(entry);
    assert(texts(history@) =~= seq![t@] + texts(before));
    let ghost added = history@;
    history.truncate(CLIPBOARD_HISTORY_LIMIT);
    proof {
        if added.len() > 50 {
            assert(texts(history@) =~= texts(added).take(50));
        }
    }
}

/// The history never grows past its limit: recording into a history of at
/// most fifty entries leaves at most fifty.
pub proof fn lemma_clipboard_bounded(h: Seq<Seq<char>>, text: Seq<char>)
    requires
        h.len() <= 50,
    ensures
        clipboard_after(h, text).len() <= 50,
{
}

/// What was just recorded is the newest entry, and recording it again changes nothing.
pub proof fn lemma_clipboard_newest(h: Seq<Seq<char>>, text: Seq<char>)
    requires
        trim(text).len() > 0,
        utf8_len(trim(text)) <= 20000,
    ensures
        clipboard_after(h, text)[0] == trim(text),
        clipboard_after(clipboard_after(h, text), text) == clipboard_after(h, text),
{
}

// ---------------------------------------------------------------------------
// Who is using a port
// ---------------------------------------------------------------------------

/// A process that holds a socket on a port.
#[derive(Clone, Debug)]
pub struct PortOwner {
    pub pid: u32,
    pub process_name: String,
    pub local_address: String,
}

/// The owner record for a process found holding a socket on `port`.
pub fn port_owner(pid: u32, process_name: String, port: u16) -> (r: PortOwner)
    ensures
        r.pid == pid,
        r.process_name@ == process_name@,
        r.local_address@ == "port "@ + decimal(port as nat),
{
    let mut a = String::new();
    push_str(&mut a, "port ");
    push_u64(&mut a, port as u64);
    PortOwner { pid, process_name, local_address: a }
}

/// The report line for one owner that was signalled.
pub open spec fn kill_line(o: PortOwner, message: Seq<char>) -> Seq<char> {
    o.process_name@ + " (PID "@ + decimal(o.pid as nat) + "): "@ + message
}

/// The outcome when no process holds the port.
pub fn nothing_on_port(port: u16) -> (r: crate::control_process::ActionResult)
    ensures
        !r.ok,
        r.message@ == "Nothing is listening on port "@ + decimal(port as nat),
{
    let mut m = String::new();
    push_str(&mut m, "Nothing is listening on port ");
    push_u64(&mut m, port as u64);
    crate::control_process::err(m)
}

/// The combined outcome of signalling every owner of a port: it succeeds when
/// every signal did, and its message joins one line per owner with "; ".
pub fn port_kill_summary(
    owners: &Vec<PortOwner>,
    results: &Vec<crate::control_process::ActionResult>,
) -> (r: crate::control_process::ActionResult)
    requires
        owners@.len() == results@.len(),
    ensures
        r.ok == (forall|k: int| 0 <= k < results@.len() ==> (#[trigger] results@[k]).ok),
        r.message@ == join_sep(
            Seq::new(owners@.len(), |k: int| kill_line(owners@[k], results@[k].message@)),
            "; "@,
        ),
{
    let ghost lines_spec = Seq::new(owners@.len(), |k: int| kill_line(owners@[k], results@[k].message@));
    let mut all_ok = true;
    let mut m = String::new();
    let n = owners.len();
    for i in 0..n
        invariant
            n == owners@.len(),
            n == results@.len(),
            lines_spec == Seq::new(owners@.len(), |k: int| kill_line(owners@[k], results@[k].message@)),
            all_ok == (forall|k: int| 0 <= k < i ==> (#[trigger] results@[k]).ok),
            m@ == join_sep(lines_spec.take(i as int), "; "@),
    {
        assert(lines_spec.take(i + 1).drop_last() =~= lines_spec.take(i as int));
        if i > 0 {
            push_str(&mut m, "; ");
        } else {
            assert(m@ =~= Seq::<char>::empty());
        }
        push_str(&mut m, owners[i].process_name.as_str());
        push_str(&mut m, " (PID ");
        push_u64(&mut m, owners[i].pid as u64);
        push_str(&mut m, "): ");
        push_str(&mut m, results[i].message.as_str());
        assert(m@ =~= join_sep(lines_spec.take(i + 1), "; "@));
        all_ok = all_ok && results[i].ok;
    }
    assert(lines_spec.take(n as int) =~= lines_spec);
    crate::control_process::ActionResult { ok: all_ok, message: m }
}

// ---------------------------------------------------------------------------
// Battery and disks
// ---------------------------------------------------------------------------

/// The charge and charging status of the first battery.
#[derive(Clone, Debug)]
pub struct BatteryInfo {
    pub percent: u8,
    pub status: String,
}

/// The battery as its sysfs `capacity` and `status` files describe it (`None`
/// for a file that could not be read): there is a battery when the capacity
/// reads as a percentage that fits a byte.
pub fn battery_info(capacity: Option<String>, status: Option<String>) -> (r: Option<BatteryInfo>)
    ensures
        match capacity {
            None => r is None,
            Some(c) => match parse_unsigned(trim(c@), 10, u8::MAX as nat) {
                None => r is None,
                Some(p) => r matches Some(b) && b.percent as nat == p && b.status@ == (match status {
                    Some(s) => trim(s@),
                    None => Seq::empty(),
                }),
            },
        },
{
    let c = match capacity {
        Some(c) => c,
        None => return None,
    };
    let percent = match parse_unsigned_exec(&trim_exec(&chars_of(c.as_str())), 10, u8::MAX as u64) {
        Some(p) => p as u8,
        None => return None,
    };
    let status = match status {
        Some(s) => string_of(&trim_exec(&chars_of(s.as_str()))),
        None => String::new(),
    };
    Some(BatteryInfo { percent, status })
}

/// The space in use on a disk.
pub fn disk_used_bytes(total_bytes: u64, available_bytes: u64) -> (r: u64)
    requires
        available_bytes <= total_bytes,
    ensures
        r == total_bytes - available_bytes,
{
    total_bytes - available_bytes
}

} // verus!

verus! {

// ---------------------------------------------------------------------------
// Reading counters out of /proc and /sys
// ---------------------------------------------------------------------------

/// The byte counters of one network interface.
#[derive(Clone, Debug)]
pub struct NetCounters {
    pub interface: String,
    pub rx_bytes: u64,
    pub tx_bytes: u64,
}

/// A counter field read as a number, 0 when it is not one.
pub open spec fn counter(f: Seq<char>) -> nat {
    match parse_unsigned(f, 10, u64::MAX as nat) {
        Some(n) => n,
        None => 0,
    }
}

/// The counters in one interface line of /proc/net/dev ("iface: rx ... tx ...");
/// the loopback and lines with fewer than nine fields are skipped.
pub open spec fn net_dev_line_spec(line: Seq<char>) -> Option<(Seq<char>, nat, nat)> {
    match split_once(line, ':') {
        None => None,
        Some((iface, rest)) => {
            let name = trim(iface);
            let f = split_whitespace(rest);
            if name == "lo"@ || f.len() < 9 {
                None
            } else {
                Some((name, counter(f[0]), counter(f[8])))
            }
        },
    }
}

pub open spec fn counters_view(c: NetCounters) -> (Seq<char>, nat, nat) {
    (c.interface@, c.rx_bytes as nat, c.tx_bytes as nat)
}

fn counter_exec(f: &Vec<char>) -> (r: u64)
    ensures
        r as nat == counter(f@),
{
    match parse_unsigned_exec(f, 10, u64::MAX) {
        Some(n) => n,
        None => 0,
    }
}

/// Reads one interface line of /proc/net/dev.
pub fn net_dev_line(line: &Vec<char>) -> (r: Option<NetCounters>)
    ensures
        match r {
            Some(c) => net_dev_line_spec(line@) == Some(counters_view(c)),
            None => net_dev_line_spec(line@) is None,
        },
{
    let (iface, rest) = match split_once_exec(line, ':') {
        Some(p) => p,
        None => return None,
    };
    let name = trim_exec(&iface);
    let f = split_whitespace_exec(&rest);
    if chars_eq(&name, &chars_of("lo")) || f.len() < 9 {
        return None;
    }
    assert(views(f@)[0] == f@[0]@);
    assert(views(f@)[8] == f@[8]@);
    Some(NetCounters { interface: string_of(&name), rx_bytes: counter_exec(&f[0]), tx_bytes: counter_exec(&f[8]) })
}

/// The lines after the two header lines, as `lines().skip(2)` yields them.
pub open spec fn skip_two(ls: Seq<Seq<char>>) -> Seq<Seq<char>> {
    if ls.len() <= 2 { Seq::empty() } else { ls.skip(2) }
}

/// An interface is shown once it has moved any traffic.
pub fn has_traffic(c: &NetCounters) -> (r: bool)
    ensures
        r == (c.rx_bytes > 0 || c.tx_bytes > 0),
{
    c.rx_bytes > 0 || c.tx_bytes > 0
}

/// The interface counters of /proc/net/dev, in order.
#[verifier::rlimit(40)]
pub fn net_dev_counters(text: &str) -> (r: Vec<NetCounters>)
    ensures
        r@.map_values(|c: NetCounters| counters_view(c)) == skip_two(lines(text@)).filter_map(|l: Seq<char>| net_dev_line_spec(l)),
{
    let ls = lines_exec(&chars_of(text));
    let ghost body = skip_two(lines(text@));
    let ghost f = |l: Seq<char>| net_dev_line_spec(l);
    let mut r: Vec<NetCounters> = Vec::new();
    if ls.len() <= 2 {
        assert(body.filter_map(f) =~= Seq::empty());
        return r;
    }
    let n = ls.len();
    assert(body.take(0).filter_map(f) =~= Seq::empty());
    for i in 2..n
        invariant
            n == ls@.len(),
            n > 2,
            views(ls@) == lines(text@),
            body == skip_two(lines(text@)),
            f == (|l: Seq<char>| net_dev_line_spec(l)),
            r@.map_values(|c: NetCounters| counters_view(c)) == body.take(i - 2).filter_map(f),
    {
        assert(body[i - 2] == ls@[i as int]@);
        proof {
            body.lemma_filter_map_take_succ(f, i - 2);
        }
        let ghost old_r = r@;
        match net_dev_line(&ls[i]) {
            Some(c) => {
                r.push(c);
                assert(r@.map_values(|c: NetCounters| counters_view(c)) =~= old_r.map_values(|c: NetCounters| counters_view(c)) + seq![counters_view(c)]);
            },
            None => {},
        }
    }
    assert(body.take(n - 2) =~= body);
    r
}

/// A DRM entry that is a whole card ("card0"), not one of its connectors ("card0-DP-1").
pub fn is_gpu_card(name: &str) -> (r: bool)
    ensures
        r == (starts_with(name@, "card"@) && !name@.contains('-')),
{
    let v = chars_of(name);
    if !starts_with_exec(&v, &chars_of("card")) {
        return false;
    }
    let n = v.len();
    for i in 0..n
        invariant
            n == v@.len(),
            v@ == name@,
            forall|j: int| 0 <= j < i ==> v@[j] != '-',
    {
        if v[i] == '-' {
            assert(v@[i as int] == '-');
            assert(name@.contains('-'));
            return false;
        }
    }
    true
}

/// A PCI vendor file naming AMD.
pub fn is_amd_vendor(text: &str) -> (r: bool)
    ensures
        r == (trim(text@) == "0x1002"@),
{
    chars_eq(&trim_exec(&chars_of(text)), &chars_of("0x1002"))
}

/// A numeric sysfs attribute (`None` when unreadable), 0 when it is not a number.
pub fn sysfs_u64(text: Option<String>) -> (r: u64)
    ensures
        r as nat == (match text {
            Some(t) => counter(trim(t@)),
            None => 0,
        }),
{
    match text {
        Some(t) => counter_exec(&trim_exec(&chars_of(t.as_str()))),
        None => 0,
    }
}

/// Each part trimmed of surrounding whitespace.
pub open spec fn trim_each(ps: Seq<Seq<char>>) -> Seq<Seq<char>> {
    ps.map_values(|p: Seq<char>| trim(p))
}

/// The comma-separated fields of one `nvidia-smi --format=csv` line, trimmed;
/// lines with fewer than six fields are skipped.
pub fn nvidia_fields(line: &str) -> (r: Option<Vec<String>>)
    ensures
        split_char(line@, ',').len() < 6 ==> r is None,
        split_char(line@, ',').len() >= 6 ==> (r matches Some(v) && texts(v@) == trim_each(split_char(line@, ','))),
{
    let parts = split_char_exec(&chars_of(line), ',');
    if parts.len() < 6 {
        return None;
    }
    let ghost ps = views(parts@);
    let mut r: Vec<String> = Vec::new();
    let n = parts.len();
    for i in 0..n
        invariant
            n == parts@.len(),
            ps == views(parts@),
            ps.len() == n,
            r@.len() == i,
            texts(r@) == trim_each(ps.take(i as int)),
    {
        let ghost old_r = r@;
        let t = string_of(&trim_exec(&parts[i]));
        assert(ps[i as int] == parts@[i as int]@);
        r.push(t);
        assert forall|k: int| 0 <= k < i + 1 implies #[trigger] texts(r@)[k] == trim_each(ps.take(i + 1))[k] by {
            if k < i {
                assert(r@[k] == old_r[k]);
                assert(texts(old_r)[k] == trim_each(ps.take(i as int))[k]);
            }
        }
        assert(texts(r@) =~= trim_each(ps.take(i + 1)));
    }
    assert(ps.take(n as int) =~= ps);
    Some(r)
}

/// A memory figure in MiB as bytes, 0 when it is not a number; the
/// multiplication wraps as 64-bit arithmetic does.
pub fn mib_to_bytes(text: &str) -> (r: u64)
    ensures
        r as nat == (counter(text@) * 1048576) % 0x1_0000_0000_0000_0000,
{
    let n = counter_exec(&chars_of(text));
    let r = ((n as u128 * 1048576) % 0x1_0000_0000_0000_0000) as u64;
    r
}

/// For a hwmon file name such as "temp1_input", the name of the file with its
/// label ("temp1_label"); other files are not temperature inputs.
pub fn temp_label_file(fname: &str) -> (r: Option<String>)
    ensures
        (starts_with(fname@, "temp"@) && ends_with(fname@, "_input"@)) ==> (r matches Some(l) && l@
            == replace_all(fname@, "_input"@, "_label"@)),
        !(starts_with(fname@, "temp"@) && ends_with(fname@, "_input"@)) ==> r is None,
{
    let v = chars_of(fname);
    let input = chars_of("_input");
    if !starts_with_exec(&v, &chars_of("temp")) || !ends_with_exec(&v, &input) {
        return None;
    }
    proof {
        reveal_strlit("_input");
    }
    Some(string_of(&replace_all_exec(&v, &input, &chars_of("_label"))))
}

/// A temperature reading in millidegrees, if the file holds an integer.
pub fn millidegrees(raw: &str) -> (r: Option<i64>)
    ensures
        match r {
            Some(n) => parse_signed(trim(raw@), 0x8000_0000_0000_0000, i64::MAX as nat) == Some(n as int),
            None => parse_signed(trim(raw@), 0x8000_0000_0000_0000, i64::MAX as nat) is None,
        },
{
    parse_i64_exec(&trim_exec(&chars_of(raw)))
}

/// A sensor's label: the chip name and the sensor label.
pub fn sensor_label(chip: &str, label: &str) -> (r: String)
    ensures
        r@ == chip@ + " "@ + label@,
{
    let mut r = String::new();
    push_str(&mut r, chip);
    push_str(&mut r, " ");
    push_str(&mut r, label);
    r
}

// ---------------------------------------------------------------------------
// Snapshot helpers
// ---------------------------------------------------------------------------

/// A process's position in a listing and its memory use.
#[derive(Clone, Debug)]
pub struct MemRank {
    pub index: usize,
    pub memory: u64,
}

/// Processes are ranked by memory use, largest first.
impl SortKey for MemRank {
    open spec fn key_le(self, other: Self) -> bool {
        self.memory >= other.memory
    }

    fn le(&self, other: &Self) -> (r: bool) {
        self.memory >= other.memory
    }

    proof fn lemma_total(a: Self, b: Self) {
    }

    proof fn lemma_transitive(a: Self, b: Self, c: Self) {
    }
}

/// Each process's position paired with its memory use.
pub open spec fn ranks_of(memory: Seq<u64>) -> Seq<MemRank> {
    Seq::new(memory.len(), |i: int| MemRank { index: i as usize, memory: memory[i] })
}

/// The positions of the `limit` processes using the most memory, largest
/// first, ties in listing order.
pub fn top_by_memory(memory: &Vec<u64>, limit: usize) -> (r: Vec<usize>)
    ensures
        exists|ranked: Seq<MemRank>| {
            &&& stable_sort_of(ranked, ranks_of(memory@))
            &&& r@ == (if ranked.len() > limit { ranked.take(limit as int) } else { ranked }).map_values(|m: MemRank| m.index)
        },
{
    let ghost listing = ranks_of(memory@);
    let mut ranks: Vec<MemRank> = Vec::new();
    let n = memory.len();
    for i in 0..n
        invariant
            n == memory@.len(),
            listing == ranks_of(memory@),
            ranks@ == listing.take(i as int),
    {
        ranks.push(MemRank { index: i, memory: memory[i] });
        assert(ranks@ =~= listing.take(i + 1));
    }
    assert(ranks@ =~= listing);
    let mut sorted = stable_sort(ranks);
    let ghost ranked = sorted@;
    sorted.truncate(limit);
    let ghost kept = sorted@;
    assert(kept == (if ranked.len() > limit { ranked.take(limit as int) } else { ranked })) by {
        if ranked.len() > limit {
            assert(kept =~= ranked.take(limit as int));
        }
    }
    let mut r: Vec<usize> = Vec::new();
    let m = sorted.len();
    for i in 0..m
        invariant
            m == sorted@.len(),
            r@ == sorted@.take(i as int).map_values(|x: MemRank| x.index),
    {
        r.push(sorted[i].index);
        assert(r@ =~= sorted@.take(i + 1).map_values(|x: MemRank| x.index));
    }
    assert(sorted@.take(m as int) =~= sorted@);
    assert(stable_sort_of(ranked, listing));
    assert(r@ == (if ranked.len() > limit { ranked.take(limit as int) } else { ranked }).map_values(|x: MemRank| x.index));
    r
}

/// The position of the first key equal to `key`, used to pair a device with
/// its previous sample.
pub fn position_of(keys: &Vec<String>, key: &str) -> (r: Option<usize>)
    ensures
        match r {
            Some(k) => k < keys@.len() && keys@[k as int]@ == key@ && forall|j: int| 0 <= j < k ==> keys@[j]@ != key@,
            None => forall|j: int| 0 <= j < keys@.len() ==> keys@[j]@ != key@,
        },
{
    let target = chars_of(key);
    let n = keys.len();
    for i in 0..n
        invariant
            n == keys@.len(),
            target@ == key@,
            forall|j: int| 0 <= j < i ==> keys@[j]@ != key@,
    {
        if chars_eq(&chars_of(keys[i].as_str()), &target) {
            return Some(i);
        }
    }
    None
}

/// Swap use began between two samples.
pub fn swap_activated(prev_used_swap: u64, curr_used_swap: u64) -> (r: bool)
    ensures
        r == (prev_used_swap == 0 && curr_used_swap > 0),
{
    prev_used_swap == 0 && curr_used_swap > 0
}

} // verus!

verus! {

/// The process id a `/proc` entry name stands for, if it is one.
pub fn pid_of_entry(name: &str) -> (r: Option<u32>)
    ensures
        match r {
            Some(p) => parse_unsigned(name@, 10, u32::MAX as nat) == Some(p as nat),
            None => parse_unsigned(name@, 10, u32::MAX as nat) is None,
        },
{
    match parse_unsigned_exec(&chars_of(name), 10, u32::MAX as u64) {
        Some(p) => Some(p as u32),
        None => None,
    }
}

} // verus!
