use vstd::prelude::*;
use crate::scan::{
    chars_eq, ends_with, ends_with_exec, first_with_prefix, join_lines, leading_ws, lemma_find_char_is,
    lemma_join_lines_terminated, lemma_lines_no_newline, lemma_lines_of_terminated, lemma_trim_drop_ws,
    lines, lines_exec, strip_cr, trailing_ws,
    parse_unsigned, parse_unsigned_exec, split_char, split_char_exec, split_once, split_once_exec,
    starts_with_exec, trim, trim_end_char, trim_end_char_exec, trim_exec,
    trim_start_str, trim_start_str_exec, views,
};
use crate::sort::{lemma_lex_total, lemma_lex_transitive, lex_le, lex_le_exec, stable_sort, stable_sort_of, SortKey};
use crate::text::{chars_of, decimal, push_chars, push_str, push_u64, string_of};
use vstd::string::*;

verus! {

broadcast use vstd::seq_lib::group_seq_properties;

/// The outcome of a system control action.
#[derive(Clone, Debug)]
pub struct ActionResult {
    pub ok: bool,
    pub message: String,
}

/// A successful outcome with the given message.
pub fn ok(msg: String) -> (r: ActionResult)
    ensures
        r.ok,
        r.message@ == msg@,
{
    ActionResult { ok: true, message: msg }
}

/// A failed outcome with the given message.
pub fn err(msg: String) -> (r: ActionResult)
    ensures
        !r.ok,
        r.message@ == msg@,
{
    ActionResult { ok: false, message: msg }
}

// ---- ionice ----

/// The name of an I/O scheduling class; unknown classes read as best-effort.
pub open spec fn io_class_name(class: u32) -> Seq<char> {
    if class == 1 { "realtime"@ } else if class == 3 { "idle"@ } else { "best-effort"@ }
}

/// The name of an I/O scheduling class.
pub fn io_class(class: u32) -> (r: &'static str)
    ensures
        r@ == io_class_name(class),
{
    if class == 1 { "realtime" } else if class == 2 { "best-effort" } else if class == 3 { "idle" } else { "best-effort" }
}

/// The outcome of setting a process's I/O scheduling, given how `ionice` went.
pub fn set_ionice(pid: u32, class: u32, level: u32, run: Result<String, String>) -> (r: ActionResult)
    ensures
        r.ok == run is Ok,
        r.message@ == (match run {
            Ok(_) => "Set PID "@ + decimal(pid as nat) + " IO scheduling to "@ + io_class_name(class)
                + " (level "@ + decimal(level as nat) + ")"@,
            Err(e) => "Failed to set ionice for PID "@ + decimal(pid as nat) + ": "@ + e@,
        }),
{
    let mut m = String::new();
    match run {
        Ok(_) => {
            push_str(&mut m, "Set PID ");
            push_u64(&mut m, pid as u64);
            push_str(&mut m, " IO scheduling to ");
            push_str(&mut m, io_class(class));
            push_str(&mut m, " (level ");
            push_u64(&mut m, level as u64);
            push_str(&mut m, ")");
            ok(m)
        },
        Err(e) => {
            push_str(&mut m, "Failed to set ionice for PID ");
            push_u64(&mut m, pid as u64);
            push_str(&mut m, ": ");
            push_str(&mut m, e.as_str());
            err(m)
        },
    }
}

// ---- brightness ----

/// The backlight device and its brightness in percent.
#[derive(Clone, Debug)]
pub struct BrightnessInfo {
    pub device: String,
    pub percent: u32,
}

/// The brightness that `brightnessctl -m` reports on its first line
/// ("device,class,current,percent%,max"): the device and the percentage.
pub open spec fn brightness_spec(out: Seq<char>) -> Option<(Seq<char>, nat)> {
    let ls = lines(out);
    if ls.len() == 0 {
        None
    } else {
        let fields = split_char(ls[0], ',');
        if fields.len() < 4 {
            None
        } else {
            match parse_unsigned(trim_end_char(fields[3], '%'), 10, u32::MAX as nat) {
                Some(p) => Some((fields[0], p)),
                None => None,
            }
        }
    }
}

/// Reads the output of `brightnessctl -m`.
pub fn parse_brightness(out: &str) -> (r: Option<BrightnessInfo>)
    ensures
        match r {
            Some(b) => brightness_spec(out@) == Some((b.device@, b.percent as nat)),
            None => brightness_spec(out@) is None,
        },
{
    let ls = lines_exec(&chars_of(out));
    if ls.len() == 0 {
        return None;
    }
    let fields = split_char_exec(&ls[0], ',');
    assert(views(ls@)[0] == ls@[0]@);
    if fields.len() < 4 {
        return None;
    }
    assert(views(fields@)[3] == fields@[3]@);
    assert(views(fields@)[0] == fields@[0]@);
    match parse_unsigned_exec(&trim_end_char_exec(&fields[3], '%'), 10, u32::MAX as u64) {
        Some(p) => Some(BrightnessInfo { device: string_of(&fields[0]), percent: p as u32 }),
        None => None,
    }
}

/// The brightness actually requested: the given percentage limited to `[1, 100]`.
pub fn brightness_percent(percent: u32) -> (r: u32)
    ensures
        r == (if percent < 1 { 1 } else if percent > 100 { 100 } else { percent }),
{
    if percent < 1 { 1 } else if percent > 100 { 100 } else { percent }
}

/// A percentage argument such as "40%".
pub fn percent_arg(p: u32) -> (r: String)
    ensures
        r@ == decimal(p as nat) + "%"@,
{
    let mut r = String::new();
    push_u64(&mut r, p as u64);
    push_str(&mut r, "%");
    r
}

/// The outcome of setting the brightness to `clamped`%, given how `brightnessctl` went.
pub fn set_brightness(clamped: u32, run: Result<String, String>) -> (r: ActionResult)
    ensures
        r.ok == run is Ok,
        r.message@ == (match run {
            Ok(_) => "Set brightness to "@ + decimal(clamped as nat) + "%"@,
            Err(e) => "Failed to set brightness: "@ + e@,
        }),
{
    let mut m = String::new();
    match run {
        Ok(_) => {
            push_str(&mut m, "Set brightness to ");
            push_u64(&mut m, clamped as u64);
            push_str(&mut m, "%");
            ok(m)
        },
        Err(e) => {
            push_str(&mut m, "Failed to set brightness: ");
            push_str(&mut m, e.as_str());
            err(m)
        },
    }
}

// ---- volume ----

/// The default sink's volume in percent and whether it is muted.
#[derive(Clone, Debug)]
pub struct VolumeInfo {
    pub percent: u32,
    pub muted: bool,
}

/// The volume actually requested: the given percentage limited to `[0, 150]`.
pub fn volume_percent(percent: u32) -> (r: u32)
    ensures
        r == (if percent > 150 { 150 } else { percent }),
{
    if percent > 150 { 150 } else { percent }
}

/// The outcome of setting the volume to `clamped`%, given how `wpctl` went.
pub fn set_volume(clamped: u32, run: Result<String, String>) -> (r: ActionResult)
    ensures
        r.ok == run is Ok,
        r.message@ == (match run {
            Ok(_) => "Set volume to "@ + decimal(clamped as nat) + "%"@,
            Err(e) => "Failed to set volume: "@ + e@,
        }),
{
    let mut m = String::new();
    match run {
        Ok(_) => {
            push_str(&mut m, "Set volume to ");
            push_u64(&mut m, clamped as u64);
            push_str(&mut m, "%");
            ok(m)
        },
        Err(e) => {
            push_str(&mut m, "Failed to set volume: ");
            push_str(&mut m, e.as_str());
            err(m)
        },
    }
}

/// The outcome of toggling mute, given how `wpctl` went.
pub fn toggle_mute(run: Result<String, String>) -> (r: ActionResult)
    ensures
        r.ok == run is Ok,
        r.message@ == (match run {
            Ok(_) => "Toggled mute"@,
            Err(e) => "Failed to toggle mute: "@ + e@,
        }),
{
    match run {
        Ok(_) => ok(String::from_str("Toggled mute")),
        Err(e) => {
            let mut m = String::new();
            push_str(&mut m, "Failed to toggle mute: ");
            push_str(&mut m, e.as_str());
            err(m)
        },
    }
}

// ---- startup impact ----

/// A unit and how long it took during boot.
#[derive(Clone, Debug)]
pub struct StartupEntry {
    pub unit: String,
    pub time_ms: u64,
}

/// The duration text and the unit name of one line of `systemd-analyze blame`.
pub open spec fn blame_fields_spec(line: Seq<char>) -> Option<(Seq<char>, Seq<char>)> {
    match split_once(trim(line), ' ') {
        Some((time, unit)) => Some((time, trim(unit))),
        None => None,
    }
}

/// Splits one line of `systemd-analyze blame` into its duration and unit.
pub fn blame_fields(line: &str) -> (r: Option<(String, String)>)
    ensures
        match r {
            Some((t, u)) => blame_fields_spec(line@) == Some((t@, u@)),
            None => blame_fields_spec(line@) is None,
        },
{
    match split_once_exec(&trim_exec(&chars_of(line)), ' ') {
        Some((time, unit)) => Some((string_of(&time), string_of(&trim_exec(&unit)))),
        None => None,
    }
}

// ---- autostart ----

/// An XDG autostart entry.
#[derive(Clone, Debug)]
pub struct AutostartEntry {
    pub filename: String,
    pub name: String,
    pub enabled: bool,
    pub system_wide: bool,
}

impl SortKey for AutostartEntry {
    open spec fn key_le(self, other: Self) -> bool {
        lex_le(self.name@, other.name@)
    }

    fn le(&self, other: &Self) -> (r: bool) {
        lex_le_exec(&chars_of(self.name.as_str()), &chars_of(other.name.as_str()))
    }

    proof fn lemma_total(a: Self, b: Self) {
        lemma_lex_total(a.name@, b.name@);
    }

    proof fn lemma_transitive(a: Self, b: Self, c: Self) {
        lemma_lex_transitive(a.name@, b.name@, c.name@);
    }
}

/// The display name of a desktop entry: the first "Name=" line with its
/// leading "Name=" prefixes removed.
pub open spec fn desktop_name_spec(text: Seq<char>) -> Option<Seq<char>> {
    match first_with_prefix(lines(text), "Name="@) {
        Some(rest) => Some(trim_start_str("Name="@ + rest, "Name="@)),
        None => None,
    }
}

/// Reads a desktop entry's display name.
pub fn parse_desktop_name(text: &str) -> (r: Option<String>)
    ensures
        match r {
            Some(n) => desktop_name_spec(text@) == Some(n@),
            None => desktop_name_spec(text@) is None,
        },
{
    let ls = lines_exec(&chars_of(text));
    let prefix = chars_of("Name=");
    let n = ls.len();
    assert(views(ls@).skip(0) =~= views(ls@));
    for i in 0..n
        invariant
            n == ls@.len(),
            prefix@ == "Name="@,
            views(ls@) == lines(text@),
            first_with_prefix(lines(text@), "Name="@) == first_with_prefix(views(ls@).skip(i as int), "Name="@),
    {
        let ghost rest = views(ls@).skip(i as int);
        assert(rest[0] == ls@[i as int]@);
        assert(rest.drop_first() =~= views(ls@).skip(i + 1));
        if starts_with_exec(&ls[i], &prefix) {
            assert(ls@[i as int]@ =~= prefix@ + ls@[i as int]@.skip(prefix@.len() as int));
            return Some(string_of(&trim_start_str_exec(&ls[i], &prefix)));
        }
    }
    assert(views(ls@).skip(n as int).len() == 0);
    None
}

/// A line that disables a desktop entry.
pub open spec fn disables(l: Seq<char>) -> bool {
    trim(l) == "Hidden=true"@ || trim(l) == "X-GNOME-Autostart-enabled=false"@
}

fn disables_exec(l: &Vec<char>) -> (r: bool)
    ensures
        r == disables(l@),
{
    let t = trim_exec(l);
    chars_eq(&t, &chars_of("Hidden=true")) || chars_eq(&t, &chars_of("X-GNOME-Autostart-enabled=false"))
}

/// A desktop entry is disabled: some line, trimmed, is "Hidden=true" or
/// "X-GNOME-Autostart-enabled=false".
pub open spec fn entry_disabled(text: Seq<char>) -> bool {
    exists|k: int| 0 <= k < lines(text).len() && disables(#[trigger] lines(text)[k])
}

/// Whether a desktop entry is disabled, as `entry_disabled` says.
pub fn is_disabled(text: &str) -> (r: bool)
    ensures
        r == entry_disabled(text@),
{
    let ls = lines_exec(&chars_of(text));
    let n = ls.len();
    for i in 0..n
        invariant
            n == ls@.len(),
            views(ls@) == lines(text@),
            forall|k: int| 0 <= k < i ==> !disables(#[trigger] lines(text@)[k]),
    {
        assert(views(ls@)[i as int] == ls@[i as int]@);
        if disables_exec(&ls[i]) {
            return true;
        }
    }
    false
}

/// One candidate file of the autostart directories, user directory first:
/// its file name, its text if it could be read, and whether it lies in the
/// system-wide directory.
#[derive(Clone, Debug)]
pub struct AutostartFile {
    pub filename: String,
    pub text: Option<String>,
    pub system_wide: bool,
}

/// The entry a readable desktop file becomes.
pub open spec fn autostart_entry_ok(e: AutostartEntry, f: AutostartFile) -> bool {
    &&& f.text is Some
    &&& e.filename@ == f.filename@
    &&& e.name@ == (match desktop_name_spec(f.text->0@) {
        Some(n) => n,
        None => f.filename@,
    })
    &&& e.enabled == !(exists|k: int| 0 <= k < lines(f.text->0@).len() && disables(#[trigger] lines(f.text->0@)[k]))
    &&& e.system_wide == f.system_wide
}

/// Candidate `k` is listed: it is a ".desktop" file, no earlier candidate has
/// its name (a user file overrides the system one), and it could be read.
pub open spec fn autostart_listed(files: Seq<AutostartFile>, k: int) -> bool {
    &&& ends_with(files[k].filename@, ".desktop"@)
    &&& forall|j: int| 0 <= j < k ==> (#[trigger] files[j]).filename@ != files[k].filename@
    &&& files[k].text is Some
}

/// The entries before sorting: one per listed candidate, in candidate order.
pub open spec fn autostart_unsorted(entries: Seq<AutostartEntry>, files: Seq<AutostartFile>) -> bool {
    exists|idx: Seq<int>| {
        &&& idx.len() == entries.len()
        &&& forall|a: int, b: int| 0 <= a < b < idx.len() ==> idx[a] < idx[b]
        &&& forall|a: int| 0 <= a < idx.len() ==> 0 <= #[trigger] idx[a] < files.len() && autostart_listed(files, idx[a])
            && autostart_entry_ok(entries[a], files[idx[a]])
        &&& forall|k: int| 0 <= k < files.len() && autostart_listed(files, k) ==> idx.contains(k)
    }
}

/// Turns the autostart directories' files into the listing: every listed
/// candidate becomes an entry, and the entries are sorted by name.
pub fn autostart_listing(files: Vec<AutostartFile>) -> (r: Vec<AutostartEntry>)
    ensures
        exists|pre: Seq<AutostartEntry>| autostart_unsorted(pre, files@) && stable_sort_of(r@, pre),
{
    let suffix = chars_of(".desktop");
    let mut seen: Vec<Vec<char>> = Vec::new();
    let mut entries: Vec<AutostartEntry> = Vec::new();
    let ghost mut idx: Seq<int> = Seq::empty();
    let n = files.len();
    let mut k: usize = 0;
    while k < n
        invariant
            k <= n,
            n == files@.len(),
            suffix@ == ".desktop"@,
            idx.len() == entries@.len(),
            forall|a: int, b: int| 0 <= a < b < idx.len() ==> idx[a] < idx[b],
            forall|a: int| 0 <= a < idx.len() ==> 0 <= #[trigger] idx[a] < k && autostart_listed(files@, idx[a])
                && autostart_entry_ok(entries@[a], files@[idx[a]]),
            forall|j: int| 0 <= j < k && autostart_listed(files@, j) ==> idx.contains(j),
            forall|j: int| 0 <= j < k && ends_with(files@[j].filename@, ".desktop"@) ==> views(seen@).contains(#[trigger] files@[j].filename@),
            forall|s: int| 0 <= s < seen@.len() ==> exists|j: int| 0 <= j < k && (#[trigger] files@[j]).filename@ == (#[trigger] seen@[s])@,
        decreases n - k,
    {
        let ghost seen_before = seen@;
        let fname = chars_of(files[k].filename.as_str());
        if ends_with_exec(&fname, &suffix) {
            let mut already = false;
            let m = seen.len();
            for s in 0..m
                invariant
                    m == seen@.len(),
                    !already ==> forall|s2: int| 0 <= s2 < s ==> seen@[s2]@ != fname@,
                    already ==> views(seen@).contains(fname@),
            {
                if chars_eq(&seen[s], &fname) {
                    assert(views(seen@)[s as int] == fname@);
                    already = true;
                }
            }
            if already {
                proof {
                    let s = choose|s: int| 0 <= s < views(seen@).len() && views(seen@)[s] == fname@;
                    assert(seen@[s]@ == fname@);
                    let j = choose|j: int| 0 <= j < k && (#[trigger] files@[j]).filename@ == (#[trigger] seen@[s])@;
                    assert(!autostart_listed(files@, k as int));
                }
            } else {
                let ghost old_seen = views(seen@);
                seen.push(fname);
                proof {
                    assert(views(seen@) =~= old_seen.push(files@[k as int].filename@));
                    assert forall|j: int| 0 <= j < k implies (#[trigger] files@[j]).filename@ != files@[k as int].filename@ by {
                        if files@[j].filename@ == files@[k as int].filename@ && ends_with(files@[j].filename@, ".desktop"@) {
                            assert(old_seen.contains(files@[j].filename@));
                            let s = choose|s: int| 0 <= s < old_seen.len() && old_seen[s] == files@[j].filename@;
                            assert(seen@[s]@ == old_seen[s]);
                        }
                    }
                }
                match &files[k].text {
                    Some(text) => {
                        let name = match parse_desktop_name(text.as_str()) {
                            Some(n) => n,
                            None => files[k].filename.clone(),
                        };
                        let e = AutostartEntry {
                            filename: files[k].filename.clone(),
                            name,
                            enabled: !is_disabled(text.as_str()),
                            system_wide: files[k].system_wide,
                        };
                        entries.push(e);
                        proof {
                            idx = idx.push(k as int);
                        }
                    },
                    None => {},
                }
            }
        }
        proof {
            assert forall|s: int| 0 <= s < seen@.len() implies exists|j: int| 0 <= j < k + 1 && (#[trigger] files@[j]).filename@ == (#[trigger] seen@[s])@ by {
                if s < seen_before.len() {
                    assert(seen@[s] == seen_before[s]);
                    let j = choose|j: int| 0 <= j < k && (#[trigger] files@[j]).filename@ == (#[trigger] seen_before[s])@;
                    assert(files@[j].filename@ == seen@[s]@);
                } else {
                    assert(files@[k as int].filename@ == seen@[s]@);
                }
            }
        }
        k = k + 1;
    }
    let ghost pre = entries@;
    assert(autostart_unsorted(pre, files@));
    stable_sort(entries)
}

/// The text an autostart override starts from: the user's copy if it can be
/// read, else the system-wide one, else nothing.
pub fn autostart_base_text(user: Option<String>, system: Option<String>) -> (r: String)
    ensures
        r@ == (match user {
            Some(t) => t@,
            None => match system {
                Some(t) => t@,
                None => Seq::empty(),
            },
        }),
{
    match user {
        Some(t) => t,
        None => match system {
            Some(t) => t,
            None => String::new(),
        },
    }
}

/// The rewritten desktop entry: every disabling line dropped, "Hidden=true"
/// added when disabling, lines joined with newlines and ended by one.
pub open spec fn rewritten_entry(base: Seq<char>, enabled: bool) -> Seq<char> {
    let kept = lines(base).filter(|l: Seq<char>| !disables(l));
    let all = if enabled { kept } else { kept.push("Hidden=true"@) };
    join_lines(all) + "\n"@
}

/// Rewrites a desktop entry to enable or disable it at startup.
pub fn rewrite_autostart(base: &str, enabled: bool) -> (r: String)
    ensures
        r@ == rewritten_entry(base@, enabled),
{
    let ls = lines_exec(&chars_of(base));
    let ghost all_lines = lines(base@);
    let ghost p = |l: Seq<char>| !disables(l);
    let mut kept: Vec<Vec<char>> = Vec::new();
    let n = ls.len();
    assert(all_lines.take(0).filter(p) =~= Seq::empty()) by {
        reveal(Seq::filter);
    }
    for i in 0..n
        invariant
            n == ls@.len(),
            views(ls@) == all_lines,
            all_lines == lines(base@),
            p == (|l: Seq<char>| !disables(l)),
            views(kept@) == all_lines.take(i as int).filter(p),
    {
        assert(all_lines.take(i + 1) =~= all_lines.take(i as int).push(all_lines[i as int]));
        assert(all_lines[i as int] == ls@[i as int]@);
        proof {
            all_lines.take(i as int).lemma_filter_push(all_lines[i as int], p);
        }
        if !disables_exec(&ls[i]) {
            let ghost old_k = views(kept@);
            let line = slice_copy(&ls[i]);
            kept.push(line);
            assert(views(kept@) =~= old_k.push(line@));
        }
    }
    assert(all_lines.take(n as int) =~= all_lines);
    if !enabled {
        let ghost old_k = views(kept@);
        kept.push(chars_of("Hidden=true"));
        assert(views(kept@) =~= old_k.push("Hidden=true"@));
    }
    let mut r = String::new();
    let m = kept.len();
    for j in 0..m
        invariant
            m == kept@.len(),
            r@ == join_lines(views(kept@).take(j as int)),
    {
        let ghost pre = views(kept@).take(j as int);
        assert(views(kept@).take(j + 1) =~= pre.push(kept@[j as int]@));
        assert(pre.push(kept@[j as int]@).drop_last() =~= pre);
        if j > 0 {
            push_str(&mut r, "\n");
        } else {
            assert(pre.len() == 0);
            assert(r@ =~= Seq::<char>::empty());
        }
        push_chars(&mut r, &kept[j]);
        assert(r@ =~= join_lines(views(kept@).take(j + 1)));
    }
    assert(views(kept@).take(m as int) =~= views(kept@));
    push_str(&mut r, "\n");
    r
}

/// Enabling or disabling an autostart entry takes effect: whatever the entry
/// said before, the rewritten entry reads as disabled exactly when it was
/// disabled.
pub proof fn lemma_rewrite_sets_enabled(base: Seq<char>, enabled: bool)
    ensures
        entry_disabled(rewritten_entry(base, enabled)) == !enabled,
{
    reveal_strlit("Hidden=true");
    reveal_strlit("X-GNOME-Autostart-enabled=false");
    reveal_strlit("\n");
    let p = |l: Seq<char>| !disables(l);
    let kept = lines(base).filter(p);
    let hidden = "Hidden=true"@;
    let all = if enabled { kept } else { kept.push(hidden) };
    let text = rewritten_entry(base, enabled);
    assert(text == join_lines(all) + "\n"@);
    lemma_lines_no_newline(base);
    assert forall|k: int| 0 <= k < kept.len() implies !(#[trigger] kept[k]).contains('\n') && !disables(kept[k]) by {
        lines(base).lemma_filter_pred(p, k);
        assert(kept.contains(kept[k]));
        lines(base).lemma_filter_contains_rev(p, kept[k]);
        let j = choose|j: int| 0 <= j < lines(base).len() && lines(base)[j] == kept[k];
        assert(!lines(base)[j].contains('\n'));
    }
    assert(trim(hidden) == hidden) by {
        assert(leading_ws(hidden) == 0);
        assert(hidden.skip(0) =~= hidden);
        assert(trailing_ws(hidden) == 0);
        assert(hidden.take(hidden.len() as int) =~= hidden);
    }
    assert(disables(hidden));
    assert(!hidden.contains('\n')) by {
        if hidden.contains('\n') {
            let j = choose|j: int| 0 <= j < hidden.len() && hidden[j] == '\n';
        }
    }
    assert(!strip_cr(hidden).contains('\n') && strip_cr(hidden) == hidden);
    if all.len() == 0 {
        assert(join_lines(all) =~= Seq::<char>::empty());
        assert(text =~= seq!['\n']);
        lemma_find_char_is(text, '\n', 0);
        assert(text.take(0) =~= Seq::<char>::empty());
        assert(text.skip(1) =~= Seq::<char>::empty());
        assert(lines(Seq::<char>::empty()) =~= Seq::<Seq<char>>::empty());
        assert(strip_cr(Seq::<char>::empty()) =~= Seq::<char>::empty());
        assert(lines(text) == seq![strip_cr(text.take(0))] + lines(text.skip(1)));
        assert(lines(text) =~= seq![Seq::<char>::empty()]);
        assert(trim(Seq::<char>::empty()) =~= Seq::<char>::empty());
        assert(!disables(lines(text)[0]));
        assert(!entry_disabled(text));
    } else {
        assert forall|k: int| 0 <= k < all.len() implies !(#[trigger] all[k]).contains('\n') by {
            if k < kept.len() {
                assert(all[k] == kept[k]);
            } else {
                assert(all[k] == hidden);
            }
        }
        lemma_join_lines_terminated(all);
        lemma_lines_of_terminated(all);
        let ls = lines(text);
        assert(ls == all.map_values(|l: Seq<char>| strip_cr(l)));
        assert forall|k: int| 0 <= k < ls.len() implies disables(#[trigger] ls[k]) == disables(all[k]) by {
            assert(ls[k] == strip_cr(all[k]));
            if all[k].len() > 0 && all[k].last() == '\r' {
                lemma_trim_drop_ws(all[k]);
            }
        }
        if enabled {
            assert forall|k: int| 0 <= k < ls.len() implies !disables(#[trigger] ls[k]) by {
                assert(all[k] == kept[k]);
            }
        } else {
            let last = all.len() - 1;
            assert(all[last] == hidden);
            assert(disables(ls[last]));
        }
    }
}

fn slice_copy(v: &Vec<char>) -> (r: Vec<char>)
    ensures
        r@ == v@,
{
    let r = crate::text::slice_chars(v, 0, v.len());
    assert(r@ =~= v@);
    r
}

/// The outcome when no copy of the entry exists.
pub fn autostart_missing(filename: &str) -> (r: ActionResult)
    ensures
        !r.ok,
        r.message@ == "Could not find autostart entry "@ + filename@,
{
    let mut m = String::new();
    push_str(&mut m, "Could not find autostart entry ");
    push_str(&mut m, filename);
    err(m)
}

/// The outcome of writing the rewritten entry to `user_path`.
pub fn set_autostart_enabled(filename: &str, enabled: bool, user_path: &str, write: Result<(), String>) -> (r: ActionResult)
    ensures
        r.ok == write is Ok,
        r.message@ == (match write {
            Ok(_) => (if enabled { "Enabled"@ } else { "Disabled"@ }) + " "@ + filename@ + " at startup"@,
            Err(e) => "Failed to write "@ + user_path@ + ": "@ + e@,
        }),
{
    let mut m = String::new();
    match write {
        Ok(()) => {
            push_str(&mut m, if enabled { "Enabled" } else { "Disabled" });
            push_str(&mut m, " ");
            push_str(&mut m, filename);
            push_str(&mut m, " at startup");
            ok(m)
        },
        Err(e) => {
            push_str(&mut m, "Failed to write ");
            push_str(&mut m, user_path);
            push_str(&mut m, ": ");
            push_str(&mut m, e.as_str());
            err(m)
        },
    }
}

} // verus!
