use vstd::prelude::*;
use crate::text::{char_is_alphanumeric, chars_of, decimal, lemma_decimal_digits, lemma_decimal_injective, lemma_digits_then, is_digit, is_alphanumeric, lowercase, push_char, push_str, push_u64, to_lowercase};
use vstd::string::*;
use crate::scan::{chars_eq, lemma_find_char_is, split_char, split_char_exec, views};

verus! {

/// One reversible-or-not system action that a profile applies.
#[derive(Clone, Debug)]
pub enum Action {
    FreezeProcess { pid: u32 },
    ResumeProcess { pid: u32 },
    KillProcess { pid: u32, force: bool },
    SetCpuLimit { pid: u32, percent: u32 },
    SetMemoryLimitMb { pid: u32, mb: u64 },
    StartService { name: String },
    StopService { name: String },
    RestartService { name: String },
    StartContainer { id: String },
    StopContainer { id: String },
}

/// A named list of actions, applied in order and undone in reverse.
#[derive(Clone, Debug)]
pub struct Profile {
    pub name: String,
    pub description: String,
    pub actions: Vec<Action>,
}

/// The action that reverses `a`, where reversal is well defined: freezing and
/// resuming a process undo each other, as do starting and stopping a service
/// or a container. Kills, limits and restarts capture no prior state and have
/// no inverse.
pub open spec fn inverse_of(a: Action) -> Option<Action> {
    match a {
        Action::FreezeProcess { pid } => Some(Action::ResumeProcess { pid }),
        Action::ResumeProcess { pid } => Some(Action::FreezeProcess { pid }),
        Action::StartService { name } => Some(Action::StopService { name }),
        Action::StopService { name } => Some(Action::StartService { name }),
        Action::StartContainer { id } => Some(Action::StopContainer { id }),
        Action::StopContainer { id } => Some(Action::StartContainer { id }),
        Action::KillProcess { .. } => None,
        Action::SetCpuLimit { .. } => None,
        Action::SetMemoryLimitMb { .. } => None,
        Action::RestartService { .. } => None,
    }
}

/// The one-line, human-readable description of an action.
pub open spec fn description_of(a: Action) -> Seq<char> {
    match a {
        Action::FreezeProcess { pid } => "Freeze PID "@ + decimal(pid as nat),
        Action::ResumeProcess { pid } => "Resume PID "@ + decimal(pid as nat),
        Action::KillProcess { pid, force } => "Kill PID "@ + decimal(pid as nat) + (if force {
            " (force)"@
        } else {
            Seq::empty()
        }),
        Action::SetCpuLimit { pid, percent } => "Limit PID "@ + decimal(pid as nat) + " to "@
            + decimal(percent as nat) + "% CPU"@,
        Action::SetMemoryLimitMb { pid, mb } => "Limit PID "@ + decimal(pid as nat) + " to "@
            + decimal(mb as nat) + " MB RAM"@,
        Action::StartService { name } => "Start service "@ + name@,
        Action::StopService { name } => "Stop service "@ + name@,
        Action::RestartService { name } => "Restart service "@ + name@,
        Action::StartContainer { id } => "Start container "@ + id@,
        Action::StopContainer { id } => "Stop container "@ + id@,
    }
}

impl Action {
    /// The action that would reverse this one, where reversal is well defined.
    pub fn inverse(&self) -> (r: Option<Action>)
        ensures
            r == inverse_of(*self),
    {
        match self {
            Action::FreezeProcess { pid } => Some(Action::ResumeProcess { pid: *pid }),
            Action::ResumeProcess { pid } => Some(Action::FreezeProcess { pid: *pid }),
            Action::StartService { name } => Some(Action::StopService { name: name.clone() }),
            Action::StopService { name } => Some(Action::StartService { name: name.clone() }),
            Action::StartContainer { id } => Some(Action::StopContainer { id: id.clone() }),
            Action::StopContainer { id } => Some(Action::StartContainer { id: id.clone() }),
            Action::KillProcess { .. } => None,
            Action::SetCpuLimit { .. } => None,
            Action::SetMemoryLimitMb { .. } => None,
            Action::RestartService { .. } => None,
        }
    }

    /// A human-readable description, such as "Freeze PID 42".
    pub fn describe(&self) -> (r: String)
        ensures
            r@ == description_of(*self),
    {
        let mut s = String::new();
        match self {
            Action::FreezeProcess { pid } => {
                push_str(&mut s, "Freeze PID ");
                push_u64(&mut s, *pid as u64);
            },
            Action::ResumeProcess { pid } => {
                push_str(&mut s, "Resume PID ");
                push_u64(&mut s, *pid as u64);
            },
            Action::KillProcess { pid, force } => {
                push_str(&mut s, "Kill PID ");
                push_u64(&mut s, *pid as u64);
                if *force {
                    push_str(&mut s, " (force)");
                } else {
                    assert(s@ + Seq::<char>::empty() =~= s@);
                }
            },
            Action::SetCpuLimit { pid, percent } => {
                push_str(&mut s, "Limit PID ");
                push_u64(&mut s, *pid as u64);
                push_str(&mut s, " to ");
                push_u64(&mut s, *percent as u64);
                push_str(&mut s, "% CPU");
            },
            Action::SetMemoryLimitMb { pid, mb } => {
                push_str(&mut s, "Limit PID ");
                push_u64(&mut s, *pid as u64);
                push_str(&mut s, " to ");
                push_u64(&mut s, *mb);
                push_str(&mut s, " MB RAM");
            },
            Action::StartService { name } => {
                push_str(&mut s, "Start service ");
                push_str(&mut s, name.as_str());
            },
            Action::StopService { name } => {
                push_str(&mut s, "Stop service ");
                push_str(&mut s, name.as_str());
            },
            Action::RestartService { name } => {
                push_str(&mut s, "Restart service ");
                push_str(&mut s, name.as_str());
            },
            Action::StartContainer { id } => {
                push_str(&mut s, "Start container ");
                push_str(&mut s, id.as_str());
            },
            Action::StopContainer { id } => {
                push_str(&mut s, "Stop container ");
                push_str(&mut s, id.as_str());
            },
        }
        s
    }
}

/// Reversal is an involution: whenever an action has an inverse, the inverse
/// of that inverse is the action itself, so undoing an undo re-applies it.
pub proof fn lemma_inverse_involution(a: Action)
    requires
        inverse_of(a) is Some,
    ensures
        inverse_of(inverse_of(a)->0) == Some(a),
{
}

/// Two actions are the same: the same kind, with the same process id,
/// limits, force flag and service or container name.
pub open spec fn same_action(a: Action, b: Action) -> bool {
    match (a, b) {
        (Action::FreezeProcess { pid: p }, Action::FreezeProcess { pid: q }) => p == q,
        (Action::ResumeProcess { pid: p }, Action::ResumeProcess { pid: q }) => p == q,
        (Action::KillProcess { pid: p, force: f }, Action::KillProcess { pid: q, force: g }) => p == q && f == g,
        (Action::SetCpuLimit { pid: p, percent: x }, Action::SetCpuLimit { pid: q, percent: y }) => p == q && x == y,
        (Action::SetMemoryLimitMb { pid: p, mb: x }, Action::SetMemoryLimitMb { pid: q, mb: y }) => p == q && x == y,
        (Action::StartService { name: n }, Action::StartService { name: m }) => n@ == m@,
        (Action::StopService { name: n }, Action::StopService { name: m }) => n@ == m@,
        (Action::RestartService { name: n }, Action::RestartService { name: m }) => n@ == m@,
        (Action::StartContainer { id: n }, Action::StartContainer { id: m }) => n@ == m@,
        (Action::StopContainer { id: n }, Action::StopContainer { id: m }) => n@ == m@,
        _ => false,
    }
}

/// The kind of action a description is of, read from the letters that tell
/// the descriptions apart (both kinds of limit read as one).
spec fn description_kind(d: Seq<char>) -> int {
    if d[0] == 'F' {
        0
    } else if d[0] == 'K' {
        2
    } else if d[0] == 'L' {
        3
    } else if d[0] == 'R' {
        if d[3] == 'u' { 1 } else { 6 }
    } else if d[2] == 'a' {
        if d[6] == 's' { 4 } else { 7 }
    } else {
        if d[5] == 's' { 5 } else { 8 }
    }
}

spec fn action_kind(a: Action) -> int {
    match a {
        Action::FreezeProcess { .. } => 0,
        Action::ResumeProcess { .. } => 1,
        Action::KillProcess { .. } => 2,
        Action::SetCpuLimit { .. } => 3,
        Action::SetMemoryLimitMb { .. } => 3,
        Action::StartService { .. } => 4,
        Action::StopService { .. } => 5,
        Action::RestartService { .. } => 6,
        Action::StartContainer { .. } => 7,
        Action::StopContainer { .. } => 8,
    }
}

proof fn lemma_description_kind(a: Action)
    ensures
        description_kind(description_of(a)) == action_kind(a),
{
    reveal_strlit("Freeze PID ");
    reveal_strlit("Resume PID ");
    reveal_strlit("Kill PID ");
    reveal_strlit("Limit PID ");
    reveal_strlit("Start service ");
    reveal_strlit("Stop service ");
    reveal_strlit("Restart service ");
    reveal_strlit("Start container ");
    reveal_strlit("Stop container ");
}

proof fn lemma_strip_prefix(p: Seq<char>, x: Seq<char>, y: Seq<char>)
    requires
        p + x == p + y,
    ensures
        x == y,
{
    assert(x =~= (p + x).skip(p.len() as int));
    assert(y =~= (p + y).skip(p.len() as int));
}

/// Descriptions tell actions apart: two actions with the same description are
/// the same action.
pub proof fn lemma_describe_injective(a: Action, b: Action)
    requires
        description_of(a) == description_of(b),
    ensures
        same_action(a, b),
{
    reveal_strlit(" (force)");
    reveal_strlit(" to ");
    reveal_strlit("% CPU");
    reveal_strlit(" MB RAM");
    lemma_description_kind(a);
    lemma_description_kind(b);
    let d = description_of(a);
    match (a, b) {
        (Action::FreezeProcess { pid: p }, Action::FreezeProcess { pid: q }) => {
            lemma_strip_prefix("Freeze PID "@, decimal(p as nat), decimal(q as nat));
            lemma_decimal_injective(p as nat, q as nat);
        },
        (Action::ResumeProcess { pid: p }, Action::ResumeProcess { pid: q }) => {
            lemma_strip_prefix("Resume PID "@, decimal(p as nat), decimal(q as nat));
            lemma_decimal_injective(p as nat, q as nat);
        },
        (Action::KillProcess { pid: p, force: f }, Action::KillProcess { pid: q, force: g }) => {
            let sf = if f { " (force)"@ } else { Seq::<char>::empty() };
            let sg = if g { " (force)"@ } else { Seq::<char>::empty() };
            assert(d =~= "Kill PID "@ + (decimal(p as nat) + sf));
            assert(description_of(b) =~= "Kill PID "@ + (decimal(q as nat) + sg));
            lemma_strip_prefix("Kill PID "@, decimal(p as nat) + sf, decimal(q as nat) + sg);
            lemma_decimal_digits(p as nat);
            lemma_decimal_digits(q as nat);
            lemma_digits_then(decimal(p as nat), sf, decimal(q as nat), sg);
            lemma_decimal_injective(p as nat, q as nat);
        },
        (Action::StartService { name: n }, Action::StartService { name: m }) => {
            lemma_strip_prefix("Start service "@, n@, m@);
        },
        (Action::StopService { name: n }, Action::StopService { name: m }) => {
            lemma_strip_prefix("Stop service "@, n@, m@);
        },
        (Action::RestartService { name: n }, Action::RestartService { name: m }) => {
            lemma_strip_prefix("Restart service "@, n@, m@);
        },
        (Action::StartContainer { id: n }, Action::StartContainer { id: m }) => {
            lemma_strip_prefix("Start container "@, n@, m@);
        },
        (Action::StopContainer { id: n }, Action::StopContainer { id: m }) => {
            lemma_strip_prefix("Stop container "@, n@, m@);
        },
        _ => {
            if action_kind(a) == 3 {
                lemma_limit_descriptions(a, b);
            }
        },
    }
}

/// The text of a limit: the process id, the limit, and what follows the limit.
spec fn limit_text(p: nat, x: nat, tail: Seq<char>) -> Seq<char> {
    "Limit PID "@ + decimal(p) + " to "@ + decimal(x) + tail
}

proof fn lemma_limit_text(p: nat, x: nat, tx: Seq<char>, q: nat, y: nat, ty: Seq<char>)
    requires
        limit_text(p, x, tx) == limit_text(q, y, ty),
        tx.len() > 0 && !is_digit(tx[0]),
        ty.len() > 0 && !is_digit(ty[0]),
    ensures
        p == q,
        x == y,
        tx == ty,
{
    reveal_strlit(" to ");
    assert(limit_text(p, x, tx) =~= "Limit PID "@ + (decimal(p) + (" to "@ + (decimal(x) + tx))));
    assert(limit_text(q, y, ty) =~= "Limit PID "@ + (decimal(q) + (" to "@ + (decimal(y) + ty))));
    lemma_strip_prefix("Limit PID "@, decimal(p) + (" to "@ + (decimal(x) + tx)), decimal(q) + (" to "@ + (decimal(y) + ty)));
    lemma_decimal_digits(p);
    lemma_decimal_digits(q);
    lemma_digits_then(decimal(p), " to "@ + (decimal(x) + tx), decimal(q), " to "@ + (decimal(y) + ty));
    lemma_decimal_injective(p, q);
    lemma_strip_prefix(" to "@, decimal(x) + tx, decimal(y) + ty);
    lemma_decimal_digits(x);
    lemma_decimal_digits(y);
    lemma_digits_then(decimal(x), tx, decimal(y), ty);
    lemma_decimal_injective(x, y);
}

/// The two kinds of limit are told apart by what follows the limit's number.
proof fn lemma_limit_descriptions(a: Action, b: Action)
    requires
        description_of(a) == description_of(b),
        action_kind(a) == 3,
        action_kind(b) == 3,
    ensures
        same_action(a, b),
{
    reveal_strlit("% CPU");
    reveal_strlit(" MB RAM");
    let cpu = "% CPU"@;
    let ram = " MB RAM"@;
    assert(cpu[0] == '%' && ram[0] == ' ');
    match a {
        Action::SetCpuLimit { pid: p, percent: x } => match b {
            Action::SetCpuLimit { pid: q, percent: y } => {
                assert(description_of(a) == limit_text(p as nat, x as nat, cpu));
                assert(description_of(b) == limit_text(q as nat, y as nat, cpu));
                lemma_limit_text(p as nat, x as nat, cpu, q as nat, y as nat, cpu);
            },
            Action::SetMemoryLimitMb { pid: q, mb: y } => {
                assert(description_of(a) == limit_text(p as nat, x as nat, cpu));
                assert(description_of(b) == limit_text(q as nat, y as nat, ram));
                lemma_limit_text(p as nat, x as nat, cpu, q as nat, y as nat, ram);
            },
            _ => {},
        },
        Action::SetMemoryLimitMb { pid: p, mb: x } => match b {
            Action::SetCpuLimit { pid: q, percent: y } => {
                assert(description_of(a) == limit_text(p as nat, x as nat, ram));
                assert(description_of(b) == limit_text(q as nat, y as nat, cpu));
                lemma_limit_text(p as nat, x as nat, ram, q as nat, y as nat, cpu);
            },
            Action::SetMemoryLimitMb { pid: q, mb: y } => {
                assert(description_of(a) == limit_text(p as nat, x as nat, ram));
                assert(description_of(b) == limit_text(q as nat, y as nat, ram));
                lemma_limit_text(p as nat, x as nat, ram, q as nat, y as nat, ram);
            },
            _ => {},
        },
        _ => {},
    }
}

/// An action has an inverse exactly when it is a freeze, resume, service
/// start or stop, or container start or stop.
pub proof fn lemma_inverse_defined(a: Action)
    ensures
        inverse_of(a) is Some <==> (a is FreezeProcess || a is ResumeProcess || a is StartService
            || a is StopService || a is StartContainer || a is StopContainer),
{
}

} // verus!

verus! {

/// A lowercased name as a file-name stem: every character that is not
/// alphanumeric replaced by `-`.
pub open spec fn stem_of_lowercased(lower: Seq<char>) -> Seq<char> {
    lower.map_values(|c: char| if is_alphanumeric(c) { c } else { '-' })
}

/// The file-name stem of a profile: its name lowercased, with every character
/// that is not alphanumeric replaced by `-`.
pub open spec fn slug_of(name: Seq<char>) -> Seq<char> {
    stem_of_lowercased(lowercase(name))
}

/// Turns an already lowercased name into a file-name stem, as
/// `stem_of_lowercased` says; the stem holds no `.`, `/` or space.
pub fn stem_from_lowercased(lower: &str) -> (r: String)
    ensures
        r@ == stem_of_lowercased(lower@),
        !r@.contains('.'),
        !r@.contains('/'),
        !r@.contains(' '),
{
    let chars = chars_of(lower);
    let ghost target = stem_of_lowercased(lower@);
    let mut r = String::new();
    let n = chars.len();
    for i in 0..n
        invariant
            n == chars@.len(),
            chars@ == lower@,
            target == stem_of_lowercased(lower@),
            r@ == target.take(i as int),
            forall|j: int| 0 <= j < r@.len() ==> r@[j] != '.' && r@[j] != '/' && r@[j] != ' ',
    {
        let c = chars[i];
        let out = if char_is_alphanumeric(c) { c } else { '-' };
        push_char(&mut r, out);
        assert(r@ =~= target.take(i + 1));
    }
    assert(target.take(n as int) =~= target);
    r
}

/// Turns a profile name into a file-name stem, as `slug_of` says.
pub fn slugify(name: &str) -> (r: String)
    ensures
        r@ == slug_of(name@),
        !r@.contains('.'),
        !r@.contains('/'),
        !r@.contains(' '),
{
    let lower = to_lowercase(name);
    stem_from_lowercased(lower.as_str())
}

/// The file a profile is saved to, inside the profiles directory; its stem
/// holds no `/`, so the file stays inside that directory.
pub fn profile_file_name(name: &str) -> (r: String)
    ensures
        r@ == slug_of(name@) + ".toml"@,
        !slug_of(name@).contains('.'),
        !slug_of(name@).contains('/'),
        slug_of(name@).len() > 0 ==> extension_of(r@) == Some("toml"@),
{
    let mut r = slugify(name);
    push_str(&mut r, ".toml");
    proof {
        if slug_of(name@).len() > 0 {
            lemma_saved_profile_is_listed(slug_of(name@));
        }
    }
    r
}

/// A saved profile is found again: the file a profile with a non-empty stem
/// is saved to has the extension that marks profile files.
pub proof fn lemma_saved_profile_is_listed(stem: Seq<char>)
    requires
        stem.len() > 0,
        !stem.contains('.'),
    ensures
        extension_of(stem + ".toml"@) == Some("toml"@),
{
    reveal_strlit(".toml");
    reveal_strlit("toml");
    reveal_strlit("..");
    let s = stem + ".toml"@;
    assert forall|j: int| 0 <= j < stem.len() implies s[j] != '.' by {
        if s[j] == '.' {
            assert(stem[j] == '.');
            assert(stem.contains('.'));
        }
    }
    lemma_find_char_is(s, '.', stem.len() as int);
    assert(s.take(stem.len() as int) =~= stem);
    assert(s.skip(stem.len() as int + 1) =~= "toml"@);
    lemma_find_char_is("toml"@, '.', 4);
    assert(split_char("toml"@, '.') =~= seq!["toml"@]);
    assert(split_char(s, '.') =~= seq![stem, "toml"@]);
}

/// The profile that is written when no profile exists yet.
pub open spec fn is_focus_profile(p: Profile) -> bool {
    &&& p.name@ == "Focus Mode"@
    &&& p.description@ == "Freeze processes you name to cut background distraction/CPU noise. Fully reversible."@
    &&& p.actions@.len() == 0
}

/// Given the profiles already saved, the default profile to save: the empty
/// "Focus Mode" profile when there are none, nothing otherwise.
pub fn ensure_default_profiles(existing: &Vec<Profile>) -> (r: Option<Profile>)
    ensures
        r is Some <==> existing@.len() == 0,
        r matches Some(p) ==> is_focus_profile(p),
{
    if existing.len() > 0 {
        return None;
    }
    Some(Profile {
        name: String::from_str("Focus Mode"),
        description: String::from_str(
            "Freeze processes you name to cut background distraction/CPU noise. Fully reversible.",
        ),
        actions: Vec::new(),
    })
}

/// The result of one step of applying or undoing a profile.
#[derive(Clone, Debug)]
pub struct ActionOutcome {
    pub description: String,
    pub ok: bool,
    pub message: String,
}

/// One step of a profile run: either already decided, or an action to run
/// whose outcome is then built by `outcome_of`.
#[derive(Clone, Debug)]
pub enum PlannedStep {
    Decided(ActionOutcome),
    Run { description: String, action: Action },
}

/// The outcome of running an action described by `description`.
pub fn outcome_of(description: String, result: Result<String, String>) -> (r: ActionOutcome)
    ensures
        r.description@ == description@,
        r.ok == result is Ok,
        r.message@ == (match result {
            Ok(m) => m@,
            Err(e) => e@,
        }),
{
    match result {
        Ok(m) => ActionOutcome { description, ok: true, message: m },
        Err(e) => ActionOutcome { description, ok: false, message: e },
    }
}

/// What step `k` of applying a profile is, for the action `a`.
pub open spec fn apply_step_ok(step: PlannedStep, a: Action, dry_run: bool) -> bool {
    if dry_run {
        step matches PlannedStep::Decided(o) && o.description@ == description_of(a) && o.ok
            && o.message@ == "(dry run — not executed)"@
    } else {
        step matches PlannedStep::Run { description, action } && description@ == description_of(a)
            && action == a
    }
}

/// The steps of applying a profile: one per action, in order. A dry run
/// decides every step as a success without running anything.
pub fn plan_apply(actions: Vec<Action>, dry_run: bool) -> (r: Vec<PlannedStep>)
    ensures
        r@.len() == actions@.len(),
        forall|k: int| 0 <= k < r@.len() ==> apply_step_ok(#[trigger] r@[k], actions@[k], dry_run),
{
    let ghost orig = actions@;
    let mut actions = actions;
    let mut rev: Vec<PlannedStep> = Vec::new();
    while actions.len() > 0
        invariant
            actions@.len() + rev@.len() == orig.len(),
            actions@ == orig.take(actions@.len() as int),
            forall|k: int| 0 <= k < rev@.len() ==> apply_step_ok(#[trigger] rev@[k], orig[orig.len() - 1 - k], dry_run),
        decreases actions@.len(),
    {
        let a = actions.pop().unwrap();
        let description = a.describe();
        let step = if dry_run {
            PlannedStep::Decided(ActionOutcome {
                description,
                ok: true,
                message: String::from_str("(dry run — not executed)"),
            })
        } else {
            PlannedStep::Run { description, action: a }
        };
        rev.push(step);
        assert(actions@ =~= orig.take(actions@.len() as int));
    }
    let mut r: Vec<PlannedStep> = Vec::new();
    while rev.len() > 0
        invariant
            rev@.len() + r@.len() == orig.len(),
            forall|k: int| 0 <= k < rev@.len() ==> apply_step_ok(#[trigger] rev@[k], orig[orig.len() - 1 - k], dry_run),
            forall|k: int| 0 <= k < r@.len() ==> apply_step_ok(#[trigger] r@[k], orig[k], dry_run),
        decreases rev@.len(),
    {
        let step = rev.pop().unwrap();
        r.push(step);
    }
    r
}

/// What step `k` of undoing a profile is, for the action `a` it reverses.
pub open spec fn undo_step_ok(step: PlannedStep, a: Action) -> bool {
    match inverse_of(a) {
        Some(inv) => step matches PlannedStep::Run { description, action }
            && description@ == description_of(inv) && action == inv,
        None => step matches PlannedStep::Decided(o) && o.description@ == description_of(a) && !o.ok
            && o.message@ == "No safe inverse for this action — skipped"@,
    }
}

/// The steps of undoing a profile: the actions in reverse order, each replaced
/// by its inverse; an action without an inverse is skipped and reported as failed.
pub fn plan_undo(actions: Vec<Action>) -> (r: Vec<PlannedStep>)
    ensures
        r@.len() == actions@.len(),
        forall|k: int|
            0 <= k < r@.len() ==> undo_step_ok(#[trigger] r@[k], actions@[actions@.len() - 1 - k]),
{
    let ghost orig = actions@;
    let mut actions = actions;
    let mut r: Vec<PlannedStep> = Vec::new();
    while actions.len() > 0
        invariant
            actions@.len() + r@.len() == orig.len(),
            actions@ == orig.take(actions@.len() as int),
            forall|k: int| 0 <= k < r@.len() ==> undo_step_ok(#[trigger] r@[k], orig[orig.len() - 1 - k]),
        decreases actions@.len(),
    {
        let a = actions.pop().unwrap();
        let step = match a.inverse() {
            Some(inv) => {
                let description = inv.describe();
                PlannedStep::Run { description, action: inv }
            },
            None => PlannedStep::Decided(ActionOutcome {
                description: a.describe(),
                ok: false,
                message: String::from_str("No safe inverse for this action — skipped"),
            }),
        };
        r.push(step);
        assert(actions@ =~= orig.take(actions@.len() as int));
    }
    r
}

/// Undoing a profile reverses applying it: step `k` of the undo plan deals
/// with the action that step `n - 1 - k` of the apply plan runs. When that
/// action has an inverse, the undo step runs it, and undoing the undo step's
/// action would run the applied action again; otherwise the undo step is a
/// reported failure that runs nothing.
pub proof fn lemma_undo_reverses_apply(
    actions: Seq<Action>,
    applied: Seq<PlannedStep>,
    undone: Seq<PlannedStep>,
    k: int,
)
    requires
        applied.len() == actions.len(),
        undone.len() == actions.len(),
        forall|j: int| 0 <= j < applied.len() ==> apply_step_ok(#[trigger] applied[j], actions[j], false),
        forall|j: int| 0 <= j < undone.len() ==> undo_step_ok(#[trigger] undone[j], actions[actions.len() - 1 - j]),
        0 <= k < actions.len(),
    ensures
        applied[actions.len() - 1 - k] is Run,
        inverse_of(applied[actions.len() - 1 - k]->action) is Some ==> {
            &&& undone[k] is Run
            &&& Some(undone[k]->action) == inverse_of(applied[actions.len() - 1 - k]->action)
            &&& inverse_of(undone[k]->action) == Some(applied[actions.len() - 1 - k]->action)
        },
        inverse_of(applied[actions.len() - 1 - k]->action) is None ==> (undone[k] is Decided && !undone[k]->0.ok),
{
    let i = actions.len() - 1 - k;
    assert(apply_step_ok(applied[i], actions[i], false));
    assert(undo_step_ok(undone[k], actions[actions.len() - 1 - k]));
    if inverse_of(actions[i]) is Some {
        lemma_inverse_involution(actions[i]);
    }
}

/// The audit-log label of a profile run: `prefix` then the profile's name.
pub fn run_label(prefix: &str, profile_name: &str) -> (r: String)
    ensures
        r@ == prefix@ + ":"@ + profile_name@,
{
    let mut r = String::new();
    push_str(&mut r, prefix);
    push_str(&mut r, ":");
    push_str(&mut r, profile_name);
    r
}

} // verus!

verus! {

/// The extension of a file name, as `Path::extension` gives it: the part after
/// the last `.`, unless that dot begins the name (or there is none, or the
/// name is "..").
pub open spec fn extension_of(file_name: Seq<char>) -> Option<Seq<char>> {
    let parts = split_char(file_name, '.');
    if file_name == ".."@ || parts.len() < 2 || file_name.len() == parts.last().len() + 1 {
        None
    } else {
        Some(parts.last())
    }
}

/// A file in the profiles directory is read as a profile when its extension is "toml".
pub fn is_profile_file(file_name: &str) -> (r: bool)
    ensures
        r == (extension_of(file_name@) == Some("toml"@)),
{
    let v = chars_of(file_name);
    if chars_eq(&v, &chars_of("..")) {
        return false;
    }
    let parts = split_char_exec(&v, '.');
    let last_len = parts[parts.len() - 1].len();
    assert(views(parts@).last() == parts@[parts@.len() - 1]@);
    if parts.len() < 2 || (last_len < v.len() && v.len() - last_len == 1) {
        return false;
    }
    chars_eq(&parts[parts.len() - 1], &chars_of("toml"))
}

} // verus!
