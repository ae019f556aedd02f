use trace::profiles::{
    ensure_default_profiles, is_profile_file, outcome_of, plan_apply, plan_undo, profile_file_name, run_label,
    slugify, stem_from_lowercased, Action, PlannedStep, Profile,
};

fn all_actions() -> Vec<Action> {
    vec![
        Action::FreezeProcess { pid: 42 },
        Action::ResumeProcess { pid: 42 },
        Action::KillProcess { pid: 7, force: true },
        Action::KillProcess { pid: 7, force: false },
        Action::SetCpuLimit { pid: 9, percent: 25 },
        Action::SetMemoryLimitMb { pid: 9, mb: 512 },
        Action::StartService { name: "sshd.service".to_string() },
        Action::StopService { name: "sshd.service".to_string() },
        Action::RestartService { name: "cups.service".to_string() },
        Action::StartContainer { id: "abc123".to_string() },
        Action::StopContainer { id: "abc123".to_string() },
    ]
}

#[test]
fn describes_every_action() {
    let expected = [
        "Freeze PID 42",
        "Resume PID 42",
        "Kill PID 7 (force)",
        "Kill PID 7",
        "Limit PID 9 to 25% CPU",
        "Limit PID 9 to 512 MB RAM",
        "Start service sshd.service",
        "Stop service sshd.service",
        "Restart service cups.service",
        "Start container abc123",
        "Stop container abc123",
    ];
    for (a, e) in all_actions().iter().zip(expected) {
        assert_eq!(a.describe(), e);
    }
}

#[test]
fn inverse_pairs_and_missing_inverses() {
    assert!(matches!(Action::FreezeProcess { pid: 3 }.inverse(), Some(Action::ResumeProcess { pid: 3 })));
    assert!(matches!(Action::ResumeProcess { pid: 3 }.inverse(), Some(Action::FreezeProcess { pid: 3 })));
    match (Action::StartService { name: "a".to_string() }).inverse() {
        Some(Action::StopService { name }) => assert_eq!(name, "a"),
        _ => panic!("start service should invert to stop service"),
    }
    match (Action::StopContainer { id: "c".to_string() }).inverse() {
        Some(Action::StartContainer { id }) => assert_eq!(id, "c"),
        _ => panic!("stop container should invert to start container"),
    }
    assert!(Action::KillProcess { pid: 1, force: false }.inverse().is_none());
    assert!(Action::SetCpuLimit { pid: 1, percent: 5 }.inverse().is_none());
    assert!(Action::SetMemoryLimitMb { pid: 1, mb: 5 }.inverse().is_none());
    assert!(Action::RestartService { name: "x".to_string() }.inverse().is_none());
}

#[test]
fn inverse_of_inverse_is_the_action() {
    for a in all_actions() {
        if let Some(inv) = a.inverse() {
            let back = inv.inverse().expect("an inverse is reversible");
            assert_eq!(back.describe(), a.describe());
        }
    }
}

#[test]
fn slugs_are_lowercase_with_dashes() {
    assert_eq!(slugify("Focus Mode"), "focus-mode");
    assert_eq!(slugify("Dev Env #2"), "dev-env--2");
    assert_eq!(slugify("ÉTÉ"), "été");
    assert_eq!(profile_file_name("Night Owl"), "night-owl.toml");
}

#[test]
fn default_profile_only_when_none_exist() {
    let p = ensure_default_profiles(&Vec::new()).expect("a default profile");
    assert_eq!(p.name, "Focus Mode");
    assert_eq!(
        p.description,
        "Freeze processes you name to cut background distraction/CPU noise. Fully reversible."
    );
    assert!(p.actions.is_empty());
    let existing = vec![Profile { name: "x".to_string(), description: String::new(), actions: vec![] }];
    assert!(ensure_default_profiles(&existing).is_none());
}

#[test]
fn dry_run_decides_every_step() {
    let steps = plan_apply(all_actions(), true);
    assert_eq!(steps.len(), 11);
    for (s, a) in steps.iter().zip(all_actions()) {
        match s {
            PlannedStep::Decided(o) => {
                assert!(o.ok);
                assert_eq!(o.message, "(dry run — not executed)");
                assert_eq!(o.description, a.describe());
            }
            PlannedStep::Run { .. } => panic!("a dry run runs nothing"),
        }
    }
}

#[test]
fn apply_runs_actions_in_order() {
    let steps = plan_apply(all_actions(), false);
    let descs: Vec<String> = steps
        .iter()
        .map(|s| match s {
            PlannedStep::Run { description, action } => {
                assert_eq!(description, &action.describe());
                description.clone()
            }
            PlannedStep::Decided(_) => panic!("a real run decides nothing up front"),
        })
        .collect();
    let expected: Vec<String> = all_actions().iter().map(|a| a.describe()).collect();
    assert_eq!(descs, expected);
}

#[test]
fn undo_reverses_order_and_skips_irreversible() {
    let actions = vec![
        Action::FreezeProcess { pid: 10 },
        Action::KillProcess { pid: 11, force: false },
        Action::StartService { name: "web.service".to_string() },
    ];
    let steps = plan_undo(actions);
    assert_eq!(steps.len(), 3);
    match &steps[0] {
        PlannedStep::Run { description, .. } => assert_eq!(description, "Stop service web.service"),
        _ => panic!("first undo step stops the service"),
    }
    match &steps[1] {
        PlannedStep::Decided(o) => {
            assert!(!o.ok);
            assert_eq!(o.description, "Kill PID 11");
            assert_eq!(o.message, "No safe inverse for this action — skipped");
        }
        _ => panic!("a kill cannot be undone"),
    }
    match &steps[2] {
        PlannedStep::Run { description, action } => {
            assert_eq!(description, "Resume PID 10");
            assert!(matches!(action, Action::ResumeProcess { pid: 10 }));
        }
        _ => panic!("last undo step resumes the process"),
    }
}

#[test]
fn outcome_and_label() {
    let o = outcome_of("d".to_string(), Err("boom".to_string()));
    assert!(!o.ok);
    assert_eq!(o.message, "boom");
    let o = outcome_of("d".to_string(), Ok("fine".to_string()));
    assert!(o.ok);
    assert_eq!(o.message, "fine");
    assert_eq!(run_label("undo", "Focus Mode"), "undo:Focus Mode");
}

#[test]
fn profile_files_have_toml_extension() {
    assert!(is_profile_file("focus-mode.toml"));
    assert!(is_profile_file("a.b.toml"));
    assert!(!is_profile_file(".toml"));
    assert!(!is_profile_file("notes.txt"));
    assert!(!is_profile_file("toml"));
    assert!(!is_profile_file("x.toml.bak"));
}

#[test]
fn saved_profiles_are_listed_again() {
    for name in ["Focus Mode", "Gaming!", "v1.2 release", "ÄÖ Ü"] {
        let file = profile_file_name(name);
        assert!(!file.trim_end_matches(".toml").contains('.'));
        assert!(is_profile_file(&file), "{file}");
    }
    assert_eq!(profile_file_name("v1.2 release"), "v1-2-release.toml");
    assert_eq!(profile_file_name(""), ".toml");
    assert!(!is_profile_file(&profile_file_name("")));
}

#[test]
fn undoing_an_apply_runs_the_inverses_backwards() {
    let actions = vec![
        Action::FreezeProcess { pid: 7 },
        Action::StartContainer { id: "abc".to_string() },
    ];
    let applied = plan_apply(actions.clone(), false);
    let undone = plan_undo(actions);
    let n = applied.len();
    for k in 0..n {
        let PlannedStep::Run { action: ran, .. } = &applied[n - 1 - k] else { panic!("apply runs every action") };
        let PlannedStep::Run { action: reversed, .. } = &undone[k] else { panic!("both actions are reversible") };
        assert_eq!(format!("{:?}", reversed.inverse()), format!("{:?}", Some(ran.clone())));
    }
}

#[test]
fn different_actions_are_described_differently() {
    let mut actions = all_actions();
    actions.push(Action::KillProcess { pid: 11, force: true });
    actions.push(Action::SetCpuLimit { pid: 1, percent: 12 });
    actions.push(Action::SetMemoryLimitMb { pid: 1, mb: 12 });
    actions.push(Action::SetCpuLimit { pid: 11, percent: 2 });
    let descs: Vec<String> = actions.iter().map(|a| a.describe()).collect();
    for i in 0..descs.len() {
        for j in 0..descs.len() {
            if i != j {
                assert_ne!(descs[i], descs[j], "{:?} / {:?}", actions[i], actions[j]);
            }
        }
    }
}

#[test]
fn profile_file_names_stay_in_the_folder() {
    assert_eq!(profile_file_name("../etc/passwd"), "---etc-passwd.toml");
    assert!(!slugify("a/b c.d").contains(['/', ' ', '.']));
}

#[test]
fn lowercased_names_become_stems() {
    assert_eq!(stem_from_lowercased("focus mode"), "focus-mode");
    assert_eq!(stem_from_lowercased("a b/c.d_9"), "a-b-c-d-9");
    assert_eq!(stem_from_lowercased("ärger"), "ärger");
    assert_eq!(stem_from_lowercased(""), "");
}
