use trace::projects::{
    activity, commit_count, count_dependencies, count_todos, dependency_count_from, days_since_commit, detect_languages, du_total, is_hidden,
    marker_file_exec, project_info,
};

fn s(x: &str) -> Option<String> {
    Some(x.to_string())
}

#[test]
fn languages_from_markers() {
    assert_eq!(marker_file_exec(0), "Cargo.toml");
    assert_eq!(marker_file_exec(6), "Gemfile");
    assert_eq!(detect_languages(&vec![true, false, true, true, false, false, false]), vec!["Rust", "Python"]);
    assert_eq!(
        detect_languages(&vec![false, true, false, false, true, true, true]),
        vec!["JavaScript/TypeScript", "Go", "Java", "Ruby"]
    );
    assert!(detect_languages(&vec![false; 7]).is_empty());
}

#[test]
fn todo_totals() {
    assert_eq!(count_todos("src/a.rs:3\nsrc/b.rs:4\nweird\n"), 7);
    assert_eq!(count_todos("C:/x:2\n"), 2);
    assert_eq!(count_todos(""), 0);
}

#[test]
fn dependencies_from_package_json() {
    let pkg = r#"{"name":"x","dependencies":{"a":"1","b":"2"},"devDependencies":{"c":"3"}}"#;
    assert_eq!(count_dependencies(s(pkg), s("flask\n"), None), Some(3));
    let only_dev = r#"{"devDependencies":{"c":"3"},"dependencies":[]}"#;
    assert_eq!(count_dependencies(s(only_dev), None, None), Some(1));
    assert_eq!(count_dependencies(s("{}"), None, None), Some(0));
}

#[test]
fn dependencies_fall_back_to_requirements_and_cargo() {
    assert_eq!(count_dependencies(s("not json"), s("flask\n# pinned\n\n  requests==2\n"), None), Some(2));
    let cargo = "[package]\nname = \"x\"\n\n[dependencies]\nserde = \"1\"\ntoml = \"0.8\"\n# note = here\n\n[dependencies.foo]\nversion = \"1\"\n[dev-dependencies]\nx = \"1\"\n";
    assert_eq!(count_dependencies(None, None, s(cargo)), Some(3));
    assert_eq!(count_dependencies(None, None, None), None);
}

#[test]
fn git_figures() {
    assert_eq!(commit_count(s("42")), 42);
    assert_eq!(commit_count(s("x")), 0);
    assert_eq!(commit_count(None), 0);
    assert_eq!(days_since_commit(1_000_000, s("740800")), Some(3));
    assert_eq!(days_since_commit(0, s("86401")), Some(-1));
    assert_eq!(days_since_commit(0, s("-86400")), Some(1));
    assert_eq!(days_since_commit(0, s("soon")), None);
    assert_eq!(days_since_commit(0, None), None);
}

#[test]
fn activity_levels() {
    assert_eq!(activity(true, Some(0)), "active");
    assert_eq!(activity(true, Some(7)), "active");
    assert_eq!(activity(true, Some(8)), "dormant");
    assert_eq!(activity(true, Some(60)), "dormant");
    assert_eq!(activity(true, Some(61)), "abandoned");
    assert_eq!(activity(true, None), "dormant");
    assert_eq!(activity(false, Some(1)), "no_git");
}

#[test]
fn disk_usage_and_hidden() {
    assert_eq!(du_total(s("12345\t/home/x")), 12345);
    assert_eq!(du_total(s("")), 0);
    assert_eq!(du_total(None), 0);
    assert!(is_hidden(".cache"));
    assert!(!is_hidden("trace"));
}

#[test]
fn project_info_without_git_ignores_git_output() {
    let p = project_info(
        "demo".to_string(),
        "/p/demo".to_string(),
        &vec![true, false, false, false, false, false, false],
        false,
        s("99"),
        s("0"),
        1_000,
        s("a.rs:2\n"),
        s("4096 /p/demo"),
        None,
        None,
        s("[dependencies]\nserde = \"1\"\n"),
    );
    assert_eq!(p.name, "demo");
    assert_eq!(p.languages, vec!["Rust"]);
    assert_eq!(p.commit_count, 0);
    assert_eq!(p.last_commit_days_ago, None);
    assert_eq!(p.todo_count, 2);
    assert_eq!(p.disk_bytes, 4096);
    assert_eq!(p.dependency_count, Some(1));
    assert_eq!(p.activity, "no_git");
    let q = project_info(
        "g".to_string(),
        "/p/g".to_string(),
        &vec![false; 7],
        true,
        s("12"),
        s("1000"),
        1_000 + 86_400 * 10,
        None,
        None,
        None,
        None,
        None,
    );
    assert_eq!(q.commit_count, 12);
    assert_eq!(q.last_commit_days_ago, Some(10));
    assert_eq!(q.activity, "dormant");
    assert_eq!(q.todo_count, 0);
    assert_eq!(q.dependency_count, None);
}

#[test]
fn dependency_count_from_parsed_sizes() {
    assert_eq!(dependency_count_from(Some((Some(3), Some(2))), None, None), Some(5));
    assert_eq!(dependency_count_from(Some((None, Some(4))), Some("a\nb\n".to_string()), None), Some(4));
    assert_eq!(dependency_count_from(Some((None, None)), None, None), Some(0));
    assert_eq!(dependency_count_from(None, Some("a\n# c\n\nb\n".to_string()), None), Some(2));
    assert_eq!(
        dependency_count_from(None, None, Some("[package]\nname = \"x\"\n[dependencies]\nserde = \"1\"\n".to_string())),
        Some(1)
    );
    assert_eq!(dependency_count_from(None, None, None), None);
    assert_eq!(dependency_count_from(Some((Some(u32::MAX as usize), Some(1))), None, None), Some(0));
}
