use trace::storage_explorer::{du_spawn_error, scan_folder};

#[test]
fn lists_children_largest_first() {
    let out = "100\t/home/u/a\n300\t/home/u/b/\n100\t/home/u/c\nbad line\n450\t/home/u/\n";
    let entries = scan_folder("/home/u", out, "").unwrap();
    let got: Vec<(&str, &str, u64)> = entries.iter().map(|e| (e.name.as_str(), e.path.as_str(), e.size_bytes)).collect();
    assert_eq!(got, vec![("", "/home/u/b/", 300), ("a", "/home/u/a", 100), ("c", "/home/u/c", 100)]);
    assert!(entries.iter().all(|e| e.is_dir));
}

#[test]
fn keeps_fifty_entries() {
    let mut out = String::new();
    for i in 0..60u64 {
        out.push_str(&format!("{}\t/d/f{}\n", i, i));
    }
    let entries = scan_folder("/d", &out, "").unwrap();
    assert_eq!(entries.len(), 50);
    assert_eq!(entries[0].size_bytes, 59);
    assert_eq!(entries[49].size_bytes, 10);
}

#[test]
fn empty_output_is_an_error() {
    match scan_folder("/root", "  \n", "du: cannot read") {
        Err(e) => assert_eq!(e, "du produced no output for /root: du: cannot read"),
        Ok(_) => panic!("no output is an error"),
    }
    assert_eq!(du_spawn_error("not found"), "Failed to run du: not found");
}
