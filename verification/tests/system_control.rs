use trace::system_control::{
    autostart_base_text, autostart_listing, autostart_missing, blame_fields, brightness_percent, io_class,
    is_disabled, parse_brightness, parse_desktop_name, percent_arg, rewrite_autostart, set_autostart_enabled,
    set_brightness, set_ionice, set_volume, toggle_mute, volume_percent, AutostartFile,
};

#[test]
fn io_classes() {
    assert_eq!(io_class(1), "realtime");
    assert_eq!(io_class(2), "best-effort");
    assert_eq!(io_class(3), "idle");
    assert_eq!(io_class(9), "best-effort");
    assert_eq!(set_ionice(10, 3, 7, Ok(String::new())).message, "Set PID 10 IO scheduling to idle (level 7)");
    assert_eq!(set_ionice(10, 3, 7, Err("e".to_string())).message, "Failed to set ionice for PID 10: e");
}

#[test]
fn brightness() {
    let b = parse_brightness("intel_backlight,backlight,120,50%,240").unwrap();
    assert_eq!(b.device, "intel_backlight");
    assert_eq!(b.percent, 50);
    assert!(parse_brightness("x,y").is_none());
    assert!(parse_brightness("").is_none());
    assert!(parse_brightness("a,b,c,n/a,d").is_none());
    assert_eq!(brightness_percent(0), 1);
    assert_eq!(brightness_percent(250), 100);
    assert_eq!(brightness_percent(40), 40);
    assert_eq!(percent_arg(40), "40%");
    assert_eq!(set_brightness(40, Ok(String::new())).message, "Set brightness to 40%");
    assert_eq!(set_brightness(40, Err("e".to_string())).message, "Failed to set brightness: e");
}

#[test]
fn volume() {
    assert_eq!(volume_percent(200), 150);
    assert_eq!(volume_percent(0), 0);
    assert_eq!(set_volume(150, Ok(String::new())).message, "Set volume to 150%");
    assert_eq!(set_volume(1, Err("e".to_string())).message, "Failed to set volume: e");
    assert_eq!(toggle_mute(Ok(String::new())).message, "Toggled mute");
    assert_eq!(toggle_mute(Err("e".to_string())).message, "Failed to toggle mute: e");
}

#[test]
fn blame_lines() {
    assert_eq!(blame_fields("  1.234s foo.service  "), Some(("1.234s".to_string(), "foo.service".to_string())));
    assert_eq!(blame_fields("234ms   bar.service"), Some(("234ms".to_string(), "bar.service".to_string())));
    assert_eq!(blame_fields("lonely"), None);
}

#[test]
fn desktop_entries() {
    assert_eq!(parse_desktop_name("[Desktop Entry]\nName=Foo\nName=Bar\n"), Some("Foo".to_string()));
    assert_eq!(parse_desktop_name("Name=Name=X"), Some("X".to_string()));
    assert_eq!(parse_desktop_name("Exec=foo\n"), None);
    assert!(is_disabled("[Desktop Entry]\nHidden=true\n"));
    assert!(is_disabled("  X-GNOME-Autostart-enabled=false  \n"));
    assert!(!is_disabled("Hidden=false\n"));
}

fn file(name: &str, text: Option<&str>, system_wide: bool) -> AutostartFile {
    AutostartFile { filename: name.to_string(), text: text.map(|t| t.to_string()), system_wide }
}

#[test]
fn autostart_listing_prefers_user_and_sorts() {
    let files = vec![
        file("b.desktop", Some("Name=Zed\n"), false),
        file("a.desktop", None, false),
        file("notes.txt", Some("Name=Nope\n"), false),
        file("b.desktop", Some("Name=Other\n"), true),
        file("a.desktop", Some("Name=Shadowed\n"), true),
        file("c.desktop", Some("Name=Alpha\nHidden=true\n"), true),
        file("d.desktop", Some("Exec=x\n"), true),
    ];
    let entries = autostart_listing(files);
    let names: Vec<&str> = entries.iter().map(|e| e.name.as_str()).collect();
    assert_eq!(names, vec!["Alpha", "Zed", "d.desktop"]);
    assert!(!entries[0].enabled);
    assert!(entries[0].system_wide);
    assert!(entries[1].enabled);
    assert!(!entries[1].system_wide);
    assert_eq!(entries[1].filename, "b.desktop");
}

#[test]
fn rewriting_entries() {
    let base = "[Desktop Entry]\nName=Foo\nHidden=true\n";
    assert_eq!(rewrite_autostart(base, true), "[Desktop Entry]\nName=Foo\n");
    assert_eq!(rewrite_autostart(base, false), "[Desktop Entry]\nName=Foo\nHidden=true\n");
    assert_eq!(rewrite_autostart("Name=A\r\n  X-GNOME-Autostart-enabled=false\n", false), "Name=A\nHidden=true\n");
    assert_eq!(autostart_base_text(None, Some("sys".to_string())), "sys");
    assert_eq!(autostart_base_text(Some("user".to_string()), Some("sys".to_string())), "user");
    assert_eq!(autostart_base_text(None, None), "");
    assert_eq!(autostart_missing("x.desktop").message, "Could not find autostart entry x.desktop");
    assert_eq!(set_autostart_enabled("x.desktop", false, "/h/x.desktop", Ok(())).message, "Disabled x.desktop at startup");
    assert_eq!(set_autostart_enabled("x.desktop", true, "/h/x.desktop", Ok(())).message, "Enabled x.desktop at startup");
    assert_eq!(
        set_autostart_enabled("x.desktop", true, "/h/x.desktop", Err("ro".to_string())).message,
        "Failed to write /h/x.desktop: ro"
    );
}

#[test]
fn rewritten_entries_read_back_as_asked() {
    let bases = [
        "[Desktop Entry]\nName=App\n",
        "[Desktop Entry]\r\nHidden=true\r\nX-GNOME-Autostart-enabled=false\r\n",
        "  Hidden=true  \nName=X\r\r\n",
        "",
        "Hidden=true",
    ];
    for base in bases {
        for enabled in [true, false] {
            assert_eq!(is_disabled(&rewrite_autostart(base, enabled)), !enabled, "{base:?} {enabled}");
        }
    }
}
