use trace::docker_control::{connect_error, container_info, restart_container, start_container, stop_container};
use trace::systemd_control::{bus_error, restart_unit, select_units, start_unit, stop_unit, UnitInfo};

fn unit(name: &str, active: &str) -> UnitInfo {
    UnitInfo {
        name: name.to_string(),
        description: format!("{name} unit"),
        load_state: "loaded".to_string(),
        active_state: active.to_string(),
        sub_state: "running".to_string(),
    }
}

#[test]
fn selects_services_sorted() {
    let units = vec![unit("z.service", "inactive"), unit("a.socket", "active"), unit("m.service", "active"), unit("b.service", "failed")];
    let all: Vec<String> = select_units(units, false).into_iter().map(|u| u.name).collect();
    assert_eq!(all, vec!["b.service", "m.service", "z.service"]);
    let units = vec![unit("z.service", "inactive"), unit("a.socket", "active"), unit("m.service", "active"), unit("b.service", "failed")];
    let live: Vec<String> = select_units(units, true).into_iter().map(|u| u.name).collect();
    assert_eq!(live, vec!["b.service", "m.service"]);
}

#[test]
fn unit_messages() {
    assert_eq!(start_unit("a.service", Ok(())), Ok("Started a.service".to_string()));
    assert_eq!(
        start_unit("a.service", Err("denied".to_string())),
        Err("Failed to start a.service: denied (systemd will normally prompt for authorization via polkit)".to_string())
    );
    assert_eq!(stop_unit("a.service", Ok(())), Ok("Stopped a.service".to_string()));
    assert_eq!(stop_unit("a.service", Err("e".to_string())), Err("Failed to stop a.service: e".to_string()));
    assert_eq!(restart_unit("a.service", Ok(())), Ok("Restarted a.service".to_string()));
    assert_eq!(restart_unit("a.service", Err("e".to_string())), Err("Failed to restart a.service: e".to_string()));
    assert_eq!(bus_error("no bus"), "Cannot connect to system D-Bus: no bus");
}

#[test]
fn container_listing() {
    let c = container_info(
        Some("0123456789abcdef".to_string()),
        Some(vec!["/web".to_string(), "/alias".to_string()]),
        Some("nginx".to_string()),
        Some("Running".to_string()),
        Some("Up 2 hours".to_string()),
    );
    assert_eq!(c.id, "0123456789ab");
    assert_eq!(c.name, "web");
    assert_eq!(c.image, "nginx");
    assert_eq!(c.state, "Running");
    assert_eq!(c.status, "Up 2 hours");
    let c = container_info(Some("abc".to_string()), Some(vec![]), None, None, None);
    assert_eq!(c.id, "abc");
    assert_eq!(c.name, "");
    assert_eq!(c.image, "");
}

#[test]
fn container_messages() {
    assert_eq!(start_container("web", Ok(())), Ok("Started container web".to_string()));
    assert_eq!(start_container("web", Err("e".to_string())), Err("Failed to start web: e".to_string()));
    assert_eq!(stop_container("web", Ok(())), Ok("Stopped container web".to_string()));
    assert_eq!(stop_container("web", Err("e".to_string())), Err("Failed to stop web: e".to_string()));
    assert_eq!(restart_container("web", Ok(())), Ok("Restarted container web".to_string()));
    assert_eq!(restart_container("web", Err("e".to_string())), Err("Failed to restart web: e".to_string()));
    assert_eq!(
        connect_error("refused"),
        "Cannot connect to Docker daemon: refused (is Docker running / is your user in the docker group?)"
    );
}
