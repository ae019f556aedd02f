use trace::usb_control::{authorized_path, authorized_value, set_authorized, sort_devices, usb_device};

fn owned(x: &str) -> Option<String> {
    Some(x.to_string())
}

#[test]
fn reads_device_attributes() {
    let d = usb_device("1-1".to_string(), owned("046d\n"), owned("c52b\n"), owned("Logitech\n"), None, owned("0\n")).unwrap();
    assert_eq!(d.device_id, "1-1");
    assert_eq!(d.vendor_id, "046d");
    assert_eq!(d.product_id, "c52b");
    assert_eq!(d.manufacturer, "Logitech");
    assert_eq!(d.product, "");
    assert!(!d.authorized);
    let d = usb_device("2-1".to_string(), owned("1d6b"), None, None, None, None).unwrap();
    assert!(d.authorized);
    let d = usb_device("2-1".to_string(), owned("1d6b"), None, None, None, owned("1")).unwrap();
    assert!(d.authorized);
    assert!(usb_device("1-1:1.0".to_string(), None, owned("x"), None, None, None).is_none());
}

#[test]
fn devices_sorted_by_id() {
    let ids = ["usb2", "1-1", "usb1", "1-10", "1-2"];
    let devices = ids.iter().map(|i| usb_device(i.to_string(), owned("1"), None, None, None, None).unwrap()).collect();
    let sorted: Vec<String> = sort_devices(devices).into_iter().map(|d| d.device_id).collect();
    assert_eq!(sorted, vec!["1-1", "1-10", "1-2", "usb1", "usb2"]);
}

#[test]
fn authorization_messages() {
    assert_eq!(authorized_path("1-1"), "/sys/bus/usb/devices/1-1/authorized");
    assert_eq!(authorized_value(true), "1");
    assert_eq!(authorized_value(false), "0");
    assert_eq!(set_authorized("1-1", false, "/p", Ok(())).message, "Deauthorized device 1-1");
    assert_eq!(set_authorized("1-1", true, "/p", Ok(())).message, "Authorized device 1-1");
    let r = set_authorized("1-1", true, "/p", Err("Permission denied".to_string()));
    assert!(!r.ok);
    assert_eq!(
        r.message,
        "Failed to write /p: Permission denied (usually needs root — deauthorizing your own keyboard/mouse this way can lock you out until replug, so double-check the device)"
    );
}

#[test]
fn written_authorization_reads_back() {
    for authorized in [true, false] {
        let attribute = Some(authorized_value(authorized).to_string());
        let d = usb_device("3-1".to_string(), owned("8087"), None, None, None, attribute).unwrap();
        assert_eq!(d.authorized, authorized);
    }
}
