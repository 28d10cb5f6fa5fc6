use beacon::tnc_rs::device::{
    dedup_key, hid_is_bootloader, hid_is_seremu, identify_hid_model, is_listed_hid,
    is_teensy_usb, is_teensy_vid_pid, list_devices, model_from_bcd_device,
    model_from_halfkay_usage, model_from_product_string, parse_hex_u16, sysfs_value,
    teensy_serial_ports, Capability, HidDeviceInfo, TeensySerialPort, UsbPort,
};
use beacon::tnc_rs::Model;

fn hid(vid: u16, pid: u16, usage_page: u16, usage: u16, serial: Option<&str>, path: &str) -> HidDeviceInfo {
    HidDeviceInfo {
        vendor_id: vid,
        product_id: pid,
        usage_page,
        usage,
        release_number: 0,
        serial_number: serial.map(|s| s.to_string()),
        path: path.to_string(),
        product_string: None,
    }
}

fn port(name: &str, serial: Option<&str>, product: Option<&str>) -> TeensySerialPort {
    TeensySerialPort {
        port_name: name.to_string(),
        serial_number: serial.map(|s| s.to_string()),
        product: product.map(|s| s.to_string()),
    }
}

#[test]
fn teensy_usb_serial_pid_matches() {
    assert!(is_teensy_vid_pid(0x16C0, 0x0483));
    assert!(is_teensy_vid_pid(0x1FC9, 0x0135));
    assert!(!is_teensy_vid_pid(0x0403, 0x6001));
}

#[test]
fn linux_usage_page_zero_still_matches_hid() {
    assert!(hid_is_bootloader(0x16C0, 0x0478, 0));
    assert!(hid_is_bootloader(0x16C0, 0x0478, 0xFF9C));
    assert!(!hid_is_bootloader(0x16C0, 0x0483, 0));
    assert!(hid_is_seremu(0x16C0, 0x0483, 0));
    assert!(hid_is_seremu(0x16C0, 0x0486, 0xFFC9));
    assert!(!hid_is_seremu(0x0403, 0x6001, 0));
}

#[test]
fn product_string_identifies_teensy_without_vid() {
    assert!(is_teensy_usb(0x0403, 0x6001, Some("Teensy USB Serial")));
    assert!(!is_teensy_usb(0x0403, 0x6001, Some("FT232R USB UART")));
}

#[test]
fn bcd_device_identifies_teensy_41() {
    assert_eq!(model_from_bcd_device(0x280), Some(Model::Teensy41));
    assert_eq!(model_from_bcd_device(0), None);
}

#[test]
fn teensy_ids_suffice_without_product() {
    assert!(is_teensy_usb(0x16C0, 0x0483, None));
    assert!(is_teensy_usb(0x16C0, 0x0483, Some("FT232R USB UART")));
}

#[test]
fn bootloader_is_never_seremu() {
    for page in [0u16, 0xFF9C, 0xFFC9, 0xFFAB] {
        for pid in [0x0476u16, 0x0478, 0x0483, 0x0486] {
            assert!(!(hid_is_bootloader(0x16C0, pid, page) && hid_is_seremu(0x16C0, pid, page)));
        }
    }
}

#[test]
fn halfkay_usage_names_the_model() {
    assert_eq!(model_from_halfkay_usage(0x25), Some(Model::Teensy41));
    assert_eq!(model_from_halfkay_usage(0x1F), Some(Model::Teensy35));
    assert_eq!(model_from_halfkay_usage(0x27), None);
}

#[test]
fn product_string_prefers_the_more_specific_name() {
    assert_eq!(model_from_product_string(Some("Teensy 4.1 Serial")), Some(Model::Teensy41));
    assert_eq!(model_from_product_string(Some("Teensy++ 2.0")), Some(Model::TeensyPp20));
    assert_eq!(model_from_product_string(Some("Teensy 2.0")), Some(Model::Teensy20));
    assert_eq!(model_from_product_string(Some("Arduino")), None);
    assert_eq!(model_from_product_string(None), None);
    assert_eq!(model_from_product_string(Some("Teensy USB Serial")), None);
}

#[test]
fn hid_model_falls_back_to_release_then_product() {
    let mut info = hid(0x16C0, 0x0478, 0xFF9C, 0x24, None, "p");
    assert_eq!(identify_hid_model(&info), Model::Teensy40);
    info.usage = 0;
    info.release_number = 0x277;
    assert_eq!(identify_hid_model(&info), Model::Teensy36);
    info.release_number = 0;
    info.product_string = Some("Teensy LC".to_string());
    assert_eq!(identify_hid_model(&info), Model::TeensyLc);
    info.product_string = None;
    assert_eq!(identify_hid_model(&info), Model::Teensy);
}

#[test]
fn listed_hid_includes_rawhid_pages() {
    assert!(is_listed_hid(&hid(0x16C0, 0x0486, 0xFFAB, 0, None, "p")));
    assert!(is_listed_hid(&hid(0x16C0, 0x0486, 0xFF00, 0, None, "p")));
    assert!(!is_listed_hid(&hid(0x0403, 0x6001, 0xFF00, 0, None, "p")));
}

#[test]
fn dedup_keys_tell_modes_apart() {
    assert_eq!(dedup_key("123", true), "boot:123");
    assert_eq!(dedup_key("123", false), "run:123");
    assert_ne!(dedup_key("123", true), dedup_key("123", false));
}

#[test]
fn serial_ports_are_filtered_in_order() {
    let ports = vec![
        UsbPort {
            port_name: "/dev/ttyACM0".to_string(),
            vid: 0x16C0,
            pid: 0x0483,
            serial_number: Some("42".to_string()),
            product: None,
        },
        UsbPort {
            port_name: "/dev/ttyUSB0".to_string(),
            vid: 0x0403,
            pid: 0x6001,
            serial_number: None,
            product: Some("FT232R USB UART".to_string()),
        },
        UsbPort {
            port_name: "/dev/ttyUSB1".to_string(),
            vid: 0x0403,
            pid: 0x6001,
            serial_number: None,
            product: Some("Teensy USB Serial".to_string()),
        },
    ];
    let kept = teensy_serial_ports(ports);
    assert_eq!(kept.len(), 2);
    assert_eq!(kept[0].port_name, "/dev/ttyACM0");
    assert_eq!(kept[0].serial_number.as_deref(), Some("42"));
    assert_eq!(kept[1].port_name, "/dev/ttyUSB1");
}

#[test]
fn bootloader_device_is_listed_with_halfkay_label() {
    let devices = list_devices(&vec![hid(0x16C0, 0x0478, 0xFF9C, 0x25, Some("123"), "/hid/1")], &vec![]);
    assert_eq!(devices.len(), 1);
    let d = &devices[0];
    assert_eq!(d.label, "add 123-Teensy Teensy 4.1 (HalfKay)");
    assert_eq!(d.raw_line, d.label);
    assert_eq!(d.tag, "123-Teensy");
    assert_eq!(d.model, Model::Teensy41);
    assert_eq!(d.capabilities, vec![Capability::Upload, Capability::Reset]);
    assert_eq!(d.interfaces.len(), 1);
    assert_eq!(d.interfaces[0].name, "HalfKay");
    assert_eq!(d.interfaces[0].path, "/hid/1");
}

#[test]
fn serial_port_joins_running_hid_device() {
    let mut seremu = hid(0x16C0, 0x0486, 0xFFC9, 0, Some("77"), "/hid/2");
    seremu.product_string = Some("Keyboard".to_string());
    let devices = list_devices(
        &vec![seremu],
        &vec![port("/dev/ttyACM0", Some("77"), Some("Teensy 4.0"))],
    );
    assert_eq!(devices.len(), 1);
    let d = &devices[0];
    assert_eq!(d.label, "add 77 Teensy 4.0 (USB Serial)");
    assert_eq!(d.tag, "77-Teensy");
    assert_eq!(d.description.as_deref(), Some("Teensy 4.0"));
    assert_eq!(d.interfaces.len(), 2);
    assert_eq!(d.interfaces[0].name, "Seremu");
    assert_eq!(d.interfaces[1].name, "Serial");
    assert_eq!(d.interfaces[1].path, "/dev/ttyACM0");
}

#[test]
fn devices_come_out_in_key_order() {
    let devices = list_devices(
        &vec![
            hid(0x16C0, 0x0486, 0xFFC9, 0, Some("b"), "/hid/b"),
            hid(0x16C0, 0x0478, 0xFF9C, 0x24, Some("a"), "/hid/a"),
        ],
        &vec![port("/dev/ttyACM1", Some("a"), None)],
    );
    let labels: Vec<&str> = devices.iter().map(|d| d.label.as_str()).collect();
    assert_eq!(
        labels,
        vec!["add a-Teensy Teensy 4.0 (HalfKay)", "add a Teensy (USB Serial)", "add b-Teensy Teensy"]
    );
}

#[test]
fn second_interface_of_a_board_adds_to_its_device() {
    let devices = list_devices(
        &vec![
            hid(0x16C0, 0x0486, 0xFFC9, 0, Some("9"), "/hid/x"),
            hid(0x16C0, 0x0486, 0xFFAB, 0, Some("9"), "/hid/y"),
            hid(0x0403, 0x6001, 0xFF00, 0, Some("9"), "/hid/z"),
        ],
        &vec![],
    );
    assert_eq!(devices.len(), 1);
    assert_eq!(devices[0].interfaces.len(), 2);
    assert_eq!(devices[0].interfaces[1].path, "/hid/y");
}

#[test]
fn later_port_of_same_key_replaces_earlier() {
    let devices = list_devices(
        &vec![],
        &vec![port("/dev/ttyACM0", Some("5"), None), port("/dev/ttyACM1", Some("5"), None)],
    );
    assert_eq!(devices.len(), 1);
    assert_eq!(devices[0].location, "/dev/ttyACM1");
}

#[test]
fn no_inputs_no_devices() {
    assert!(list_devices(&vec![], &vec![]).is_empty());
}

#[test]
fn sysfs_ids_parse_as_hex() {
    assert_eq!(parse_hex_u16("16c0\n"), Some(0x16C0));
    assert_eq!(parse_hex_u16("  0x0483 "), Some(0x0483));
    assert_eq!(parse_hex_u16("0x0x10"), Some(0x10));
    assert_eq!(parse_hex_u16("+ff"), Some(0xFF));
    assert_eq!(parse_hex_u16("FFFF"), Some(0xFFFF));
    assert_eq!(parse_hex_u16("10000"), None);
    assert_eq!(parse_hex_u16(""), None);
    assert_eq!(parse_hex_u16("+"), None);
    assert_eq!(parse_hex_u16("12g4"), None);
}

#[test]
fn sysfs_values_are_trimmed() {
    assert_eq!(sysfs_value("Teensy USB Serial\n").as_deref(), Some("Teensy USB Serial"));
    assert_eq!(sysfs_value(" \n"), None);
}
