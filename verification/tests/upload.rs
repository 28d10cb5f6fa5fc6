use beacon::tnc_rs::device::{HidDeviceInfo, TeensySerialPort};
use beacon::tnc_rs::load_firmware_file;
use beacon::tnc_rs::upload::{
    contains_model, halfkay_report, matches_filter, plan_reboot_running, plan_reboot_to_bootloader,
    plan_upload, select_bootloader, bootloader_step, BootloaderStep, HalfKaySettings, UploadError,
};
use beacon::tnc_rs::{Model, UploadOptions};

fn hid(pid: u16, usage_page: u16, usage: u16, serial: Option<&str>, path: &str) -> HidDeviceInfo {
    HidDeviceInfo {
        vendor_id: 0x16C0,
        product_id: pid,
        usage_page,
        usage,
        release_number: 0,
        serial_number: serial.map(|s| s.to_string()),
        path: path.to_string(),
        product_string: None,
    }
}

fn port(name: &str, serial: Option<&str>) -> TeensySerialPort {
    TeensySerialPort {
        port_name: name.to_string(),
        serial_number: serial.map(|s| s.to_string()),
        product: None,
    }
}

fn filtered(filter: &str) -> UploadOptions {
    UploadOptions { board_filter: Some(filter.to_string()), ..UploadOptions::default() }
}

#[test]
fn settings_by_model() {
    let s = HalfKaySettings::for_model(Model::Teensy41).unwrap();
    assert_eq!((s.version, s.min_address, s.max_address, s.block_size), (3, 0x6000_0000, 0x607C_0000, 1024));
    let s = HalfKaySettings::for_model(Model::Teensy20).unwrap();
    assert_eq!((s.version, s.max_address, s.block_size), (1, 0x7E00, 128));
    assert_eq!(HalfKaySettings::for_model(Model::Generic), Err(UploadError::UnsupportedModel(Model::Generic)));
}

#[test]
fn report_layouts() {
    let r = halfkay_report(3, 4, 0x0012_3456, &[9, 8]).unwrap();
    assert_eq!(r.len(), 4 + 65);
    assert_eq!(&r[0..4], &[0, 0x56, 0x34, 0x12]);
    assert_eq!(&r[65..69], &[9, 8, 0, 0]);
    let r = halfkay_report(1, 4, 0x3456, &[7]).unwrap();
    assert_eq!(r.len(), 7);
    assert_eq!(r, vec![0, 0x56, 0x34, 7, 0, 0, 0]);
    let r = halfkay_report(2, 4, 0x0012_3456, &[]).unwrap();
    assert_eq!(&r[0..3], &[0, 0x34, 0x12]);
    assert_eq!(halfkay_report(4, 4, 0, &[]), Err(UploadError::UnsupportedProtocolVersion(4)));
}

#[test]
fn filter_matches_serial_or_path() {
    assert!(matches_filter(Some("123"), "/x", &UploadOptions::default()));
    assert!(matches_filter(Some("123"), "/x", &filtered("123")));
    assert!(matches_filter(None, "/dev/hidraw3", &filtered("hidraw")));
    assert!(!matches_filter(Some("1234"), "/x", &filtered("123")));
}

#[test]
fn one_bootloader_is_selected_with_its_model() {
    let hids = vec![hid(0x0483, 0xFFC9, 0, Some("1"), "/a"), hid(0x0478, 0xFF9C, 0x25, Some("2"), "/b")];
    assert_eq!(select_bootloader(&hids, &UploadOptions::default()), Ok(Some((1, Model::Teensy41))));
    assert_eq!(select_bootloader(&hids, &filtered("1")), Ok(None));
    assert_eq!(select_bootloader(&vec![], &UploadOptions::default()), Ok(None));
}

#[test]
fn several_or_unknown_bootloaders_are_refused() {
    let two = vec![hid(0x0478, 0xFF9C, 0x25, Some("2"), "/b"), hid(0x0478, 0xFF9C, 0x24, Some("3"), "/c")];
    assert_eq!(select_bootloader(&two, &UploadOptions::default()), Err(UploadError::MultipleBootloaders));
    assert_eq!(select_bootloader(&two, &filtered("3")), Ok(Some((1, Model::Teensy40))));
    let unknown = vec![hid(0x0478, 0xFF9C, 0, None, "/d")];
    assert_eq!(select_bootloader(&unknown, &UploadOptions::default()), Err(UploadError::UnidentifiedBootloader));
}

#[test]
fn reboot_targets_every_matching_board() {
    let hids = vec![hid(0x0483, 0xFFC9, 0, Some("s1"), "/a"), hid(0x0478, 0xFF9C, 0x25, Some("s2"), "/b"), hid(0x0486, 0xFFC9, 0, Some("s3"), "/c")];
    let ports = vec![port("/dev/ttyACM0", Some("s1")), port("/dev/ttyACM1", Some("s4"))];
    let t = plan_reboot_running(&hids, &ports, &UploadOptions::default()).unwrap();
    assert_eq!(t.hid, vec![0, 2]);
    assert_eq!(t.ports, vec![0, 1]);
    let t = plan_reboot_running(&hids, &ports, &filtered("s1")).unwrap();
    assert_eq!(t.hid, vec![0]);
    assert_eq!(t.ports, vec![0]);
    let t = plan_reboot_running(&hids, &ports, &filtered("ttyACM1")).unwrap();
    assert!(t.hid.is_empty());
    assert_eq!(t.ports, vec![1]);
    assert_eq!(plan_reboot_running(&hids, &ports, &filtered("s9")), Err(UploadError::NoDeviceToReboot));
}

#[test]
fn reboot_to_bootloader_uses_first_port() {
    let ports = vec![port("/dev/ttyACM0", Some("1")), port("/dev/ttyACM1", Some("4"))];
    let t = plan_reboot_to_bootloader(&vec![], &ports, None).unwrap();
    assert!(t.hid.is_empty());
    assert_eq!(t.ports, vec![0]);
    let t = plan_reboot_to_bootloader(&vec![], &ports, Some("4".to_string())).unwrap();
    assert_eq!(t.ports, vec![1]);
    assert_eq!(plan_reboot_to_bootloader(&vec![], &vec![], None), Err(UploadError::NoDeviceToReboot));
}

#[test]
fn model_lists() {
    assert!(contains_model(&vec![Model::Teensy40, Model::Teensy41], Model::Teensy41));
    assert!(!contains_model(&vec![], Model::Teensy41));
}

fn teensy41_file() -> Vec<u8> {
    ":0200000460009A\n:0400000001020304F2\n:00000001FF\n".as_bytes().to_vec()
}

#[test]
fn upload_plan_writes_blocks_then_resets() {
    let fw = load_firmware_file("blink.hex", &teensy41_file()).unwrap();
    let plan = plan_upload(&fw, &vec![], Model::Teensy41, &UploadOptions::default()).unwrap().unwrap();
    assert_eq!(plan.reports.len(), 2);
    let first = &plan.reports[0];
    assert_eq!(first.bytes.len(), 1024 + 65);
    assert_eq!(&first.bytes[0..4], &[0, 0, 0, 0x00]);
    assert_eq!(&first.bytes[65..69], &[1, 2, 3, 4]);
    assert_eq!((first.tries, first.retry_delay_ms, first.pause_ms), (250, 100, 500));
    let reset = &plan.reports[1];
    assert_eq!(&reset.bytes[1..4], &[0xFF, 0xFF, 0xFF]);
    assert_eq!((reset.tries, reset.retry_delay_ms), (25, 20));
    let no_reset = UploadOptions { no_reset: true, ..UploadOptions::default() };
    let plan = plan_upload(&fw, &vec![], Model::Teensy41, &no_reset).unwrap().unwrap();
    assert_eq!(plan.reports.len(), 1);
}

#[test]
fn upload_refusals() {
    let fw = load_firmware_file("blink.hex", &teensy41_file()).unwrap();
    match plan_upload(&fw, &vec![Model::Teensy36], Model::Teensy41, &UploadOptions::default()) {
        Some(Err(UploadError::ModelMismatch { firmware, device })) => {
            assert_eq!(firmware, vec![Model::Teensy36]);
            assert_eq!(device, Model::Teensy41);
        },
        other => panic!("unexpected {other:?}"),
    }
    let unchecked = UploadOptions { no_check: true, ..UploadOptions::default() };
    assert!(matches!(plan_upload(&fw, &vec![Model::Teensy36], Model::Teensy41, &unchecked), Some(Ok(_))));
    assert_eq!(
        plan_upload(&fw, &vec![], Model::Teensy, &UploadOptions::default()).map(|r| r.map(|_| ())),
        Some(Err(UploadError::UnsupportedModel(Model::Teensy)))
    );
    assert_eq!(
        plan_upload(&fw, &vec![], Model::Teensy30, &UploadOptions::default()).map(|r| r.map(|_| ())),
        Some(Err(UploadError::FirmwareTooBig(Model::Teensy30)))
    );
}

#[test]
fn every_model_setting_is_sane() {
    let models = [
        Model::TeensyPp10,
        Model::Teensy20,
        Model::TeensyPp20,
        Model::Teensy30,
        Model::Teensy31,
        Model::TeensyLc,
        Model::Teensy32,
        Model::Teensy35,
        Model::Teensy36,
        Model::Teensy40Beta1,
        Model::Teensy40,
        Model::Teensy41,
        Model::TeensyMicroMod,
    ];
    for model in models {
        let s = HalfKaySettings::for_model(model).unwrap();
        assert!((1..=3).contains(&s.version));
        assert!(s.min_address < s.max_address);
        assert_eq!((s.max_address - s.min_address) as usize % s.block_size, 0);
    }
}

#[test]
fn empty_program_sends_only_the_reset() {
    let fw = load_firmware_file("empty.hex", b":00000001FF\n").unwrap();
    let plan = plan_upload(&fw, &vec![], Model::Teensy36, &UploadOptions::default()).unwrap().unwrap();
    assert_eq!(plan.reports.len(), 1);
    assert_eq!(&plan.reports[0].bytes[1..4], &[0xFF, 0xFF, 0xFF]);
}

#[test]
fn block_sends_as_many_bytes_as_extract_copied() {
    // A segment that starts 16 bytes into its block: the block carries the copy count of
    // bytes from the block start, so its data slot holds the zeros before the segment.
    let fw = load_firmware_file("late.hex", ":0400100001020304E2\n:00000001FF\n".as_bytes()).unwrap();
    let plan = plan_upload(&fw, &vec![], Model::Teensy36, &UploadOptions::default()).unwrap().unwrap();
    assert_eq!(plan.reports.len(), 2);
    assert_eq!(&plan.reports[0].bytes[65..85], &[0u8; 20]);
}

#[test]
fn aligned_program_bytes_reach_their_reports() {
    let fw = load_firmware_file("blink.hex", ":0400000001020304F2\n:00000001FF\n".as_bytes()).unwrap();
    let plan = plan_upload(&fw, &vec![], Model::Teensy36, &UploadOptions::default()).unwrap().unwrap();
    assert_eq!(&plan.reports[0].bytes[65..69], &[1, 2, 3, 4]);
}

#[test]
fn upload_error_messages() {
    let mismatch = UploadError::ModelMismatch {
        firmware: vec![Model::Teensy40, Model::Teensy41],
        device: Model::TeensyLc,
    };
    assert_eq!(
        mismatch.message(false),
        "firmware is for Teensy 4.0, Teensy 4.1, but selected device is Teensy LC"
    );
    assert_eq!(
        UploadError::UnsupportedProtocolVersion(9).message(false),
        "unsupported HalfKay protocol version 9"
    );
    assert_eq!(UploadError::NoDeviceToReboot.message(true), "no Teensy device found to reboot");
    assert_eq!(
        UploadError::NoDeviceToReboot.message(false),
        "no Teensy device found to reboot into bootloader"
    );
    assert_eq!(UploadError::FirmwareTooBig(Model::Teensy20).message(false), "firmware is too big for Teensy 2.0");
}

#[test]
fn bootloader_steps() {
    assert_eq!(bootloader_step(true, true, Ok(Some((2, Model::Teensy41)))), BootloaderStep::Open(2, Model::Teensy41));
    assert_eq!(bootloader_step(true, true, Ok(None)), BootloaderStep::Reboot);
    assert_eq!(bootloader_step(true, false, Ok(None)), BootloaderStep::Retry);
    assert_eq!(bootloader_step(false, true, Ok(None)), BootloaderStep::Wait);
    assert_eq!(
        bootloader_step(false, false, Err(UploadError::MultipleBootloaders)),
        BootloaderStep::Fail(UploadError::MultipleBootloaders)
    );
}
