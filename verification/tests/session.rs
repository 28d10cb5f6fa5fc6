use beacon::session::{
    file_url_path, identify_summary_string, percent_decode_path, selection_dir,
    stable_device_identity, AppAction, AppErrorKind, AppStatus, AutoMode, BeaconApp,
    FileSelection, MAX_LOG_LINES,
};
use beacon::tnc_rs::{Device, Model};

fn device(line: &str) -> Device {
    Device {
        raw_line: line.to_string(),
        label: line.to_string(),
        tag: "t".to_string(),
        model: Model::Teensy41,
        location: "/dev/x".to_string(),
        serial: None,
        description: None,
        capabilities: vec![],
        interfaces: vec![],
    }
}

fn app_with_hex() -> BeaconApp {
    let mut app = BeaconApp::new(None);
    assert!(app.accept_selected_paths(vec!["/fw/blink.hex".to_string()], None));
    app
}

#[test]
fn new_app_logs_backend_line() {
    let app = BeaconApp::new(Some("/fw".to_string()));
    assert_eq!(app.output_lines, vec!["INFO tnc-rs native backend active".to_string()]);
    assert!(matches!(app.status, AppStatus::Idle));
    assert_eq!(app.auto_mode, AutoMode::Off);
    assert_eq!(app.last_hex_dir.as_deref(), Some("/fw"));
    assert!(app.blink_visible);
}

#[test]
fn log_keeps_last_two_hundred_lines() {
    let mut app = BeaconApp::new(None);
    for i in 0..250 {
        app.log(&format!("line {i}"));
    }
    assert_eq!(app.output_lines.len(), MAX_LOG_LINES);
    assert_eq!(app.output_lines.last().unwrap(), "INFO line 249");
    assert_eq!(app.output_lines[0], "INFO line 50");
    app.log_error("bad");
    app.log_command("cmd");
    app.log_success("good");
    assert_eq!(app.output_lines.len(), MAX_LOG_LINES);
    assert_eq!(app.output_lines[MAX_LOG_LINES - 3], "ERR bad");
    assert_eq!(app.output_lines[MAX_LOG_LINES - 2], "$ cmd");
    assert_eq!(app.output_lines[MAX_LOG_LINES - 1], "OK good");
}

#[test]
fn scan_with_one_board_chooses_it() {
    let mut app = app_with_hex();
    app.finish_scan(vec![device("add 1 Teensy")]);
    assert_eq!(app.selected_device_index, Some(0));
    assert!(matches!(app.status, AppStatus::Ready));
    assert!(app.can_upload());
    assert_eq!(app.current_chevron_phase(), 2);
    assert_eq!(app.output_lines.last().unwrap(), "INFO detected device: add 1 Teensy");
}

#[test]
fn scan_without_boards_is_an_error() {
    let mut app = app_with_hex();
    app.finish_scan(vec![]);
    assert_eq!(app.selected_device_index, None);
    assert!(matches!(app.status, AppStatus::Error(AppErrorKind::NoDevice)));
    assert_eq!(app.output_lines.last().unwrap(), "ERR no Teensy devices detected");
}

#[test]
fn scan_with_several_boards_asks_for_a_choice() {
    let mut app = app_with_hex();
    app.finish_scan(vec![device("a"), device("b"), device("c")]);
    assert_eq!(app.selected_device_index, None);
    assert!(matches!(app.status, AppStatus::Error(AppErrorKind::MultipleDevicesNoSelection)));
    assert_eq!(app.output_lines.last().unwrap(), "INFO 3 devices detected; select one before upload");
    assert_eq!(app.current_chevron_phase(), 1);
    app.select_device(1);
    assert_eq!(app.selected_device_index, Some(1));
    assert!(app.can_upload());
    assert_eq!(app.output_lines.last().unwrap(), "INFO selected device: b");
    app.select_device(7);
    assert_eq!(app.selected_device_index, Some(1));
}

#[test]
fn busy_app_ignores_requests() {
    let mut app = app_with_hex();
    assert_eq!(app.start_scan(), AppAction::Scan);
    assert!(app.is_busy());
    let lines = app.output_lines.len();
    assert_eq!(app.cycle_auto(), AppAction::Nothing);
    assert_eq!(app.load_hex(), AppAction::Nothing);
    assert_eq!(app.start_scan(), AppAction::Nothing);
    app.select_device(0);
    assert_eq!(app.auto_mode, AutoMode::Off);
    assert_eq!(app.output_lines.len(), lines);
}

#[test]
fn auto_modes_go_round() {
    let mut app = app_with_hex();
    assert_eq!(app.cycle_auto(), AppAction::Nothing);
    assert_eq!(app.auto_mode, AutoMode::Wait);
    assert_eq!(app.output_lines.last().unwrap(), "INFO auto-wait: armed, waiting for device...");
    assert_eq!(app.cycle_auto(), AppAction::Nothing);
    assert_eq!(app.auto_mode, AutoMode::Instant);
    assert_eq!(app.cycle_auto(), AppAction::Nothing);
    assert_eq!(app.auto_mode, AutoMode::Off);
    assert_eq!(app.output_lines.last().unwrap(), "INFO auto: off");
}

#[test]
fn auto_mode_without_firmware_stays_off() {
    let mut app = BeaconApp::new(None);
    assert_eq!(app.cycle_auto(), AppAction::Nothing);
    assert_eq!(app.auto_mode, AutoMode::Off);
    assert_eq!(app.output_lines.last().unwrap(), "INFO auto-wait: load a .hex to arm");
}

#[test]
fn auto_wait_with_board_starts_waiting_upload() {
    let mut app = app_with_hex();
    app.finish_scan(vec![device("d")]);
    assert_eq!(app.cycle_auto(), AppAction::UploadWait("/fw/blink.hex".to_string()));
    assert!(matches!(app.status, AppStatus::AutoWaiting));
    assert!(app.upload_triggered_by_auto);
    assert_eq!(app.output_lines.last().unwrap(), "$ tnc-rs upload --wait /fw/blink.hex");
    assert!(app.blink_step(false));
    assert!(!app.blink_visible);
    app.finish_auto_wait_task(Ok(()));
    assert!(matches!(app.status, AppStatus::Success));
    assert!(!app.upload_triggered_by_auto);
    assert_eq!(app.output_lines.last().unwrap(), "INFO auto-wait: waiting for next device...");
    assert!(!app.blink_step(true));
}

#[test]
fn manual_upload_needs_firmware_and_board() {
    let mut app = BeaconApp::new(None);
    assert_eq!(app.do_upload(), AppAction::Nothing);
    assert_eq!(
        app.status,
        AppStatus::Error(AppErrorKind::InvalidHexFile("NO HEX SELECTED".to_string()))
    );
    let mut app = app_with_hex();
    assert_eq!(app.do_upload(), AppAction::Nothing);
    assert!(matches!(app.status, AppStatus::Error(AppErrorKind::MultipleDevicesNoSelection)));
    assert_eq!(app.output_lines.last().unwrap(), "ERR cannot upload: select a Teensy first");
    app.finish_scan(vec![device("d")]);
    assert_eq!(app.do_upload(), AppAction::Upload("/fw/blink.hex".to_string()));
    assert!(matches!(app.status, AppStatus::Uploading));
    app.finish_upload_task(Err("device gone".to_string()));
    assert_eq!(app.status, AppStatus::Error(AppErrorKind::Io("device gone".to_string())));
    assert_eq!(
        app.output_lines.last().unwrap(),
        "ERR upload failed before command completed: device gone"
    );
    assert!(!app.task_running);
}

#[test]
fn periodic_scan_starts_instant_upload_once_per_board() {
    let mut app = app_with_hex();
    app.auto_mode = AutoMode::Instant;
    let action = app.auto_scan_step(Ok(vec![device("123 Teensy 4.1")]));
    assert_eq!(action, AppAction::Upload("/fw/blink.hex".to_string()));
    assert_eq!(app.last_auto_upload_device.as_deref(), Some("123"));
    app.finish_upload_task(Ok(()));
    assert!(matches!(app.status, AppStatus::Success));
    assert_eq!(app.output_lines.last().unwrap(), "INFO auto-instant: waiting for next device...");
    assert_eq!(app.auto_scan_step(Ok(vec![device("123 Teensy 4.1")])), AppAction::Nothing);
    assert_eq!(app.auto_scan_step(Ok(vec![device("123 Teensy 4.1 (HalfKay)")])), AppAction::Nothing);
}

#[test]
fn periodic_scan_reports_more_boards() {
    let mut app = BeaconApp::new(None);
    assert_eq!(app.auto_scan_step(Ok(vec![device("a"), device("b")])), AppAction::Nothing);
    assert_eq!(app.output_lines.last().unwrap(), "INFO auto-scan: 2 device(s) detected");
    assert_eq!(app.selected_device_index, None);
    app.selected_device_index = Some(1);
    let lines = app.output_lines.len();
    assert_eq!(app.auto_scan_step(Ok(vec![device("a")])), AppAction::Nothing);
    assert_eq!(app.selected_device_index, None);
    assert_eq!(app.output_lines.len(), lines);
    assert_eq!(app.auto_scan_step(Err("hid".to_string())), AppAction::Nothing);
    assert_eq!(app.output_lines.last().unwrap(), "ERR scan failed: hid");
}

#[test]
fn chosen_paths_are_checked() {
    let mut app = BeaconApp::new(None);
    assert!(!app.accept_selected_paths(vec!["/fw/readme.txt".to_string()], None));
    assert_eq!(
        app.status,
        AppStatus::Error(AppErrorKind::InvalidHexFile("/fw/readme.txt".to_string()))
    );
    assert!(app.selected_hex.is_none());
    assert!(!app.accept_selected_paths(vec![], None));
    assert_eq!(app.output_lines.last().unwrap(), "INFO file selection cancelled");
    assert!(app.accept_selected_paths(
        vec!["/fw/blink.hex".to_string(), "/other.hex".to_string()],
        Some("disk full".to_string())
    ));
    assert_eq!(app.selected_hex.as_deref(), Some("/fw/blink.hex"));
    assert_eq!(app.last_hex_dir.as_deref(), Some("/fw"));
    let n = app.output_lines.len();
    assert_eq!(app.output_lines[n - 2], "ERR could not save last firmware directory: disk full");
    assert_eq!(app.output_lines[n - 1], "OK selected firmware: /fw/blink.hex");
}

#[test]
fn file_dialog_results() {
    let mut app = BeaconApp::new(Some("/fw".to_string()));
    assert_eq!(app.load_hex(), AppAction::PickFile);
    assert_eq!(app.output_lines.last().unwrap(), "INFO choose firmware .hex (last directory: /fw)");
    let action = app.finish_file_selection(FileSelection::Chosen(vec!["/fw/a.HEX".to_string()]), None);
    assert_eq!(action, AppAction::Identify("/fw/a.HEX".to_string()));
    assert!(matches!(app.status, AppStatus::Identifying));
    app.finish_identify_task(Ok(vec![Model::Teensy40, Model::Teensy41]));
    assert_eq!(app.identify_output.as_deref(), Some("Teensy 4.0, Teensy 4.1"));
    assert_eq!(app.output_lines.last().unwrap(), "INFO identify complete: Teensy 4.0, Teensy 4.1");
    assert!(matches!(app.status, AppStatus::Idle));
    assert_eq!(app.load_hex(), AppAction::PickFile);
    app.finish_file_selection(FileSelection::PickerFailed("no portal".to_string()), None);
    assert_eq!(app.status, AppStatus::Error(AppErrorKind::Io("no portal".to_string())));
    assert_eq!(app.output_lines.last().unwrap(), "ERR file picker failed: no portal");
}

#[test]
fn dropped_and_opened_files() {
    let mut app = BeaconApp::new(None);
    assert_eq!(
        app.drop_hex_paths(vec!["/x/y.hex".to_string()], None),
        AppAction::Identify("/x/y.hex".to_string())
    );
    assert_eq!(app.open_paths(vec!["/x/z.hex".to_string()], None), AppAction::Nothing);
    assert_eq!(app.output_lines.last().unwrap(), "INFO open file ignored: app is busy");
    app.finish_identify_task(Err("bad file".to_string()));
    assert_eq!(app.identify_output.as_deref(), Some("identify failed: bad file"));
    assert_eq!(app.drop_hex_paths(vec!["/x/z.bin".to_string()], None), AppAction::Nothing);
}

#[test]
fn identify_summary_without_models() {
    assert_eq!(identify_summary_string(&vec![]), "Unknown");
    assert_eq!(identify_summary_string(&vec![Model::TeensyLc]), "Teensy LC");
}

#[test]
fn device_identity_is_first_word() {
    assert_eq!(stable_device_identity("  123456 Teensy 4.1"), "123456");
    assert_eq!(stable_device_identity("abc"), "abc");
    assert_eq!(stable_device_identity("   "), "   ");
}

#[test]
fn percent_escapes_are_decoded() {
    assert_eq!(percent_decode_path("/a%20b/c.hex"), "/a b/c.hex");
    assert_eq!(percent_decode_path("%2B+x"), "++x");
    assert_eq!(percent_decode_path("%+41x"), "\u{4}1x");
    assert_eq!(percent_decode_path("%zz%4"), "%zz%4");
    assert_eq!(percent_decode_path("a%41"), "aA");
    assert_eq!(percent_decode_path("%41"), "A");
    assert_eq!(percent_decode_path("%4"), "%4");
    assert_eq!(percent_decode_path("%C3%A9t%C3%A9x"), "étéx");
    assert_eq!(percent_decode_path("%FFx"), "\u{FFFD}x");
    assert_eq!(percent_decode_path("/plain/path"), "/plain/path");
}

#[test]
fn file_urls_give_local_paths() {
    assert_eq!(file_url_path("file:///tmp/a%20b.hex").as_deref(), Some("/tmp/a b.hex"));
    assert_eq!(file_url_path("/tmp/a.hex"), None);
}

#[test]
fn selection_directory_is_parent_of_hex_file() {
    assert_eq!(selection_dir(&vec!["/fw/blink.hex".to_string()]).as_deref(), Some("/fw"));
    assert_eq!(selection_dir(&vec!["/fw/blink.bin".to_string()]), None);
    assert_eq!(selection_dir(&vec![]), None);
    assert_eq!(selection_dir(&vec!["blink.HEX".to_string()]).as_deref(), Some(""));
}

#[test]
fn chevron_animation_restarts_on_phase_change() {
    let mut app = app_with_hex();
    app.chevron_anim_step();
    assert_eq!(app.chevron_tick, 1);
    app.sync_chevron_phase();
    assert_eq!(app.chevron_tick, 0);
    app.chevron_anim_step();
    app.sync_chevron_phase();
    assert_eq!(app.chevron_tick, 1);
    let mut idle = BeaconApp::new(None);
    idle.chevron_anim_step();
    assert_eq!(idle.chevron_tick, 0);
}

#[test]
fn upload_request_is_ignored_while_busy() {
    let mut app = app_with_hex();
    app.finish_scan(vec![device("d")]);
    assert_eq!(app.upload_selected(), AppAction::Upload("/fw/blink.hex".to_string()));
    let lines = app.output_lines.len();
    assert_eq!(app.upload_selected(), AppAction::Nothing);
    assert_eq!(app.output_lines.len(), lines);
}

#[test]
fn percent_decoding_reads_escapes_of_a_path() {
    assert_eq!(
        percent_decode_path("/Users/me/My%20Firmware/a%2bb.hex"),
        "/Users/me/My Firmware/a+b.hex"
    );
    assert_eq!(percent_decode_path("%zz%4"), "%zz%4");
}

#[test]
fn percent_decoding_undoes_escaping_every_byte() {
    for s in ["blink.hex", "/tmp/été/ü.hex", "a b%c", ""] {
        let escaped: String = s.bytes().map(|b| format!("%{:02X}", b)).collect();
        assert_eq!(percent_decode_path(&escaped), s);
    }
}

#[test]
fn selection_directory_is_text_before_last_slash() {
    assert_eq!(selection_dir(&vec!["/tmp/fw/blink.hex".to_string()]).as_deref(), Some("/tmp/fw"));
    assert_eq!(selection_dir(&vec!["/blink.hex".to_string()]).as_deref(), Some("/"));
    assert_eq!(selection_dir(&vec!["fw/blink.HEX".to_string()]).as_deref(), Some("fw"));
}

#[test]
fn accepted_path_remembers_its_directory() {
    let mut app = BeaconApp::new(None);
    assert!(app.accept_selected_paths(vec!["/tmp/fw/blink.hex".to_string()], None));
    assert_eq!(app.last_hex_dir.as_deref(), Some("/tmp/fw"));
}

#[test]
fn truncating_keeps_newest_lines_in_order() {
    let mut app = BeaconApp::new(None);
    app.output_lines = (0..250).map(|i| i.to_string()).collect();
    app.truncate_log();
    assert_eq!(app.output_lines.len(), MAX_LOG_LINES);
    assert_eq!(app.output_lines[0], "50");
    assert_eq!(app.output_lines[MAX_LOG_LINES - 1], "249");
    let mut short = BeaconApp::new(None);
    short.output_lines = vec!["a".to_string(), "b".to_string()];
    short.truncate_log();
    assert_eq!(short.output_lines, vec!["a".to_string(), "b".to_string()]);
}

#[test]
fn selection_directory_with_repeated_and_trailing_separators() {
    assert_eq!(selection_dir(&vec!["/tmp/fw//blink.hex".to_string()]).as_deref(), Some("/tmp/fw"));
    assert_eq!(selection_dir(&vec!["blink.hex/".to_string()]).as_deref(), Some(""));
    assert_eq!(selection_dir(&vec!["/tmp/./fw/./blink.hex".to_string()]).as_deref(), Some("/tmp/./fw"));
    assert_eq!(selection_dir(&vec!["blink.hex/..".to_string()]), None);
}
