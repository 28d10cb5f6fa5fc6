use beacon::session::{AppErrorKind, AppStatus, BeaconApp};
use beacon::tnc_rs::{Device, Model};
use beacon::view::{
    device_module_status, device_rows, device_status, device_target, firmware_file_text,
    firmware_identify_text, firmware_module_status, is_error_state, log_tone,
    output_lines_for_display, output_module_status, summarize, upload_module_status, LogTone,
    ModuleStatus,
};

fn device(label: &str) -> Device {
    Device {
        raw_line: label.to_string(),
        label: label.to_string(),
        tag: "t".to_string(),
        model: Model::Teensy40,
        location: "/dev/x".to_string(),
        serial: None,
        description: None,
        capabilities: vec![],
        interfaces: vec![],
    }
}

#[test]
fn workflow_steps_follow_the_choices() {
    let mut app = BeaconApp::new(None);
    assert_eq!(firmware_module_status(&app), ModuleStatus::Next);
    assert_eq!(device_module_status(&app), ModuleStatus::Pending);
    assert_eq!(upload_module_status(&app), ModuleStatus::Pending);
    assert_eq!(output_module_status(&app), ModuleStatus::Done);
    assert!(app.accept_selected_paths(vec!["/f/a.hex".to_string()], None));
    assert_eq!(firmware_module_status(&app), ModuleStatus::Done);
    assert_eq!(device_module_status(&app), ModuleStatus::Next);
    app.finish_scan(vec![device("one")]);
    assert_eq!(device_module_status(&app), ModuleStatus::Done);
    assert_eq!(upload_module_status(&app), ModuleStatus::Next);
    app.finish_upload();
    assert_eq!(upload_module_status(&app), ModuleStatus::Done);
}

#[test]
fn output_step_pending_on_empty_log() {
    let mut app = BeaconApp::new(None);
    app.output_lines.clear();
    assert_eq!(output_module_status(&app), ModuleStatus::Pending);
}

#[test]
fn device_panel_texts() {
    let mut app = BeaconApp::new(None);
    assert_eq!(device_status(&app), "WAITING FOR SCAN");
    assert_eq!(device_target(&app), "NO TEENSY");
    assert!(device_rows(&app).is_empty());
    app.start_scan();
    assert_eq!(device_status(&app), "SCANNING USB");
    app.finish_scan_task(Ok(vec![device("a"), device("b")]));
    assert_eq!(device_status(&app), "MULTIPLE DEVICES - SELECT ONE");
    assert!(is_error_state(&app));
    let rows = device_rows(&app);
    assert_eq!(rows.len(), 2);
    assert_eq!(rows[1].label, "b");
    assert!(!rows[1].selected);
    app.select_device(1);
    assert_eq!(device_status(&app), "DEVICE SELECTED");
    assert_eq!(device_target(&app), "b");
    assert!(device_rows(&app)[1].selected);
    app.status = AppStatus::Error(AppErrorKind::NoDevice);
    assert_eq!(device_status(&app), "NO DEVICE");
    app.status = AppStatus::Identifying;
    assert_eq!(device_status(&app), "CHECKING FIRMWARE");
}

#[test]
fn firmware_panel_texts() {
    let mut app = BeaconApp::new(None);
    assert_eq!(firmware_file_text(&app), "NO HEX SELECTED");
    assert_eq!(firmware_identify_text(&app), "NO FIRMWARE INFO");
    app.selected_hex = Some("/f/a.hex".to_string());
    assert_eq!(firmware_file_text(&app), "/f/a.hex");
    assert_eq!(firmware_identify_text(&app), "CHECK PENDING");
    app.identify_output = Some("Teensy 4.1".to_string());
    assert_eq!(firmware_identify_text(&app), "Teensy 4.1");
}

#[test]
fn output_lines_mark_latest_block() {
    let shown = output_lines_for_display(&vec![]);
    assert_eq!(shown.len(), 1);
    assert_eq!(shown[0].line, "Waiting for commands");
    assert!(shown[0].is_latest_block);
    let lines: Vec<String> = vec!["INFO a", "$ list", "OK b", "$ upload", "ERR c"]
        .into_iter()
        .map(String::from)
        .collect();
    let shown = output_lines_for_display(&lines);
    let flags: Vec<bool> = shown.iter().map(|l| l.is_latest_block).collect();
    assert_eq!(flags, vec![false, false, false, true, true]);
    let plain: Vec<String> = vec!["INFO a".to_string(), "OK b".to_string()];
    assert!(output_lines_for_display(&plain).iter().all(|l| l.is_latest_block));
}

#[test]
fn log_tones_by_prefix() {
    assert_eq!(log_tone("ERR x"), LogTone::Alert);
    assert_eq!(log_tone("OK x"), LogTone::Success);
    assert_eq!(log_tone("$ x"), LogTone::Command);
    assert_eq!(log_tone("INFO x"), LogTone::Plain);
}

#[test]
fn summary_keeps_four_nonblank_lines() {
    assert_eq!(summarize(""), "IDENTIFY COMPLETE");
    assert_eq!(summarize("\n  \n"), "IDENTIFY COMPLETE");
    assert_eq!(summarize("a\r\n\nb\n c\nd\ne\n"), "a\nb\n c\nd");
    assert_eq!(summarize("only"), "only");
}
