use beacon::tycmd::{
    expected_resource_path, is_hex_file, parse_devices, platform_arch_directory,
    tycmd_resource_name, validate_executable, checked_command, CommandOutput, ExecutableProbe,
    MissingTycmd, Tycmd, TycmdCommand,
    TycmdError,
};

#[test]
fn empty_device_output_returns_no_devices() {
    assert!(parse_devices("").is_empty());
}

#[test]
fn single_raw_line_returns_one_device() {
    let devices = parse_devices("123456 Teensy 4.1 Bootloader");

    assert_eq!(devices.len(), 1);
    assert_eq!(devices[0].label, "123456 Teensy 4.1 Bootloader");
}

#[test]
fn multiple_raw_lines_return_multiple_devices() {
    let devices = parse_devices("a Teensy 4.0\nb Teensy 4.1\n");

    assert_eq!(devices.len(), 2);
    assert_eq!(devices[0].raw_line, "a Teensy 4.0");
    assert_eq!(devices[1].raw_line, "b Teensy 4.1");
}

#[test]
fn whitespace_lines_are_ignored() {
    let devices = parse_devices("\n  \n  a Teensy\n\t\n");

    assert_eq!(devices.len(), 1);
    assert_eq!(devices[0].label, "a Teensy");
}

#[test]
fn obvious_headers_are_ignored() {
    let devices = parse_devices("Serial Board Firmware\n---\nabc Teensy 4.1");

    assert_eq!(devices.len(), 1);
    assert_eq!(devices[0].label, "abc Teensy 4.1");
}

#[test]
fn hex_extension_is_case_insensitive() {
    assert!(is_hex_file("firmware.hex"));
    assert!(is_hex_file("FIRMWARE.HEX"));
    assert!(!is_hex_file("firmware.bin"));
    assert!(!is_hex_file("firmware"));
}

#[test]
fn resource_name_matches_platform() {
    assert_eq!(tycmd_resource_name("windows"), "tycmd.exe");
    assert_eq!(tycmd_resource_name("linux"), "tycmd");
}

#[test]
fn header_words_are_recognised_in_any_case() {
    let devices = parse_devices("TEENSY\nFound 2 boards\n  x Teensy\r\n");
    assert_eq!(devices.len(), 1);
    assert_eq!(devices[0].label, "x Teensy");
}

#[test]
fn hex_extension_of_directory_path() {
    assert!(is_hex_file("/tmp/build.dir/firmware.Hex"));
    assert!(!is_hex_file("/tmp/firmware.hex.bak"));
}

#[test]
fn platform_directories() {
    assert_eq!(platform_arch_directory("linux", "x86_64"), "linux-x86_64");
    assert_eq!(platform_arch_directory("macos", "aarch64"), "macos-arm64");
    assert_eq!(platform_arch_directory("windows", "arm64"), "windows-arm64");
    assert_eq!(platform_arch_directory("freebsd", "x86_64"), "unknown");
}

#[test]
fn expected_path_is_below_vendor() {
    let p = expected_resource_path("/src", "linux", "x86_64");
    assert!(p.starts_with("/src"));
    assert!(p.ends_with("tycmd"));
    assert!(p.contains("vendor"));
    assert!(p.contains("linux-x86_64"));
    assert_ne!(p, "/src");
}

#[test]
fn command_success_needs_status_zero() {
    let ok = CommandOutput { status_code: Some(0), stdout: String::new(), stderr: String::new() };
    let failed = CommandOutput { status_code: Some(1), stdout: String::new(), stderr: String::new() };
    let killed = CommandOutput { status_code: None, stdout: String::new(), stderr: String::new() };
    assert!(ok.is_success());
    assert!(!failed.is_success());
    assert!(!killed.is_success());
}

fn probe(path: &str, exists: bool, is_file: bool, mode: Option<u32>) -> ExecutableProbe {
    ExecutableProbe { path: path.to_string(), exists, is_file, mode }
}

#[test]
fn executable_checks_report_each_problem() {
    assert!(validate_executable(&probe("/t", true, true, Some(0o755))).is_ok());
    assert!(validate_executable(&probe("/t", true, true, None)).is_ok());
    let missing = validate_executable(&probe("/t", false, false, None)).unwrap_err();
    assert_eq!(missing.message(), "tycmd sidecar does not exist at /t");
    let dir = validate_executable(&probe("/t", true, false, None)).unwrap_err();
    assert_eq!(dir.message(), "tycmd sidecar is not a file at /t");
    let plain = validate_executable(&probe("/t", true, true, Some(0o644))).unwrap_err();
    assert_eq!(plain.message(), "tycmd sidecar is not executable at /t");
}

#[test]
fn resolve_takes_first_existing_candidate() {
    let t = Tycmd::resolve(
        &vec![probe("/a", false, false, None), probe("/b", true, true, Some(0o755))],
        "/expected".to_string(),
    )
    .unwrap();
    assert_eq!(t.executable(), "/b");
    let err = Tycmd::resolve(&vec![probe("/a", false, false, None)], "/expected".to_string()).unwrap_err();
    assert!(matches!(err, TycmdError::Missing(_)));
    assert_eq!(err.message(), "bundled tycmd sidecar is missing at /expected");
}

#[test]
fn commands_carry_their_arguments() {
    let t = Tycmd::resolve(&vec![probe("/bin/tycmd", true, true, Some(0o755))], String::new()).unwrap();
    assert_eq!(t.list().args, vec!["list".to_string()]);
    assert_eq!(t.identify("f.hex").args, vec!["identify".to_string(), "f.hex".to_string()]);
    assert_eq!(t.upload("f.hex").args, vec!["upload".to_string(), "f.hex".to_string()]);
    let wait = t.upload_wait("f.hex");
    assert_eq!(wait.program, "/bin/tycmd");
    assert_eq!(wait.args, vec!["upload".to_string(), "--wait".to_string(), "f.hex".to_string()]);
}

#[test]
fn missing_message_names_path() {
    let m = MissingTycmd { expected_path: "vendor/tycmd".to_string() };
    assert_eq!(m.message(), "bundled tycmd sidecar is missing at vendor/tycmd");
}

#[test]
fn hex_name_must_end_the_path() {
    assert!(!is_hex_file("a.hex\\b"));
    assert!(!is_hex_file("a.hex/b"));
    assert!(is_hex_file("dir/a.HEX"));
}

#[test]
fn command_is_refused_when_executable_is_gone() {
    let command = TycmdCommand { program: "/opt/tycmd".to_string(), args: vec!["list".to_string()] };
    let ok = ExecutableProbe { path: "/opt/tycmd".to_string(), exists: true, is_file: true, mode: Some(0o755) };
    assert_eq!(checked_command(command.clone(), &ok).ok(), Some(command.clone()));
    let gone = ExecutableProbe { path: "/opt/tycmd".to_string(), exists: false, is_file: false, mode: None };
    assert_eq!(
        checked_command(command.clone(), &gone).err().map(|e| e.message()).as_deref(),
        Some("tycmd sidecar does not exist at /opt/tycmd")
    );
    let plain = ExecutableProbe { path: "/opt/tycmd".to_string(), exists: true, is_file: true, mode: Some(0o644) };
    assert_eq!(
        checked_command(command, &plain).err().map(|e| e.message()).as_deref(),
        Some("tycmd sidecar is not executable at /opt/tycmd")
    );
}

#[test]
fn hex_check_on_drive_letter_and_trailing_paths() {
    assert!(is_hex_file("C:\\fw\\a.hex"));
    assert!(is_hex_file("C:/fw/a.HEX"));
    assert!(is_hex_file("a.hex/"));
    assert!(is_hex_file("a.hex/."));
    assert!(!is_hex_file("a.hex/.."));
    assert!(!is_hex_file("C:\\fw\\a.bin"));
}
