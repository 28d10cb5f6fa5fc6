//! The state of the desktop front end and the decisions it takes on each event: which
//! firmware and board are selected, what the status line says, what the log holds, and
//! which outside work (scan, identify, upload) to start next.

use vstd::prelude::*;
use vstd::string::StringExecFns;

use vstd::utf8::{decode_utf8, encode_utf8, valid_utf8};

use crate::text::{
    chars_of, decimal, decimal_string, first_word, first_word_of, starts_with, starts_with_exec,
};
use crate::text::{
    is_plain_path, is_simple_path, lemma_plain_path_parent, lemma_simple_path_portable,
    parent_text, portable_extension, portable_parent,
};
use crate::tnc_rs::firmware::{is_hex_extension_spec, names_hex_extension, simple_hex_path};
use crate::tnc_rs::ihex::hex_digit_value;
use crate::tnc_rs::device::{devices_view, Device, DeviceView};
use crate::tnc_rs::model::{model_name, Model};

verus! {

/// Why the front end stopped with an error.
#[derive(Clone, Debug, PartialEq, Eq)]
pub enum AppErrorKind {
    InvalidHexFile(String),
    NoDevice,
    MultipleDevicesNoSelection,
    Io(String),
}

/// What the front end is doing.
#[derive(Clone, Debug, PartialEq, Eq)]
pub enum AppStatus {
    Idle,
    SelectingFile,
    Detecting,
    Identifying,
    AutoWaiting,
    Ready,
    Uploading,
    Success,
    Error(AppErrorKind),
}

/// Whether a connected board is uploaded to without a click.
#[derive(Clone, Copy, Debug, PartialEq, Eq, Structural)]
pub enum AutoMode {
    Off,
    Wait,
    Instant,
}

/// The content of an error kind.
pub enum ErrorView {
    InvalidHexFile(Seq<char>),
    NoDevice,
    MultipleDevicesNoSelection,
    Io(Seq<char>),
}

/// The content of a status.
pub enum StatusView {
    Idle,
    SelectingFile,
    Detecting,
    Identifying,
    AutoWaiting,
    Ready,
    Uploading,
    Success,
    Error(ErrorView),
}

impl View for AppErrorKind {
    type V = ErrorView;

    open spec fn view(&self) -> ErrorView {
        match self {
            AppErrorKind::InvalidHexFile(p) => ErrorView::InvalidHexFile(p@),
            AppErrorKind::NoDevice => ErrorView::NoDevice,
            AppErrorKind::MultipleDevicesNoSelection => ErrorView::MultipleDevicesNoSelection,
            AppErrorKind::Io(e) => ErrorView::Io(e@),
        }
    }
}

impl View for AppStatus {
    type V = StatusView;

    open spec fn view(&self) -> StatusView {
        match self {
            AppStatus::Idle => StatusView::Idle,
            AppStatus::SelectingFile => StatusView::SelectingFile,
            AppStatus::Detecting => StatusView::Detecting,
            AppStatus::Identifying => StatusView::Identifying,
            AppStatus::AutoWaiting => StatusView::AutoWaiting,
            AppStatus::Ready => StatusView::Ready,
            AppStatus::Uploading => StatusView::Uploading,
            AppStatus::Success => StatusView::Success,
            AppStatus::Error(k) => StatusView::Error(k@),
        }
    }
}

/// The front end's state.
pub struct BeaconApp {
    /// The firmware file chosen for upload.
    pub selected_hex: Option<String>,
    /// The boards of the last scan.
    pub devices: Vec<Device>,
    /// The board chosen for upload, by position in `devices`.
    pub selected_device_index: Option<usize>,
    /// What identifying the firmware said.
    pub identify_output: Option<String>,
    /// The log, oldest line first, at most `MAX_LOG_LINES` lines.
    pub output_lines: Vec<String>,
    pub status: AppStatus,
    /// Whether a scan, identify, upload or file dialog is under way.
    pub task_running: bool,
    /// Whether the upload indicator blinks.
    pub blink_running: bool,
    pub blink_visible: bool,
    pub chevron_tick: u32,
    pub auto_mode: AutoMode,
    pub chevron_anim_phase: u8,
    pub upload_triggered_by_auto: bool,
    /// The identity of the board an automatic upload last went to.
    pub last_auto_upload_device: Option<String>,
    /// The directory of the last chosen firmware file.
    pub last_hex_dir: Option<String>,
}

/// The content of the front end's state.
pub struct AppView {
    pub selected_hex: Option<Seq<char>>,
    pub devices: Seq<DeviceView>,
    pub selected_device_index: Option<usize>,
    pub identify_output: Option<Seq<char>>,
    pub output_lines: Seq<Seq<char>>,
    pub status: StatusView,
    pub task_running: bool,
    pub blink_running: bool,
    pub blink_visible: bool,
    pub chevron_tick: u32,
    pub auto_mode: AutoMode,
    pub chevron_anim_phase: u8,
    pub upload_triggered_by_auto: bool,
    pub last_auto_upload_device: Option<Seq<char>>,
    pub last_hex_dir: Option<Seq<char>>,
}

/// An optional string as an optional sequence of characters.
pub open spec fn opt_chars(s: Option<String>) -> Option<Seq<char>> {
    match s {
        Some(v) => Some(v@),
        None => None,
    }
}

/// The lines of a log.
pub open spec fn lines_view(v: Seq<String>) -> Seq<Seq<char>> {
    v.map_values(|l: String| l@)
}

impl View for BeaconApp {
    type V = AppView;

    open spec fn view(&self) -> AppView {
        AppView {
            selected_hex: opt_chars(self.selected_hex),
            devices: devices_view(self.devices@),
            selected_device_index: self.selected_device_index,
            identify_output: opt_chars(self.identify_output),
            output_lines: lines_view(self.output_lines@),
            status: self.status@,
            task_running: self.task_running,
            blink_running: self.blink_running,
            blink_visible: self.blink_visible,
            chevron_tick: self.chevron_tick,
            auto_mode: self.auto_mode,
            chevron_anim_phase: self.chevron_anim_phase,
            upload_triggered_by_auto: self.upload_triggered_by_auto,
            last_auto_upload_device: opt_chars(self.last_auto_upload_device),
            last_hex_dir: opt_chars(self.last_hex_dir),
        }
    }
}

/// The most lines the log keeps.
pub const MAX_LOG_LINES: usize = 200;

/// The kinds of log line, each with its prefix.
#[derive(Clone, Copy, Debug, PartialEq, Eq, Structural)]
pub enum LogKind {
    Info,
    Command,
    Success,
    Failure,
}

/// The prefix of a kind of log line.
pub open spec fn log_prefix(kind: LogKind) -> Seq<char> {
    match kind {
        LogKind::Info => "INFO "@,
        LogKind::Command => "$ "@,
        LogKind::Success => "OK "@,
        LogKind::Failure => "ERR "@,
    }
}

/// A log with one more line, of which the last `MAX_LOG_LINES` are kept.
pub open spec fn push_line(lines: Seq<Seq<char>>, line: Seq<char>) -> Seq<Seq<char>> {
    let l = lines.push(line);
    if l.len() > MAX_LOG_LINES {
        l.skip(l.len() - MAX_LOG_LINES)
    } else {
        l
    }
}

/// The state once a line of some kind is logged.
pub open spec fn logged(s: AppView, kind: LogKind, line: Seq<char>) -> AppView {
    AppView { output_lines: push_line(s.output_lines, log_prefix(kind) + line), ..s }
}

/// Statuses during which no new work is started.
pub open spec fn is_busy_spec(status: StatusView) -> bool {
    ||| status is SelectingFile
    ||| status is Detecting
    ||| status is Identifying
    ||| status is Uploading
}

/// Whether an upload can be started: firmware and board chosen, nothing under way.
pub open spec fn can_upload_spec(s: AppView) -> bool {
    &&& s.selected_hex is Some
    &&& s.selected_device_index is Some
    &&& !(s.status is AutoWaiting)
    &&& !is_busy_spec(s.status)
}

/// Which of the three workflow steps the chevrons animate.
pub open spec fn chevron_phase_spec(s: AppView) -> u8 {
    if can_upload_spec(s) || s.status is Uploading || s.status is AutoWaiting || s.auto_mode
        != AutoMode::Off {
        2
    } else if s.selected_hex is Some && s.selected_device_index is None {
        1
    } else {
        0
    }
}

/// The state with the chevron animation restarted where its phase changed.
pub open spec fn synced(s: AppView) -> AppView {
    let phase = chevron_phase_spec(s);
    if phase != s.chevron_anim_phase {
        AppView { chevron_tick: 0, chevron_anim_phase: phase, ..s }
    } else {
        s
    }
}

/// The state with the status set to `Ready` where firmware and board are chosen, else `Idle`.
pub open spec fn refreshed(s: AppView) -> AppView {
    if s.selected_hex is Some && s.selected_device_index is Some {
        AppView { status: StatusView::Ready, ..s }
    } else {
        AppView { status: StatusView::Idle, ..s }
    }
}

/// The state once a scan reported `devices`: one board is chosen at once, none or several
/// stop with an error.
pub open spec fn scan_finished(s: AppView, devices: Seq<DeviceView>) -> AppView {
    let s1 = AppView { devices: devices, ..s };
    if devices.len() == 0 {
        logged(
            AppView {
                selected_device_index: None,
                status: StatusView::Error(ErrorView::NoDevice),
                ..s1
            },
            LogKind::Failure,
            "no Teensy devices detected"@,
        )
    } else if devices.len() == 1 {
        refreshed(
            logged(
                AppView { selected_device_index: Some(0), ..s1 },
                LogKind::Info,
                "detected device: "@ + devices[0].label,
            ),
        )
    } else {
        logged(
            AppView {
                selected_device_index: None,
                status: StatusView::Error(ErrorView::MultipleDevicesNoSelection),
                ..s1
            },
            LogKind::Info,
            decimal(devices.len()) + " devices detected; select one before upload"@,
        )
    }
}

/// The names of models, separated by ", ".
pub open spec fn joined_names(ms: Seq<Model>) -> Seq<char>
    decreases ms.len(),
{
    if ms.len() == 0 {
        Seq::empty()
    } else if ms.len() == 1 {
        model_name(ms[0])
    } else {
        joined_names(ms.drop_last()) + ", "@ + model_name(ms.last())
    }
}

/// What identifying a firmware file shows: the model names, or "Unknown".
pub open spec fn identify_summary(ms: Seq<Model>) -> Seq<char> {
    if ms.len() == 0 {
        "Unknown"@
    } else {
        joined_names(ms)
    }
}

/// The state once the firmware was identified as built for `ms`.
pub open spec fn identify_finished(s: AppView, ms: Seq<Model>) -> AppView {
    refreshed(
        logged(
            AppView { identify_output: Some(identify_summary(ms)), ..s },
            LogKind::Info,
            "identify complete: "@ + identify_summary(ms),
        ),
    )
}

/// The state once an upload succeeded.
pub open spec fn upload_finished(s: AppView) -> AppView {
    logged(AppView { status: StatusView::Success, ..s }, LogKind::Success, "upload succeeded"@)
}

/// The state once the user picks board `index`: ignored while busy or out of range.
pub open spec fn device_selected(s: AppView, index: usize) -> AppView {
    if is_busy_spec(s.status) || index >= s.devices.len() {
        s
    } else {
        synced(
            refreshed(
                logged(
                    AppView {
                        selected_device_index: Some(index),
                        last_auto_upload_device: None,
                        ..s
                    },
                    LogKind::Info,
                    "selected device: "@ + s.devices[index as int].label,
                ),
            ),
        )
    }
}

/// The board an automatic upload goes to, by the first word of its line: the chosen board,
/// else the only one.
pub open spec fn auto_upload_device_spec(s: AppView) -> Option<Seq<char>> {
    if s.selected_device_index is Some && s.selected_device_index->0 < s.devices.len() {
        Some(first_word(s.devices[s.selected_device_index->0 as int].raw_line))
    } else if s.devices.len() == 1 {
        Some(first_word(s.devices[0].raw_line))
    } else {
        None
    }
}

/// Whether the board an automatic upload would go to is not the one it last went to.
pub open spec fn auto_upload_device_changed_spec(s: AppView) -> bool {
    match auto_upload_device_spec(s) {
        Some(d) => s.last_auto_upload_device != Some(d),
        None => false,
    }
}

/// Outside work the front end asks for after an event.
#[derive(Clone, Debug, PartialEq, Eq)]
pub enum AppAction {
    Nothing,
    /// Upload this firmware file to the chosen board.
    Upload(String),
    /// Wait for a board, then upload this firmware file to it.
    UploadWait(String),
    /// Identify the boards this firmware file is built for.
    Identify(String),
    /// List the connected boards.
    Scan,
    /// Ask the user for a firmware file.
    PickFile,
}

/// The content of an action.
pub enum ActionView {
    Nothing,
    Upload(Seq<char>),
    UploadWait(Seq<char>),
    Identify(Seq<char>),
    Scan,
    PickFile,
}

impl View for AppAction {
    type V = ActionView;

    open spec fn view(&self) -> ActionView {
        match self {
            AppAction::Nothing => ActionView::Nothing,
            AppAction::Upload(p) => ActionView::Upload(p@),
            AppAction::UploadWait(p) => ActionView::UploadWait(p@),
            AppAction::Identify(p) => ActionView::Identify(p@),
            AppAction::Scan => ActionView::Scan,
            AppAction::PickFile => ActionView::PickFile,
        }
    }
}

/// A manual upload: refused without firmware or board, else started.
pub open spec fn upload_started(s: AppView) -> (AppView, ActionView) {
    match s.selected_hex {
        None => (
            logged(
                AppView {
                    status: StatusView::Error(ErrorView::InvalidHexFile("NO HEX SELECTED"@)),
                    ..s
                },
                LogKind::Failure,
                "cannot upload: no .hex file selected"@,
            ),
            ActionView::Nothing,
        ),
        Some(hex) => if s.selected_device_index is None {
            (
                logged(
                    AppView {
                        status: StatusView::Error(ErrorView::MultipleDevicesNoSelection),
                        ..s
                    },
                    LogKind::Failure,
                    "cannot upload: select a Teensy first"@,
                ),
                ActionView::Nothing,
            )
        } else {
            (
                AppView {
                    status: StatusView::Uploading,
                    blink_visible: true,
                    blink_running: true,
                    task_running: true,
                    ..logged(s, LogKind::Command, "tnc-rs upload "@ + hex)
                },
                ActionView::Upload(hex),
            )
        },
    }
}

/// An upload that waits for a board: started when firmware is chosen.
pub open spec fn auto_wait_started(s: AppView) -> (AppView, ActionView) {
    match s.selected_hex {
        None => (s, ActionView::Nothing),
        Some(hex) => (
            AppView {
                upload_triggered_by_auto: true,
                status: StatusView::AutoWaiting,
                blink_visible: true,
                blink_running: true,
                task_running: true,
                ..logged(s, LogKind::Command, "tnc-rs upload --wait "@ + hex)
            },
            ActionView::UploadWait(hex),
        ),
    }
}

/// The automatic mode after `m`: off, wait, instant, and round again.
pub open spec fn next_auto_mode(m: AutoMode) -> AutoMode {
    match m {
        AutoMode::Off => AutoMode::Wait,
        AutoMode::Wait => AutoMode::Instant,
        AutoMode::Instant => AutoMode::Off,
    }
}

/// The state with the automatic upload target remembered.
pub open spec fn remembered(s: AppView) -> AppView {
    AppView { last_auto_upload_device: auto_upload_device_spec(s), ..s }
}

/// Switching to the next automatic mode, and what it starts.
pub open spec fn auto_cycled(s: AppView) -> (AppView, ActionView) {
    if is_busy_spec(s.status) {
        (s, ActionView::Nothing)
    } else {
        let s1 = AppView { auto_mode: next_auto_mode(s.auto_mode), ..s };
        match s1.auto_mode {
            AutoMode::Wait => if s1.selected_hex is Some && s1.devices.len() > 0 {
                auto_wait_started(
                    logged(s1, LogKind::Info, "auto-wait: device present, uploading..."@),
                )
            } else if s1.selected_hex is Some {
                (logged(s1, LogKind::Info, "auto-wait: armed, waiting for device..."@), ActionView::Nothing)
            } else {
                (
                    AppView {
                        auto_mode: AutoMode::Off,
                        ..logged(s1, LogKind::Info, "auto-wait: load a .hex to arm"@)
                    },
                    ActionView::Nothing,
                )
            },
            AutoMode::Instant => if can_upload_spec(s1) {
                upload_started(
                    remembered(
                        AppView {
                            upload_triggered_by_auto: true,
                            ..logged(
                                s1,
                                LogKind::Info,
                                "auto-instant: device present, uploading now..."@,
                            )
                        },
                    ),
                )
            } else if s1.selected_hex is Some {
                (
                    logged(s1, LogKind::Info, "auto-instant: armed, waiting for device..."@),
                    ActionView::Nothing,
                )
            } else {
                (
                    AppView {
                        auto_mode: AutoMode::Off,
                        ..logged(s1, LogKind::Info, "auto-instant: load a .hex to arm"@)
                    },
                    ActionView::Nothing,
                )
            },
            AutoMode::Off => {
                let s2 = AppView {
                    upload_triggered_by_auto: false,
                    blink_running: false,
                    blink_visible: true,
                    ..logged(s1, LogKind::Info, "auto: off"@)
                };
                (
                    if s2.status is Uploading || s2.status is AutoWaiting {
                        refreshed(s2)
                    } else {
                        s2
                    },
                    ActionView::Nothing,
                )
            },
        }
    }
}

/// The state with the work and the blinking finished.
pub open spec fn work_stopped(s: AppView) -> AppView {
    AppView { task_running: false, blink_running: false, blink_visible: true, ..s }
}

/// The state once a manual or instant upload reported its result.
pub open spec fn upload_task_finished(s: AppView, result: Result<(), Seq<char>>) -> AppView {
    work_stopped(
        match result {
            Ok(_) => if s.upload_triggered_by_auto {
                let s2 = AppView { upload_triggered_by_auto: false, ..upload_finished(s) };
                if s2.auto_mode == AutoMode::Instant {
                    logged(s2, LogKind::Info, "auto-instant: waiting for next device..."@)
                } else {
                    s2
                }
            } else {
                upload_finished(s)
            },
            Err(e) => logged(
                AppView { status: StatusView::Error(ErrorView::Io(e)), ..s },
                LogKind::Failure,
                "upload failed before command completed: "@ + e,
            ),
        },
    )
}

/// The state once a waiting upload reported its result.
pub open spec fn auto_wait_task_finished(s: AppView, result: Result<(), Seq<char>>) -> AppView {
    let s1 = match result {
        Ok(_) => logged(
            AppView { status: StatusView::Success, ..s },
            LogKind::Success,
            "auto-wait: upload succeeded"@,
        ),
        Err(e) => logged(
            AppView { status: StatusView::Error(ErrorView::Io(e)), ..s },
            LogKind::Failure,
            "auto-wait: "@ + e,
        ),
    };
    let s2 = if s1.auto_mode == AutoMode::Wait {
        logged(s1, LogKind::Info, "auto-wait: waiting for next device..."@)
    } else {
        s1
    };
    synced(AppView { upload_triggered_by_auto: false, ..work_stopped(s2) })
}

/// A manual scan: started unless busy.
pub open spec fn scan_started(s: AppView) -> (AppView, ActionView) {
    if is_busy_spec(s.status) {
        (s, ActionView::Nothing)
    } else {
        (
            AppView {
                task_running: true,
                ..logged(
                    AppView {
                        status: StatusView::Detecting,
                        devices: Seq::empty(),
                        selected_device_index: None,
                        ..s
                    },
                    LogKind::Command,
                    "tnc-rs list"@,
                )
            },
            ActionView::Scan,
        )
    }
}

/// The state once a manual scan reported its result.
pub open spec fn scan_task_finished(s: AppView, result: Result<Seq<DeviceView>, Seq<char>>) -> AppView {
    let s1 = AppView { task_running: false, ..s };
    synced(
        match result {
            Ok(devices) => scan_finished(s1, devices),
            Err(e) => logged(
                AppView { status: StatusView::Error(ErrorView::Io(e)), ..s1 },
                LogKind::Failure,
                "scan failed: "@ + e,
            ),
        },
    )
}

/// Identifying the chosen firmware: started when there is one.
pub open spec fn identify_started(s: AppView) -> (AppView, ActionView) {
    match s.selected_hex {
        None => (refreshed(s), ActionView::Nothing),
        Some(hex) => (
            AppView {
                task_running: true,
                ..logged(
                    AppView {
                        status: StatusView::Identifying,
                        identify_output: Some("checking firmware file..."@),
                        ..s
                    },
                    LogKind::Command,
                    "tnc-rs identify "@ + hex,
                )
            },
            ActionView::Identify(hex),
        ),
    }
}

/// The state once identifying reported its result.
pub open spec fn identify_task_finished(s: AppView, result: Result<Seq<Model>, Seq<char>>) -> AppView {
    let s1 = match result {
        Ok(ms) => identify_finished(s, ms),
        Err(e) => refreshed(
            logged(
                AppView { identify_output: Some("identify failed: "@ + e), ..s },
                LogKind::Failure,
                "identify failed before command completed: "@ + e,
            ),
        ),
    };
    synced(AppView { task_running: false, ..s1 })
}

/// Asking for a firmware file: started unless busy.
pub open spec fn load_hex_started(s: AppView) -> (AppView, ActionView) {
    if is_busy_spec(s.status) {
        (s, ActionView::Nothing)
    } else {
        let s1 = AppView { status: StatusView::SelectingFile, ..s };
        let line = match s.last_hex_dir {
            Some(dir) => "choose firmware .hex (last directory: "@ + dir + ")"@,
            None => "choose firmware .hex"@,
        };
        (AppView { task_running: true, ..logged(s1, LogKind::Info, line) }, ActionView::PickFile)
    }
}

/// The device lines of boards.
pub open spec fn raw_lines(ds: Seq<DeviceView>) -> Seq<Seq<char>> {
    ds.map_values(|d: DeviceView| d.raw_line)
}

/// A changed board list taken in: shown, with the choice of board kept valid.
pub open spec fn scan_list_taken(s: AppView, devices: Seq<DeviceView>) -> AppView {
    let s1 = AppView { devices: devices, ..s };
    let s2 = if devices.len() > s.devices.len() {
        logged(s1, LogKind::Info, "auto-scan: "@ + decimal(devices.len()) + " device(s) detected"@)
    } else {
        s1
    };
    let s3 = if devices.len() == 1 && s2.selected_device_index is None {
        AppView { selected_device_index: Some(0), ..s2 }
    } else {
        s2
    };
    let s4 = if s3.selected_device_index is Some && s3.selected_device_index->0 >= devices.len() {
        AppView { selected_device_index: None, ..s3 }
    } else {
        s3
    };
    refreshed(s4)
}

/// The upload an automatic mode starts once boards are shown: instantly to a board not
/// uploaded to before, or waiting for one.
pub open spec fn auto_upload_after_scan(s: AppView) -> (AppView, ActionView) {
    let sa6 = if s.auto_mode == AutoMode::Instant && s.devices.len() > 0 && s.selected_hex is Some
        && !is_busy_spec(s.status) && !s.task_running && auto_upload_device_changed_spec(s) {
        upload_started(
            remembered(
                AppView {
                    upload_triggered_by_auto: true,
                    ..logged(s, LogKind::Info, "auto-instant: device detected, uploading..."@)
                },
            ),
        )
    } else {
        (s, ActionView::Nothing)
    };
    let s6 = sa6.0;
    if s6.auto_mode == AutoMode::Wait && s6.devices.len() > 0 && s6.selected_hex is Some
        && !is_busy_spec(s6.status) && !s6.task_running {
        auto_wait_started(logged(s6, LogKind::Info, "auto-wait: device detected, starting upload..."@))
    } else {
        sa6
    }
}

/// A periodic scan's result taken in: a changed board list is shown, the choice of board
/// kept valid, and in an automatic mode an upload started.
pub open spec fn auto_scanned(s: AppView, result: Result<Seq<DeviceView>, Seq<char>>) -> (
    AppView,
    ActionView,
) {
    match result {
        Err(e) => (logged(s, LogKind::Failure, "scan failed: "@ + e), ActionView::Nothing),
        Ok(devices) => if raw_lines(s.devices) == raw_lines(devices) {
            (s, ActionView::Nothing)
        } else {
            let sa = auto_upload_after_scan(scan_list_taken(s, devices));
            (synced(sa.0), sa.1)
        },
    }
}

/// The state once a file choice came back empty.
pub open spec fn selection_cancelled(s: AppView) -> AppView {
    refreshed(logged(s, LogKind::Info, "file selection cancelled"@))
}

/// The state once a chosen file was refused for not being a HEX file.
pub open spec fn selection_rejected(s: AppView, path: Seq<char>) -> AppView {
    logged(
        AppView { status: StatusView::Error(ErrorView::InvalidHexFile(path)), ..s },
        LogKind::Failure,
        "rejected non-hex file: "@ + path,
    )
}

/// The state once a HEX file was taken, with its directory `dir` remembered and the error,
/// if any, of saving that directory.
pub open spec fn selection_accepted(
    s: AppView,
    path: Seq<char>,
    dir: Option<Seq<char>>,
    save_error: Option<Seq<char>>,
) -> AppView {
    let s1 = AppView { selected_hex: Some(path), last_hex_dir: dir, ..s };
    let s2 = if dir is Some && save_error is Some {
        logged(s1, LogKind::Failure, "could not save last firmware directory: "@ + save_error->0)
    } else {
        s1
    };
    logged(AppView { identify_output: None, ..s2 }, LogKind::Success, "selected firmware: "@ + path)
}

/// `p` is a leading part of `s`.
pub open spec fn is_prefix_of(p: Seq<char>, s: Seq<char>) -> bool {
    p.len() <= s.len() && p == s.subrange(0, p.len() as int)
}

/// What taking a file list does: `accepted` tells whether its first path was taken, `t` is
/// the state after.
pub open spec fn selection_outcome(
    s: AppView,
    paths: Seq<Seq<char>>,
    save_error: Option<Seq<char>>,
    accepted: bool,
    t: AppView,
) -> bool {
    if paths.len() == 0 {
        !accepted && t == selection_cancelled(s)
    } else if !paths[0].contains('.') && accepted {
        false
    } else if portable_extension(paths[0]) matches Some(x) && accepted != is_hex_extension_spec(x) {
        false
    } else if accepted {
        &&& names_hex_extension(paths[0])
        &&& exists|dir: Option<Seq<char>>|
            (dir matches Some(d) ==> is_prefix_of(d, paths[0])) && (portable_parent(paths[0]) matches Some(x)
                ==> dir == x) && t == #[trigger] selection_accepted(
                s,
                paths[0],
                dir,
                save_error,
            )
    } else {
        t == selection_rejected(s, paths[0])
    }
}

/// After a file list was taken: identifying starts when a file was accepted.
pub open spec fn after_selection(t: AppView, accepted: bool) -> (AppView, ActionView) {
    if accepted {
        let ua = identify_started(t);
        (synced(ua.0), ua.1)
    } else {
        (synced(t), ActionView::Nothing)
    }
}

/// The paths of a list.
pub open spec fn paths_view(v: Seq<String>) -> Seq<Seq<char>> {
    v.map_values(|p: String| p@)
}

/// What the file dialog gave back.
#[derive(Clone, Debug, PartialEq, Eq)]
pub enum FileSelection {
    /// The chosen paths.
    Chosen(Vec<String>),
    /// The dialog was closed without a choice.
    Cancelled,
    /// The dialog reported an error.
    PickerFailed(String),
    /// The dialog went away before answering.
    ChannelClosed(String),
}


impl BeaconApp {
    /// The initial state: nothing chosen, automatic upload off, one log line.
    pub fn new(last_hex_dir: Option<String>) -> (app: BeaconApp)
        ensures
            app@ == (AppView {
                selected_hex: None,
                devices: Seq::empty(),
                selected_device_index: None,
                identify_output: None,
                output_lines: seq!["INFO tnc-rs native backend active"@],
                status: StatusView::Idle,
                task_running: false,
                blink_running: false,
                blink_visible: true,
                chevron_tick: 0,
                auto_mode: AutoMode::Off,
                chevron_anim_phase: 0,
                upload_triggered_by_auto: false,
                last_auto_upload_device: None,
                last_hex_dir: opt_chars(last_hex_dir),
            }),
            app_invariant(app@),
    {
        let mut app = BeaconApp {
            selected_hex: None,
            devices: Vec::new(),
            selected_device_index: None,
            identify_output: None,
            output_lines: Vec::new(),
            status: AppStatus::Idle,
            task_running: false,
            blink_running: false,
            blink_visible: true,
            chevron_tick: 0,
            auto_mode: AutoMode::Off,
            chevron_anim_phase: 0,
            upload_triggered_by_auto: false,
            last_auto_upload_device: None,
            last_hex_dir,
        };
        app.log("tnc-rs native backend active");
        proof {
            reveal_strlit("INFO ");
            reveal_strlit("tnc-rs native backend active");
            reveal_strlit("INFO tnc-rs native backend active");
            assert("INFO "@ + "tnc-rs native backend active"@ =~= "INFO tnc-rs native backend active"@);
            assert(app@.output_lines =~= seq!["INFO tnc-rs native backend active"@]);
            assert(app@.devices =~= Seq::<DeviceView>::empty());
        }
        app
    }

    /// Whether a file dialog, scan, identify or upload is under way.
    pub fn is_busy(&self) -> (r: bool)
        ensures
            r == is_busy_spec(self@.status),
    {
        match self.status {
            AppStatus::SelectingFile | AppStatus::Detecting | AppStatus::Identifying
            | AppStatus::Uploading => true,
            _ => false,
        }
    }

    /// Whether an upload can be started now.
    pub fn can_upload(&self) -> (r: bool)
        ensures
            r == can_upload_spec(self@),
    {
        self.selected_hex.is_some() && self.selected_device_index.is_some() && !matches!(
            self.status,
            AppStatus::AutoWaiting
        ) && !self.is_busy()
    }

    /// The workflow step the chevrons point at: 2 ready or uploading, 1 board missing, else 0.
    pub fn current_chevron_phase(&self) -> (r: u8)
        ensures
            r == chevron_phase_spec(self@),
    {
        if self.can_upload() || matches!(self.status, AppStatus::Uploading | AppStatus::AutoWaiting)
            || self.auto_mode != AutoMode::Off {
            2
        } else if self.selected_hex.is_some() && self.selected_device_index.is_none() {
            1
        } else {
            0
        }
    }

    /// Restarts the chevron animation where its phase changed.
    pub fn sync_chevron_phase(&mut self)
        ensures
            final(self)@ == synced(old(self)@),
    {
        let phase = self.current_chevron_phase();
        if phase != self.chevron_anim_phase {
            self.chevron_tick = 0;
            self.chevron_anim_phase = phase;
        }
    }

    /// Sets the status to `Ready` where firmware and board are chosen, else to `Idle`.
    pub fn refresh_ready_status(&mut self)
        ensures
            final(self)@ == refreshed(old(self)@),
    {
        if self.selected_hex.is_some() && self.selected_device_index.is_some() {
            self.status = AppStatus::Ready;
        } else {
            self.status = AppStatus::Idle;
        }
    }

    /// Keeps the last `MAX_LOG_LINES` lines of the log.
    pub fn truncate_log(&mut self)
        ensures
            final(self)@ == (AppView {
                output_lines: if old(self)@.output_lines.len() > MAX_LOG_LINES {
                    old(self)@.output_lines.skip(old(self)@.output_lines.len() - MAX_LOG_LINES)
                } else {
                    old(self)@.output_lines
                },
                ..old(self)@
            }),
    {
        let n = self.output_lines.len();
        if n > MAX_LOG_LINES {
            let ghost old_lines = self.output_lines@;
            let kept = self.output_lines.split_off(n - MAX_LOG_LINES);
            self.output_lines = kept;
            proof {
                assert(lines_view(self.output_lines@) =~= lines_view(old_lines).skip(
                    n - MAX_LOG_LINES,
                ));
            }
        }
    }

    /// Appends a line with its kind's prefix to the log.
    pub fn log_line(&mut self, kind: LogKind, line: &str)
        ensures
            final(self)@ == logged(old(self)@, kind, line@),
    {
        let mut full = match kind {
            LogKind::Info => String::from_str("INFO "),
            LogKind::Command => String::from_str("$ "),
            LogKind::Success => String::from_str("OK "),
            LogKind::Failure => String::from_str("ERR "),
        };
        full.append(line);
        let ghost old_lines = lines_view(self.output_lines@);
        self.output_lines.push(full);
        proof {
            reveal_strlit("INFO ");
            reveal_strlit("$ ");
            reveal_strlit("OK ");
            reveal_strlit("ERR ");
            assert(lines_view(self.output_lines@) =~= old_lines.push(log_prefix(kind) + line@));
        }
        self.truncate_log();
    }

    /// Logs an information line.
    pub fn log(&mut self, line: &str)
        ensures
            final(self)@ == logged(old(self)@, LogKind::Info, line@),
    {
        self.log_line(LogKind::Info, line);
    }

    /// Logs a command line.
    pub fn log_command(&mut self, line: &str)
        ensures
            final(self)@ == logged(old(self)@, LogKind::Command, line@),
    {
        self.log_line(LogKind::Command, line);
    }

    /// Logs a success line.
    pub fn log_success(&mut self, line: &str)
        ensures
            final(self)@ == logged(old(self)@, LogKind::Success, line@),
    {
        self.log_line(LogKind::Success, line);
    }

    /// Logs an error line.
    pub fn log_error(&mut self, line: &str)
        ensures
            final(self)@ == logged(old(self)@, LogKind::Failure, line@),
    {
        self.log_line(LogKind::Failure, line);
    }
    /// Takes the boards of a finished scan.
    pub fn finish_scan(&mut self, devices: Vec<Device>)
        ensures
            final(self)@ == scan_finished(old(self)@, devices_view(devices@)),
    {
        let ghost dv = devices_view(devices@);
        self.devices = devices;
        let n = self.devices.len();
        if n == 0 {
            self.selected_device_index = None;
            self.status = AppStatus::Error(AppErrorKind::NoDevice);
            self.log_error("no Teensy devices detected");
        } else if n == 1 {
            self.selected_device_index = Some(0);
            let line = concat2("detected device: ", self.devices[0].label.as_str());
            self.log(line.as_str());
            self.refresh_ready_status();
        } else {
            self.selected_device_index = None;
            self.status = AppStatus::Error(AppErrorKind::MultipleDevicesNoSelection);
            let mut line = decimal_string(n);
            line.append(" devices detected; select one before upload");
            self.log(line.as_str());
        }
    }

    /// Takes the models a firmware file was identified as.
    pub fn finish_identify(&mut self, models: &Vec<Model>)
        ensures
            final(self)@ == identify_finished(old(self)@, models@),
    {
        let output = identify_summary_string(models);
        let line = concat2("identify complete: ", output.as_str());
        self.identify_output = Some(output);
        self.log(line.as_str());
        self.refresh_ready_status();
    }

    /// Records a successful upload.
    pub fn finish_upload(&mut self)
        ensures
            final(self)@ == upload_finished(old(self)@),
    {
        self.status = AppStatus::Success;
        self.log_success("upload succeeded");
    }

    /// Chooses board `index` for upload, unless busy or out of range.
    pub fn select_device(&mut self, index: usize)
        ensures
            final(self)@ == device_selected(old(self)@, index),
    {
        if self.is_busy() || index >= self.devices.len() {
            return;
        }
        self.selected_device_index = Some(index);
        self.last_auto_upload_device = None;
        let line = concat2("selected device: ", self.devices[index].label.as_str());
        self.log(line.as_str());
        self.refresh_ready_status();
        self.sync_chevron_phase();
    }

    /// The identity of the board an automatic upload goes to.
    pub fn current_auto_upload_device(&self) -> (r: Option<String>)
        ensures
            opt_chars(r) == auto_upload_device_spec(self@),
    {
        match self.selected_device_index {
            Some(i) => {
                if i < self.devices.len() {
                    return Some(stable_device_identity(self.devices[i].raw_line.as_str()));
                }
            },
            None => {},
        }
        if self.devices.len() == 1 {
            Some(stable_device_identity(self.devices[0].raw_line.as_str()))
        } else {
            None
        }
    }

    /// Whether an automatic upload would go to another board than last time.
    pub fn auto_upload_device_changed(&self) -> (r: bool)
        ensures
            r == auto_upload_device_changed_spec(self@),
    {
        match self.current_auto_upload_device() {
            Some(d) => match &self.last_auto_upload_device {
                Some(last) => *last != d,
                None => true,
            },
            None => false,
        }
    }

    /// Remembers the board an automatic upload goes to.
    pub fn remember_auto_upload_device(&mut self)
        ensures
            final(self)@ == (AppView {
                last_auto_upload_device: auto_upload_device_spec(old(self)@),
                ..old(self)@
            }),
    {
        self.last_auto_upload_device = self.current_auto_upload_device();
    }
    /// Starts a manual upload, unless firmware or board is missing.
    pub fn do_upload(&mut self) -> (r: AppAction)
        ensures
            (final(self)@, r@) == upload_started(old(self)@),
    {
        let hex = match &self.selected_hex {
            Some(h) => h.clone(),
            None => {
                self.status = AppStatus::Error(
                    AppErrorKind::InvalidHexFile(String::from_str("NO HEX SELECTED")),
                );
                self.log_error("cannot upload: no .hex file selected");
                return AppAction::Nothing;
            },
        };
        if self.selected_device_index.is_none() {
            self.status = AppStatus::Error(AppErrorKind::MultipleDevicesNoSelection);
            self.log_error("cannot upload: select a Teensy first");
            return AppAction::Nothing;
        }
        self.status = AppStatus::Uploading;
        self.blink_visible = true;
        let line = concat2("tnc-rs upload ", hex.as_str());
        self.log_command(line.as_str());
        self.blink_running = true;
        self.task_running = true;
        AppAction::Upload(hex)
    }

    /// Starts a manual upload on request, unless busy.
    pub fn upload_selected(&mut self) -> (r: AppAction)
        ensures
            is_busy_spec(old(self)@.status) ==> final(self)@ == old(self)@ && r@ == ActionView::Nothing,
            !is_busy_spec(old(self)@.status) ==> (final(self)@, r@) == upload_started(old(self)@),
    {
        if self.is_busy() {
            return AppAction::Nothing;
        }
        self.do_upload()
    }

    /// Starts an upload that waits for a board, when firmware is chosen.
    pub fn start_auto_wait(&mut self) -> (r: AppAction)
        ensures
            (final(self)@, r@) == auto_wait_started(old(self)@),
    {
        let hex = match &self.selected_hex {
            Some(h) => h.clone(),
            None => {
                return AppAction::Nothing;
            },
        };
        self.upload_triggered_by_auto = true;
        self.status = AppStatus::AutoWaiting;
        self.blink_visible = true;
        let line = concat2("tnc-rs upload --wait ", hex.as_str());
        self.log_command(line.as_str());
        self.blink_running = true;
        self.task_running = true;
        AppAction::UploadWait(hex)
    }

    /// Switches to the next automatic mode and starts what it calls for.
    pub fn cycle_auto(&mut self) -> (r: AppAction)
        ensures
            (final(self)@, r@) == auto_cycled(old(self)@),
    {
        if self.is_busy() {
            return AppAction::Nothing;
        }
        self.auto_mode = match self.auto_mode {
            AutoMode::Off => AutoMode::Wait,
            AutoMode::Wait => AutoMode::Instant,
            AutoMode::Instant => AutoMode::Off,
        };
        match self.auto_mode {
            AutoMode::Wait => {
                if self.selected_hex.is_some() && self.devices.len() > 0 && !self.is_busy() {
                    self.log("auto-wait: device present, uploading...");
                    self.start_auto_wait()
                } else if self.selected_hex.is_some() {
                    self.log("auto-wait: armed, waiting for device...");
                    AppAction::Nothing
                } else {
                    self.log("auto-wait: load a .hex to arm");
                    self.auto_mode = AutoMode::Off;
                    AppAction::Nothing
                }
            },
            AutoMode::Instant => {
                if self.can_upload() {
                    self.log("auto-instant: device present, uploading now...");
                    self.upload_triggered_by_auto = true;
                    self.remember_auto_upload_device();
                    self.do_upload()
                } else if self.selected_hex.is_some() {
                    self.log("auto-instant: armed, waiting for device...");
                    AppAction::Nothing
                } else {
                    self.log("auto-instant: load a .hex to arm");
                    self.auto_mode = AutoMode::Off;
                    AppAction::Nothing
                }
            },
            AutoMode::Off => {
                self.log("auto: off");
                self.upload_triggered_by_auto = false;
                self.blink_running = false;
                self.blink_visible = true;
                if matches!(self.status, AppStatus::Uploading | AppStatus::AutoWaiting) {
                    self.refresh_ready_status();
                }
                AppAction::Nothing
            },
        }
    }

    /// Takes the result of a manual or instant upload.
    pub fn finish_upload_task(&mut self, result: Result<(), String>)
        ensures
            final(self)@ == upload_task_finished(
                old(self)@,
                match result {
                    Ok(_) => Ok(()),
                    Err(e) => Err(e@),
                },
            ),
    {
        match result {
            Ok(()) => {
                let was_auto = self.upload_triggered_by_auto;
                self.finish_upload();
                if was_auto {
                    self.upload_triggered_by_auto = false;
                    if self.auto_mode == AutoMode::Instant {
                        self.log("auto-instant: waiting for next device...");
                    }
                }
            },
            Err(e) => {
                let line = concat2("upload failed before command completed: ", e.as_str());
                self.status = AppStatus::Error(AppErrorKind::Io(e));
                self.log_error(line.as_str());
            },
        }
        self.task_running = false;
        self.blink_running = false;
        self.blink_visible = true;
    }

    /// Takes the result of an upload that waited for a board.
    pub fn finish_auto_wait_task(&mut self, result: Result<(), String>)
        ensures
            final(self)@ == auto_wait_task_finished(
                old(self)@,
                match result {
                    Ok(_) => Ok(()),
                    Err(e) => Err(e@),
                },
            ),
    {
        match result {
            Ok(()) => {
                self.status = AppStatus::Success;
                self.log_success("auto-wait: upload succeeded");
            },
            Err(e) => {
                let line = concat2("auto-wait: ", e.as_str());
                self.status = AppStatus::Error(AppErrorKind::Io(e));
                self.log_error(line.as_str());
            },
        }
        if self.auto_mode == AutoMode::Wait {
            self.log("auto-wait: waiting for next device...");
        }
        self.task_running = false;
        self.blink_running = false;
        self.blink_visible = true;
        self.upload_triggered_by_auto = false;
        self.sync_chevron_phase();
    }

    /// One step of the waiting indicator: shows or hides it while waiting, and says whether
    /// to go on.
    pub fn blink_step(&mut self, visible: bool) -> (r: bool)
        ensures
            r == old(self)@.status is AutoWaiting,
            final(self)@ == if r {
                AppView { blink_visible: visible, ..old(self)@ }
            } else {
                old(self)@
            },
    {
        if matches!(self.status, AppStatus::AutoWaiting) {
            self.blink_visible = visible;
            true
        } else {
            false
        }
    }

    /// One step of the chevron animation: advances while a phase is shown.
    pub fn chevron_anim_step(&mut self)
        ensures
            final(self)@ == if chevron_phase_spec(old(self)@) != 0 {
                AppView { chevron_tick: old(self)@.chevron_tick.wrapping_add(1), ..old(self)@ }
            } else {
                old(self)@
            },
    {
        if self.current_chevron_phase() != 0 {
            self.chevron_tick = self.chevron_tick.wrapping_add(1);
        }
    }

    /// Starts a manual scan, unless busy.
    pub fn start_scan(&mut self) -> (r: AppAction)
        ensures
            (final(self)@, r@) == scan_started(old(self)@),
    {
        if self.is_busy() {
            return AppAction::Nothing;
        }
        self.status = AppStatus::Detecting;
        self.devices = Vec::new();
        self.selected_device_index = None;
        self.log_command("tnc-rs list");
        self.task_running = true;
        proof {
            assert(devices_view(self.devices@) =~= Seq::<DeviceView>::empty());
        }
        AppAction::Scan
    }

    /// Takes the result of a manual scan.
    pub fn finish_scan_task(&mut self, result: Result<Vec<Device>, String>)
        ensures
            final(self)@ == scan_task_finished(
                old(self)@,
                match result {
                    Ok(d) => Ok(devices_view(d@)),
                    Err(e) => Err(e@),
                },
            ),
    {
        self.task_running = false;
        match result {
            Ok(devices) => self.finish_scan(devices),
            Err(e) => {
                let line = concat2("scan failed: ", e.as_str());
                self.status = AppStatus::Error(AppErrorKind::Io(e));
                self.log_error(line.as_str());
            },
        }
        self.sync_chevron_phase();
    }

    /// Starts identifying the chosen firmware.
    pub fn start_identify(&mut self) -> (r: AppAction)
        ensures
            (final(self)@, r@) == identify_started(old(self)@),
    {
        let hex = match &self.selected_hex {
            Some(h) => h.clone(),
            None => {
                self.refresh_ready_status();
                return AppAction::Nothing;
            },
        };
        self.status = AppStatus::Identifying;
        self.identify_output = Some(String::from_str("checking firmware file..."));
        let line = concat2("tnc-rs identify ", hex.as_str());
        self.log_command(line.as_str());
        self.task_running = true;
        AppAction::Identify(hex)
    }

    /// Takes the result of identifying the firmware.
    pub fn finish_identify_task(&mut self, result: Result<Vec<Model>, String>)
        ensures
            final(self)@ == identify_task_finished(
                old(self)@,
                match result {
                    Ok(m) => Ok(m@),
                    Err(e) => Err(e@),
                },
            ),
    {
        match result {
            Ok(models) => self.finish_identify(&models),
            Err(e) => {
                self.identify_output = Some(concat2("identify failed: ", e.as_str()));
                let line = concat2("identify failed before command completed: ", e.as_str());
                self.log_error(line.as_str());
                self.refresh_ready_status();
            },
        }
        self.task_running = false;
        self.sync_chevron_phase();
    }

    /// Asks for a firmware file, unless busy.
    pub fn load_hex(&mut self) -> (r: AppAction)
        ensures
            (final(self)@, r@) == load_hex_started(old(self)@),
    {
        if self.is_busy() {
            return AppAction::Nothing;
        }
        self.status = AppStatus::SelectingFile;
        match &self.last_hex_dir {
            Some(dir) => {
                let mut line = concat2("choose firmware .hex (last directory: ", dir.as_str());
                line.append(")");
                self.log(line.as_str());
            },
            None => {
                self.log("choose firmware .hex");
            },
        }
        self.task_running = true;
        AppAction::PickFile
    }
    /// Takes a periodic scan's result, and starts an automatic upload where called for.
    pub fn auto_scan_step(&mut self, result: Result<Vec<Device>, String>) -> (r: AppAction)
        ensures
            (final(self)@, r@) == auto_scanned(
                old(self)@,
                match result {
                    Ok(d) => Ok(devices_view(d@)),
                    Err(e) => Err(e@),
                },
            ),
    {
        let devices = match result {
            Ok(d) => d,
            Err(e) => {
                let line = concat2("scan failed: ", e.as_str());
                self.log_error(line.as_str());
                return AppAction::Nothing;
            },
        };
        if same_raw_lines(&self.devices, &devices) {
            return AppAction::Nothing;
        }
        self.take_scan_list(devices);
        let action = self.auto_upload_after_scan();
        self.sync_chevron_phase();
        action
    }

    /// Takes `path`, which is a HEX file where `is_hex`, with `dir` its directory and
    /// `save_error` the error, if any, of saving that directory.
    pub fn apply_selected_path(
        &mut self,
        path: String,
        is_hex: bool,
        dir: Option<String>,
        save_error: Option<String>,
    ) -> (r: bool)
        ensures
            r == is_hex,
            final(self)@ == if is_hex {
                selection_accepted(old(self)@, path@, opt_chars(dir), opt_chars(save_error))
            } else {
                selection_rejected(old(self)@, path@)
            },
    {
        if !is_hex {
            let line = concat2("rejected non-hex file: ", path.as_str());
            self.status = AppStatus::Error(AppErrorKind::InvalidHexFile(path));
            self.log_error(line.as_str());
            return false;
        }
        let selected = concat2("selected firmware: ", path.as_str());
        self.selected_hex = Some(path);
        let has_dir = dir.is_some();
        self.last_hex_dir = dir;
        if has_dir {
            match save_error {
                Some(e) => {
                    let line = concat2("could not save last firmware directory: ", e.as_str());
                    self.log_error(line.as_str());
                },
                None => {},
            }
        }
        self.identify_output = None;
        self.log_success(selected.as_str());
        true
    }

    /// Takes the first of the chosen paths as the firmware file if it is a HEX file;
    /// `save_error` is the error, if any, of saving its directory.
    pub fn accept_selected_paths(&mut self, paths: Vec<String>, save_error: Option<String>) -> (r:
        bool)
        ensures
            selection_outcome(old(self)@, paths_view(paths@), opt_chars(save_error), r, final(self)@),
    {
        if paths.len() == 0 {
            self.log("file selection cancelled");
            self.refresh_ready_status();
            proof {
                assert(paths_view(paths@).len() == 0);
            }
            return false;
        }
        let path = paths[0].clone();
        let is_hex = crate::tnc_rs::firmware::is_hex_file(path.as_str());
        let dir = if is_hex {
            path_parent(path.as_str())
        } else {
            None
        };
        let ghost d = opt_chars(dir);
        let ghost s0 = self@;
        let ghost se = opt_chars(save_error);
        let ghost pv = paths_view(paths@);
        let r = self.apply_selected_path(path, is_hex, dir, save_error);
        proof {
            assert(pv[0] == paths@[0]@);
            if r {
                assert(d matches Some(x) ==> is_prefix_of(x, paths@[0]@));
                assert(names_hex_extension(paths@[0]@));
                assert(self@ == selection_accepted(s0, pv[0], d, se));
            }
        }
        r
    }

    /// Takes a file list dropped on the window, unless busy.
    pub fn drop_hex_paths(&mut self, paths: Vec<String>, save_error: Option<String>) -> (r:
        AppAction)
        ensures
            is_busy_spec(old(self)@.status) ==> final(self)@ == old(self)@ && r@ == ActionView::Nothing,
            !is_busy_spec(old(self)@.status) ==> exists|acc: bool, t: AppView|
                #[trigger] selection_outcome(
                    old(self)@,
                    paths_view(paths@),
                    opt_chars(save_error),
                    acc,
                    t,
                ) && (final(self)@, r@) == after_selection(t, acc),
    {
        if self.is_busy() {
            return AppAction::Nothing;
        }
        self.take_paths(paths, save_error)
    }

    /// Takes a file list opened from outside, unless busy (then it is logged and ignored).
    pub fn open_paths(&mut self, paths: Vec<String>, save_error: Option<String>) -> (r: AppAction)
        ensures
            is_busy_spec(old(self)@.status) ==> final(self)@ == logged(
                old(self)@,
                LogKind::Info,
                "open file ignored: app is busy"@,
            ) && r@ == ActionView::Nothing,
            !is_busy_spec(old(self)@.status) ==> exists|acc: bool, t: AppView|
                #[trigger] selection_outcome(
                    old(self)@,
                    paths_view(paths@),
                    opt_chars(save_error),
                    acc,
                    t,
                ) && (final(self)@, r@) == after_selection(t, acc),
    {
        if self.is_busy() {
            self.log("open file ignored: app is busy");
            return AppAction::Nothing;
        }
        self.take_paths(paths, save_error)
    }

    /// Takes a file list and starts identifying an accepted file.
    fn take_paths(&mut self, paths: Vec<String>, save_error: Option<String>) -> (r: AppAction)
        ensures
            exists|acc: bool, t: AppView|
                #[trigger] selection_outcome(
                    old(self)@,
                    paths_view(paths@),
                    opt_chars(save_error),
                    acc,
                    t,
                ) && (final(self)@, r@) == after_selection(t, acc),
    {
        let ghost pv = paths_view(paths@);
        let ghost se = opt_chars(save_error);
        let ghost s0 = self@;
        let accepted = self.accept_selected_paths(paths, save_error);
        let ghost t = self@;
        let action = if accepted {
            self.start_identify()
        } else {
            AppAction::Nothing
        };
        self.sync_chevron_phase();
        proof {
            assert(selection_outcome(s0, pv, se, accepted, t));
        }
        action
    }
    /// Shows a changed board list and keeps the choice of board valid.
    fn take_scan_list(&mut self, devices: Vec<Device>)
        ensures
            final(self)@ == scan_list_taken(old(self)@, devices_view(devices@)),
    {
        let old_count = self.devices.len();
        self.devices = devices;
        let n = self.devices.len();
        if n > old_count {
            let mut line = String::from_str("auto-scan: ");
            let count = decimal_string(n);
            line.append(count.as_str());
            line.append(" device(s) detected");
            self.log(line.as_str());
        }
        if n == 1 && self.selected_device_index.is_none() {
            self.selected_device_index = Some(0);
        }
        match self.selected_device_index {
            Some(idx) => {
                if idx >= n {
                    self.selected_device_index = None;
                }
            },
            None => {},
        }
        self.refresh_ready_status();
    }

    /// Starts the upload an automatic mode calls for once boards are shown.
    fn auto_upload_after_scan(&mut self) -> (r: AppAction)
        ensures
            (final(self)@, r@) == auto_upload_after_scan(old(self)@),
    {
        let n = self.devices.len();
        let mut action = AppAction::Nothing;
        if self.auto_mode == AutoMode::Instant && n > 0 && self.selected_hex.is_some()
            && !self.is_busy() && !self.task_running && self.auto_upload_device_changed() {
            self.log("auto-instant: device detected, uploading...");
            self.upload_triggered_by_auto = true;
            self.remember_auto_upload_device();
            action = self.do_upload();
        }
        if self.auto_mode == AutoMode::Wait && self.devices.len() > 0 && self.selected_hex.is_some()
            && !self.is_busy() && !self.task_running {
            self.log("auto-wait: device detected, starting upload...");
            action = self.start_auto_wait();
        }
        action
    }
    /// Takes what the file dialog gave back, and starts identifying an accepted file.
    pub fn finish_file_selection(&mut self, selection: FileSelection, save_error: Option<String>) -> (r:
        AppAction)
        ensures
            ({
                let s1 = AppView { task_running: false, ..old(self)@ };
                match selection {
                    FileSelection::Chosen(paths) => exists|acc: bool, t: AppView|
                        #[trigger] selection_outcome(
                            s1,
                            paths_view(paths@),
                            opt_chars(save_error),
                            acc,
                            t,
                        ) && (final(self)@, r@) == after_selection(t, acc),
                    FileSelection::Cancelled => final(self)@ == synced(selection_cancelled(s1))
                        && r@ == ActionView::Nothing,
                    FileSelection::PickerFailed(e) => final(self)@ == synced(
                        logged(
                            AppView { status: StatusView::Error(ErrorView::Io(e@)), ..s1 },
                            LogKind::Failure,
                            "file picker failed: "@ + e@,
                        ),
                    ) && r@ == ActionView::Nothing,
                    FileSelection::ChannelClosed(e) => final(self)@ == synced(
                        logged(
                            AppView { status: StatusView::Error(ErrorView::Io(e@)), ..s1 },
                            LogKind::Failure,
                            "file picker channel closed: "@ + e@,
                        ),
                    ) && r@ == ActionView::Nothing,
                }
            }),
    {
        self.task_running = false;
        match selection {
            FileSelection::Chosen(paths) => self.take_paths(paths, save_error),
            FileSelection::Cancelled => {
                self.log("file selection cancelled");
                self.refresh_ready_status();
                self.sync_chevron_phase();
                AppAction::Nothing
            },
            FileSelection::PickerFailed(e) => {
                let line = concat2("file picker failed: ", e.as_str());
                self.status = AppStatus::Error(AppErrorKind::Io(e));
                self.log_error(line.as_str());
                self.sync_chevron_phase();
                AppAction::Nothing
            },
            FileSelection::ChannelClosed(e) => {
                let line = concat2("file picker channel closed: ", e.as_str());
                self.status = AppStatus::Error(AppErrorKind::Io(e));
                self.log_error(line.as_str());
                self.sync_chevron_phase();
                AppAction::Nothing
            },
        }
    }
}

/// The log never holds more than `MAX_LOG_LINES` lines, and its last line is the one just
/// logged, with its prefix. Logging keeps the newest lines, in their order, the newest
/// `MAX_LOG_LINES` of them where there are more, and changes nothing else.
pub proof fn law_log_is_bounded(s: AppView, kind: LogKind, line: Seq<char>)
    ensures
        ({
            let full = s.output_lines.push(log_prefix(kind) + line);
            let kept = if full.len() < MAX_LOG_LINES { full.len() as int } else { MAX_LOG_LINES as int };
            &&& logged(s, kind, line).output_lines.len() == kept
            &&& forall|i: int|
                0 <= i < kept ==> #[trigger] logged(s, kind, line).output_lines[i] == full[full.len()
                    - kept + i]
        }),
        logged(s, kind, line) == (AppView { output_lines: logged(s, kind, line).output_lines, ..s }),
        logged(s, kind, line).output_lines.len() <= MAX_LOG_LINES,
        logged(s, kind, line).output_lines.last() == log_prefix(kind) + line,
        s.output_lines.len() < MAX_LOG_LINES ==> logged(s, kind, line).output_lines
            == s.output_lines.push(log_prefix(kind) + line),
{
}

/// Whenever an upload can be started, the chevrons point at the upload step.
pub proof fn law_ready_points_at_upload(s: AppView)
    requires
        can_upload_spec(s),
    ensures
        chevron_phase_spec(s) == 2,
{
}

/// Restarting the chevron animation leaves the phase it shows unchanged, records it, and
/// doing it again changes nothing.
pub proof fn law_sync_is_idempotent(s: AppView)
    ensures
        chevron_phase_spec(synced(s)) == chevron_phase_spec(s),
        synced(s).chevron_anim_phase == chevron_phase_spec(s),
        synced(synced(s)) == synced(s),
{
}

/// While busy, choosing a board, switching the automatic mode, scanning and asking for a
/// file change nothing and start nothing.
pub proof fn law_busy_ignores_requests(s: AppView, index: usize)
    requires
        is_busy_spec(s.status),
    ensures
        device_selected(s, index) == s,
        auto_cycled(s) == (s, ActionView::Nothing),
        scan_started(s) == (s, ActionView::Nothing),
        load_hex_started(s) == (s, ActionView::Nothing),
{
}

/// Choosing a listed board while a firmware file is chosen and nothing is under way makes
/// an upload possible.
pub proof fn law_choosing_board_arms_upload(s: AppView, index: usize)
    requires
        !is_busy_spec(s.status),
        s.selected_hex is Some,
        index < s.devices.len(),
    ensures
        can_upload_spec(device_selected(s, index)),
        device_selected(s, index).selected_device_index == Some(index),
        device_selected(s, index).status is Ready,
{
}

/// Without a firmware file, no automatic mode stays on.
pub proof fn law_auto_needs_firmware(s: AppView)
    requires
        !is_busy_spec(s.status),
        s.selected_hex is None,
    ensures
        auto_cycled(s).0.auto_mode == AutoMode::Off,
        auto_cycled(s).1 == ActionView::Nothing,
{
}

/// With a firmware file chosen but no board connected, the automatic mode goes round
/// off, wait, instant and off again, starting nothing.
pub proof fn law_auto_modes_cycle(s: AppView)
    requires
        !is_busy_spec(s.status),
        s.selected_hex is Some,
        s.devices.len() == 0,
        s.selected_device_index is None,
        s.auto_mode == AutoMode::Off,
    ensures
        auto_cycled(s).0.auto_mode == AutoMode::Wait,
        auto_cycled(auto_cycled(s).0).0.auto_mode == AutoMode::Instant,
        auto_cycled(auto_cycled(auto_cycled(s).0).0).0.auto_mode == AutoMode::Off,
        auto_cycled(s).1 == ActionView::Nothing,
        auto_cycled(auto_cycled(s).0).1 == ActionView::Nothing,
        auto_cycled(auto_cycled(auto_cycled(s).0).0).1 == ActionView::Nothing,
{
}

/// A periodic scan that finds the same device lines changes nothing and starts nothing.
pub proof fn law_unchanged_scan_is_quiet(s: AppView, devices: Seq<DeviceView>)
    requires
        raw_lines(devices) == raw_lines(s.devices),
    ensures
        auto_scanned(s, Ok(devices)) == (s, ActionView::Nothing),
{
}

/// After a scan, the chosen board is one of the boards found.
pub proof fn law_scan_keeps_choice_valid(s: AppView, devices: Seq<DeviceView>)
    ensures
        scan_finished(s, devices).selected_device_index matches Some(i) ==> i < devices.len(),
        raw_lines(devices) != raw_lines(s.devices) ==> (auto_scanned(
            s,
            Ok(devices),
        ).0.selected_device_index matches Some(i) ==> i < devices.len()),
        raw_lines(devices) != raw_lines(s.devices) ==> auto_scanned(s, Ok(devices)).0.devices
            == devices,
{
}

/// A scan that finds exactly one board chooses it; a periodic scan does so unless another
/// board was chosen before.
pub proof fn law_single_board_is_chosen(s: AppView, devices: Seq<DeviceView>)
    requires
        devices.len() == 1,
    ensures
        scan_finished(s, devices).selected_device_index == Some(0usize),
        raw_lines(devices) != raw_lines(s.devices) && (s.selected_device_index is None
            || s.selected_device_index == Some(0usize)) ==> auto_scanned(
            s,
            Ok(devices),
        ).0.selected_device_index == Some(0usize),
{
}

/// What every state of the front end satisfies: the chosen board is one of the boards
/// shown, and the log holds at most `MAX_LOG_LINES` lines.
pub open spec fn app_invariant(s: AppView) -> bool {
    &&& s.selected_device_index matches Some(i) ==> i < s.devices.len()
    &&& s.output_lines.len() <= MAX_LOG_LINES
}

/// Each step of an upload keeps the invariant.
pub proof fn law_uploads_keep_invariant(s: AppView, outcome: Result<(), Seq<char>>)
    requires
        app_invariant(s),
    ensures
        app_invariant(upload_started(s).0),
        app_invariant(auto_wait_started(s).0),
        app_invariant(upload_task_finished(s, outcome)),
        app_invariant(auto_wait_task_finished(s, outcome)),
        app_invariant(upload_finished(s)),
{
}

/// Switching the automatic mode keeps the invariant.
pub proof fn law_auto_cycle_keeps_invariant(s: AppView)
    requires
        app_invariant(s),
    ensures
        app_invariant(auto_cycled(s).0),
{
    let s1 = AppView { auto_mode: next_auto_mode(s.auto_mode), ..s };
    assert(app_invariant(s1));
    law_uploads_keep_invariant(s1, Ok(()));
}

/// Scanning, by hand or periodically, keeps the invariant.
pub proof fn law_scans_keep_invariant(
    s: AppView,
    devices: Seq<DeviceView>,
    scan: Result<Seq<DeviceView>, Seq<char>>,
)
    requires
        app_invariant(s),
    ensures
        app_invariant(scan_finished(s, devices)),
        app_invariant(scan_started(s).0),
        app_invariant(scan_task_finished(s, scan)),
        app_invariant(auto_scanned(s, scan).0),
{
    if let Ok(d) = scan {
        if raw_lines(s.devices) != raw_lines(d) {
            let t = scan_list_taken(s, d);
            assert(app_invariant(t));
            law_uploads_keep_invariant(t, Ok(()));
            let t2 = remembered(
                AppView {
                    upload_triggered_by_auto: true,
                    ..logged(t, LogKind::Info, "auto-instant: device detected, uploading..."@)
                },
            );
            assert(app_invariant(t2));
            law_uploads_keep_invariant(t2, Ok(()));
            let t3 = auto_upload_after_scan(t).0;
            assert(app_invariant(t3));
        }
    }
}

/// Choosing boards and files, and identifying firmware, keep the invariant.
pub proof fn law_choices_keep_invariant(
    s: AppView,
    index: usize,
    models: Seq<Model>,
    identify: Result<Seq<Model>, Seq<char>>,
    path: Seq<char>,
    dir: Option<Seq<char>>,
    save_error: Option<Seq<char>>,
)
    requires
        app_invariant(s),
    ensures
        app_invariant(synced(s)),
        app_invariant(refreshed(s)),
        app_invariant(device_selected(s, index)),
        app_invariant(identify_finished(s, models)),
        app_invariant(identify_started(s).0),
        app_invariant(identify_task_finished(s, identify)),
        app_invariant(load_hex_started(s).0),
        app_invariant(selection_cancelled(s)),
        app_invariant(selection_rejected(s, path)),
        app_invariant(selection_accepted(s, path, dir, save_error)),
        app_invariant(after_selection(s, true).0),
        app_invariant(after_selection(s, false).0),
{
}

/// The concatenation of two strings.
pub fn concat2(a: &str, b: &str) -> (r: String)
    ensures
        r@ == a@ + b@,
{
    let mut r = String::from_str(a);
    r.append(b);
    r
}

/// The model names of `models` separated by ", ", or "Unknown" where there are none.
pub fn identify_summary_string(models: &Vec<Model>) -> (r: String)
    ensures
        r@ == identify_summary(models@),
{
    if models.len() == 0 {
        proof {
            reveal_strlit("Unknown");
        }
        return String::from_str("Unknown");
    }
    let mut out = String::from_str(models[0].info().name);
    let mut i: usize = 1;
    proof {
        assert(models@.take(1).drop_last() =~= Seq::<Model>::empty());
    }
    while i < models.len()
        invariant
            1 <= i <= models@.len(),
            out@ == joined_names(models@.take(i as int)),
        decreases models@.len() - i,
    {
        out.append(", ");
        out.append(models[i].info().name);
        proof {
            assert(models@.take(i + 1).drop_last() =~= models@.take(i as int));
        }
        i = i + 1;
    }
    proof {
        assert(models@.take(models@.len() as int) =~= models@);
    }
    out
}

/// The identity of a board by its device line: the line's first word.
pub fn stable_device_identity(raw_line: &str) -> (r: String)
    ensures
        r@ == first_word(raw_line@),
{
    first_word_of(raw_line)
}

/// Whether two board lists have the same device lines.
fn same_raw_lines(a: &Vec<Device>, b: &Vec<Device>) -> (r: bool)
    ensures
        r == (raw_lines(devices_view(a@)) == raw_lines(devices_view(b@))),
{
    if a.len() != b.len() {
        proof {
            assert(raw_lines(devices_view(a@)).len() != raw_lines(devices_view(b@)).len());
        }
        return false;
    }
    let mut i: usize = 0;
    while i < a.len()
        invariant
            a@.len() == b@.len(),
            i <= a@.len(),
            forall|j: int| 0 <= j < i ==> (#[trigger] a@[j]).raw_line@ == b@[j].raw_line@,
        decreases a@.len() - i,
    {
        if a[i].raw_line != b[i].raw_line {
            proof {
                assert(raw_lines(devices_view(a@))[i as int] != raw_lines(devices_view(b@))[i as int]);
            }
            return false;
        }
        i = i + 1;
    }
    proof {
        assert(raw_lines(devices_view(a@)) =~= raw_lines(devices_view(b@)));
    }
    true
}

/// The parent directory of a path, as `std::path::Path::parent` gives it.
///
/// Calls `Path::parent`, which drops the last component: it gives `None` only for a path that
/// ends in a root or prefix or is empty, and `Some("")` for a relative path of one component.
/// The contract claims that the result is a leading part of the path, and states it exactly
/// (`portable_parent`) for every path that all platforms read alike: without '\\' or ':',
/// not starting with "//". Components are then split at '/', repeated separators and "."
/// parts after the first are dropped, and the parent is what stands before the last
/// component. Where '\\' or a drive prefix comes in, the parent follows the platform's path
/// syntax and is left unsaid.
#[verifier::external_body]
fn path_parent(path: &str) -> (r: Option<String>)
    ensures
        r matches Some(p) ==> is_prefix_of(p@, path@),
        portable_parent(path@) matches Some(x) ==> opt_chars(r) == x,
{
    match std::path::Path::new(path).parent() {
        Some(p) => Some(p.to_string_lossy().into_owned()),
        None => None,
    }
}

/// The directory to remember for a file list: that of its first path, when it is a HEX file.
pub fn selection_dir(paths: &Vec<String>) -> (r: Option<String>)
    ensures
        paths@.len() == 0 ==> r is None,
        r matches Some(d) ==> paths@.len() > 0 && is_prefix_of(d@, paths@[0]@) && names_hex_extension(
            paths@[0]@,
        ),
        paths@.len() > 0 ==> (portable_extension(paths@[0]@) matches Some(x) && !is_hex_extension_spec(x)
            ==> r is None),
        paths@.len() > 0 ==> (portable_extension(paths@[0]@) matches Some(x) && is_hex_extension_spec(x)
            ==> (portable_parent(paths@[0]@) matches Some(d) ==> opt_chars(r) == d)),
        paths@.len() > 0 && is_simple_path(paths@[0]@) && simple_hex_path(paths@[0]@) ==> r is Some,
        paths@.len() > 0 && is_plain_path(paths@[0]@) && simple_hex_path(paths@[0]@) ==> (r matches Some(
            d,
        ) && d@ == parent_text(paths@[0]@)),
{
    if paths.len() == 0 {
        return None;
    }
    proof {
        if is_simple_path(paths@[0]@) {
            lemma_simple_path_portable(paths@[0]@);
        }
        if is_plain_path(paths@[0]@) {
            lemma_plain_path_parent(paths@[0]@);
        }
    }
    if crate::tnc_rs::firmware::is_hex_file(paths[0].as_str()) {
        path_parent(paths[0].as_str())
    } else {
        None
    }
}

/// The byte that a "%" escape spells with the two bytes after it, as `u8::from_str_radix`
/// reads them in base 16: two hexadecimal digits, or "+" and one digit.
pub open spec fn escape_value(b1: u8, b2: u8) -> Option<u8> {
    if b1 == 43 {
        hex_digit_value(b2)
    } else if hex_digit_value(b1) is Some && hex_digit_value(b2) is Some {
        Some((hex_digit_value(b1)->0 * 16 + hex_digit_value(b2)->0) as u8)
    } else {
        None
    }
}

/// The bytes from position `i` with each valid "%" escape replaced by the byte it spells.
/// An escape is a "%" with both of its two digit bytes present.
pub open spec fn percent_decoded_from(b: Seq<u8>, i: int) -> Seq<u8>
    decreases b.len() - i,
{
    if i < 0 || i >= b.len() {
        Seq::empty()
    } else if b[i] == 37 && i + 2 < b.len() && escape_value(b[i + 1], b[i + 2]) is Some {
        seq![escape_value(b[i + 1], b[i + 2])->0] + percent_decoded_from(b, i + 3)
    } else {
        seq![b[i]] + percent_decoded_from(b, i + 1)
    }
}

/// The text that `String::from_utf8_lossy` makes of some bytes.
pub uninterp spec fn utf8_lossy(bytes: Seq<u8>) -> Seq<char>;

/// The text of some bytes, as `String::from_utf8_lossy` reads them.
///
/// Calls `String::from_utf8_lossy`. The result is named as a function of the bytes; the
/// contract states that valid UTF-8 is decoded as it stands and leaves unsaid how invalid
/// sequences are replaced.
#[verifier::external_body]
fn from_utf8_lossy(bytes: &[u8]) -> (r: String)
    ensures
        r@ == utf8_lossy(bytes@),
        valid_utf8(bytes@) ==> r@ == decode_utf8(bytes@),
{
    String::from_utf8_lossy(bytes).into_owned()
}

/// The value of an escape's two bytes.
fn escape_value_exec(b1: u8, b2: u8) -> (r: Option<u8>)
    ensures
        r == escape_value(b1, b2),
{
    if b1 == 43 {
        return hex_value(b2);
    }
    match (hex_value(b1), hex_value(b2)) {
        (Some(h), Some(l)) => Some(h * 16 + l),
        _ => None,
    }
}

/// The value of a hexadecimal digit byte.
fn hex_value(b: u8) -> (r: Option<u8>)
    ensures
        r == hex_digit_value(b),
{
    if 48 <= b && b <= 57 {
        Some(b - 48)
    } else if 97 <= b && b <= 102 {
        Some(b - 87)
    } else if 65 <= b && b <= 70 {
        Some(b - 55)
    } else {
        None
    }
}

/// A path with its "%" escapes decoded, read as UTF-8 (invalid sequences replaced).
pub fn percent_decode_path(path: &str) -> (r: String)
    ensures
        r@ == utf8_lossy(percent_decoded_from(encode_utf8(path@), 0)),
        valid_utf8(percent_decoded_from(encode_utf8(path@), 0)) ==> r@ == decode_utf8(
            percent_decoded_from(encode_utf8(path@), 0),
        ),
        !path@.contains('%') ==> r@ == path@,
{
    let bytes = path.as_bytes();
    let ghost b = bytes@;
    let mut decoded: Vec<u8> = Vec::new();
    let mut index: usize = 0;
    while index < bytes.len()
        invariant
            bytes@ == b,
            index <= b.len(),
            decoded@ + percent_decoded_from(b, index as int) == percent_decoded_from(b, 0),
        decreases b.len() - index,
    {
        let mut value: Option<u8> = None;
        if bytes[index] == 37 && bytes.len() - index > 2 {
            value = escape_value_exec(bytes[index + 1], bytes[index + 2]);
        }
        let ghost before = decoded@;
        match value {
            Some(v) => {
                decoded.push(v);
                proof {
                    assert(decoded@ + percent_decoded_from(b, index + 3) =~= before
                        + percent_decoded_from(b, index as int));
                }
                index = index + 3;
            },
            None => {
                decoded.push(bytes[index]);
                proof {
                    assert(decoded@ + percent_decoded_from(b, index + 1) =~= before
                        + percent_decoded_from(b, index as int));
                }
                index = index + 1;
            },
        }
    }
    proof {
        assert(decoded@ =~= percent_decoded_from(b, 0));
        if !path@.contains('%') {
            lemma_no_percent_byte(path@);
            lemma_decoded_unchanged(b, 0);
            assert(b.skip(0) =~= b);
            vstd::utf8::encode_utf8_valid_utf8(path@);
            vstd::utf8::encode_utf8_decode_utf8(path@);
        }
    }
    from_utf8_lossy(decoded.as_slice())
}

/// Text without '%' encodes to UTF-8 without the byte of '%'.
proof fn lemma_no_percent_byte(chars: Seq<char>)
    requires
        !chars.contains('%'),
    ensures
        !encode_utf8(chars).contains(37u8),
    decreases chars.len(),
{
    if chars.len() > 0 {
        let rest = chars.drop_first();
        assert(!rest.contains('%')) by {
            if rest.contains('%') {
                let k = choose|k: int| 0 <= k < rest.len() && rest[k] == '%';
                assert(chars[k + 1] == '%');
            }
        }
        lemma_no_percent_byte(rest);
        let c = chars[0];
        assert(c != '%') by {
            assert(chars[0] == c);
        }
        let v = c as u32;
        vstd::utf8::char_u32_cast(c, v);
        assert(v != 37) by {
            if v == 37 {
                assert(c == '%');
            }
        }
        let e = vstd::utf8::encode_scalar(v);
        assert(!e.contains(37u8)) by {
            assert(v <= 0x7F && v != 37 ==> ((v & 0x7F) as u8) != 37u8) by (bit_vector);
            assert(((0xC0u8 | ((v >> 6) & 0x1F) as u8)) != 37u8) by (bit_vector);
            assert(((0xE0u8 | ((v >> 12) & 0x0F) as u8)) != 37u8) by (bit_vector);
            assert(((0xF0u8 | ((v >> 18) & 0x7) as u8)) != 37u8) by (bit_vector);
            assert(((0x80u8 | (v & 0x3F) as u8)) != 37u8) by (bit_vector);
            assert(((0x80u8 | ((v >> 6) & 0x3F) as u8)) != 37u8) by (bit_vector);
            assert(((0x80u8 | ((v >> 12) & 0x3F) as u8)) != 37u8) by (bit_vector);
        }
        let all = encode_utf8(chars);
        assert(all == e + encode_utf8(rest));
        if all.contains(37u8) {
            let k = choose|k: int| 0 <= k < all.len() && all[k] == 37u8;
            if k < e.len() {
                assert(e[k] == 37u8);
            } else {
                assert(encode_utf8(rest)[k - e.len()] == 37u8);
            }
        }
    }
}

/// Bytes without '%' decode to themselves.
proof fn lemma_decoded_unchanged(b: Seq<u8>, i: int)
    requires
        !b.contains(37u8),
        0 <= i <= b.len(),
    ensures
        percent_decoded_from(b, i) == b.skip(i),
    decreases b.len() - i,
{
    if i < b.len() {
        lemma_decoded_unchanged(b, i + 1);
        assert(b[i] != 37u8);
        assert(b.skip(i) =~= seq![b[i]] + b.skip(i + 1));
    } else {
        assert(b.skip(i) =~= Seq::<u8>::empty());
    }
}

/// The local path of a "file://" URL, with its escapes decoded; `None` for other text.
pub fn file_url_path(url: &str) -> (r: Option<String>)
    ensures
        starts_with(url@, "file://"@) ==> (r matches Some(p) && p@ == utf8_lossy(
            percent_decoded_from(encode_utf8(url@.skip(7)), 0),
        )),
        r matches Some(p) ==> (valid_utf8(percent_decoded_from(encode_utf8(url@.skip(7)), 0))
            ==> p@ == decode_utf8(percent_decoded_from(encode_utf8(url@.skip(7)), 0))),
        !starts_with(url@, "file://"@) ==> r is None,
{
    let chars = chars_of(url);
    let prefix = chars_of("file://");
    proof {
        reveal_strlit("file://");
    }
    if !starts_with_exec(&chars, &prefix) {
        return None;
    }
    let rest = crate::text::substring(url, 7, chars.len());
    proof {
        assert(rest@ =~= url@.skip(7));
    }
    Some(percent_decode_path(rest.as_str()))
}

/// The upper-case hexadecimal digit of a value below 16, as an ASCII byte.
pub open spec fn upper_hex_digit(v: int) -> u8 {
    if v < 10 {
        (48 + v) as u8
    } else {
        (55 + v) as u8
    }
}

/// The bytes `b`, each written as "%" and two upper-case hexadecimal digits (as
/// `format!("%{:02X}", byte)` writes it).
pub open spec fn escaped_bytes(b: Seq<u8>) -> Seq<u8>
    decreases b.len(),
{
    if b.len() == 0 {
        Seq::empty()
    } else {
        seq![37u8, upper_hex_digit(b[0] as int / 16), upper_hex_digit(b[0] as int % 16)] + escaped_bytes(
            b.drop_first(),
        )
    }
}

/// Escaped bytes from position `i` decode to the bytes.
proof fn lemma_escaped_bytes_decode(s: Seq<u8>, i: int, b: Seq<u8>)
    requires
        0 <= i <= s.len(),
        s.skip(i) == escaped_bytes(b),
    ensures
        percent_decoded_from(s, i) == b,
    decreases b.len(),
{
    if b.len() == 0 {
        assert(s.skip(i).len() == 0);
    } else {
        let rest = b.drop_first();
        let e = escaped_bytes(b);
        assert(e.len() == 3 + escaped_bytes(rest).len());
        assert(s[i] == e[0] && s[i + 1] == e[1] && s[i + 2] == e[2]);
        let v = b[0] as int;
        let hi = v / 16;
        let lo = v % 16;
        assert(hex_digit_value(upper_hex_digit(hi)) == Some(hi as u8));
        assert(hex_digit_value(upper_hex_digit(lo)) == Some(lo as u8));
        assert(escape_value(s[i + 1], s[i + 2]) == Some(b[0]));
        assert(s.skip(i + 3) =~= escaped_bytes(rest)) by {
            assert forall|k: int| 0 <= k < s.skip(i + 3).len() implies s.skip(i + 3)[k]
                == escaped_bytes(rest)[k] by {
                assert(s.skip(i + 3)[k] == s.skip(i)[k + 3]);
                assert(e[k + 3] == escaped_bytes(rest)[k]);
            }
        }
        lemma_escaped_bytes_decode(s, i + 3, rest);
        assert(percent_decoded_from(s, i) =~= b);
    }
}

/// Escaping every byte of a text's UTF-8 encoding as "%XX" and decoding the escapes gives
/// the text back.
pub proof fn law_escaping_every_byte_round_trips(text: Seq<char>, escaped: Seq<char>)
    requires
        encode_utf8(escaped) == escaped_bytes(encode_utf8(text)),
    ensures
        valid_utf8(percent_decoded_from(encode_utf8(escaped), 0)),
        decode_utf8(percent_decoded_from(encode_utf8(escaped), 0)) == text,
{
    let s = encode_utf8(escaped);
    assert(s.skip(0) =~= s);
    lemma_escaped_bytes_decode(s, 0, encode_utf8(text));
    vstd::utf8::encode_utf8_valid_utf8(text);
    vstd::utf8::encode_utf8_decode_utf8(text);
}

} // verus!
