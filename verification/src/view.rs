//! What the window shows of the front end's state: the progress of the three workflow
//! steps, the text of each panel, and how log lines are set apart.

use vstd::prelude::*;
use vstd::string::StringExecFns;

use crate::session::{
    can_upload_spec, lines_view, AppErrorKind, AppStatus, AppView,
    BeaconApp, ErrorView, StatusView,
};
use crate::text::{
    chars_of, lemma_next_char_bounds, next_char, starts_with, starts_with_exec, trim,
};

verus! {

/// How far a workflow step has come.
#[derive(Clone, Copy, Debug, PartialEq, Eq, Structural)]
pub enum ModuleStatus {
    Pending,
    Next,
    Done,
}

/// The firmware step: done once a file is chosen.
pub open spec fn firmware_module_status_spec(s: AppView) -> ModuleStatus {
    if s.selected_hex is Some {
        ModuleStatus::Done
    } else {
        ModuleStatus::Next
    }
}

/// The board step: done once a board is chosen, next once a file is.
pub open spec fn device_module_status_spec(s: AppView) -> ModuleStatus {
    if s.selected_device_index is Some {
        ModuleStatus::Done
    } else if s.selected_hex is Some {
        ModuleStatus::Next
    } else {
        ModuleStatus::Pending
    }
}

/// The upload step: done after a successful upload, next while one can be started.
pub open spec fn upload_module_status_spec(s: AppView) -> ModuleStatus {
    if s.status is Success {
        ModuleStatus::Done
    } else if can_upload_spec(s) {
        ModuleStatus::Next
    } else {
        ModuleStatus::Pending
    }
}

/// The output step: done once the log has a line.
pub open spec fn output_module_status_spec(s: AppView) -> ModuleStatus {
    if s.output_lines.len() == 0 {
        ModuleStatus::Pending
    } else {
        ModuleStatus::Done
    }
}

/// How far the firmware step has come.
pub fn firmware_module_status(app: &BeaconApp) -> (r: ModuleStatus)
    ensures
        r == firmware_module_status_spec(app@),
{
    if app.selected_hex.is_some() {
        ModuleStatus::Done
    } else {
        ModuleStatus::Next
    }
}

/// How far the board step has come.
pub fn device_module_status(app: &BeaconApp) -> (r: ModuleStatus)
    ensures
        r == device_module_status_spec(app@),
{
    if app.selected_device_index.is_some() {
        ModuleStatus::Done
    } else if app.selected_hex.is_some() {
        ModuleStatus::Next
    } else {
        ModuleStatus::Pending
    }
}

/// How far the upload step has come.
pub fn upload_module_status(app: &BeaconApp) -> (r: ModuleStatus)
    ensures
        r == upload_module_status_spec(app@),
{
    if matches!(app.status, AppStatus::Success) {
        ModuleStatus::Done
    } else if app.can_upload() {
        ModuleStatus::Next
    } else {
        ModuleStatus::Pending
    }
}

/// How far the output step has come.
pub fn output_module_status(app: &BeaconApp) -> (r: ModuleStatus)
    ensures
        r == output_module_status_spec(app@),
{
    if app.output_lines.len() == 0 {
        ModuleStatus::Pending
    } else {
        ModuleStatus::Done
    }
}

/// Whether the status is an error, which the window frames in the alert color.
pub fn is_error_state(app: &BeaconApp) -> (r: bool)
    ensures
        r == app@.status is Error,
{
    matches!(app.status, AppStatus::Error(_))
}

/// The status line of the board panel.
pub open spec fn device_status_spec(s: AppView) -> Seq<char> {
    match s.status {
        StatusView::Detecting => "SCANNING USB"@,
        StatusView::Identifying => "CHECKING FIRMWARE"@,
        StatusView::Error(ErrorView::NoDevice) => "NO DEVICE"@,
        StatusView::Error(ErrorView::MultipleDevicesNoSelection) => "MULTIPLE DEVICES - SELECT ONE"@,
        _ => if s.selected_device_index is Some {
            "DEVICE SELECTED"@
        } else {
            "WAITING FOR SCAN"@
        },
    }
}

/// The status line of the board panel.
pub fn device_status(app: &BeaconApp) -> (r: String)
    ensures
        r@ == device_status_spec(app@),
{
    match &app.status {
        AppStatus::Detecting => String::from_str("SCANNING USB"),
        AppStatus::Identifying => String::from_str("CHECKING FIRMWARE"),
        AppStatus::Error(AppErrorKind::NoDevice) => String::from_str("NO DEVICE"),
        AppStatus::Error(AppErrorKind::MultipleDevicesNoSelection) => String::from_str(
            "MULTIPLE DEVICES - SELECT ONE",
        ),
        _ => if app.selected_device_index.is_some() {
            String::from_str("DEVICE SELECTED")
        } else {
            String::from_str("WAITING FOR SCAN")
        },
    }
}

/// The board panel's target: the chosen board's label, or "NO TEENSY".
pub fn device_target(app: &BeaconApp) -> (r: String)
    ensures
        r@ == match app@.selected_device_index {
            Some(i) => if i < app@.devices.len() {
                app@.devices[i as int].label
            } else {
                "NO TEENSY"@
            },
            None => "NO TEENSY"@,
        },
{
    match app.selected_device_index {
        Some(i) => {
            if i < app.devices.len() {
                return app.devices[i].label.clone();
            }
        },
        None => {},
    }
    String::from_str("NO TEENSY")
}

/// The firmware panel's file line: the chosen file, or "NO HEX SELECTED".
pub fn firmware_file_text(app: &BeaconApp) -> (r: String)
    ensures
        r@ == match app@.selected_hex {
            Some(p) => p,
            None => "NO HEX SELECTED"@,
        },
{
    match &app.selected_hex {
        Some(p) => p.clone(),
        None => String::from_str("NO HEX SELECTED"),
    }
}

/// The firmware panel's identify text: a summary of what identifying said, else whether a
/// check is pending.
pub fn firmware_identify_text(app: &BeaconApp) -> (r: String)
    ensures
        r@ == match app@.identify_output {
            Some(o) => summary_spec(o),
            None => if app@.selected_hex is Some {
                "CHECK PENDING"@
            } else {
                "NO FIRMWARE INFO"@
            },
        },
{
    match &app.identify_output {
        Some(o) => summarize(o.as_str()),
        None => if app.selected_hex.is_some() {
            String::from_str("CHECK PENDING")
        } else {
            String::from_str("NO FIRMWARE INFO")
        },
    }
}

/// One row of the board list: its label and whether it is the chosen board.
#[derive(Clone, Debug, PartialEq, Eq)]
pub struct DeviceRow {
    pub label: String,
    pub selected: bool,
}

/// The rows of the board list, shown where more than one board is connected.
pub fn device_rows(app: &BeaconApp) -> (r: Vec<DeviceRow>)
    ensures
        app@.devices.len() <= 1 ==> r@.len() == 0,
        app@.devices.len() > 1 ==> r@.len() == app@.devices.len() && forall|i: int|
            0 <= i < r@.len() ==> (#[trigger] r@[i]).label@ == app@.devices[i].label
                && r@[i].selected == (app@.selected_device_index == Some(i as usize)),
{
    let mut rows: Vec<DeviceRow> = Vec::new();
    if app.devices.len() <= 1 {
        return rows;
    }
    let mut i: usize = 0;
    while i < app.devices.len()
        invariant
            i <= app@.devices.len(),
            app@.devices.len() == app.devices@.len(),
            rows@.len() == i,
            forall|k: int|
                0 <= k < i ==> (#[trigger] rows@[k]).label@ == app@.devices[k].label
                    && rows@[k].selected == (app@.selected_device_index == Some(k as usize)),
        decreases app.devices@.len() - i,
    {
        let selected = match app.selected_device_index {
            Some(s) => s == i,
            None => false,
        };
        rows.push(DeviceRow { label: app.devices[i].label.clone(), selected });
        i = i + 1;
    }
    rows
}

/// A log line as shown, with whether it belongs to the latest command's block.
#[derive(Clone, Debug, PartialEq, Eq)]
pub struct OutputLineDisplay {
    pub line: String,
    pub is_latest_block: bool,
}

/// The position of the last command line ("$ ...") of a log.
pub open spec fn latest_command(lines: Seq<Seq<char>>) -> Option<int>
    decreases lines.len(),
{
    if lines.len() == 0 {
        None
    } else if starts_with(lines.last(), "$ "@) {
        Some(lines.len() - 1)
    } else {
        latest_command(lines.drop_last())
    }
}

/// The log as shown: a placeholder while it is empty, else every line, those from the last
/// command on marked as the latest block.
pub fn output_lines_for_display(lines: &Vec<String>) -> (r: Vec<OutputLineDisplay>)
    ensures
        lines@.len() == 0 ==> r@.len() == 1 && r@[0].line@ == "Waiting for commands"@
            && r@[0].is_latest_block,
        lines@.len() > 0 ==> r@.len() == lines@.len() && forall|i: int|
            0 <= i < r@.len() ==> (#[trigger] r@[i]).line@ == lines@[i]@ && r@[i].is_latest_block
                == match latest_command(lines_view(lines@)) {
                Some(k) => i >= k,
                None => true,
            },
{
    let mut out: Vec<OutputLineDisplay> = Vec::new();
    if lines.len() == 0 {
        out.push(
            OutputLineDisplay {
                line: String::from_str("Waiting for commands"),
                is_latest_block: true,
            },
        );
        return out;
    }
    let latest = latest_command_position(lines);
    let mut i: usize = 0;
    while i < lines.len()
        invariant
            i <= lines@.len(),
            out@.len() == i,
            match latest {
                Some(j) => latest_command(lines_view(lines@)) == Some(j as int),
                None => latest_command(lines_view(lines@)) is None,
            },
            forall|k: int|
                0 <= k < i ==> (#[trigger] out@[k]).line@ == lines@[k]@ && out@[k].is_latest_block
                    == match latest_command(lines_view(lines@)) {
                    Some(j) => k >= j,
                    None => true,
                },
        decreases lines@.len() - i,
    {
        let is_latest_block = match latest {
            Some(j) => i >= j,
            None => true,
        };
        out.push(OutputLineDisplay { line: lines[i].clone(), is_latest_block });
        i = i + 1;
    }
    out
}

/// The position of the last command line of a log.
fn latest_command_position(lines: &Vec<String>) -> (r: Option<usize>)
    ensures
        match r {
            Some(j) => latest_command(lines_view(lines@)) == Some(j as int),
            None => latest_command(lines_view(lines@)) is None,
        },
{
    let mut n = lines.len();
    let dollar = chars_of("$ ");
    proof {
        assert(lines_view(lines@).take(n as int) =~= lines_view(lines@));
    }
    while n > 0
        invariant
            n <= lines@.len(),
            dollar@ == "$ "@,
            latest_command(lines_view(lines@)) == latest_command(lines_view(lines@).take(n as int)),
        decreases n,
    {
        proof {
            assert(lines_view(lines@).take(n as int).drop_last() =~= lines_view(lines@).take(
                n - 1,
            ));
            assert(lines_view(lines@).take(n as int).last() == lines@[n - 1]@);
        }
        if starts_with_exec(&chars_of(lines[n - 1].as_str()), &dollar) {
            return Some(n - 1);
        }
        n = n - 1;
    }
    None
}

/// How a log line is set apart, by its prefix.
#[derive(Clone, Copy, Debug, PartialEq, Eq, Structural)]
pub enum LogTone {
    /// An error line ("ERR").
    Alert,
    /// A success line ("OK").
    Success,
    /// A command line ("$").
    Command,
    /// Any other line.
    Plain,
}

/// The tone of a log line by its prefix.
pub open spec fn log_tone_spec(line: Seq<char>) -> LogTone {
    if starts_with(line, "ERR"@) {
        LogTone::Alert
    } else if starts_with(line, "OK"@) {
        LogTone::Success
    } else if starts_with(line, "$"@) {
        LogTone::Command
    } else {
        LogTone::Plain
    }
}

/// How a log line is set apart.
pub fn log_tone(line: &str) -> (r: LogTone)
    ensures
        r == log_tone_spec(line@),
{
    let chars = chars_of(line);
    if starts_with_exec(&chars, &chars_of("ERR")) {
        LogTone::Alert
    } else if starts_with_exec(&chars, &chars_of("OK")) {
        LogTone::Success
    } else if starts_with_exec(&chars, &chars_of("$")) {
        LogTone::Command
    } else {
        LogTone::Plain
    }
}

/// The line of `s` that starts at `pos`, as `str::lines` gives it: up to the next '\n',
/// without the '\r' before that '\n'.
pub open spec fn line_at(s: Seq<char>, pos: int) -> Seq<char> {
    let nl = next_char(s, pos, '\n');
    let l = s.subrange(pos, nl);
    if nl < s.len() && l.len() > 0 && l.last() == '\r' {
        l.drop_last()
    } else {
        l
    }
}

/// The lines of `s` from `pos` on that hold more than whitespace.
pub open spec fn nonblank_lines_from(s: Seq<char>, pos: int) -> Seq<Seq<char>>
    decreases s.len() + 1 - pos,
{
    if pos < 0 || pos >= s.len() {
        Seq::empty()
    } else {
        let nl = next_char(s, pos, '\n');
        proof {
            lemma_next_char_bounds(s, pos, '\n');
        }
        let rest = nonblank_lines_from(s, nl + 1);
        if trim(line_at(s, pos)).len() > 0 {
            seq![line_at(s, pos)] + rest
        } else {
            rest
        }
    }
}

/// Lines joined with '\n' between them.
pub open spec fn join_lines(ls: Seq<Seq<char>>) -> Seq<char>
    decreases ls.len(),
{
    if ls.len() == 0 {
        Seq::empty()
    } else if ls.len() == 1 {
        ls[0]
    } else {
        join_lines(ls.drop_last()) + "\n"@ + ls.last()
    }
}

/// The first four of some lines (all of them where there are fewer).
pub open spec fn first_four(ls: Seq<Seq<char>>) -> Seq<Seq<char>> {
    if ls.len() <= 4 {
        ls
    } else {
        ls.take(4)
    }
}

/// The first four lines of `output` that hold more than whitespace, or "IDENTIFY COMPLETE"
/// where there are none.
pub open spec fn summary_spec(output: Seq<char>) -> Seq<char> {
    let j = join_lines(first_four(nonblank_lines_from(output, 0)));
    if j.len() == 0 {
        "IDENTIFY COMPLETE"@
    } else {
        j
    }
}

/// A short summary of command output: its first four lines that hold more than whitespace.
pub fn summarize(output: &str) -> (r: String)
    ensures
        r@ == summary_spec(output@),
{
    let chars = chars_of(output);
    let ghost s = output@;
    let n = chars.len();
    let mut out = String::new();
    let mut count: usize = 0;
    let ghost mut seen: Seq<Seq<char>> = Seq::empty();
    let mut pos: usize = 0;

    while pos < n
        invariant
            chars@ == s,
            s == output@,
            n == s.len(),
            pos <= n,
            nonblank_lines_from(s, 0) == seen + nonblank_lines_from(s, pos as int),
            count == if seen.len() < 4 {
                seen.len()
            } else {
                4
            },
            out@ == join_lines(first_four(seen)),
            forall|k: int| 0 <= k < seen.len() ==> (#[trigger] seen[k]).len() > 0,
        decreases n - pos,
    {
        let nl = crate::text::find_char(&chars, pos, '\n');
        proof {
            lemma_next_char_bounds(s, pos as int, '\n');
        }
        let mut end = nl;
        if nl < n && nl > pos && chars[nl - 1] == '\r' {
            end = nl - 1;
        }
        let ghost line = line_at(s, pos as int);
        proof {
            assert(pos <= end <= n);
            assert(s.subrange(pos as int, end as int) =~= line);
        }
        let (a, b) = crate::text::trim_bounds(&chars, pos, end);
        if b > a {
            proof {
                assert(nonblank_lines_from(s, pos as int) == seq![line] + nonblank_lines_from(
                    s,
                    nl + 1,
                ));
                assert(seen + nonblank_lines_from(s, pos as int) =~= seen.push(line)
                    + nonblank_lines_from(s, nl + 1));
                assert(line.len() > 0);
            }
            if count < 4 {
                if count > 0 {
                    out.append("\n");
                }
                let text = crate::text::substring(output, pos, end);
                out.append(text.as_str());
                count = count + 1;
                proof {
                    reveal_strlit("\n");
                    assert(first_four(seen) == seen);
                    assert(first_four(seen.push(line)) == seen.push(line));
                    assert(seen.push(line).drop_last() =~= seen);
                    assert(seen.push(line).last() == line);
                    if seen.len() == 0 {
                        assert(out@ =~= line);
                    }
                }
            } else {
                proof {
                    assert(seen.push(line).take(4) =~= seen.take(4));
                    assert(first_four(seen.push(line)) =~= first_four(seen));
                }
            }
            proof {
                seen = seen.push(line);
            }
        }
        if nl >= n {
            pos = n;
        } else {
            pos = nl + 1;
        }
    }
    proof {
        assert(nonblank_lines_from(s, pos as int) == Seq::<Seq<char>>::empty());
        assert(seen =~= nonblank_lines_from(s, 0));
    }
    if count == 0 {
        proof {
            reveal_strlit("IDENTIFY COMPLETE");
        }
        return String::from_str("IDENTIFY COMPLETE");
    }
    proof {
        assert(out@.len() > 0) by {
            lemma_join_nonempty(first_four(seen));
        }
    }
    out
}

/// Lines that are not empty join to a text that is not empty.
proof fn lemma_join_nonempty(ls: Seq<Seq<char>>)
    requires
        ls.len() > 0,
        forall|k: int| 0 <= k < ls.len() ==> (#[trigger] ls[k]).len() > 0,
    ensures
        join_lines(ls).len() > 0,
    decreases ls.len(),
{
    if ls.len() > 1 {
        lemma_join_nonempty(ls.drop_last());
    }
}

} // verus!
