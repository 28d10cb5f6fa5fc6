use vstd::prelude::*;
use vstd::string::StringExecFns;

use crate::text::{
    chars_eq, chars_of, contains_exec, contains_seq, find_char, lemma_next_char_bounds, lower_chars,
    lower_seq, next_char, starts_with, starts_with_exec, substring, trim, trim_bounds,
};

verus! {

/// One device line reported by `tycmd list`.
#[derive(Clone, Debug, PartialEq, Eq)]
pub struct TeensyDevice {
    pub raw_line: String,
    pub label: String,
}

/// What a finished `tycmd` run reported.
#[derive(Clone, Debug)]
pub struct CommandOutput {
    pub status_code: Option<i32>,
    pub stdout: String,
    pub stderr: String,
}

impl CommandOutput {
    /// Whether the command exited with status 0.
    pub fn is_success(&self) -> (r: bool)
        ensures
            r == (self.status_code == Some(0i32)),
    {
        match self.status_code {
            Some(code) => code == 0,
            None => false,
        }
    }
}

/// Lines of `tycmd list` output that are headings rather than devices.
pub open spec fn is_obvious_header_spec(line: Seq<char>) -> bool {
    let lower = lower_seq(line);
    ||| starts_with(line, "---"@)
    ||| lower == "teensy"@
    ||| starts_with(lower, "found "@)
    ||| (contains_seq(lower, "serial"@) && contains_seq(lower, "board"@) && contains_seq(
        lower,
        "firmware"@,
    ))
}

/// The device lines of `tycmd list` output from position `pos`: lines split at '\n',
/// trimmed, without empty lines and headings.
pub open spec fn device_lines_from(s: Seq<char>, pos: int) -> Seq<Seq<char>>
    decreases s.len() + 1 - pos,
{
    if pos < 0 || pos > s.len() {
        Seq::empty()
    } else {
        let nl = next_char(s, pos, '\n');
        proof {
            lemma_next_char_bounds(s, pos, '\n');
        }
        let line = trim(s.subrange(pos, nl));
        let rest = device_lines_from(s, nl + 1);
        if line.len() > 0 && !is_obvious_header_spec(line) {
            seq![line] + rest
        } else {
            rest
        }
    }
}

/// The device lines of `tycmd list` output.
pub open spec fn device_lines(s: Seq<char>) -> Seq<Seq<char>> {
    device_lines_from(s, 0)
}

/// Whether a (trimmed) line is a heading of `tycmd list` output.
pub fn is_obvious_header(line: &str) -> (r: bool)
    ensures
        r == is_obvious_header_spec(line@),
{
    let chars = chars_of(line);
    let lower = lower_chars(&chars);
    if starts_with_exec(&chars, &chars_of("---")) {
        return true;
    }
    let teensy = chars_of("teensy");
    if lower.len() == teensy.len() && starts_with_exec(&lower, &teensy) {
        proof {
            assert(lower@ =~= teensy@);
        }
        return true;
    }
    if starts_with_exec(&lower, &chars_of("found ")) {
        return true;
    }
    let r = contains_exec(&lower, &chars_of("serial")) && contains_exec(&lower, &chars_of("board"))
        && contains_exec(&lower, &chars_of("firmware"));
    proof {
        if lower@ == "teensy"@ {
            assert(lower@.subrange(0, teensy@.len() as int) =~= teensy@);
        }
    }
    r
}

/// The devices listed in `tycmd list` output, one per non-empty, non-heading line.
pub fn parse_devices(output: &str) -> (r: Vec<TeensyDevice>)
    ensures
        r@.len() == device_lines(output@).len(),
        forall|i: int|
            0 <= i < r@.len() ==> #[trigger] r@[i].raw_line@ == device_lines(output@)[i]
                && r@[i].label@ == device_lines(output@)[i],
{
    let chars = chars_of(output);
    let ghost s = output@;
    let mut devices: Vec<TeensyDevice> = Vec::new();
    let mut pos: usize = 0;
    loop
        invariant
            chars@ == s,
            s == output@,
            pos <= s.len(),
            device_lines(s) == Seq::new(
                devices@.len() as nat,
                |i: int| devices@[i].raw_line@,
            ) + device_lines_from(s, pos as int),
            forall|i: int| 0 <= i < devices@.len() ==> #[trigger] devices@[i].label@ == devices@[i].raw_line@,
        decreases s.len() + 1 - pos,
    {
        let nl = find_char(&chars, pos, '\n');
        let (a, b) = trim_bounds(&chars, pos, nl);
        let ghost line = trim(s.subrange(pos as int, nl as int));
        let ghost before = Seq::new(devices@.len() as nat, |i: int| devices@[i].raw_line@);
        if b > a {
            let text = substring(output, a, b);
            if !is_obvious_header(text.as_str()) {
                let label = substring(output, a, b);
                devices.push(TeensyDevice { raw_line: text, label });
                proof {
                    assert(Seq::new(devices@.len() as nat, |i: int| devices@[i].raw_line@)
                        =~= before.push(line));
                    assert(device_lines_from(s, pos as int) == seq![line] + device_lines_from(
                        s,
                        nl + 1,
                    ));
                    assert(before + device_lines_from(s, pos as int) =~= before.push(line)
                        + device_lines_from(s, nl + 1));
                }
            }
        }
        if nl >= chars.len() {
            proof {
                assert(device_lines_from(s, nl + 1) == Seq::<Seq<char>>::empty());
                assert(device_lines(s) =~= Seq::new(
                    devices@.len() as nat,
                    |i: int| devices@[i].raw_line@,
                ));
            }
            return devices;
        }
        pos = nl + 1;
    }
}

/// Directory of the bundled `tycmd` build for an operating system and architecture
/// (as `std::env::consts::OS` and `ARCH` name them).
pub fn platform_arch_directory(os: &str, arch: &str) -> (r: &'static str)
    ensures
        r@ == platform_arch_directory_spec(os@, arch@),
{
    let os_chars = chars_of(os);
    let arch_chars = chars_of(arch);
    let arm = chars_eq(&arch_chars, &chars_of("aarch64")) || chars_eq(&arch_chars, &chars_of("arm64"));
    let x86 = chars_eq(&arch_chars, &chars_of("x86_64"));
    if chars_eq(&os_chars, &chars_of("macos")) {
        if arm {
            return "macos-arm64";
        } else if x86 {
            return "macos-x86_64";
        }
    } else if chars_eq(&os_chars, &chars_of("windows")) {
        if arm {
            return "windows-arm64";
        } else if x86 {
            return "windows-x86_64";
        }
    } else if chars_eq(&os_chars, &chars_of("linux")) {
        if arm {
            return "linux-arm64";
        } else if x86 {
            return "linux-x86_64";
        }
    }
    "unknown"
}

/// The directory name of the bundled `tycmd` build for a platform.
pub open spec fn platform_arch_directory_spec(os: Seq<char>, arch: Seq<char>) -> Seq<char> {
    let arm = arch == "aarch64"@ || arch == "arm64"@;
    let x86 = arch == "x86_64"@;
    if os == "macos"@ && arm {
        "macos-arm64"@
    } else if os == "macos"@ && x86 {
        "macos-x86_64"@
    } else if os == "windows"@ && arm {
        "windows-arm64"@
    } else if os == "windows"@ && x86 {
        "windows-x86_64"@
    } else if os == "linux"@ && arm {
        "linux-arm64"@
    } else if os == "linux"@ && x86 {
        "linux-x86_64"@
    } else {
        "unknown"@
    }
}

/// The file name of the `tycmd` executable on an operating system
/// (as `std::env::consts::OS` names it).
pub fn tycmd_resource_name(os: &str) -> (r: &'static str)
    ensures
        r@ == tycmd_name_spec(os@),
{
    if chars_eq(&chars_of(os), &chars_of("windows")) {
        "tycmd.exe"
    } else {
        "tycmd"
    }
}

/// The bundled `tycmd` executable was not found.
#[derive(Clone, Debug)]
pub struct MissingTycmd {
    pub expected_path: String,
}

impl MissingTycmd {
    /// The message that reports the missing executable.
    pub fn message(&self) -> (r: String)
        ensures
            r@ == "bundled tycmd sidecar is missing at "@ + self.expected_path@,
    {
        let mut m = String::from_str("bundled tycmd sidecar is missing at ");
        m.append(self.expected_path.as_str());
        m
    }
}

/// Whether the path names an Intel HEX file by its extension.
pub fn is_hex_file(path: &str) -> (r: bool)
    ensures
        r ==> crate::tnc_rs::firmware::names_hex_extension(path@),
        !path@.contains('.') ==> !r,
        crate::text::portable_extension(path@) matches Some(x) ==> r
            == crate::tnc_rs::firmware::is_hex_extension_spec(x),
        crate::text::is_simple_path(path@) ==> r == crate::tnc_rs::firmware::simple_hex_path(path@),
{
    crate::tnc_rs::firmware::is_hex_file(path)
}

/// The bundled `tycmd` executable, once found.
#[derive(Clone, Debug)]
pub struct Tycmd {
    executable: String,
}

impl View for Tycmd {
    /// The location of the executable.
    type V = Seq<char>;

    closed spec fn view(&self) -> Seq<char> {
        self.executable@
    }
}

/// What was found out about a candidate location of the `tycmd` executable.
#[derive(Clone, Debug, PartialEq, Eq)]
pub struct ExecutableProbe {
    pub path: String,
    pub exists: bool,
    pub is_file: bool,
    /// The permission bits, where the platform has them.
    pub mode: Option<u32>,
}

/// Why `tycmd` cannot be run.
#[derive(Clone, Debug)]
pub enum TycmdError {
    Missing(MissingTycmd),
    DoesNotExist(String),
    NotAFile(String),
    NotExecutable(String),
}

/// The kinds of `tycmd` error.
#[derive(Clone, Copy, Debug, PartialEq, Eq, Structural)]
pub enum TycmdProblem {
    Missing,
    DoesNotExist,
    NotAFile,
    NotExecutable,
}

/// The content of a `tycmd` error: which kind, and the path it names.
pub open spec fn tycmd_error_view(e: TycmdError) -> (TycmdProblem, Seq<char>) {
    match e {
        TycmdError::Missing(m) => (TycmdProblem::Missing, m.expected_path@),
        TycmdError::DoesNotExist(p) => (TycmdProblem::DoesNotExist, p@),
        TycmdError::NotAFile(p) => (TycmdProblem::NotAFile, p@),
        TycmdError::NotExecutable(p) => (TycmdProblem::NotExecutable, p@),
    }
}

/// Why a probed location cannot be run, if it cannot: it does not exist, is not a file,
/// or has no execute permission bit.
pub open spec fn probe_problem(p: ExecutableProbe) -> Option<(TycmdProblem, Seq<char>)> {
    if !p.exists {
        Some((TycmdProblem::DoesNotExist, p.path@))
    } else if !p.is_file {
        Some((TycmdProblem::NotAFile, p.path@))
    } else if p.mode matches Some(m) && m & 0o111 == 0 {
        Some((TycmdProblem::NotExecutable, p.path@))
    } else {
        None
    }
}

impl TycmdError {
    /// The message that reports the error.
    pub fn message(&self) -> (r: String)
        ensures
            r@ == match *self {
                TycmdError::Missing(m) => "bundled tycmd sidecar is missing at "@ + m.expected_path@,
                TycmdError::DoesNotExist(p) => "tycmd sidecar does not exist at "@ + p@,
                TycmdError::NotAFile(p) => "tycmd sidecar is not a file at "@ + p@,
                TycmdError::NotExecutable(p) => "tycmd sidecar is not executable at "@ + p@,
            },
    {
        let (mut m, p) = match self {
            TycmdError::Missing(missing) => {
                return missing.message();
            },
            TycmdError::DoesNotExist(p) => (String::from_str("tycmd sidecar does not exist at "), p),
            TycmdError::NotAFile(p) => (String::from_str("tycmd sidecar is not a file at "), p),
            TycmdError::NotExecutable(p) => (
                String::from_str("tycmd sidecar is not executable at "),
                p,
            ),
        };
        m.append(p.as_str());
        m
    }
}

/// A run of `tycmd`, checked again just before it starts: the command as it stands where a
/// fresh probe of its executable shows it can be run, else why it cannot.
pub fn checked_command(command: TycmdCommand, probe: &ExecutableProbe) -> (r: Result<
    TycmdCommand,
    TycmdError,
>)
    ensures
        match probe_problem(*probe) {
            None => r == Ok::<TycmdCommand, TycmdError>(command),
            Some(e) => r matches Err(x) && tycmd_error_view(x) == e,
        },
{
    match validate_executable(probe) {
        Ok(()) => Ok(command),
        Err(e) => Err(e),
    }
}

/// Checks that a probed location can be run.
pub fn validate_executable(probe: &ExecutableProbe) -> (r: Result<(), TycmdError>)
    ensures
        match probe_problem(*probe) {
            None => r is Ok,
            Some(e) => r matches Err(x) && tycmd_error_view(x) == e,
        },
{
    if !probe.exists {
        return Err(TycmdError::DoesNotExist(probe.path.clone()));
    }
    if !probe.is_file {
        return Err(TycmdError::NotAFile(probe.path.clone()));
    }
    match probe.mode {
        Some(m) => {
            if m & 0o111 == 0 {
                return Err(TycmdError::NotExecutable(probe.path.clone()));
            }
        },
        None => {},
    }
    Ok(())
}

/// A run of `tycmd`: the program and its arguments.
#[derive(Clone, Debug, PartialEq, Eq)]
pub struct TycmdCommand {
    pub program: String,
    pub args: Vec<String>,
}

/// The arguments of a command, as text.
pub open spec fn args_view(v: Seq<String>) -> Seq<Seq<char>> {
    v.map_values(|a: String| a@)
}

impl Tycmd {
    /// Takes the first existing candidate location, if it can be run; `expected` is the
    /// location reported when none exists.
    pub fn resolve(candidates: &Vec<ExecutableProbe>, expected: String) -> (r: Result<
        Tycmd,
        TycmdError,
    >)
        ensures
            (forall|i: int| 0 <= i < candidates@.len() ==> !(#[trigger] candidates@[i]).exists)
                ==> (r matches Err(e) && tycmd_error_view(e) == (TycmdProblem::Missing, expected@)),
            forall|i: int|
                0 <= i < candidates@.len() && (#[trigger] candidates@[i]).exists && (forall|j: int|
                    0 <= j < i ==> !(#[trigger] candidates@[j]).exists) ==> match probe_problem(
                    candidates@[i],
                ) {
                    None => r matches Ok(t) && t@ == candidates@[i].path@,
                    Some(e) => r matches Err(x) && tycmd_error_view(x) == e,
                },
    {
        let mut i: usize = 0;
        while i < candidates.len()
            invariant
                i <= candidates@.len(),
                forall|j: int| 0 <= j < i ==> !(#[trigger] candidates@[j]).exists,
            decreases candidates@.len() - i,
        {
            if candidates[i].exists {
                match validate_executable(&candidates[i]) {
                    Ok(()) => {
                        return Ok(Tycmd { executable: candidates[i].path.clone() });
                    },
                    Err(e) => {
                        return Err(e);
                    },
                }
            }
            i = i + 1;
        }
        Err(TycmdError::Missing(MissingTycmd { expected_path: expected }))
    }

    /// The location of the executable.
    pub fn executable(&self) -> (r: &str)
        ensures
            r@ == self@,
    {
        self.executable.as_str()
    }

    /// The run of a subcommand with its arguments.
    fn command(&self, subcommand: &str, args: &[&str]) -> (r: TycmdCommand)
        ensures
            r.program@ == self@,
            args_view(r.args@) == seq![subcommand@] + args@.map_values(|a: &str| a@),
    {
        let mut all: Vec<String> = Vec::new();
        all.push(subcommand.to_owned());
        let mut i: usize = 0;
        while i < args.len()
            invariant
                i <= args@.len(),
                args_view(all@) == seq![subcommand@] + args@.take(i as int).map_values(
                    |a: &str| a@,
                ),
            decreases args@.len() - i,
        {
            let ghost before = all@;
            all.push(args[i].to_owned());
            proof {
                assert(args@.take(i + 1).map_values(|a: &str| a@) =~= args@.take(i as int).map_values(
                    |a: &str| a@,
                ).push(args@[i as int]@));
                assert(args_view(all@) =~= args_view(before).push(args@[i as int]@));
            }
            i = i + 1;
        }
        proof {
            assert(args@.take(args@.len() as int) =~= args@);
        }
        TycmdCommand { program: self.executable.clone(), args: all }
    }

    /// The run that lists the connected boards: `tycmd list`.
    pub fn list(&self) -> (r: TycmdCommand)
        ensures
            r.program@ == self@,
            args_view(r.args@) == seq!["list"@],
    {
        let r = self.command("list", &[]);
        proof {
            assert(args_view(r.args@) =~= seq!["list"@]);
        }
        r
    }

    /// The run that identifies the boards a firmware file is built for: `tycmd identify FILE`.
    pub fn identify(&self, hex_path: &str) -> (r: TycmdCommand)
        ensures
            r.program@ == self@,
            args_view(r.args@) == seq!["identify"@, hex_path@],
    {
        let r = self.command("identify", &[hex_path]);
        proof {
            assert(args_view(r.args@) =~= seq!["identify"@, hex_path@]);
        }
        r
    }

    /// The run that uploads a firmware file: `tycmd upload FILE`.
    pub fn upload(&self, hex_path: &str) -> (r: TycmdCommand)
        ensures
            r.program@ == self@,
            args_view(r.args@) == seq!["upload"@, hex_path@],
    {
        let r = self.command("upload", &[hex_path]);
        proof {
            assert(args_view(r.args@) =~= seq!["upload"@, hex_path@]);
        }
        r
    }

    /// The run that waits for a board and uploads: `tycmd upload --wait FILE`.
    pub fn upload_wait(&self, hex_path: &str) -> (r: TycmdCommand)
        ensures
            r.program@ == self@,
            args_view(r.args@) == seq!["upload"@, "--wait"@, hex_path@],
    {
        let r = self.command("upload", &["--wait", hex_path]);
        proof {
            assert(args_view(r.args@) =~= seq!["upload"@, "--wait"@, hex_path@]);
        }
        r
    }
}

/// A path component that `Path::join` appends as it stands: not empty, without separators
/// or a drive prefix.
pub open spec fn is_plain_component(c: Seq<char>) -> bool {
    c.len() > 0 && !c.contains('/') && !c.contains('\\') && !c.contains(':')
}

/// `r` is `base` with the component `c` appended, with or without one separator between.
pub open spec fn joined_path(r: Seq<char>, base: Seq<char>, c: Seq<char>) -> bool {
    ||| r == base + c
    ||| r == base + seq!['/'] + c
    ||| r == base + seq!['\\'] + c
}

/// The path begins with a Windows verbatim prefix (`\\?\`), after which `Path::join`
/// normalises the path it builds.
pub open spec fn has_verbatim_prefix(p: Seq<char>) -> bool {
    p.len() >= 4 && p[0] == '\\' && p[1] == '\\' && p[2] == '?' && p[3] == '\\'
}

/// The path begins with the first three characters of a verbatim prefix (`\\?`): joining a
/// component to it could make a verbatim path.
pub open spec fn begins_like_verbatim(p: Seq<char>) -> bool {
    p.len() >= 3 && p[0] == '\\' && p[1] == '\\' && p[2] == '?'
}

/// A path with one more component, as `std::path::Path::join` makes it.
///
/// Calls `Path::join`. For a plain component it appends the component to the path, putting
/// the platform's separator between where the path does not end in one; the contract leaves
/// open which separator that is. Where the path has a verbatim prefix, `PathBuf::push`
/// normalises the result (it drops `.` and `..` parts), and the contract says nothing of it.
#[verifier::external_body]
fn path_join(base: &str, component: &str) -> (r: String)
    requires
        is_plain_component(component@),
    ensures
        !has_verbatim_prefix(base@) ==> joined_path(r@, base@, component@),
{
    std::path::Path::new(base).join(component).to_string_lossy().into_owned()
}

/// Joining a plain component that does not start with `?` to a path that does not begin
/// like a verbatim prefix gives a path that does not either.
proof fn lemma_join_keeps_non_verbatim(r: Seq<char>, base: Seq<char>, c: Seq<char>)
    requires
        joined_path(r, base, c),
        is_plain_component(c),
        c[0] != '?',
        !begins_like_verbatim(base),
    ensures
        !begins_like_verbatim(r),
        !has_verbatim_prefix(r),
{
    if base.len() >= 3 {
        assert(r[0] == base[0] && r[1] == base[1] && r[2] == base[2]);
    } else if r == base + c {
        if base.len() == 0 {
            assert(r[0] == c[0]);
            assert(c.contains(c[0]));
        } else if base.len() == 1 {
            assert(r[1] == c[0]);
            assert(c.contains(c[0]));
        } else {
            assert(r[2] == c[0]);
        }
    } else {
        if base.len() == 0 {
            assert(r[1] == c[0]);
            assert(c.contains(c[0]));
        } else if base.len() == 1 {
            assert(r[2] == c[0]);
        } else {
            assert(r[2] == r[base.len() as int]);
        }
    }
}

/// The directory that holds the `tycmd` builds in a source tree: `vendor/tycmd` below it.
/// The parts are joined as stated for a directory that does not begin like a verbatim prefix.
pub fn resource_root(manifest_dir: &str) -> (r: String)
    ensures
        !begins_like_verbatim(manifest_dir@) ==> exists|p1: Seq<char>|
            joined_path(p1, manifest_dir@, "vendor"@) && #[trigger] joined_path(r@, p1, "tycmd"@),
        !begins_like_verbatim(manifest_dir@) ==> !begins_like_verbatim(r@),
{
    proof {
        reveal_strlit("vendor");
        reveal_strlit("tycmd");
    }
    let p1 = path_join(manifest_dir, "vendor");
    proof {
        if !begins_like_verbatim(manifest_dir@) {
            lemma_join_keeps_non_verbatim(p1@, manifest_dir@, "vendor"@);
        }
    }
    let r = path_join(p1.as_str(), "tycmd");
    proof {
        if !begins_like_verbatim(manifest_dir@) {
            lemma_join_keeps_non_verbatim(r@, p1@, "tycmd"@);
        }
    }
    r
}

/// The location of the `tycmd` build for a platform below a resource directory:
/// `<platform>/<executable>`. The parts are joined as stated for a directory that does not
/// begin like a verbatim prefix.
pub fn arch_resource_path(root: &str, os: &str, arch: &str) -> (r: String)
    ensures
        !begins_like_verbatim(root@) ==> exists|p: Seq<char>|
            joined_path(p, root@, platform_arch_directory_spec(os@, arch@)) && #[trigger] joined_path(
                r@,
                p,
                tycmd_name_spec(os@),
            ),
{
    proof {
        reveal_strlit("tycmd");
        reveal_strlit("tycmd.exe");
        reveal_strlit("macos-arm64");
        reveal_strlit("macos-x86_64");
        reveal_strlit("windows-arm64");
        reveal_strlit("windows-x86_64");
        reveal_strlit("linux-arm64");
        reveal_strlit("linux-x86_64");
        reveal_strlit("unknown");
    }
    let platform = platform_arch_directory(os, arch);
    let p = path_join(root, platform);
    proof {
        if !begins_like_verbatim(root@) {
            lemma_join_keeps_non_verbatim(p@, root@, platform@);
        }
    }
    let name = tycmd_resource_name(os);
    path_join(p.as_str(), name)
}

/// The location of the bundled `tycmd` for a platform in a source tree:
/// `vendor/tycmd/<platform>/<executable>` below `manifest_dir`, the parts joined as stated
/// for a directory that does not begin like a verbatim prefix.
pub fn expected_resource_path(manifest_dir: &str, os: &str, arch: &str) -> (r: String)
    ensures
        !begins_like_verbatim(manifest_dir@) ==> exists|root: Seq<char>, p1: Seq<char>, p: Seq<char>|
            #![trigger joined_path(root, p1, "tycmd"@), joined_path(r@, p, tycmd_name_spec(os@))]
            joined_path(p1, manifest_dir@, "vendor"@) && joined_path(root, p1, "tycmd"@)
                && joined_path(p, root, platform_arch_directory_spec(os@, arch@)) && joined_path(
                r@,
                p,
                tycmd_name_spec(os@),
            ),
{
    let root = resource_root(manifest_dir);
    arch_resource_path(root.as_str(), os, arch)
}

/// The file name of the `tycmd` executable on an operating system.
pub open spec fn tycmd_name_spec(os: Seq<char>) -> Seq<char> {
    if os == "windows"@ {
        "tycmd.exe"@
    } else {
        "tycmd"@
    }
}

/// Device lines are never blank, never headings, and carry no surrounding whitespace.
pub proof fn law_device_lines_are_devices(s: Seq<char>, pos: int)
    ensures
        forall|i: int|
            0 <= i < device_lines_from(s, pos).len() ==> {
                let l = #[trigger] device_lines_from(s, pos)[i];
                &&& l.len() > 0
                &&& !is_obvious_header_spec(l)
                &&& l == trim(l)
            },
    decreases s.len() + 1 - pos,
{
    if 0 <= pos <= s.len() {
        let nl = next_char(s, pos, '\n');
        lemma_next_char_bounds(s, pos, '\n');
        law_device_lines_are_devices(s, nl + 1);
        let line = trim(s.subrange(pos, nl));
        crate::text::lemma_trim_idempotent(s.subrange(pos, nl));
        let rest = device_lines_from(s, nl + 1);
        if line.len() > 0 && !is_obvious_header_spec(line) {
            assert forall|i: int| 0 <= i < device_lines_from(s, pos).len() implies ({
                let l = #[trigger] device_lines_from(s, pos)[i];
                &&& l.len() > 0
                &&& !is_obvious_header_spec(l)
                &&& l == trim(l)
            }) by {
                if i > 0 {
                    assert(device_lines_from(s, pos)[i] == rest[i - 1]);
                }
            }
        }
    }
}

/// Without `c` from `pos` on, the search for it reaches the end.
proof fn lemma_next_char_absent(s: Seq<char>, pos: int, c: char)
    requires
        0 <= pos <= s.len(),
        forall|j: int| pos <= j < s.len() ==> s[j] != c,
    ensures
        next_char(s, pos, c) == s.len(),
    decreases s.len() - pos,
{
    if pos < s.len() {
        lemma_next_char_absent(s, pos + 1, c);
    }
}

/// A line of `tycmd list` output is a device unless it is a heading: a trimmed, non-empty
/// line that does not start with "---" or (in any case) "found ", is not "teensy", and does
/// not name all three of "serial", "board" and "firmware" is listed as it stands, with or
/// without its newline.
pub proof fn law_device_line_is_listed(line: Seq<char>)
    requires
        line.len() > 0,
        !line.contains('\n'),
        trim(line) == line,
        !starts_with(line, "---"@),
        lower_seq(line) != "teensy"@,
        !starts_with(lower_seq(line), "found "@),
        !contains_seq(lower_seq(line), "serial"@) || !contains_seq(lower_seq(line), "board"@)
            || !contains_seq(lower_seq(line), "firmware"@),
    ensures
        device_lines(line) == seq![line],
        device_lines(line.push('\n')) == seq![line],
{
    assert forall|j: int| 0 <= j < line.len() implies line[j] != '\n' by {
        if line[j] == '\n' {
            assert(line.contains('\n'));
        }
    }
    lemma_next_char_absent(line, 0, '\n');
    assert(line.subrange(0, line.len() as int) =~= line);
    assert(device_lines_from(line, line.len() as int + 1) == Seq::<Seq<char>>::empty());
    assert(device_lines(line) =~= seq![line]);
    let s = line.push('\n');
    assert forall|j: int| 0 <= j < line.len() implies s[j] != '\n' by {
        assert(s[j] == line[j]);
    }
    assert(next_char(s, line.len() as int, '\n') == line.len());
    lemma_next_char_upto(s, 0, line.len() as int, '\n');
    assert(s.subrange(0, line.len() as int) =~= line);
    let e = s.subrange(s.len() as int, s.len() as int);
    assert(e =~= Seq::<char>::empty());
    assert(trim(e).len() == 0);
    assert(device_lines_from(s, s.len() as int + 1) == Seq::<Seq<char>>::empty());
    assert(device_lines_from(s, s.len() as int) == Seq::<Seq<char>>::empty());
    assert(device_lines(s) =~= seq![line]);
}

/// Where `c` stands at `end` and nowhere from `pos` before it, the search from `pos` stops there.
proof fn lemma_next_char_upto(s: Seq<char>, pos: int, end: int, c: char)
    requires
        0 <= pos <= end < s.len(),
        s[end] == c,
        forall|j: int| pos <= j < end ==> s[j] != c,
    ensures
        next_char(s, pos, c) == end,
    decreases end - pos,
{
    if pos < end {
        lemma_next_char_upto(s, pos + 1, end, c);
    }
}

/// A heading of `tycmd list` output is never listed: a line starting with "---" or (in any
/// case) "found ", the line "teensy", or a line naming "serial", "board" and "firmware".
pub proof fn law_heading_is_not_listed(line: Seq<char>)
    requires
        !line.contains('\n'),
        trim(line) == line,
        starts_with(line, "---"@) || lower_seq(line) == "teensy"@ || starts_with(
            lower_seq(line),
            "found "@,
        ) || (contains_seq(lower_seq(line), "serial"@) && contains_seq(lower_seq(line), "board"@)
            && contains_seq(lower_seq(line), "firmware"@)),
    ensures
        device_lines(line) == Seq::<Seq<char>>::empty(),
{
    assert forall|j: int| 0 <= j < line.len() implies line[j] != '\n' by {
        if line[j] == '\n' {
            assert(line.contains('\n'));
        }
    }
    lemma_next_char_absent(line, 0, '\n');
    assert(line.subrange(0, line.len() as int) =~= line);
    assert(device_lines_from(line, line.len() as int + 1) == Seq::<Seq<char>>::empty());
}

} // verus!
