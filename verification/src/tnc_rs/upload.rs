use vstd::prelude::*;

use super::firmware::{
    extract_overflows, extract_total, extract_window, extracted_byte, last_writer, len32,
    window_covers, Firmware,
};
use super::device::{
    hid_is_boot, hid_is_seremu_spec, identify_hid_model, identify_hid_model_spec, is_teensy_hid,
    is_teensy_seremu, opt_view, HidDeviceInfo, TeensySerialPort,
};
use super::model::{model_mcu, model_name, Model};
use crate::text::{contains_seq, decimal, decimal_string};
use vstd::string::StringExecFns;

verus! {

/// Options of an upload.
#[derive(Clone, Debug, PartialEq, Eq)]
pub struct UploadOptions {
    pub wait: bool,
    pub no_reset: bool,
    pub no_check: bool,
    pub no_rtc: bool,
    pub rtc_utc: bool,
    pub delegate: bool,
    pub board_filter: Option<String>,
}

impl Default for UploadOptions {
    fn default() -> (o: Self)
        ensures
            !o.wait && !o.no_reset && !o.no_check && !o.no_rtc && !o.rtc_utc && !o.delegate,
            o.board_filter is None,
    {
        UploadOptions {
            wait: false,
            no_reset: false,
            no_check: false,
            no_rtc: false,
            rtc_utc: false,
            delegate: false,
            board_filter: None,
        }
    }
}

/// Why an upload could not go ahead.
#[derive(Clone, Debug, PartialEq, Eq)]
pub enum UploadError {
    /// The firmware is built for other models than the selected device.
    ModelMismatch { firmware: Vec<Model>, device: Model },
    NoProgram,
    UnsupportedModel(Model),
    FirmwareTooBig(Model),
    UnsupportedProtocolVersion(u8),
    MultipleBootloaders,
    UnidentifiedBootloader,
    NoDeviceToReboot,
}

/// The names of some models, separated by ", ".
pub open spec fn model_names_text(ms: Seq<Model>) -> Seq<char>
    decreases ms.len(),
{
    if ms.len() == 0 {
        Seq::empty()
    } else if ms.len() == 1 {
        model_name(ms[0])
    } else {
        model_names_text(ms.drop_last()) + ", "@ + model_name(ms.last())
    }
}

/// The message of an upload error; `to_bootloader` tells a reboot request from an upload
/// where no board was found to reboot.
pub open spec fn upload_error_text(e: UploadError, to_bootloader: bool) -> Seq<char> {
    match e {
        UploadError::ModelMismatch { firmware, device } => "firmware is for "@ + model_names_text(
            firmware@,
        ) + ", but selected device is "@ + model_name(device),
        UploadError::NoProgram => "firmware does not contain a program"@,
        UploadError::UnsupportedModel(m) => "unsupported Teensy model: "@ + model_name(m),
        UploadError::FirmwareTooBig(m) => "firmware is too big for "@ + model_name(m),
        UploadError::UnsupportedProtocolVersion(v) => "unsupported HalfKay protocol version "@
            + decimal(v as nat),
        UploadError::MultipleBootloaders => "multiple Teensy bootloaders found; select a device before upload"@,
        UploadError::UnidentifiedBootloader => "could not identify Teensy bootloader model"@,
        UploadError::NoDeviceToReboot => if to_bootloader {
            "no Teensy device found to reboot"@
        } else {
            "no Teensy device found to reboot into bootloader"@
        },
    }
}

/// The names of some models, separated by ", ".
pub fn model_names(ms: &Vec<Model>) -> (r: String)
    ensures
        r@ == model_names_text(ms@),
{
    let mut s = String::new();
    let mut i: usize = 0;
    proof {
        assert(ms@.take(0) =~= Seq::<Model>::empty());
    }
    while i < ms.len()
        invariant
            i <= ms@.len(),
            s@ == model_names_text(ms@.take(i as int)),
        decreases ms@.len() - i,
    {
        if i > 0 {
            s.append(", ");
        }
        let name = ms[i].info().name;
        s.append(name);
        proof {
            let t = ms@.take(i + 1);
            assert(t.drop_last() =~= ms@.take(i as int));
            assert(t.last() == ms@[i as int]);
            if i == 0 {
                assert(t =~= seq![ms@[0]]);
            }
        }
        i = i + 1;
    }
    proof {
        assert(ms@.take(ms@.len() as int) =~= ms@);
    }
    s
}

impl UploadError {
    /// The message that reports the error; `to_bootloader` tells a reboot request from an
    /// upload where no board was found to reboot.
    pub fn message(&self, to_bootloader: bool) -> (r: String)
        ensures
            r@ == upload_error_text(*self, to_bootloader),
    {
        match self {
            UploadError::ModelMismatch { firmware, device } => {
                let mut m = String::from_str("firmware is for ");
                let names = model_names(firmware);
                m.append(names.as_str());
                m.append(", but selected device is ");
                m.append(device.info().name);
                m
            },
            UploadError::NoProgram => String::from_str("firmware does not contain a program"),
            UploadError::UnsupportedModel(model) => {
                let mut m = String::from_str("unsupported Teensy model: ");
                m.append(model.info().name);
                m
            },
            UploadError::FirmwareTooBig(model) => {
                let mut m = String::from_str("firmware is too big for ");
                m.append(model.info().name);
                m
            },
            UploadError::UnsupportedProtocolVersion(v) => {
                let mut m = String::from_str("unsupported HalfKay protocol version ");
                let n = decimal_string(*v as usize);
                m.append(n.as_str());
                m
            },
            UploadError::MultipleBootloaders => String::from_str(
                "multiple Teensy bootloaders found; select a device before upload",
            ),
            UploadError::UnidentifiedBootloader => String::from_str(
                "could not identify Teensy bootloader model",
            ),
            UploadError::NoDeviceToReboot => {
                if to_bootloader {
                    String::from_str("no Teensy device found to reboot")
                } else {
                    String::from_str("no Teensy device found to reboot into bootloader")
                }
            },
        }
    }
}

/// Parameters of the HalfKay bootloader of one board model.
#[derive(Clone, Copy, Debug, PartialEq, Eq, Structural)]
pub struct HalfKaySettings {
    pub version: u8,
    pub min_address: u32,
    pub max_address: u32,
    pub block_size: usize,
}

/// The HalfKay parameters of a model: (version, first address, end address, block size).
pub open spec fn halfkay_settings_spec(model: Model) -> Option<(u8, u32, u32, usize)> {
    match model {
        Model::TeensyPp10 => Some((1, 0, 0xFC00, 256)),
        Model::Teensy20 => Some((1, 0, 0x7E00, 128)),
        Model::TeensyPp20 => Some((2, 0, 0x1FC00, 256)),
        Model::Teensy30 => Some((3, 0, 0x20000, 1024)),
        Model::Teensy31 | Model::Teensy32 => Some((3, 0, 0x40000, 1024)),
        Model::Teensy35 => Some((3, 0, 0x80000, 1024)),
        Model::Teensy36 => Some((3, 0, 0x100000, 1024)),
        Model::TeensyLc => Some((3, 0, 0xF800, 512)),
        Model::Teensy40Beta1 | Model::Teensy40 => Some((3, 0x6000_0000, 0x601F_0000, 1024)),
        Model::Teensy41 => Some((3, 0x6000_0000, 0x607C_0000, 1024)),
        Model::TeensyMicroMod => Some((3, 0x6000_0000, 0x60FC_0000, 1024)),
        Model::Generic | Model::Teensy => None,
    }
}

/// The settings as a tuple.
pub open spec fn settings_tuple(s: HalfKaySettings) -> (u8, u32, u32, usize) {
    (s.version, s.min_address, s.max_address, s.block_size)
}

impl HalfKaySettings {
    /// The HalfKay parameters of a model; generic models have none.
    pub fn for_model(model: Model) -> (r: Result<HalfKaySettings, UploadError>)
        ensures
            match halfkay_settings_spec(model) {
                Some(t) => r matches Ok(s) && settings_tuple(s) == t,
                None => r == Err::<HalfKaySettings, UploadError>(UploadError::UnsupportedModel(model)),
            },
    {
        let (version, min_address, max_address, block_size): (u8, u32, u32, usize) = match model {
            Model::TeensyPp10 => (1, 0, 0xFC00, 256),
            Model::Teensy20 => (1, 0, 0x7E00, 128),
            Model::TeensyPp20 => (2, 0, 0x1FC00, 256),
            Model::Teensy30 => (3, 0, 0x20000, 1024),
            Model::Teensy31 | Model::Teensy32 => (3, 0, 0x40000, 1024),
            Model::Teensy35 => (3, 0, 0x80000, 1024),
            Model::Teensy36 => (3, 0, 0x100000, 1024),
            Model::TeensyLc => (3, 0, 0xF800, 512),
            Model::Teensy40Beta1 | Model::Teensy40 => (3, 0x6000_0000, 0x601F_0000, 1024),
            Model::Teensy41 => (3, 0x6000_0000, 0x607C_0000, 1024),
            Model::TeensyMicroMod => (3, 0x6000_0000, 0x60FC_0000, 1024),
            Model::Generic | Model::Teensy => {
                return Err(UploadError::UnsupportedModel(model));
            },
        };
        Ok(HalfKaySettings { version, min_address, max_address, block_size })
    }
}

/// The HID report that writes `data` at `address` (or resets the board, for address
/// 0xFF_FFFF without data), for a HalfKay protocol version and block size.
pub open spec fn halfkay_report_spec(version: u8, block_size: int, address: u32, data: Seq<u8>) -> Option<
    Seq<u8>,
> {
    let b0 = (address % 0x100) as u8;
    let b1 = ((address / 0x100) % 0x100) as u8;
    let b2 = ((address / 0x1_0000) % 0x100) as u8;
    if version == 1 || version == 2 {
        let (lo, hi) = if version == 1 {
            (b0, b1)
        } else {
            (b1, b2)
        };
        Some(
            Seq::new(
                (block_size + 3) as nat,
                |i: int|
                    if i == 1 {
                        lo
                    } else if i == 2 {
                        hi
                    } else if 3 <= i < 3 + data.len() {
                        data[i - 3]
                    } else {
                        0
                    },
            ),
        )
    } else if version == 3 {
        Some(
            Seq::new(
                (block_size + 65) as nat,
                |i: int|
                    if i == 1 {
                        b0
                    } else if i == 2 {
                        b1
                    } else if i == 3 {
                        b2
                    } else if 65 <= i < 65 + data.len() {
                        data[i - 65]
                    } else {
                        0
                    },
            ),
        )
    } else {
        None
    }
}

/// Where the data would not fit the report buffer of `block_size + 65` bytes.
pub open spec fn halfkay_report_panics(version: u8, block_size: int, data_len: int) -> bool {
    ||| block_size + 65 > usize::MAX
    ||| ((version == 1 || version == 2) && 3 + data_len > block_size + 65)
    ||| (version == 3 && data_len > block_size)
}

/// Builds the HID report that writes `data` at `address`.
pub fn halfkay_report(version: u8, block_size: usize, address: u32, data: &[u8]) -> (r: Result<
    Vec<u8>,
    UploadError,
>)
    requires
        !halfkay_report_panics(version, block_size as int, data@.len() as int),
    ensures
        match halfkay_report_spec(version, block_size as int, address, data@) {
            Some(bytes) => r matches Ok(v) && v@ == bytes,
            None => r == Err::<Vec<u8>, UploadError>(UploadError::UnsupportedProtocolVersion(version)),
        },
{
    let mut report: Vec<u8> = vec![0u8; block_size + 65];
    let b0 = (address % 0x100) as u8;
    let b1 = ((address / 0x100) % 0x100) as u8;
    let b2 = ((address / 0x1_0000) % 0x100) as u8;
    let (start, size): (usize, usize) = if version == 1 {
        report.set(1, b0);
        report.set(2, b1);
        (3, block_size + 3)
    } else if version == 2 {
        report.set(1, b1);
        report.set(2, b2);
        (3, block_size + 3)
    } else if version == 3 {
        report.set(1, b0);
        report.set(2, b1);
        report.set(3, b2);
        (65, block_size + 65)
    } else {
        return Err(UploadError::UnsupportedProtocolVersion(version));
    };
    let ghost head = report@;
    let mut k: usize = 0;
    while k < data.len()
        invariant
            report@.len() == block_size + 65,
            head.len() == block_size + 65,
            start + data@.len() <= block_size + 65,
            block_size + 65 <= usize::MAX,
            start == 3 || start == 65,
            k <= data@.len(),
            forall|i: int|
                0 <= i < report@.len() ==> #[trigger] report@[i] == if start <= i < start + k {
                    data@[i - start]
                } else {
                    head[i]
                },
        decreases data@.len() - k,
    {
        report.set(start + k, data[k]);
        k = k + 1;
    }
    report.truncate(size);
    proof {
        let expected = halfkay_report_spec(version, block_size as int, address, data@)->0;
        assert(report@ =~= expected);
    }
    Ok(report)
}

/// Whether a board whose path is `path` and serial number is `serial` passes the board filter.
pub open spec fn matches_filter_spec(
    serial: Option<Seq<char>>,
    path: Seq<char>,
    filter: Option<Seq<char>>,
) -> bool {
    match filter {
        None => true,
        Some(f) => (serial == Some(f)) || contains_seq(path, f),
    }
}

/// An optional string as an optional sequence of characters.
pub open spec fn opt_str_view(s: Option<&str>) -> Option<Seq<char>> {
    match s {
        Some(v) => Some(v@),
        None => None,
    }
}

/// An optional owned string as an optional sequence of characters.
pub open spec fn opt_string_view(s: Option<String>) -> Option<Seq<char>> {
    match s {
        Some(v) => Some(v@),
        None => None,
    }
}

/// Whether a board passes the board filter of the options: no filter, the serial number equal
/// to the filter, or the filter occurring in the path.
pub fn matches_filter(serial: Option<&str>, path: &str, options: &UploadOptions) -> (r: bool)
    ensures
        r == matches_filter_spec(
            opt_str_view(serial),
            path@,
            opt_string_view(options.board_filter),
        ),
{
    match &options.board_filter {
        None => true,
        Some(filter) => {
            let f = crate::text::chars_of(filter.as_str());
            let serial_matches = match serial {
                Some(s) => crate::text::chars_eq(&crate::text::chars_of(s), &f),
                None => false,
            };
            serial_matches || crate::text::contains_exec(&crate::text::chars_of(path), &f)
        },
    }
}

/// One HID report of an upload, with how often to try writing it, how long to wait between
/// tries, and how long to pause after it was written.
#[derive(Clone, Debug, PartialEq, Eq)]
pub struct HidReport {
    pub bytes: Vec<u8>,
    pub tries: usize,
    pub retry_delay_ms: u64,
    pub pause_ms: u64,
}

/// The content of a report.
pub struct ReportView {
    pub bytes: Seq<u8>,
    pub tries: int,
    pub retry_delay_ms: int,
    pub pause_ms: int,
}

impl View for HidReport {
    type V = ReportView;

    open spec fn view(&self) -> ReportView {
        ReportView {
            bytes: self.bytes@,
            tries: self.tries as int,
            retry_delay_ms: self.retry_delay_ms as int,
            pause_ms: self.pause_ms as int,
        }
    }
}

/// The reports that write a firmware image, with the settings they are built for.
#[derive(Clone, Debug)]
pub struct UploadPlan {
    pub settings: HalfKaySettings,
    pub reports: Vec<HidReport>,
}

/// The views of a sequence of reports.
pub open spec fn reports_view(rs: Seq<HidReport>) -> Seq<ReportView> {
    rs.map_values(|r: HidReport| r@)
}

/// `n` zero bytes.
pub open spec fn zeros(n: int) -> Seq<u8> {
    Seq::new(n as nat, |i: int| 0u8)
}

/// The bytes a block of `block_size` bytes at `address` receives from the program.
pub open spec fn block_data(segs: Seq<(u32, Seq<u8>)>, address: int, block_size: int) -> Seq<u8> {
    Seq::new(
        extract_total(segs, address, block_size) as nat,
        |k: int| extracted_byte(segs, address, zeros(block_size), k),
    )
}

/// Where writing the blocks from `address` up to `end` cannot be planned: the 32-bit address
/// arithmetic of a block overflows, or its data does not fit its report.
pub open spec fn blocks_panic(
    segs: Seq<(u32, Seq<u8>)>,
    version: u8,
    block_size: int,
    address: int,
    end: int,
) -> bool
    decreases (if address < end {
        end - address
    } else {
        0
    }),
{
    if address >= end || block_size <= 0 {
        false
    } else {
        ||| extract_overflows(segs, address, block_size)
        ||| extract_total(segs, address, block_size) > block_size
        ||| halfkay_report_panics(version, block_size, extract_total(segs, address, block_size))
        ||| blocks_panic(segs, version, block_size, address + block_size, end)
    }
}

/// The reports that write the blocks from `address` up to `end`; blocks that receive no byte
/// are skipped, and the first written block is followed by a longer pause.
pub open spec fn block_reports(
    segs: Seq<(u32, Seq<u8>)>,
    version: u8,
    block_size: int,
    address: int,
    end: int,
    first: bool,
) -> Seq<ReportView>
    decreases (if address < end {
        end - address
    } else {
        0
    }),
{
    if address >= end || block_size <= 0 {
        Seq::empty()
    } else if extract_total(segs, address, block_size) == 0 {
        block_reports(segs, version, block_size, address + block_size, end, first)
    } else {
        seq![
            ReportView {
                bytes: halfkay_report_spec(
                    version,
                    block_size,
                    address as u32,
                    block_data(segs, address, block_size),
                )->0,
                tries: 250,
                retry_delay_ms: 100,
                pause_ms: if first {
                    500
                } else {
                    10
                },
            },
        ] + block_reports(segs, version, block_size, address + block_size, end, false)
    }
}

/// The report that restarts the board into the written firmware.
pub open spec fn reset_report(version: u8, block_size: int) -> ReportView {
    ReportView {
        bytes: halfkay_report_spec(version, block_size, 0x00FF_FFFF, Seq::empty())->0,
        tries: 25,
        retry_delay_ms: 20,
        pause_ms: 0,
    }
}

/// The end address of a model's HalfKay settings.
pub open spec fn settings_max(model: Model) -> u32 {
    let t = halfkay_settings_spec(model)->0;
    t.2
}

/// Whether the firmware's models rule out the selected device.
pub open spec fn model_mismatch(firmware_models: Seq<Model>, model: Model, no_check: bool) -> bool {
    !no_check && firmware_models.len() > 0 && !firmware_models.contains(model)
}

/// Whether the first program of the firmware can be written to `model` at all: the models
/// agree, there is a program, the model has HalfKay settings and the program fits.
pub open spec fn upload_accepted(fw: Firmware, firmware_models: Seq<Model>, model: Model, no_check: bool) -> bool {
    &&& !model_mismatch(firmware_models, model, no_check)
    &&& fw.programs@.len() > 0
    &&& halfkay_settings_spec(model) is Some
    &&& fw.programs@[0].max_address <= settings_max(model)
}

/// Plans the upload of the firmware's first program to a board of `model`, after the checks:
/// the firmware models must include the board (unless `no_check`), and the program must exist
/// and fit the board. `None` where a block cannot be planned (see `blocks_panic`).
#[verifier::loop_isolation(false)]
pub fn plan_upload(
    firmware: &Firmware,
    firmware_models: &Vec<Model>,
    model: Model,
    options: &UploadOptions,
) -> (r: Option<Result<UploadPlan, UploadError>>)
    ensures
        model_mismatch(firmware_models@, model, options.no_check) ==> (r matches Some(
            Err(UploadError::ModelMismatch { firmware, device }),
        ) && firmware@ == firmware_models@ && device == model),
        !model_mismatch(firmware_models@, model, options.no_check) && firmware.programs@.len() == 0
            ==> r == Some(Err::<UploadPlan, UploadError>(UploadError::NoProgram)),
        !model_mismatch(firmware_models@, model, options.no_check) && firmware.programs@.len() > 0
            && halfkay_settings_spec(model) is None ==> r == Some(
            Err::<UploadPlan, UploadError>(UploadError::UnsupportedModel(model)),
        ),
        !model_mismatch(firmware_models@, model, options.no_check) && firmware.programs@.len() > 0
            && halfkay_settings_spec(model) is Some && firmware.programs@[0].max_address
            > settings_max(model) ==> r == Some(
            Err::<UploadPlan, UploadError>(UploadError::FirmwareTooBig(model)),
        ),
        upload_accepted(*firmware, firmware_models@, model, options.no_check) ==> {
            let (version, min, max, bs) = halfkay_settings_spec(model)->0;
            let segs = firmware.programs@[0].segments_view();
            let end = firmware.programs@[0].max_address as int;
            &&& (r is None <==> blocks_panic(segs, version, bs as int, min as int, end))
            &&& r matches Some(res) ==> res matches Ok(plan) && settings_tuple(plan.settings) == (
                version,
                min,
                max,
                bs,
            ) && reports_view(plan.reports@) == block_reports(
                segs,
                version,
                bs as int,
                min as int,
                end,
                true,
            ) + if options.no_reset {
                Seq::<ReportView>::empty()
            } else {
                seq![reset_report(version, bs as int)]
            }
        },
{
    if !options.no_check && firmware_models.len() > 0 && !contains_model(firmware_models, model) {
        return Some(Err(UploadError::ModelMismatch { firmware: firmware_models.clone(), device: model }));
    }
    if firmware.programs.len() == 0 {
        return Some(Err(UploadError::NoProgram));
    }
    let program = &firmware.programs[0];
    let settings = match HalfKaySettings::for_model(model) {
        Ok(s) => s,
        Err(e) => {
            return Some(Err(e));
        },
    };
    if program.max_address > settings.max_address as usize {
        return Some(Err(UploadError::FirmwareTooBig(model)));
    }
    let ghost segs = program.segments_view();
    let version = settings.version;
    let bs = settings.block_size;
    let end = program.max_address;
    let mut reports: Vec<HidReport> = Vec::new();
    let mut address: u32 = settings.min_address;
    let mut first = true;
    let ghost all = block_reports(segs, version, bs as int, settings.min_address as int, end as int, true);
    let ghost panics = blocks_panic(segs, version, bs as int, settings.min_address as int, end as int);
    while (address as usize) < end
        invariant
            segs == program.segments_view(),
            settings_tuple(settings) == halfkay_settings_spec(model)->0,
            version == settings.version,
            bs == settings.block_size,
            1 <= version <= 3,
            128 <= bs <= 1024,
            end <= settings.max_address,
            settings.max_address <= 0x60FC_0000,
            all == reports_view(reports@) + block_reports(segs, version, bs as int, address as int, end as int, first),
            panics == blocks_panic(segs, version, bs as int, address as int, end as int),
        decreases end + bs - address,
    {
        if program.extract_overflows_at(address, bs) {
            return None;
        }
        let total = match program.extract_total_checked(address, bs) {
            Some(t) => t,
            None => {
                return None;
            },
        };
        if total > bs {
            return None;
        }
        let ghost rest = block_reports(segs, version, bs as int, address + bs, end as int, false);
        if total > 0 {
            let mut block: Vec<u8> = vec![0u8; bs];
            proof {
                assert(block@ =~= zeros(bs as int));
            }
            let copied = program.extract(address, block.as_mut_slice());
            block.truncate(copied);
            proof {
                assert(block@ =~= block_data(segs, address as int, bs as int));
            }
            let bytes = match halfkay_report(version, bs, address, block.as_slice()) {
                Ok(b) => b,
                Err(e) => {
                    return Some(Err(e));
                },
            };
            let pause: u64 = if first {
                500
            } else {
                10
            };
            let ghost before = reports@;
            reports.push(HidReport { bytes, tries: 250, retry_delay_ms: 100, pause_ms: pause });
            proof {
                assert(reports_view(reports@) =~= reports_view(before).push(reports@.last()@));
                assert(all =~= reports_view(reports@) + rest);
            }
            first = false;
        }
        address = address + bs as u32;
    }
    if !options.no_reset {
        let empty: Vec<u8> = Vec::new();
        let bytes = match halfkay_report(version, bs, 0x00FF_FFFF, empty.as_slice()) {
            Ok(b) => b,
            Err(e) => {
                return Some(Err(e));
            },
        };
        let ghost before = reports@;
        reports.push(HidReport { bytes, tries: 25, retry_delay_ms: 20, pause_ms: 0 });
        proof {
            assert(reports_view(reports@) =~= reports_view(before).push(reports@.last()@));
            assert(empty@ =~= Seq::<u8>::empty());
            assert(reports@.last()@ == reset_report(version, bs as int));
        }
    }
    proof {
        assert(block_reports(segs, version, bs as int, address as int, end as int, first) =~= Seq::<ReportView>::empty());
    }
    Some(Ok(UploadPlan { settings, reports }))
}

/// Whether `model` is among `models`.
pub fn contains_model(models: &Vec<Model>, model: Model) -> (r: bool)
    ensures
        r == models@.contains(model),
{
    let mut i: usize = 0;
    while i < models.len()
        invariant
            i <= models@.len(),
            forall|j: int| 0 <= j < i ==> models@[j] != model,
        decreases models@.len() - i,
    {
        if models[i] == model {
            return true;
        }
        i = i + 1;
    }
    false
}

/// The serial number of a HID interface, borrowed.
fn serial_of(info: &HidDeviceInfo) -> (r: Option<&str>)
    ensures
        opt_str_view(r) == opt_view(info.serial_number),
{
    match &info.serial_number {
        Some(s) => Some(s.as_str()),
        None => None,
    }
}

/// A HID interface that an upload may use as its bootloader: HalfKay, passing the filter.
pub open spec fn is_bootloader_match(info: HidDeviceInfo, filter: Option<Seq<char>>) -> bool {
    hid_is_boot(info) && matches_filter_spec(opt_view(info.serial_number), info.path@, filter)
}

/// Whether `info` is a bootloader the options let an upload use.
fn bootloader_matches(info: &HidDeviceInfo, options: &UploadOptions) -> (r: bool)
    ensures
        r == is_bootloader_match(*info, opt_string_view(options.board_filter)),
{
    is_teensy_hid(info) && matches_filter(serial_of(info), info.path.as_str(), options)
}

/// The first usable bootloader at or after `from`.
fn next_bootloader(hid: &Vec<HidDeviceInfo>, options: &UploadOptions, from: usize) -> (r: Option<
    usize,
>)
    requires
        from <= hid@.len(),
    ensures
        r matches Some(k) ==> from <= k < hid@.len() && is_bootloader_match(
            hid@[k as int],
            opt_string_view(options.board_filter),
        ),
        forall|j: int|
            from <= j < hid@.len() && (r matches Some(k) ==> j < k) ==> !is_bootloader_match(
                #[trigger] hid@[j],
                opt_string_view(options.board_filter),
            ),
{
    let mut i = from;
    while i < hid.len()
        invariant
            from <= i <= hid@.len(),
            forall|j: int|
                from <= j < i ==> !is_bootloader_match(
                    #[trigger] hid@[j],
                    opt_string_view(options.board_filter),
                ),
        decreases hid@.len() - i,
    {
        if bootloader_matches(&hid[i], options) {
            return Some(i);
        }
        i = i + 1;
    }
    None
}

/// The bootloader an upload goes to among the HID interfaces `hid`: none yet, the only
/// usable one with its model, or an error where several are usable or the one found does not
/// say its model.
pub fn select_bootloader(hid: &Vec<HidDeviceInfo>, options: &UploadOptions) -> (r: Result<
    Option<(usize, Model)>,
    UploadError,
>)
    ensures
        (forall|i: int|
            0 <= i < hid@.len() ==> !is_bootloader_match(
                #[trigger] hid@[i],
                opt_string_view(options.board_filter),
            )) ==> r == Ok::<Option<(usize, Model)>, UploadError>(None),
        (exists|i: int, j: int|
            0 <= i < j < hid@.len() && is_bootloader_match(
                #[trigger] hid@[i],
                opt_string_view(options.board_filter),
            ) && is_bootloader_match(#[trigger] hid@[j], opt_string_view(options.board_filter)))
            ==> r == Err::<Option<(usize, Model)>, UploadError>(UploadError::MultipleBootloaders),
        forall|i: int|
            0 <= i < hid@.len() && #[trigger] is_bootloader_match(
                hid@[i],
                opt_string_view(options.board_filter),
            ) && (forall|j: int|
                0 <= j < hid@.len() && j != i ==> !is_bootloader_match(
                    #[trigger] hid@[j],
                    opt_string_view(options.board_filter),
                )) ==> r == if identify_hid_model_spec(hid@[i]) == Model::Teensy {
                Err::<Option<(usize, Model)>, UploadError>(UploadError::UnidentifiedBootloader)
            } else {
                Ok::<Option<(usize, Model)>, UploadError>(
                    Some((i as usize, identify_hid_model_spec(hid@[i]))),
                )
            },
{
    let ghost f = opt_string_view(options.board_filter);
    let first = match next_bootloader(hid, options, 0) {
        Some(k) => k,
        None => {
            return Ok(None);
        },
    };
    let n = hid.len();
    assert(first < n);
    match next_bootloader(hid, options, first + 1) {
        Some(_second) => {
            return Err(UploadError::MultipleBootloaders);
        },
        None => {},
    }
    proof {
        assert forall|i: int, j: int|
            0 <= i < j < hid@.len() && is_bootloader_match(hid@[i], f) implies !is_bootloader_match(
            hid@[j],
            f,
        ) by {
            if i < first {
                assert(!is_bootloader_match(hid@[i], f));
            } else if i > first {
                assert(!is_bootloader_match(hid@[i], f));
            }
        }
    }
    let model = identify_hid_model(&hid[first]);
    if model == Model::Teensy {
        return Err(UploadError::UnidentifiedBootloader);
    }
    Ok(Some((first, model)))
}

/// A HID interface of running Teensy code that passes the filter.
pub open spec fn is_seremu_match(info: HidDeviceInfo, filter: Option<Seq<char>>) -> bool {
    hid_is_seremu_spec(info.vendor_id, info.product_id, info.usage_page) && matches_filter_spec(
        opt_view(info.serial_number),
        info.path@,
        filter,
    )
}

/// A Teensy serial port that passes the filter.
pub open spec fn is_port_match(port: TeensySerialPort, filter: Option<Seq<char>>) -> bool {
    matches_filter_spec(opt_view(port.serial_number), port.port_name@, filter)
}

/// `idx` lists, in increasing order, exactly the positions below `n` where `pred` holds.
pub open spec fn lists_positions(idx: Seq<usize>, n: int, pred: spec_fn(int) -> bool) -> bool {
    &&& forall|k: int| 0 <= k < idx.len() ==> #[trigger] idx[k] < n && pred(idx[k] as int)
    &&& forall|k1: int, k2: int| 0 <= k1 < k2 < idx.len() ==> #[trigger] idx[k1] < #[trigger] idx[k2]
    &&& forall|i: int| 0 <= i < n && #[trigger] pred(i) ==> idx.contains(i as usize)
}

/// The interfaces and ports to send a reboot request to.
#[derive(Clone, Debug, PartialEq, Eq)]
pub struct RebootTargets {
    /// Positions of HID interfaces of running Teensy code.
    pub hid: Vec<usize>,
    /// Positions of Teensy serial ports.
    pub ports: Vec<usize>,
}

/// The positions of the HID interfaces of running Teensy code that pass the filter.
fn seremu_positions(hid: &Vec<HidDeviceInfo>, options: &UploadOptions) -> (r: Vec<usize>)
    ensures
        lists_positions(
            r@,
            hid@.len() as int,
            |i: int| is_seremu_match(hid@[i], opt_string_view(options.board_filter)),
        ),
{
    let ghost f = opt_string_view(options.board_filter);
    let ghost pred = |i: int| is_seremu_match(hid@[i], f);
    let mut r: Vec<usize> = Vec::new();
    let mut i: usize = 0;
    while i < hid.len()
        invariant
            i <= hid@.len(),
            pred == (|i: int| is_seremu_match(hid@[i], f)),
            f == opt_string_view(options.board_filter),
            forall|k: int| 0 <= k < r@.len() ==> #[trigger] r@[k] < i && pred(r@[k] as int),
            forall|k1: int, k2: int| 0 <= k1 < k2 < r@.len() ==> #[trigger] r@[k1] < #[trigger] r@[k2],
            forall|j: int| 0 <= j < i && #[trigger] pred(j) ==> r@.contains(j as usize),
        decreases hid@.len() - i,
    {
        let info = &hid[i];
        if is_teensy_seremu(info) && matches_filter(serial_of(info), info.path.as_str(), options) {
            let ghost old_r = r@;
            r.push(i);
            proof {
                assert(r@[old_r.len() as int] == i);
                assert forall|j: int| 0 <= j < i + 1 && #[trigger] pred(j) implies r@.contains(
                    j as usize,
                ) by {
                    if j < i {
                        let k = choose|k: int| 0 <= k < old_r.len() && old_r[k] == j as usize;
                        assert(r@[k] == j as usize);
                    }
                }
            }
        }
        i = i + 1;
    }
    r
}

/// The positions of the Teensy serial ports that pass the filter.
fn port_positions(ports: &Vec<TeensySerialPort>, options: &UploadOptions) -> (r: Vec<usize>)
    ensures
        lists_positions(
            r@,
            ports@.len() as int,
            |i: int| is_port_match(ports@[i], opt_string_view(options.board_filter)),
        ),
{
    let ghost f = opt_string_view(options.board_filter);
    let ghost pred = |i: int| is_port_match(ports@[i], f);
    let mut r: Vec<usize> = Vec::new();
    let mut i: usize = 0;
    while i < ports.len()
        invariant
            i <= ports@.len(),
            pred == (|i: int| is_port_match(ports@[i], f)),
            f == opt_string_view(options.board_filter),
            forall|k: int| 0 <= k < r@.len() ==> #[trigger] r@[k] < i && pred(r@[k] as int),
            forall|k1: int, k2: int| 0 <= k1 < k2 < r@.len() ==> #[trigger] r@[k1] < #[trigger] r@[k2],
            forall|j: int| 0 <= j < i && #[trigger] pred(j) ==> r@.contains(j as usize),
        decreases ports@.len() - i,
    {
        let port = &ports[i];
        let serial = match &port.serial_number {
            Some(s) => Some(s.as_str()),
            None => None,
        };
        if matches_filter(serial, port.port_name.as_str(), options) {
            let ghost old_r = r@;
            r.push(i);
            proof {
                assert(r@[old_r.len() as int] == i);
                assert forall|j: int| 0 <= j < i + 1 && #[trigger] pred(j) implies r@.contains(
                    j as usize,
                ) by {
                    if j < i {
                        let k = choose|k: int| 0 <= k < old_r.len() && old_r[k] == j as usize;
                        assert(r@[k] == j as usize);
                    }
                }
            }
        }
        i = i + 1;
    }
    r
}

/// Where to send reboot requests so that running boards enter their bootloader before an
/// upload: every matching HID interface of running code and every matching serial port;
/// an error where there is none.
pub fn plan_reboot_running(
    hid: &Vec<HidDeviceInfo>,
    ports: &Vec<TeensySerialPort>,
    options: &UploadOptions,
) -> (r: Result<RebootTargets, UploadError>)
    ensures
        r matches Ok(t) ==> lists_positions(
            t.hid@,
            hid@.len() as int,
            |i: int| is_seremu_match(hid@[i], opt_string_view(options.board_filter)),
        ) && lists_positions(
            t.ports@,
            ports@.len() as int,
            |i: int| is_port_match(ports@[i], opt_string_view(options.board_filter)),
        ) && (t.hid@.len() > 0 || t.ports@.len() > 0),
        r is Err ==> r == Err::<RebootTargets, UploadError>(UploadError::NoDeviceToReboot) && (forall|
            i: int,
        | 0 <= i < hid@.len() ==> !is_seremu_match(
            #[trigger] hid@[i],
            opt_string_view(options.board_filter),
        )) && (forall|i: int|
            0 <= i < ports@.len() ==> !is_port_match(
                #[trigger] ports@[i],
                opt_string_view(options.board_filter),
            )),
{
    let h = seremu_positions(hid, options);
    let p = port_positions(ports, options);
    if h.len() == 0 && p.len() == 0 {
        proof {
            let f = opt_string_view(options.board_filter);
            assert forall|i: int| 0 <= i < hid@.len() implies !is_seremu_match(hid@[i], f) by {
                let pred = |i: int| is_seremu_match(hid@[i], f);
                if pred(i) {
                    assert(h@.contains(i as usize));
                }
            }
            assert forall|i: int| 0 <= i < ports@.len() implies !is_port_match(ports@[i], f) by {
                let pred = |i: int| is_port_match(ports@[i], f);
                if pred(i) {
                    assert(p@.contains(i as usize));
                }
            }
        }
        return Err(UploadError::NoDeviceToReboot);
    }
    Ok(RebootTargets { hid: h, ports: p })
}

/// Where to send reboot requests to bring running boards into their bootloader: every
/// matching HID interface of running code and the first matching serial port; an error
/// where there is none.
pub fn plan_reboot_to_bootloader(
    hid: &Vec<HidDeviceInfo>,
    ports: &Vec<TeensySerialPort>,
    board_filter: Option<String>,
) -> (r: Result<RebootTargets, UploadError>)
    ensures
        r matches Ok(t) ==> lists_positions(
            t.hid@,
            hid@.len() as int,
            |i: int| is_seremu_match(hid@[i], opt_string_view(board_filter)),
        ) && t.ports@.len() <= 1 && (t.ports@.len() == 1 ==> is_port_match(
            ports@[t.ports@[0] as int],
            opt_string_view(board_filter),
        ) && t.ports@[0] < ports@.len() && forall|j: int|
            0 <= j < t.ports@[0] ==> !is_port_match(
                #[trigger] ports@[j],
                opt_string_view(board_filter),
            )) && (t.ports@.len() == 0 ==> forall|j: int|
            0 <= j < ports@.len() ==> !is_port_match(
                #[trigger] ports@[j],
                opt_string_view(board_filter),
            )) && (t.hid@.len() > 0 || t.ports@.len() > 0),
        r is Err ==> r == Err::<RebootTargets, UploadError>(UploadError::NoDeviceToReboot) && (forall|
            i: int,
        | 0 <= i < hid@.len() ==> !is_seremu_match(#[trigger] hid@[i], opt_string_view(board_filter)))
            && (forall|i: int|
            0 <= i < ports@.len() ==> !is_port_match(
                #[trigger] ports@[i],
                opt_string_view(board_filter),
            )),
{
    let options = UploadOptions {
        wait: false,
        no_reset: false,
        no_check: false,
        no_rtc: false,
        rtc_utc: false,
        delegate: false,
        board_filter,
    };
    let r = plan_reboot_running(hid, ports, &options);
    match r {
        Err(e) => Err(e),
        Ok(t) => {
            let mut first: Vec<usize> = Vec::new();
            if t.ports.len() > 0 {
                first.push(t.ports[0]);
                proof {
                    let f = opt_string_view(options.board_filter);
                    let pred = |i: int| is_port_match(ports@[i], f);
                    assert forall|j: int| 0 <= j < t.ports@[0] implies !is_port_match(
                        ports@[j],
                        f,
                    ) by {
                        if pred(j) {
                            assert(t.ports@.contains(j as usize));
                            let k = choose|k: int| 0 <= k < t.ports@.len() && t.ports@[k] == j as usize;
                            if k > 0 {
                                assert(t.ports@[0] < t.ports@[k]);
                            }
                        }
                    }
                }
            } else {
                proof {
                    let f = opt_string_view(options.board_filter);
                    assert forall|j: int| 0 <= j < ports@.len() implies !is_port_match(
                        ports@[j],
                        f,
                    ) by {
                        let pred = |i: int| is_port_match(ports@[i], f);
                        if pred(j) {
                            assert(t.ports@.contains(j as usize));
                        }
                    }
                }
            }
            Ok(RebootTargets { hid: t.hid, ports: first })
        },
    }
}

/// Every model with HalfKay settings has a known protocol version, a first address below
/// its end address, and a block size that divides the span between them.
pub proof fn law_settings_are_sane(model: Model)
    requires
        halfkay_settings_spec(model) is Some,
    ensures
        ({
            let (version, min, max, bs) = halfkay_settings_spec(model)->0;
            &&& 1 <= version <= 3
            &&& min < max
            &&& bs > 0
            &&& (max - min) % (bs as int) == 0
        }),
{
}

/// Without a board filter every board passes.
pub proof fn law_no_filter_passes_all(serial: Option<Seq<char>>, path: Seq<char>)
    ensures
        matches_filter_spec(serial, path, None),
{
}

/// A program without bytes sends no block.
pub proof fn law_empty_program_sends_no_block(
    version: u8,
    block_size: int,
    address: int,
    end: int,
    first: bool,
)
    ensures
        block_reports(Seq::empty(), version, block_size, address, end, first) == Seq::<
            ReportView,
        >::empty(),
        blocks_panic(Seq::empty(), version, block_size, address, end) <==> (address < end
            && block_size > 0 && halfkay_report_panics(version, block_size, 0)),
    decreases (if address < end {
        end - address
    } else {
        0
    }),
{
    if address < end && block_size > 0 {
        assert(extract_total(Seq::<(u32, Seq<u8>)>::empty(), address, block_size) == 0);
        law_empty_program_sends_no_block(version, block_size, address + block_size, end, false);
        law_empty_program_sends_no_block(version, block_size, address + block_size, end, first);
    }
}

/// The reset report of protocol version 3 addresses 0xFF_FFFF and carries no data.
pub proof fn law_reset_report_layout(block_size: int)
    requires
        block_size >= 0,
    ensures
        reset_report(3, block_size).bytes.len() == block_size + 65,
        reset_report(3, block_size).bytes[1] == 0xFF,
        reset_report(3, block_size).bytes[2] == 0xFF,
        reset_report(3, block_size).bytes[3] == 0xFF,
        forall|i: int|
            (i == 0 || 4 <= i < block_size + 65) ==> #[trigger] reset_report(3, block_size).bytes[i]
                == 0,
{
}

/// A block that receives bytes has its report among the reports of the blocks from `a0` on.
proof fn lemma_block_in_reports(
    segs: Seq<(u32, Seq<u8>)>,
    version: u8,
    block_size: int,
    a0: int,
    end: int,
    first: bool,
    address: int,
)
    requires
        block_size > 0,
        a0 <= address < end,
        (address - a0) % block_size == 0,
        extract_total(segs, address, block_size) > 0,
    ensures
        exists|k: int|
            0 <= k < block_reports(segs, version, block_size, a0, end, first).len() && (#[trigger] block_reports(
                segs,
                version,
                block_size,
                a0,
                end,
                first,
            )[k]).bytes == halfkay_report_spec(
                version,
                block_size,
                address as u32,
                block_data(segs, address, block_size),
            )->0,
    decreases address - a0,
{
    let all = block_reports(segs, version, block_size, a0, end, first);
    if a0 == address {
        assert(all[0].bytes == halfkay_report_spec(
            version,
            block_size,
            address as u32,
            block_data(segs, address, block_size),
        )->0);
    } else {
        assert((address - (a0 + block_size)) % block_size == 0) by (nonlinear_arith)
            requires
                (address - a0) % block_size == 0,
                block_size > 0,
        ;
        assert(a0 + block_size <= address) by (nonlinear_arith)
            requires
                (address - a0) % block_size == 0,
                block_size > 0,
                a0 < address,
        ;
        let rest_first = if extract_total(segs, a0, block_size) == 0 {
            first
        } else {
            false
        };
        lemma_block_in_reports(segs, version, block_size, a0 + block_size, end, rest_first, address);
        let rest = block_reports(segs, version, block_size, a0 + block_size, end, rest_first);
        let k = choose|k: int|
            0 <= k < rest.len() && (#[trigger] rest[k]).bytes == halfkay_report_spec(
                version,
                block_size,
                address as u32,
                block_data(segs, address, block_size),
            )->0;
        if extract_total(segs, a0, block_size) == 0 {
            assert(all == rest);
            assert(all[k] == rest[k]);
        } else {
            assert(all[k + 1] == rest[k]);
        }
    }
}

/// The bytes a block at or after the start of a one-segment program receives: those of the
/// segment that fall within the block, at their offsets in it.
proof fn lemma_single_segment_block(start: u32, data: Seq<u8>, address: int, block_size: int, x: int)
    requires
        start + data.len() <= u32::MAX,
        block_size > 0,
        address + block_size <= u32::MAX,
        start <= address <= x < address + block_size,
        start <= x < start + data.len(),
    ensures
        extract_total(seq![(start, data)], address, block_size) > 0,
        extract_total(seq![(start, data)], address, block_size) <= block_size,
        x - address < block_data(seq![(start, data)], address, block_size).len(),
        block_data(seq![(start, data)], address, block_size)[x - address] == data[x - start],
{
    let segs = seq![(start, data)];
    assert(segs.drop_last() =~= Seq::<(u32, Seq<u8>)>::empty());
    assert(segs.last() == (start, data));
    assert(len32(data.len() as int) == data.len());
    let w = extract_window((start, data), address, block_size);
    assert(len32(block_size) == block_size);
    assert(window_covers(w, x - address));
    assert(extract_total(segs.drop_last(), address, block_size) == 0);
    assert(extract_total(segs, address, block_size) == w.1);
    assert(last_writer(segs, address, block_size, x - address) == Some(0int));
    assert(x - address < w.0 + w.1);
}

/// An upload writes every byte of a one-segment program that starts on a block boundary: the
/// report of the block that holds the byte's address carries it at the byte's offset in the
/// block, behind the block address.
pub proof fn law_upload_writes_every_byte(
    start: u32,
    data: Seq<u8>,
    block_size: int,
    min: int,
    end: int,
    x: int,
)
    requires
        block_size > 0,
        0 <= min <= start,
        (start - min) % block_size == 0,
        start + data.len() <= end,
        end + block_size <= u32::MAX,
        start <= x < start + data.len(),
    ensures
        ({
            let address = min + ((x - min) / block_size) * block_size;
            let reports = block_reports(seq![(start, data)], 3, block_size, min, end, true);
            exists|k: int|
                0 <= k < reports.len() && {
                    let bytes = (#[trigger] reports[k]).bytes;
                    &&& bytes.len() == block_size + 65
                    &&& bytes[1] == (address % 0x100) as u8
                    &&& bytes[2] == ((address / 0x100) % 0x100) as u8
                    &&& bytes[3] == ((address / 0x1_0000) % 0x100) as u8
                    &&& bytes[65 + x - address] == data[x - start]
                }
        }),
{
    let segs = seq![(start, data)];
    let address = min + ((x - min) / block_size) * block_size;
    assert(min <= address <= x < address + block_size && (address - min) % block_size == 0)
        by (nonlinear_arith)
        requires
            block_size > 0,
            min <= x,
            address == min + ((x - min) / block_size) * block_size,
    ;
    assert(start <= address) by (nonlinear_arith)
        requires
            block_size > 0,
            min <= start <= x,
            (start - min) % block_size == 0,
            address == min + ((x - min) / block_size) * block_size,
    ;
    lemma_single_segment_block(start, data, address, block_size, x);
    lemma_block_in_reports(segs, 3, block_size, min, end, true, address);
    let reports = block_reports(segs, 3, block_size, min, end, true);
    let bd = block_data(segs, address, block_size);
    let k = choose|k: int|
        0 <= k < reports.len() && (#[trigger] reports[k]).bytes == halfkay_report_spec(
            3,
            block_size,
            address as u32,
            bd,
        )->0;
    assert(bd.len() <= block_size);
    let bytes = reports[k].bytes;
    assert(bytes[65 + x - address] == bd[x - address]);
}

/// How long to wait between two looks for a bootloader, in milliseconds.
pub const BOOTLOADER_POLL_MS: u64 = 100;

/// What to do after one look for a bootloader.
#[derive(Clone, Debug, PartialEq, Eq)]
pub enum BootloaderStep {
    /// Open the bootloader interface at this index, of this model.
    Open(usize, Model),
    /// Ask the running board to reboot into its bootloader, then look again.
    Reboot,
    /// Look again at once.
    Retry,
    /// Wait `BOOTLOADER_POLL_MS` milliseconds, then look again.
    Wait,
    /// Give up with this error.
    Fail(UploadError),
}

/// The next step towards a bootloader after a look that found `found`: open the one found,
/// or give up on an error. After a first look that found none, reboot the running board
/// where that is allowed, else look again at once; after a later one, wait and look again.
pub fn bootloader_step(
    first_look: bool,
    may_reboot: bool,
    found: Result<Option<(usize, Model)>, UploadError>,
) -> (r: BootloaderStep)
    ensures
        r == match found {
            Err(e) => BootloaderStep::Fail(e),
            Ok(Some((i, m))) => BootloaderStep::Open(i, m),
            Ok(None) => if !first_look {
                BootloaderStep::Wait
            } else if may_reboot {
                BootloaderStep::Reboot
            } else {
                BootloaderStep::Retry
            },
        },
{
    match found {
        Err(e) => BootloaderStep::Fail(e),
        Ok(Some((i, m))) => BootloaderStep::Open(i, m),
        Ok(None) => {
            if !first_look {
                BootloaderStep::Wait
            } else if may_reboot {
                BootloaderStep::Reboot
            } else {
                BootloaderStep::Retry
            }
        },
    }
}

/// The HalfKay bootloader of each board takes blocks of its own size below the end of its
/// flash: the AVR boards write 128- or 256-byte blocks (protocol 1, or 2 for the Teensy++
/// 2.0), the Teensy LC 512-byte blocks below 0xF800, the other Teensy 3 boards 1024-byte
/// blocks below their flash size (128 KiB, 256 KiB, 512 KiB, 1 MiB), and the Teensy 4 boards
/// 1024-byte blocks in flash from 0x6000_0000. Boards with one microcontroller share one
/// bootloader, every range is a whole number of blocks, and a protocol-3 report is a block
/// plus 65 header bytes.
pub proof fn law_halfkay_bootloader_parameters(m: Model, m2: Model, address: u32, data: Seq<u8>)
    ensures
        m == Model::TeensyPp10 ==> halfkay_settings_spec(m) == Some((1u8, 0u32, 0xFC00u32, 256usize)),
        m == Model::Teensy20 ==> halfkay_settings_spec(m) == Some((1u8, 0u32, 0x7E00u32, 128usize)),
        m == Model::TeensyPp20 ==> halfkay_settings_spec(m) == Some((2u8, 0u32, 0x1FC00u32, 256usize)),
        m == Model::Teensy30 ==> halfkay_settings_spec(m) == Some((3u8, 0u32, 0x20000u32, 1024usize)),
        m == Model::Teensy31 ==> halfkay_settings_spec(m) == Some((3u8, 0u32, 0x40000u32, 1024usize)),
        m == Model::Teensy32 ==> halfkay_settings_spec(m) == Some((3u8, 0u32, 0x40000u32, 1024usize)),
        m == Model::Teensy35 ==> halfkay_settings_spec(m) == Some((3u8, 0u32, 0x80000u32, 1024usize)),
        m == Model::Teensy36 ==> halfkay_settings_spec(m) == Some((3u8, 0u32, 0x100000u32, 1024usize)),
        m == Model::TeensyLc ==> halfkay_settings_spec(m) == Some((3u8, 0u32, 0xF800u32, 512usize)),
        m == Model::Teensy40 ==> halfkay_settings_spec(m) == Some(
            (3u8, 0x6000_0000u32, 0x601F_0000u32, 1024usize),
        ),
        m == Model::Teensy40Beta1 ==> halfkay_settings_spec(m) == Some(
            (3u8, 0x6000_0000u32, 0x601F_0000u32, 1024usize),
        ),
        m == Model::Teensy41 ==> halfkay_settings_spec(m) == Some(
            (3u8, 0x6000_0000u32, 0x607C_0000u32, 1024usize),
        ),
        m == Model::TeensyMicroMod ==> halfkay_settings_spec(m) == Some(
            (3u8, 0x6000_0000u32, 0x60FC_0000u32, 1024usize),
        ),
        halfkay_settings_spec(m) is None <==> (m == Model::Generic || m == Model::Teensy),
        halfkay_settings_spec(m) matches Some((v, lo, hi, bs)) ==> lo < hi && (hi - lo) % (bs as int)
            == 0,
        model_mcu(m) is Some && model_mcu(m) == model_mcu(m2) ==> halfkay_settings_spec(m)
            == halfkay_settings_spec(m2),
        halfkay_settings_spec(m) matches Some((v, lo, hi, bs)) ==> (halfkay_report_spec(
            v,
            bs as int,
            address,
            data,
        ) matches Some(r) && r.len() == if v == 3 {
            bs + 65
        } else {
            bs + 3
        }),
{
    reveal_strlit("at90usb646");
    reveal_strlit("atmega32u4");
    reveal_strlit("at90usb1286");
    reveal_strlit("mk20dx128");
    reveal_strlit("mk20dx256");
    reveal_strlit("mkl26z64");
    reveal_strlit("mk64fx512");
    reveal_strlit("mk66fx1m0");
    reveal_strlit("imxrt_b1");
    reveal_strlit("imxrt");
    reveal_strlit("imxrt_t41");
    reveal_strlit("imxrt_mm");
    if model_mcu(m) is Some && model_mcu(m) == model_mcu(m2) {
        let a = model_mcu(m)->0;
        let b = model_mcu(m2)->0;
        assert(a.len() == b.len());
        assert(a[a.len() - 1] == b[b.len() - 1]);
        assert(a[2] == b[2]);
        assert(a[5] == b[5]);
    }
}

} // verus!
