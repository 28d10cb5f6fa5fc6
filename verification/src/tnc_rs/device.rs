use vstd::prelude::*;
use vstd::string::StringExecFns;

use super::model::{model_name, Model};
use crate::text::{
    chars_of, contains_exec, contains_seq, occurs_at, trim, lemma_seq_lt_irreflexive, lemma_seq_lt_total,
    lemma_seq_lt_transitive, seq_lt, str_lt,
};

verus! {

/// What a connected board offers.
#[derive(Clone, Copy, Debug, PartialEq, Eq, Structural)]
pub enum Capability {
    Unique,
    Void,
    Run,
    Upload,
    Encrypt,
    Lock,
    Locked,
    Reset,
    Rtc,
    Reboot,
    Serial,
}

/// One way to reach a board: the kind of interface and its system path.
#[derive(Clone, Debug, PartialEq, Eq)]
pub struct Interface {
    pub name: String,
    pub path: String,
}

impl View for Interface {
    type V = (Seq<char>, Seq<char>);

    open spec fn view(&self) -> (Seq<char>, Seq<char>) {
        (self.name@, self.path@)
    }
}

/// A board found on USB.
#[derive(Clone, Debug, PartialEq, Eq)]
pub struct Device {
    pub raw_line: String,
    pub label: String,
    pub tag: String,
    pub model: Model,
    pub location: String,
    pub serial: Option<String>,
    pub description: Option<String>,
    pub capabilities: Vec<Capability>,
    pub interfaces: Vec<Interface>,
}

/// The content of a device entry.
pub struct DeviceView {
    pub raw_line: Seq<char>,
    pub label: Seq<char>,
    pub tag: Seq<char>,
    pub model: Model,
    pub location: Seq<char>,
    pub serial: Option<Seq<char>>,
    pub description: Option<Seq<char>>,
    pub capabilities: Seq<Capability>,
    pub interfaces: Seq<(Seq<char>, Seq<char>)>,
}

/// An optional owned string as an optional sequence of characters.
pub open spec fn opt_view(s: Option<String>) -> Option<Seq<char>> {
    match s {
        Some(v) => Some(v@),
        None => None,
    }
}

/// The views of interfaces.
pub open spec fn interfaces_view(v: Seq<Interface>) -> Seq<(Seq<char>, Seq<char>)> {
    v.map_values(|i: Interface| i@)
}

impl View for Device {
    type V = DeviceView;

    open spec fn view(&self) -> DeviceView {
        DeviceView {
            raw_line: self.raw_line@,
            label: self.label@,
            tag: self.tag@,
            model: self.model,
            location: self.location@,
            serial: opt_view(self.serial),
            description: opt_view(self.description),
            capabilities: self.capabilities@,
            interfaces: interfaces_view(self.interfaces@),
        }
    }
}

/// What the HID enumeration reports of one interface.
#[derive(Clone, Debug, PartialEq, Eq)]
pub struct HidDeviceInfo {
    pub vendor_id: u16,
    pub product_id: u16,
    pub usage_page: u16,
    pub usage: u16,
    pub release_number: u16,
    pub serial_number: Option<String>,
    pub path: String,
    pub product_string: Option<String>,
}

/// What the serial-port enumeration reports of one USB port.
#[derive(Clone, Debug, PartialEq, Eq)]
pub struct UsbPort {
    pub port_name: String,
    pub vid: u16,
    pub pid: u16,
    pub serial_number: Option<String>,
    pub product: Option<String>,
}

/// A serial port that belongs to a Teensy.
#[derive(Clone, Debug, PartialEq, Eq)]
pub struct TeensySerialPort {
    pub port_name: String,
    pub serial_number: Option<String>,
    pub product: Option<String>,
}

/// Product ids of the HalfKay bootloader.
pub open spec fn is_halfkay_pid_spec(pid: u16) -> bool {
    pid == 0x0476 || pid == 0x0478
}

/// Vendor and product ids that Teensy boards enumerate with.
pub open spec fn is_teensy_vid_pid_spec(vid: u16, pid: u16) -> bool {
    ||| (vid == 0x16C0 && (pid == 0x0476 || pid == 0x0478 || (0x0482 <= pid <= 0x048C) || (0x04D0
        <= pid <= 0x04D5) || pid == 0x04D9))
    ||| (vid == 0x1FC9 && pid == 0x0135)
}

/// A HID interface of the HalfKay bootloader.
pub open spec fn hid_is_bootloader_spec(vid: u16, pid: u16, usage_page: u16) -> bool {
    vid == 0x16C0 && (usage_page == 0xFF9C || (usage_page == 0 && is_halfkay_pid_spec(pid)))
}

/// A HID interface of the emulated serial port of running Teensy code.
pub open spec fn hid_is_seremu_spec(vid: u16, pid: u16, usage_page: u16) -> bool {
    (vid == 0x16C0 || vid == 0x1FC9) && (usage_page == 0xFFC9 || (usage_page == 0
        && is_teensy_vid_pid_spec(vid, pid) && !is_halfkay_pid_spec(pid)))
}

/// Whether `pid` is a HalfKay bootloader product id.
pub fn is_halfkay_pid(pid: u16) -> (r: bool)
    ensures
        r == is_halfkay_pid_spec(pid),
{
    pid == 0x0476 || pid == 0x0478
}

/// Whether the ids are those of a Teensy board.
pub fn is_teensy_vid_pid(vid: u16, pid: u16) -> (r: bool)
    ensures
        r == is_teensy_vid_pid_spec(vid, pid),
{
    (vid == 0x16C0 && (pid == 0x0476 || pid == 0x0478 || (0x0482 <= pid && pid <= 0x048C) || (0x04D0
        <= pid && pid <= 0x04D5) || pid == 0x04D9)) || (vid == 0x1FC9 && pid == 0x0135)
}

/// Whether a HID interface with these ids and usage page is the HalfKay bootloader.
pub fn hid_is_bootloader(vid: u16, pid: u16, usage_page: u16) -> (r: bool)
    ensures
        r == hid_is_bootloader_spec(vid, pid, usage_page),
{
    if vid != 0x16C0 {
        return false;
    }
    usage_page == 0xFF9C || (usage_page == 0 && is_halfkay_pid(pid))
}

/// Whether a HID interface with these ids and usage page is an emulated serial port.
pub fn hid_is_seremu(vid: u16, pid: u16, usage_page: u16) -> (r: bool)
    ensures
        r == hid_is_seremu_spec(vid, pid, usage_page),
{
    if vid != 0x16C0 && vid != 0x1FC9 {
        return false;
    }
    if usage_page == 0xFFC9 {
        return true;
    }
    usage_page == 0 && is_teensy_vid_pid(vid, pid) && !is_halfkay_pid(pid)
}

/// A USB device that is a Teensy by its ids or by "Teensy" in its product string.
pub open spec fn is_teensy_usb_spec(vid: u16, pid: u16, product: Option<Seq<char>>) -> bool {
    is_teensy_vid_pid_spec(vid, pid) || (product matches Some(p) && contains_seq(p, "Teensy"@))
}

/// An optional string as an optional sequence of characters.
pub open spec fn opt_str_view(s: Option<&str>) -> Option<Seq<char>> {
    match s {
        Some(v) => Some(v@),
        None => None,
    }
}

/// Whether a USB device is a Teensy.
pub fn is_teensy_usb(vid: u16, pid: u16, product: Option<&str>) -> (r: bool)
    ensures
        r == is_teensy_usb_spec(vid, pid, opt_str_view(product)),
{
    if is_teensy_vid_pid(vid, pid) {
        return true;
    }
    match product {
        Some(p) => contains_exec(&chars_of(p), &chars_of("Teensy")),
        None => false,
    }
}

/// The model a Teensy reports in its bcdDevice release number.
pub open spec fn model_from_bcd_device_spec(bcd: u16) -> Option<Model> {
    if bcd == 0x274 {
        Some(Model::Teensy30)
    } else if bcd == 0x275 {
        Some(Model::Teensy31)
    } else if bcd == 0x273 {
        Some(Model::TeensyLc)
    } else if bcd == 0x276 {
        Some(Model::Teensy35)
    } else if bcd == 0x277 {
        Some(Model::Teensy36)
    } else if bcd == 0x278 {
        Some(Model::Teensy40Beta1)
    } else if bcd == 0x279 {
        Some(Model::Teensy40)
    } else if bcd == 0x280 {
        Some(Model::Teensy41)
    } else if bcd == 0x281 {
        Some(Model::TeensyMicroMod)
    } else {
        None
    }
}

/// The model by the bcdDevice release number.
pub fn model_from_bcd_device(bcd_device: u16) -> (r: Option<Model>)
    ensures
        r == model_from_bcd_device_spec(bcd_device),
{
    match bcd_device {
        0x274 => Some(Model::Teensy30),
        0x275 => Some(Model::Teensy31),
        0x273 => Some(Model::TeensyLc),
        0x276 => Some(Model::Teensy35),
        0x277 => Some(Model::Teensy36),
        0x278 => Some(Model::Teensy40Beta1),
        0x279 => Some(Model::Teensy40),
        0x280 => Some(Model::Teensy41),
        0x281 => Some(Model::TeensyMicroMod),
        _ => None,
    }
}

/// The model the HalfKay bootloader reports in its HID usage.
pub open spec fn model_from_halfkay_usage_spec(usage: u16) -> Option<Model> {
    if usage == 0x1A {
        Some(Model::TeensyPp10)
    } else if usage == 0x1B {
        Some(Model::Teensy20)
    } else if usage == 0x1C {
        Some(Model::TeensyPp20)
    } else if usage == 0x1D {
        Some(Model::Teensy30)
    } else if usage == 0x1E {
        Some(Model::Teensy31)
    } else if usage == 0x20 {
        Some(Model::TeensyLc)
    } else if usage == 0x21 {
        Some(Model::Teensy32)
    } else if usage == 0x1F {
        Some(Model::Teensy35)
    } else if usage == 0x22 {
        Some(Model::Teensy36)
    } else if usage == 0x23 {
        Some(Model::Teensy40Beta1)
    } else if usage == 0x24 {
        Some(Model::Teensy40)
    } else if usage == 0x25 {
        Some(Model::Teensy41)
    } else if usage == 0x26 {
        Some(Model::TeensyMicroMod)
    } else {
        None
    }
}

/// The model by the HalfKay HID usage.
pub fn model_from_halfkay_usage(usage: u16) -> (r: Option<Model>)
    ensures
        r == model_from_halfkay_usage_spec(usage),
{
    match usage {
        0x1A => Some(Model::TeensyPp10),
        0x1B => Some(Model::Teensy20),
        0x1C => Some(Model::TeensyPp20),
        0x1D => Some(Model::Teensy30),
        0x1E => Some(Model::Teensy31),
        0x20 => Some(Model::TeensyLc),
        0x21 => Some(Model::Teensy32),
        0x1F => Some(Model::Teensy35),
        0x22 => Some(Model::Teensy36),
        0x23 => Some(Model::Teensy40Beta1),
        0x24 => Some(Model::Teensy40),
        0x25 => Some(Model::Teensy41),
        0x26 => Some(Model::TeensyMicroMod),
        _ => None,
    }
}

/// The model named in a USB product string (the first name in this order that occurs).
pub open spec fn model_from_product_spec(product: Option<Seq<char>>) -> Option<Model> {
    match product {
        None => None,
        Some(p) => if contains_seq(p, "Teensy 4.1"@) {
            Some(Model::Teensy41)
        } else if contains_seq(p, "Teensy 4.0"@) {
            Some(Model::Teensy40)
        } else if contains_seq(p, "Teensy 3.6"@) {
            Some(Model::Teensy36)
        } else if contains_seq(p, "Teensy 3.5"@) {
            Some(Model::Teensy35)
        } else if contains_seq(p, "Teensy 3.2"@) {
            Some(Model::Teensy32)
        } else if contains_seq(p, "Teensy 3.1"@) {
            Some(Model::Teensy31)
        } else if contains_seq(p, "Teensy 3.0"@) {
            Some(Model::Teensy30)
        } else if contains_seq(p, "Teensy LC"@) {
            Some(Model::TeensyLc)
        } else if contains_seq(p, "Teensy MicroMod"@) {
            Some(Model::TeensyMicroMod)
        } else if contains_seq(p, "Teensy++ 2.0"@) {
            Some(Model::TeensyPp20)
        } else if contains_seq(p, "Teensy++ 1.0"@) {
            Some(Model::TeensyPp10)
        } else if contains_seq(p, "Teensy 2.0"@) {
            Some(Model::Teensy20)
        } else {
            None
        },
    }
}

/// The model named in a USB product string.
pub fn model_from_product_string(product: Option<&str>) -> (r: Option<Model>)
    ensures
        r == model_from_product_spec(opt_str_view(product)),
{
    let p = match product {
        Some(p) => chars_of(p),
        None => {
            return None;
        },
    };
    if contains_exec(&p, &chars_of("Teensy 4.1")) {
        Some(Model::Teensy41)
    } else if contains_exec(&p, &chars_of("Teensy 4.0")) {
        Some(Model::Teensy40)
    } else if contains_exec(&p, &chars_of("Teensy 3.6")) {
        Some(Model::Teensy36)
    } else if contains_exec(&p, &chars_of("Teensy 3.5")) {
        Some(Model::Teensy35)
    } else if contains_exec(&p, &chars_of("Teensy 3.2")) {
        Some(Model::Teensy32)
    } else if contains_exec(&p, &chars_of("Teensy 3.1")) {
        Some(Model::Teensy31)
    } else if contains_exec(&p, &chars_of("Teensy 3.0")) {
        Some(Model::Teensy30)
    } else if contains_exec(&p, &chars_of("Teensy LC")) {
        Some(Model::TeensyLc)
    } else if contains_exec(&p, &chars_of("Teensy MicroMod")) {
        Some(Model::TeensyMicroMod)
    } else if contains_exec(&p, &chars_of("Teensy++ 2.0")) {
        Some(Model::TeensyPp20)
    } else if contains_exec(&p, &chars_of("Teensy++ 1.0")) {
        Some(Model::TeensyPp10)
    } else if contains_exec(&p, &chars_of("Teensy 2.0")) {
        Some(Model::Teensy20)
    } else {
        None
    }
}

/// The model of a HID interface: by HalfKay usage, then release number, then product string,
/// else the generic Teensy.
pub open spec fn identify_hid_model_spec(info: HidDeviceInfo) -> Model {
    match model_from_halfkay_usage_spec(info.usage) {
        Some(m) => m,
        None => match model_from_bcd_device_spec(info.release_number) {
            Some(m) => m,
            None => match model_from_product_spec(opt_view(info.product_string)) {
                Some(m) => m,
                None => Model::Teensy,
            },
        },
    }
}

/// The model of a HID interface.
pub fn identify_hid_model(info: &HidDeviceInfo) -> (r: Model)
    ensures
        r == identify_hid_model_spec(*info),
{
    if let Some(m) = model_from_halfkay_usage(info.usage) {
        return m;
    }
    if let Some(m) = model_from_bcd_device(info.release_number) {
        return m;
    }
    let product = match &info.product_string {
        Some(p) => Some(p.as_str()),
        None => None,
    };
    match model_from_product_string(product) {
        Some(m) => m,
        None => Model::Teensy,
    }
}

/// Whether a HID interface is the HalfKay bootloader.
pub fn is_teensy_hid(info: &HidDeviceInfo) -> (r: bool)
    ensures
        r == hid_is_bootloader_spec(info.vendor_id, info.product_id, info.usage_page),
{
    hid_is_bootloader(info.vendor_id, info.product_id, info.usage_page)
}

/// Whether a HID interface is an emulated serial port.
pub fn is_teensy_seremu(info: &HidDeviceInfo) -> (r: bool)
    ensures
        r == hid_is_seremu_spec(info.vendor_id, info.product_id, info.usage_page),
{
    hid_is_seremu(info.vendor_id, info.product_id, info.usage_page)
}

/// HID interfaces that the device list shows.
pub open spec fn is_listed_hid_spec(info: HidDeviceInfo) -> bool {
    ||| hid_is_bootloader_spec(info.vendor_id, info.product_id, info.usage_page)
    ||| hid_is_seremu_spec(info.vendor_id, info.product_id, info.usage_page)
    ||| (info.vendor_id == 0x16C0 && (info.usage_page == 0xFFAB || info.usage_page == 0xFF00))
}

/// Whether the device list shows this HID interface.
pub fn is_listed_hid(info: &HidDeviceInfo) -> (r: bool)
    ensures
        r == is_listed_hid_spec(*info),
{
    is_teensy_hid(info) || is_teensy_seremu(info) || (info.vendor_id == 0x16C0 && (info.usage_page
        == 0xFFAB || info.usage_page == 0xFF00))
}

/// The key under which devices are merged: the mode and the tag.
pub open spec fn dedup_key_spec(tag: Seq<char>, is_bootloader: bool) -> Seq<char> {
    (if is_bootloader {
        "boot"@
    } else {
        "run"@
    }) + ":"@ + tag
}

/// The key under which devices are merged.
pub fn dedup_key(tag: &str, is_bootloader: bool) -> (r: String)
    ensures
        r@ == dedup_key_spec(tag@, is_bootloader),
{
    let mut key = if is_bootloader {
        String::from_str("boot")
    } else {
        String::from_str("run")
    };
    key.append(":");
    key.append(tag);
    key
}

/// The serial ports among `ports` that belong to a Teensy.
pub open spec fn is_teensy_port(p: UsbPort) -> bool {
    is_teensy_usb_spec(p.vid, p.pid, opt_view(p.product))
}

/// The ports of `ports` that belong to a Teensy, in their order.
pub open spec fn teensy_ports(ports: Seq<UsbPort>) -> Seq<UsbPort> {
    ports.filter(|p: UsbPort| is_teensy_port(p))
}

/// Keeps the USB ports that belong to a Teensy, in order.
pub fn teensy_serial_ports(ports: Vec<UsbPort>) -> (r: Vec<TeensySerialPort>)
    ensures
        r@.len() == teensy_ports(ports@).len(),
        forall|i: int|
            0 <= i < r@.len() ==> {
                let p = teensy_ports(ports@)[i];
                &&& #[trigger] r@[i].port_name@ == p.port_name@
                &&& opt_view(r@[i].serial_number) == opt_view(p.serial_number)
                &&& opt_view(r@[i].product) == opt_view(p.product)
            },
{
    let ghost all = ports@;
    let mut r: Vec<TeensySerialPort> = Vec::new();
    let mut rest = ports;
    let mut i: usize = 0;
    let n = rest.len();
    while i < n
        invariant
            n == all.len(),
            rest@ == all,
            i <= n,
            r@.len() == teensy_ports(all.take(i as int)).len(),
            forall|k: int|
                0 <= k < r@.len() ==> {
                    let p = teensy_ports(all.take(i as int))[k];
                    &&& #[trigger] r@[k].port_name@ == p.port_name@
                    &&& opt_view(r@[k].serial_number) == opt_view(p.serial_number)
                    &&& opt_view(r@[k].product) == opt_view(p.product)
                },
        decreases n - i,
    {
        let port = &rest[i];
        let product = match &port.product {
            Some(p) => Some(p.as_str()),
            None => None,
        };
        let ghost prev = teensy_ports(all.take(i as int));
        proof {
            reveal_with_fuel(Seq::<_>::filter, 1);
            assert(all.take(i + 1).drop_last() =~= all.take(i as int));
            assert(all.take(i + 1).last() == all[i as int]);
            assert(teensy_ports(all.take(i + 1)) == if is_teensy_port(all[i as int]) {
                prev.push(all[i as int])
            } else {
                prev
            });
        }
        if is_teensy_usb(port.vid, port.pid, product) {
            r.push(
                TeensySerialPort {
                    port_name: port.port_name.clone(),
                    serial_number: port.serial_number.clone(),
                    product: port.product.clone(),
                },
            );
        }
        i = i + 1;
    }
    proof {
        assert(all.take(n as int) =~= all);
    }
    r
}

/// Whether a HID interface is the bootloader (by its ids and usage page).
pub open spec fn hid_is_boot(info: HidDeviceInfo) -> bool {
    hid_is_bootloader_spec(info.vendor_id, info.product_id, info.usage_page)
}

/// The interface kind a HID interface adds to its device.
pub open spec fn hid_interface_name(info: HidDeviceInfo) -> Seq<char> {
    if hid_is_boot(info) {
        "HalfKay"@
    } else {
        "Seremu"@
    }
}

/// The serial number of a HID interface, else its path.
pub open spec fn hid_raw_tag(info: HidDeviceInfo) -> Seq<char> {
    match info.serial_number {
        Some(s) => s@,
        None => info.path@,
    }
}

/// The tag shown for a HID device: the serial number with "-Teensy", else the path.
pub open spec fn hid_tag(info: HidDeviceInfo) -> Seq<char> {
    match info.serial_number {
        Some(s) => s@ + "-Teensy"@,
        None => info.path@,
    }
}

/// The key of a HID interface in the device list.
pub open spec fn hid_key(info: HidDeviceInfo) -> Seq<char> {
    dedup_key_spec(hid_raw_tag(info), hid_is_boot(info))
}

/// The line that describes a HID device.
pub open spec fn hid_label(info: HidDeviceInfo) -> Seq<char> {
    let model = identify_hid_model_spec(info);
    if hid_is_boot(info) {
        "add "@ + hid_tag(info) + " "@ + model_name(model) + " (HalfKay)"@
    } else {
        "add "@ + hid_tag(info) + " "@ + match info.product_string {
            Some(d) => d@,
            None => model_name(model),
        }
    }
}

/// What a board in its bootloader offers.
pub open spec fn boot_capabilities() -> Seq<Capability> {
    seq![Capability::Upload, Capability::Reset]
}

/// What a board running its own code offers.
pub open spec fn run_capabilities() -> Seq<Capability> {
    seq![Capability::Run, Capability::Serial, Capability::Reboot]
}

/// The device entry that a HID interface starts.
pub open spec fn hid_device(info: HidDeviceInfo) -> DeviceView {
    DeviceView {
        raw_line: hid_label(info),
        label: hid_label(info),
        tag: hid_tag(info),
        model: identify_hid_model_spec(info),
        location: info.path@,
        serial: opt_view(info.serial_number),
        description: opt_view(info.product_string),
        capabilities: if hid_is_boot(info) {
            boot_capabilities()
        } else {
            run_capabilities()
        },
        interfaces: seq![(hid_interface_name(info), info.path@)],
    }
}

/// A device entry with one more interface.
pub open spec fn with_interface(d: DeviceView, i: (Seq<char>, Seq<char>)) -> DeviceView {
    DeviceView {
        raw_line: d.raw_line,
        label: d.label,
        tag: d.tag,
        model: d.model,
        location: d.location,
        serial: d.serial,
        description: d.description,
        capabilities: d.capabilities,
        interfaces: d.interfaces.push(i),
    }
}

/// The devices that HID interfaces make, by key: listed interfaces in order, the first of a
/// key starts its entry and later ones add their interface to it.
pub open spec fn hid_map(infos: Seq<HidDeviceInfo>) -> Map<Seq<char>, DeviceView>
    decreases infos.len(),
{
    if infos.len() == 0 {
        Map::empty()
    } else {
        let m = hid_map(infos.drop_last());
        let info = infos.last();
        let k = hid_key(info);
        if !is_listed_hid_spec(info) {
            m
        } else if m.contains_key(k) {
            m.insert(k, with_interface(m[k], (hid_interface_name(info), info.path@)))
        } else {
            m.insert(k, hid_device(info))
        }
    }
}

/// The serial number of a serial port, else its name.
pub open spec fn port_tag(p: TeensySerialPort) -> Seq<char> {
    match p.serial_number {
        Some(s) => s@,
        None => p.port_name@,
    }
}

/// The model named by a serial port's product string, else the generic Teensy.
pub open spec fn port_model(p: TeensySerialPort) -> Model {
    match model_from_product_spec(opt_view(p.product)) {
        Some(m) => m,
        None => Model::Teensy,
    }
}

/// The line that describes a serial device.
pub open spec fn port_label(p: TeensySerialPort) -> Seq<char> {
    "add "@ + port_tag(p) + " "@ + model_name(port_model(p)) + " (USB Serial)"@
}

/// The device entry of a serial port.
pub open spec fn port_device(p: TeensySerialPort) -> DeviceView {
    DeviceView {
        raw_line: port_label(p),
        label: port_label(p),
        tag: port_tag(p),
        model: port_model(p),
        location: p.port_name@,
        serial: opt_view(p.serial_number),
        description: opt_view(p.product),
        capabilities: run_capabilities(),
        interfaces: seq![("Serial"@, p.port_name@)],
    }
}

/// The devices that serial ports make, by key; a later port of a key replaces an earlier one.
pub open spec fn serial_map(ports: Seq<TeensySerialPort>) -> Map<Seq<char>, DeviceView>
    decreases ports.len(),
{
    if ports.len() == 0 {
        Map::empty()
    } else {
        serial_map(ports.drop_last()).insert(
            dedup_key_spec(port_tag(ports.last()), false),
            port_device(ports.last()),
        )
    }
}

/// A HID device that a serial port of the same key joins: the serial line and description,
/// and the interfaces of both.
pub open spec fn merged_device(h: DeviceView, s: DeviceView) -> DeviceView {
    DeviceView {
        raw_line: s.raw_line,
        label: s.label,
        tag: h.tag,
        model: h.model,
        location: h.location,
        serial: h.serial,
        description: s.description,
        capabilities: h.capabilities,
        interfaces: h.interfaces + s.interfaces,
    }
}

/// HID devices joined by the serial devices of the keys in `done`.
pub open spec fn partial_merge(
    h: Map<Seq<char>, DeviceView>,
    s: Map<Seq<char>, DeviceView>,
    done: Set<Seq<char>>,
) -> Map<Seq<char>, DeviceView> {
    Map::new(
        |k: Seq<char>| h.contains_key(k) || done.contains(k),
        |k: Seq<char>|
            if done.contains(k) && h.contains_key(k) {
                merged_device(h[k], s[k])
            } else if done.contains(k) {
                s[k]
            } else {
                h[k]
            },
    )
}

/// All devices by key: HID devices, serial devices, and the two joined where keys meet.
pub open spec fn device_map(hid: Seq<HidDeviceInfo>, ports: Seq<TeensySerialPort>) -> Map<
    Seq<char>,
    DeviceView,
> {
    partial_merge(hid_map(hid), serial_map(ports), serial_map(ports).dom())
}

/// `ds` lists the entries of `m` under the keys `ks`, which are in increasing order and
/// cover every key of `m`.
pub open spec fn lists_in_key_order(
    m: Map<Seq<char>, DeviceView>,
    ks: Seq<Seq<char>>,
    ds: Seq<DeviceView>,
) -> bool {
    &&& ks.len() == ds.len()
    &&& forall|i: int, j: int| 0 <= i < j < ks.len() ==> seq_lt(#[trigger] ks[i], #[trigger] ks[j])
    &&& forall|i: int| 0 <= i < ks.len() ==> m.contains_key(#[trigger] ks[i]) && m[ks[i]] == ds[i]
    &&& forall|k: Seq<char>| #[trigger] m.contains_key(k) ==> ks.contains(k)
}

/// The views of devices.
pub open spec fn devices_view(v: Seq<Device>) -> Seq<DeviceView> {
    v.map_values(|d: Device| d@)
}

/// The keys of keyed entries.
pub open spec fn entry_keys(e: Seq<(String, Device)>) -> Seq<Seq<char>> {
    e.map_values(|x: (String, Device)| x.0@)
}

/// The devices of keyed entries.
pub open spec fn entry_devices(e: Seq<(String, Device)>) -> Seq<DeviceView> {
    e.map_values(|x: (String, Device)| x.1@)
}

/// Keyed entries that list `m` in key order.
pub open spec fn entries_list(e: Seq<(String, Device)>, m: Map<Seq<char>, DeviceView>) -> bool {
    lists_in_key_order(m, entry_keys(e), entry_devices(e))
}

/// The position of the entry with this key.
fn find_entry(e: &Vec<(String, Device)>, key: &String) -> (r: Option<usize>)
    ensures
        r matches Some(i) ==> i < e@.len() && e@[i as int].0@ == key@,
        r is None ==> forall|i: int| 0 <= i < e@.len() ==> (#[trigger] e@[i]).0@ != key@,
{
    let mut i: usize = 0;
    while i < e.len()
        invariant
            i <= e@.len(),
            forall|t: int| 0 <= t < i ==> (#[trigger] e@[t]).0@ != key@,
        decreases e@.len() - i,
    {
        if e[i].0 == *key {
            return Some(i);
        }
        i = i + 1;
    }
    None
}

/// Adds an entry under a new key at its place in key order.
fn insert_entry(
    e: &mut Vec<(String, Device)>,
    key: String,
    dev: Device,
    Ghost(m): Ghost<Map<Seq<char>, DeviceView>>,
)
    requires
        entries_list(old(e)@, m),
        !m.contains_key(key@),
    ensures
        entries_list(final(e)@, m.insert(key@, dev@)),
{
    let ghost old_e = e@;
    let mut p: usize = 0;
    let mut found = false;
    while p < e.len() && !found
        invariant
            e@ == old_e,
            p <= e@.len(),
            forall|t: int| 0 <= t < p ==> seq_lt(#[trigger] entry_keys(e@)[t], key@),
            found ==> p < e@.len() && !seq_lt(entry_keys(e@)[p as int], key@),
        decreases e@.len() - p + if found {
            0int
        } else {
            1int
        },
    {
        if str_lt(e[p].0.as_str(), key.as_str()) {
            p = p + 1;
        } else {
            found = true;
        }
    }
    let ghost ks = entry_keys(old_e);
    proof {
        assert forall|t: int| p <= t < ks.len() implies seq_lt(key@, #[trigger] ks[t]) by {
            assert(ks.contains(ks[t]));
            assert(ks[p as int] != key@) by {
                assert(m.contains_key(ks[p as int]));
            }
            lemma_seq_lt_total(ks[p as int], key@);
            if t > p {
                lemma_seq_lt_transitive(key@, ks[p as int], ks[t]);
            }
        }
    }
    e.insert(p, (key, dev));
    proof {
        let ne = e@;
        let nm = m.insert(key@, dev@);
        let nks = entry_keys(ne);
        let nds = entry_devices(ne);
        assert(nks =~= ks.insert(p as int, key@));
        assert(nds =~= entry_devices(old_e).insert(p as int, dev@));
        assert forall|i: int, j: int| 0 <= i < j < nks.len() implies seq_lt(
            #[trigger] nks[i],
            #[trigger] nks[j],
        ) by {
            if j < p {
            } else if i < p && j == p {
            } else if i < p {
                lemma_seq_lt_transitive(nks[i], key@, nks[j]);
            } else if i == p {
            } else {
            }
        }
        assert forall|i: int| 0 <= i < nks.len() implies nm.contains_key(#[trigger] nks[i])
            && nm[nks[i]] == nds[i] by {
            if i < p {
                assert(nks[i] == ks[i]);
                assert(m.contains_key(ks[i]));
            } else if i > p {
                assert(nks[i] == ks[i - 1]);
                assert(m.contains_key(ks[i - 1]));
            }
        }
        assert forall|k: Seq<char>| #[trigger] nm.contains_key(k) implies nks.contains(k) by {
            if k == key@ {
                assert(nks[p as int] == k);
            } else {
                assert(m.contains_key(k));
                let t = choose|t: int| 0 <= t < ks.len() && ks[t] == k;
                if t < p {
                    assert(nks[t] == k);
                } else {
                    assert(nks[t + 1] == k);
                }
            }
        }
    }
}

/// Entries that list `m`, with the device at `i` changed, list `m` with that key's new device.
proof fn lemma_entries_replace(
    old_e: Seq<(String, Device)>,
    new_e: Seq<(String, Device)>,
    i: int,
    m: Map<Seq<char>, DeviceView>,
)
    requires
        entries_list(old_e, m),
        0 <= i < old_e.len(),
        new_e.len() == old_e.len(),
        new_e[i].0@ == old_e[i].0@,
        forall|j: int| 0 <= j < old_e.len() && j != i ==> new_e[j] == old_e[j],
    ensures
        entries_list(new_e, m.insert(old_e[i].0@, new_e[i].1@)),
{
    let k = old_e[i].0@;
    let nm = m.insert(k, new_e[i].1@);
    let ks = entry_keys(old_e);
    assert(entry_keys(new_e) =~= ks);
    assert(entry_devices(new_e) =~= entry_devices(old_e).update(i, new_e[i].1@));
    assert forall|j: int| 0 <= j < ks.len() implies nm.contains_key(#[trigger] ks[j])
        && nm[ks[j]] == entry_devices(new_e)[j] by {
        if j != i {
            lemma_seq_lt_irreflexive(k);
            if j < i {
                assert(seq_lt(ks[j], ks[i]));
            } else {
                assert(seq_lt(ks[i], ks[j]));
            }
            assert(m.contains_key(ks[j]));
        }
    }
    assert forall|x: Seq<char>| #[trigger] nm.contains_key(x) implies ks.contains(x) by {
        if x == k {
            assert(ks[i] == x);
        } else {
            assert(m.contains_key(x));
        }
    }
}

/// Gives the entry at `i` a new device under the same key.
fn replace_entry(
    e: &mut Vec<(String, Device)>,
    i: usize,
    dev: Device,
    Ghost(m): Ghost<Map<Seq<char>, DeviceView>>,
)
    requires
        entries_list(old(e)@, m),
        i < old(e)@.len(),
    ensures
        entries_list(final(e)@, m.insert(old(e)@[i as int].0@, dev@)),
{
    let ghost old_e = e@;
    let (key, _old) = e.remove(i);
    e.insert(i, (key, dev));
    proof {
        lemma_entries_replace(old_e, e@, i as int, m);
    }
}

/// An optional string, copied.
fn clone_opt(s: &Option<String>) -> (r: Option<String>)
    ensures
        opt_view(r) == opt_view(*s),
{
    match s {
        Some(v) => Some(v.clone()),
        None => None,
    }
}

/// The interface a HID interface adds to its device.
fn hid_interface(info: &HidDeviceInfo) -> (r: Interface)
    ensures
        r@ == (hid_interface_name(*info), info.path@),
{
    let name = if is_teensy_hid(info) {
        String::from_str("HalfKay")
    } else {
        String::from_str("Seremu")
    };
    Interface { name, path: info.path.clone() }
}

/// Capabilities of a board in its bootloader or running its own code.
fn capabilities(is_bootloader: bool) -> (r: Vec<Capability>)
    ensures
        r@ == if is_bootloader {
            boot_capabilities()
        } else {
            run_capabilities()
        },
{
    let mut caps: Vec<Capability> = Vec::new();
    if is_bootloader {
        caps.push(Capability::Upload);
        caps.push(Capability::Reset);
    } else {
        caps.push(Capability::Run);
        caps.push(Capability::Serial);
        caps.push(Capability::Reboot);
    }
    proof {
        if is_bootloader {
            assert(caps@ =~= boot_capabilities());
        } else {
            assert(caps@ =~= run_capabilities());
        }
    }
    caps
}

/// The key and the new device entry of a listed HID interface.
fn hid_entry(info: &HidDeviceInfo) -> (r: (String, Device))
    ensures
        r.0@ == hid_key(*info),
        r.1@ == hid_device(*info),
{
    let is_boot = is_teensy_hid(info);
    let model = identify_hid_model(info);
    let raw_tag = match &info.serial_number {
        Some(s) => s.clone(),
        None => info.path.clone(),
    };
    let tag = match &info.serial_number {
        Some(s) => {
            let mut t = s.clone();
            t.append("-Teensy");
            t
        },
        None => info.path.clone(),
    };
    let key = dedup_key(raw_tag.as_str(), is_boot);
    let mut label = String::from_str("add ");
    label.append(tag.as_str());
    label.append(" ");
    if is_boot {
        label.append(model.info().name);
        label.append(" (HalfKay)");
    } else {
        match &info.product_string {
            Some(d) => label.append(d.as_str()),
            None => label.append(model.info().name),
        }
    }
    let mut interfaces: Vec<Interface> = Vec::new();
    interfaces.push(hid_interface(info));
    let dev = Device {
        raw_line: label.clone(),
        label,
        tag,
        model,
        location: info.path.clone(),
        serial: clone_opt(&info.serial_number),
        description: clone_opt(&info.product_string),
        capabilities: capabilities(is_boot),
        interfaces,
    };
    proof {
        reveal_strlit("HalfKay");
        assert(interfaces_view(dev.interfaces@) =~= seq![(hid_interface_name(*info), info.path@)]);
        if is_boot {
            assert(dev.label@ =~= hid_label(*info));
        } else {
            assert(dev.label@ =~= hid_label(*info));
        }
    }
    (key, dev)
}

/// The devices of the listed HID interfaces, by key in key order.
fn collect_hid_devices(infos: &Vec<HidDeviceInfo>) -> (r: Vec<(String, Device)>)
    ensures
        entries_list(r@, hid_map(infos@)),
{
    let mut seen: Vec<(String, Device)> = Vec::new();
    proof {
        assert(infos@.take(0) =~= Seq::<HidDeviceInfo>::empty());
        assert(entry_keys(seen@) =~= Seq::<Seq<char>>::empty());
        assert(entry_devices(seen@) =~= Seq::<DeviceView>::empty());
    }
    let mut i: usize = 0;
    while i < infos.len()
        invariant
            i <= infos@.len(),
            entries_list(seen@, hid_map(infos@.take(i as int))),
        decreases infos@.len() - i,
    {
        let info = &infos[i];
        let ghost m = hid_map(infos@.take(i as int));
        proof {
            assert(infos@.take(i + 1).drop_last() =~= infos@.take(i as int));
            assert(infos@.take(i + 1).last() == infos@[i as int]);
        }
        if is_listed_hid(info) {
            let (key, dev) = hid_entry(info);
            match find_entry(&seen, &key) {
                Some(j) => {
                    let ghost old_e = seen@;
                    proof {
                        assert(entry_keys(old_e)[j as int] == key@);
                    }
                    let (k, mut existing) = seen.remove(j);
                    existing.interfaces.push(hid_interface(info));
                    seen.insert(j, (k, existing));
                    proof {
                        assert(interfaces_view(existing.interfaces@) =~= interfaces_view(
                            old_e[j as int].1.interfaces@,
                        ).push((hid_interface_name(*info), info.path@)));
                        lemma_entries_replace(old_e, seen@, j as int, m);
                    }
                },
                None => {
                    proof {
                        if m.contains_key(key@) {
                            let t = choose|t: int|
                                0 <= t < entry_keys(seen@).len() && entry_keys(seen@)[t] == key@;
                            assert(seen@[t].0@ == key@);
                        }
                    }
                    insert_entry(&mut seen, key, dev, Ghost(m));
                },
            }
        }
        i = i + 1;
    }
    proof {
        assert(infos@.take(infos@.len() as int) =~= infos@);
    }
    seen
}

/// The key and the device entry of a Teensy serial port.
fn port_entry(port: &TeensySerialPort) -> (r: (String, Device))
    ensures
        r.0@ == dedup_key_spec(port_tag(*port), false),
        r.1@ == port_device(*port),
{
    let tag = match &port.serial_number {
        Some(s) => s.clone(),
        None => port.port_name.clone(),
    };
    let product = match &port.product {
        Some(p) => Some(p.as_str()),
        None => None,
    };
    let model = match model_from_product_string(product) {
        Some(m) => m,
        None => Model::Teensy,
    };
    let key = dedup_key(tag.as_str(), false);
    let mut label = String::from_str("add ");
    label.append(tag.as_str());
    label.append(" ");
    label.append(model.info().name);
    label.append(" (USB Serial)");
    let mut interfaces: Vec<Interface> = Vec::new();
    interfaces.push(Interface { name: String::from_str("Serial"), path: port.port_name.clone() });
    let dev = Device {
        raw_line: label.clone(),
        label,
        tag,
        model,
        location: port.port_name.clone(),
        serial: clone_opt(&port.serial_number),
        description: clone_opt(&port.product),
        capabilities: capabilities(false),
        interfaces,
    };
    proof {
        assert(opt_str_view(product) == opt_view(port.product));
        assert(interfaces_view(dev.interfaces@) =~= seq![("Serial"@, port.port_name@)]);
        assert(dev.label@ =~= port_label(*port));
    }
    (key, dev)
}

/// The devices of Teensy serial ports, by key in key order.
fn list_serial_devices(ports: &Vec<TeensySerialPort>) -> (r: Vec<(String, Device)>)
    ensures
        entries_list(r@, serial_map(ports@)),
{
    let mut seen: Vec<(String, Device)> = Vec::new();
    proof {
        assert(ports@.take(0) =~= Seq::<TeensySerialPort>::empty());
        assert(entry_keys(seen@) =~= Seq::<Seq<char>>::empty());
        assert(entry_devices(seen@) =~= Seq::<DeviceView>::empty());
    }
    let mut i: usize = 0;
    while i < ports.len()
        invariant
            i <= ports@.len(),
            entries_list(seen@, serial_map(ports@.take(i as int))),
        decreases ports@.len() - i,
    {
        let ghost m = serial_map(ports@.take(i as int));
        proof {
            assert(ports@.take(i + 1).drop_last() =~= ports@.take(i as int));
            assert(ports@.take(i + 1).last() == ports@[i as int]);
        }
        let (key, dev) = port_entry(&ports[i]);
        match find_entry(&seen, &key) {
            Some(j) => {
                replace_entry(&mut seen, j, dev, Ghost(m));
            },
            None => {
                proof {
                    if m.contains_key(key@) {
                        let t = choose|t: int|
                            0 <= t < entry_keys(seen@).len() && entry_keys(seen@)[t] == key@;
                        assert(seen@[t].0@ == key@);
                    }
                }
                insert_entry(&mut seen, key, dev, Ghost(m));
            },
        }
        i = i + 1;
    }
    proof {
        assert(ports@.take(ports@.len() as int) =~= ports@);
    }
    seen
}

/// The Teensy devices that the HID interfaces `hid` and the Teensy serial ports `ports` make,
/// in key order: one device per key ("boot:" or "run:" and the serial number or path), a
/// serial port joining the running HID device of its key.
pub fn list_devices(hid: &Vec<HidDeviceInfo>, ports: &Vec<TeensySerialPort>) -> (r: Vec<Device>)
    ensures
        exists|ks: Seq<Seq<char>>|
            lists_in_key_order(device_map(hid@, ports@), ks, #[trigger] devices_view(r@)),
{
    let mut seen = collect_hid_devices(hid);
    let mut serial = list_serial_devices(ports);
    let ghost h = hid_map(hid@);
    let ghost s = serial_map(ports@);
    let ghost orig = serial@;
    let ghost mut done: Set<Seq<char>> = Set::empty();
    proof {
        assert(partial_merge(h, s, done) =~= h);
        assert(orig.take(orig.len() as int) =~= orig);
    }
    while serial.len() > 0
        invariant
            entries_list(orig, s),
            serial@.len() <= orig.len(),
            serial@ == orig.take(serial@.len() as int),
            entries_list(seen@, partial_merge(h, s, done)),
            forall|t: int|
                serial@.len() <= t < orig.len() ==> done.contains(#[trigger] entry_keys(orig)[t]),
            forall|t: int| 0 <= t < serial@.len() ==> !done.contains(#[trigger] entry_keys(orig)[t]),
            forall|k: Seq<char>| #[trigger] done.contains(k) ==> s.contains_key(k),
        decreases serial@.len(),
    {
        let ghost t = (serial@.len() - 1) as int;
        let ghost pm = partial_merge(h, s, done);
        let (key, sdev) = match serial.pop() {
            Some(x) => x,
            None => {
                return Vec::new();
            },
        };
        let ghost ks = entry_keys(orig);
        proof {
            assert(orig[t] == (key, sdev));
            assert(ks[t] == key@);
            assert(s.contains_key(ks[t]) && s[ks[t]] == entry_devices(orig)[t]);
            assert(serial@ =~= orig.take(t));
        }
        let ghost nd = done.insert(key@);
        match find_entry(&seen, &key) {
            Some(j) => {
                let ghost old_e = seen@;
                proof {
                    assert(entry_keys(old_e)[j as int] == key@);
                    assert(pm.contains_key(key@));
                }
                let (k, mut existing) = seen.remove(j);
                existing.label = sdev.label;
                existing.raw_line = sdev.raw_line;
                existing.description = sdev.description;
                let mut more = sdev.interfaces;
                existing.interfaces.append(&mut more);
                seen.insert(j, (k, existing));
                proof {
                    assert(existing@.interfaces =~= old_e[j as int].1@.interfaces
                        + sdev@.interfaces);
                    lemma_entries_replace(old_e, seen@, j as int, pm);
                    assert(pm.insert(key@, existing@) =~= partial_merge(h, s, nd));
                }
            },
            None => {
                proof {
                    if pm.contains_key(key@) {
                        let u = choose|u: int|
                            0 <= u < entry_keys(seen@).len() && entry_keys(seen@)[u] == key@;
                        assert(seen@[u].0@ == key@);
                    }
                }
                insert_entry(&mut seen, key, sdev, Ghost(pm));
                proof {
                    assert(pm.insert(key@, sdev@) =~= partial_merge(h, s, nd));
                }
            },
        }
        proof {
            assert forall|u: int| 0 <= u < t implies !nd.contains(#[trigger] ks[u]) by {
                assert(seq_lt(ks[u], ks[t]));
                lemma_seq_lt_irreflexive(ks[t]);
            }
            done = nd;
        }
    }
    proof {
        assert(done =~= s.dom()) by {
            assert forall|k: Seq<char>| s.contains_key(k) implies done.contains(k) by {
                let u = choose|u: int| 0 <= u < entry_keys(orig).len() && entry_keys(orig)[u] == k;
                assert(done.contains(entry_keys(orig)[u]));
            }
        }
        assert(partial_merge(h, s, done) == device_map(hid@, ports@));
    }
    let ghost fin = seen@;
    let mut out: Vec<Device> = Vec::new();
    let mut idx: usize = 0;
    let n = seen.len();
    while seen.len() > 0
        invariant
            idx + seen@.len() == n,
            n == fin.len(),
            seen@ =~= fin.skip(idx as int),
            devices_view(out@) =~= entry_devices(fin).take(idx as int),
        decreases seen@.len(),
    {
        proof {
            assert(seen@[0] == fin[idx as int]);
        }
        let ghost old_out = out@;
        let (_k, d) = seen.remove(0);
        out.push(d);
        proof {
            assert(d@ == entry_devices(fin)[idx as int]);
            assert(devices_view(out@) =~= devices_view(old_out).push(d@));
            assert(devices_view(out@) =~= entry_devices(fin).take(idx + 1));
        }
        idx = idx + 1;
    }
    proof {
        assert(entry_devices(fin).take(n as int) =~= entry_devices(fin));
        assert(lists_in_key_order(device_map(hid@, ports@), entry_keys(fin), devices_view(out@)));
    }
    out
}

/// `s` without any number of leading "0x".
pub open spec fn strip_0x(s: Seq<char>) -> Seq<char>
    decreases s.len(),
{
    if s.len() >= 2 && s[0] == '0' && s[1] == 'x' {
        strip_0x(s.skip(2))
    } else {
        s
    }
}

/// The value of a hexadecimal digit (either case).
pub open spec fn hex_char_value(c: char) -> Option<int> {
    let u = c as int;
    if 48 <= u <= 57 {
        Some(u - 48)
    } else if 97 <= u <= 102 {
        Some(u - 87)
    } else if 65 <= u <= 70 {
        Some(u - 55)
    } else {
        None
    }
}

/// Every character of `s` is a hexadecimal digit.
pub open spec fn all_hex_chars(s: Seq<char>) -> bool {
    forall|i: int| 0 <= i < s.len() ==> #[trigger] hex_char_value(s[i]) is Some
}

/// The number that hexadecimal digits spell.
pub open spec fn hex_number(s: Seq<char>) -> int
    decreases s.len(),
{
    if s.len() == 0 {
        0
    } else {
        hex_number(s.drop_last()) * 16 + hex_char_value(s.last())->0
    }
}

/// The digits of a sysfs id: the text trimmed, without leading "0x"s and one "+".
pub open spec fn hex_digits_part(raw: Seq<char>) -> Seq<char> {
    let t = strip_0x(trim(raw));
    if t.len() > 0 && t[0] == '+' {
        t.drop_first()
    } else {
        t
    }
}

/// The 16-bit number a sysfs id file holds: hexadecimal after trimming whitespace and any
/// "0x", with an optional "+", as `u16::from_str_radix` reads it in base 16.
pub open spec fn parse_hex_u16_spec(raw: Seq<char>) -> Option<u16> {
    let d = hex_digits_part(raw);
    if d.len() > 0 && all_hex_chars(d) && hex_number(d) <= 0xFFFF {
        Some(hex_number(d) as u16)
    } else {
        None
    }
}

/// Hexadecimal digits spell a number that is not negative.
proof fn lemma_hex_number_nonneg(s: Seq<char>)
    requires
        all_hex_chars(s),
    ensures
        hex_number(s) >= 0,
    decreases s.len(),
{
    if s.len() > 0 {
        assert(all_hex_chars(s.drop_last())) by {
            assert forall|i: int| 0 <= i < s.drop_last().len() implies #[trigger] hex_char_value(
                s.drop_last()[i],
            ) is Some by {
                assert(s.drop_last()[i] == s[i]);
            }
        }
        lemma_hex_number_nonneg(s.drop_last());
        assert(hex_char_value(s[s.len() - 1]) is Some);
    }
}

/// The value of a hexadecimal digit character.
fn hex_char(c: char) -> (r: Option<u32>)
    ensures
        r matches Some(v) ==> hex_char_value(c) == Some(v as int),
        r is None ==> hex_char_value(c) is None,
{
    if '0' <= c && c <= '9' {
        Some((c as u32) - 48)
    } else if 'a' <= c && c <= 'f' {
        Some((c as u32) - 87)
    } else if 'A' <= c && c <= 'F' {
        Some((c as u32) - 55)
    } else {
        None
    }
}

/// Reads a 16-bit USB id from a sysfs file's text.
pub fn parse_hex_u16(raw: &str) -> (r: Option<u16>)
    ensures
        r == parse_hex_u16_spec(raw@),
{
    let chars = chars_of(raw);
    let (mut a, b) = crate::text::trim_bounds(&chars, 0, chars.len());
    let ghost tr = chars@.subrange(a as int, b as int);
    proof {
        assert(chars@.subrange(0, chars@.len() as int) =~= chars@);
    }
    while b - a >= 2 && chars[a] == '0' && chars[a + 1] == 'x'
        invariant
            a <= b <= chars@.len(),
            chars@ == raw@,
            tr == trim(raw@),
            strip_0x(tr) == strip_0x(chars@.subrange(a as int, b as int)),
        decreases b - a,
    {
        proof {
            assert(chars@.subrange(a as int, b as int).skip(2) =~= chars@.subrange(a + 2, b as int));
        }
        a = a + 2;
    }
    let ghost t = chars@.subrange(a as int, b as int);
    proof {
        assert(strip_0x(t) == t);
    }
    if a < b && chars[a] == '+' {
        proof {
            assert(t.drop_first() =~= chars@.subrange(a + 1, b as int));
        }
        a = a + 1;
    }
    let ghost d = chars@.subrange(a as int, b as int);
    proof {
        assert(strip_0x(trim(raw@)) == t);
        assert(d == if t.len() > 0 && t[0] == '+' {
            t.drop_first()
        } else {
            t
        });
    }
    if a == b {
        return None;
    }
    let mut value: u32 = 0;
    let mut over = false;
    let mut i = a;
    while i < b
        invariant
            a <= i <= b <= chars@.len(),
            d == chars@.subrange(a as int, b as int),
            d == hex_digits_part(raw@),
            all_hex_chars(d.take(i - a)),
            !over ==> value == hex_number(d.take(i - a)) && value <= 0xFFFF,
            over ==> hex_number(d.take(i - a)) > 0xFFFF,
        decreases b - i,
    {
        let digit = match hex_char(chars[i]) {
            Some(v) => v,
            None => {
                proof {
                    assert(d[i - a] == chars@[i as int]);
                    assert(hex_char_value(d[i - a]) is None);
                    assert(!all_hex_chars(d));
                }
                return None;
            },
        };
        proof {
            assert(d.take(i - a + 1).drop_last() =~= d.take(i - a));
            assert(d.take(i - a + 1).last() == chars@[i as int]);
            assert(all_hex_chars(d.take(i - a + 1))) by {
                assert forall|j: int| 0 <= j < d.take(i - a + 1).len() implies #[trigger] hex_char_value(
                    d.take(i - a + 1)[j],
                ) is Some by {
                    if j < i - a {
                        assert(d.take(i - a + 1)[j] == d.take(i - a)[j]);
                    }
                }
            }
            lemma_hex_number_nonneg(d.take(i - a));
        }
        if !over {
            value = value * 16 + digit;
            if value > 0xFFFF {
                over = true;
            }
        }
        i = i + 1;
    }
    proof {
        assert(d.take(b - a) =~= d);
    }
    if over {
        None
    } else {
        Some(value as u16)
    }
}

/// The text of a sysfs attribute file, trimmed; `None` where nothing is left.
pub fn sysfs_value(raw: &str) -> (r: Option<String>)
    ensures
        trim(raw@).len() == 0 ==> r is None,
        trim(raw@).len() > 0 ==> (r matches Some(v) && v@ == trim(raw@)),
{
    let chars = chars_of(raw);
    let (a, b) = crate::text::trim_bounds(&chars, 0, chars.len());
    proof {
        assert(chars@.subrange(0, chars@.len() as int) =~= chars@);
    }
    if a == b {
        return None;
    }
    Some(crate::text::substring(raw, a, b))
}

/// A bootloader and a running interface never share a key, and different tags never do:
/// the key tells the mode and the tag apart.
pub proof fn law_dedup_keys_are_distinct(t1: Seq<char>, b1: bool, t2: Seq<char>, b2: bool)
    ensures
        dedup_key_spec(t1, b1) == dedup_key_spec(t2, b2) <==> (t1 == t2 && b1 == b2),
{
    reveal_strlit("boot");
    reveal_strlit("run");
    reveal_strlit(":");
    if dedup_key_spec(t1, b1) == dedup_key_spec(t2, b2) {
        let k = dedup_key_spec(t1, b1);
        if b1 != b2 {
            assert(k[0] == (if b1 { 'b' } else { 'r' }));
            assert(k[0] == (if b2 { 'b' } else { 'r' }));
        }
        assert(dedup_key_spec(t1, b1) =~= (if b1 { "boot"@ } else { "run"@ }) + ":"@ + t1);
        assert(t1 =~= k.skip(if b1 { 5int } else { 4int }));
        assert(t2 =~= k.skip(if b2 { 5int } else { 4int }));
    }
}

/// No HID interface is both the bootloader and the emulated serial port of running code.
pub proof fn law_bootloader_is_not_seremu(vid: u16, pid: u16, usage_page: u16)
    ensures
        !(hid_is_bootloader_spec(vid, pid, usage_page) && hid_is_seremu_spec(vid, pid, usage_page)),
{
}

/// A device with Teensy ids is a Teensy whatever its product string says.
pub proof fn law_teensy_ids_suffice(vid: u16, pid: u16, product: Option<Seq<char>>)
    requires
        is_teensy_vid_pid_spec(vid, pid),
    ensures
        is_teensy_usb_spec(vid, pid, product),
{
}

/// Every HID interface that the list shows belongs to a device under its key.
pub proof fn law_listed_interface_has_device(infos: Seq<HidDeviceInfo>, i: int)
    requires
        0 <= i < infos.len(),
        is_listed_hid_spec(infos[i]),
    ensures
        hid_map(infos).contains_key(hid_key(infos[i])),
    decreases infos.len(),
{
    if i < infos.len() - 1 {
        assert(infos.drop_last()[i] == infos[i]);
        law_listed_interface_has_device(infos.drop_last(), i);
    }
}

/// Every Teensy serial port belongs to a device under its key.
pub proof fn law_port_has_device(ports: Seq<TeensySerialPort>, i: int)
    requires
        0 <= i < ports.len(),
    ensures
        serial_map(ports).contains_key(dedup_key_spec(port_tag(ports[i]), false)),
    decreases ports.len(),
{
    if i < ports.len() - 1 {
        assert(ports.drop_last()[i] == ports[i]);
        law_port_has_device(ports.drop_last(), i);
    }
}

/// The full list has a device for every listed HID interface and every serial port; with no
/// serial ports it is the HID devices, with no HID interfaces the serial devices.
pub proof fn law_device_list_covers_inputs(hid: Seq<HidDeviceInfo>, ports: Seq<TeensySerialPort>)
    ensures
        forall|i: int|
            0 <= i < hid.len() && is_listed_hid_spec(#[trigger] hid[i]) ==> device_map(
                hid,
                ports,
            ).contains_key(hid_key(hid[i])),
        forall|i: int|
            0 <= i < ports.len() ==> device_map(hid, ports).contains_key(
                dedup_key_spec(port_tag(#[trigger] ports[i]), false),
            ),
        ports.len() == 0 ==> device_map(hid, ports) == hid_map(hid),
        hid.len() == 0 ==> device_map(hid, ports) == serial_map(ports),
{
    assert forall|i: int| 0 <= i < hid.len() && is_listed_hid_spec(#[trigger] hid[i]) implies device_map(
        hid,
        ports,
    ).contains_key(hid_key(hid[i])) by {
        law_listed_interface_has_device(hid, i);
    }
    assert forall|i: int| 0 <= i < ports.len() implies device_map(hid, ports).contains_key(
        dedup_key_spec(port_tag(#[trigger] ports[i]), false),
    ) by {
        law_port_has_device(ports, i);
    }
    if ports.len() == 0 {
        assert(serial_map(ports) == Map::<Seq<char>, DeviceView>::empty());
        assert(device_map(hid, ports) =~= hid_map(hid));
    }
    if hid.len() == 0 {
        assert(hid_map(hid) == Map::<Seq<char>, DeviceView>::empty());
        assert(device_map(hid, ports) =~= serial_map(ports));
    }
}

/// A board seen both as a HID interface and as a serial port under the same key is listed
/// once: with the serial port's line and description and the interfaces of both.
pub proof fn law_serial_port_joins_hid_device(
    hid: Seq<HidDeviceInfo>,
    ports: Seq<TeensySerialPort>,
    key: Seq<char>,
)
    requires
        hid_map(hid).contains_key(key),
        serial_map(ports).contains_key(key),
    ensures
        device_map(hid, ports).contains_key(key),
        device_map(hid, ports)[key] == merged_device(hid_map(hid)[key], serial_map(ports)[key]),
        device_map(hid, ports)[key].interfaces == hid_map(hid)[key].interfaces + serial_map(
            ports,
        )[key].interfaces,
        device_map(hid, ports)[key].label == serial_map(ports)[key].label,
{
}

/// `p` occurs in `s` nowhere: its first character occurs in `s` only at the start, and at
/// position `k` the two differ (or `s` is too short).
proof fn lemma_no_occurrence(s: Seq<char>, p: Seq<char>, k: int)
    requires
        p.len() > 0,
        forall|j: int| 1 <= j < s.len() ==> s[j] != p[0],
        0 <= k < p.len(),
        k < s.len() ==> s[k] != p[k],
    ensures
        !contains_seq(s, p),
{
    if contains_seq(s, p) {
        let i = choose|i: int| #[trigger] occurs_at(s, p, i);
        assert(s.subrange(i, i + p.len())[0] == p[0]);
        assert(s.subrange(i, i + p.len())[k] == p[k]);
    }
}

/// Every string occurs in itself at the start.
proof fn lemma_occurs_at_start(s: Seq<char>)
    ensures
        occurs_at(s, s, 0),
{
    assert(s.subrange(0, s.len() as int) =~= s);
}

/// The product string of a board is its model's name, and reads back as that model: every
/// model but the generic ones and the Teensy 4.0 beta, whose name contains that of the
/// Teensy 4.0.
pub proof fn law_product_name_gives_model(m: Model)
    requires
        m != Model::Generic,
        m != Model::Teensy,
        m != Model::Teensy40Beta1,
    ensures
        model_from_product_spec(Some(model_name(m))) == Some(m),
{
        reveal_strlit("Teensy 4.1");
        reveal_strlit("Teensy 4.0");
        reveal_strlit("Teensy 3.6");
        reveal_strlit("Teensy 3.5");
        reveal_strlit("Teensy 3.2");
        reveal_strlit("Teensy 3.1");
        reveal_strlit("Teensy 3.0");
        reveal_strlit("Teensy LC");
        reveal_strlit("Teensy MicroMod");
        reveal_strlit("Teensy++ 2.0");
        reveal_strlit("Teensy++ 1.0");
        reveal_strlit("Teensy 2.0");
    match m {
        Model::Teensy41 => {
            lemma_occurs_at_start("Teensy 4.1"@);
        },
        Model::Teensy40 => {
            lemma_no_occurrence("Teensy 4.0"@, "Teensy 4.1"@, 9);
            lemma_occurs_at_start("Teensy 4.0"@);
        },
        Model::Teensy36 => {
            lemma_no_occurrence("Teensy 3.6"@, "Teensy 4.1"@, 7);
            lemma_no_occurrence("Teensy 3.6"@, "Teensy 4.0"@, 7);
            lemma_occurs_at_start("Teensy 3.6"@);
        },
        Model::Teensy35 => {
            lemma_no_occurrence("Teensy 3.5"@, "Teensy 4.1"@, 7);
            lemma_no_occurrence("Teensy 3.5"@, "Teensy 4.0"@, 7);
            lemma_no_occurrence("Teensy 3.5"@, "Teensy 3.6"@, 9);
            lemma_occurs_at_start("Teensy 3.5"@);
        },
        Model::Teensy32 => {
            lemma_no_occurrence("Teensy 3.2"@, "Teensy 4.1"@, 7);
            lemma_no_occurrence("Teensy 3.2"@, "Teensy 4.0"@, 7);
            lemma_no_occurrence("Teensy 3.2"@, "Teensy 3.6"@, 9);
            lemma_no_occurrence("Teensy 3.2"@, "Teensy 3.5"@, 9);
            lemma_occurs_at_start("Teensy 3.2"@);
        },
        Model::Teensy31 => {
            lemma_no_occurrence("Teensy 3.1"@, "Teensy 4.1"@, 7);
            lemma_no_occurrence("Teensy 3.1"@, "Teensy 4.0"@, 7);
            lemma_no_occurrence("Teensy 3.1"@, "Teensy 3.6"@, 9);
            lemma_no_occurrence("Teensy 3.1"@, "Teensy 3.5"@, 9);
            lemma_no_occurrence("Teensy 3.1"@, "Teensy 3.2"@, 9);
            lemma_occurs_at_start("Teensy 3.1"@);
        },
        Model::Teensy30 => {
            lemma_no_occurrence("Teensy 3.0"@, "Teensy 4.1"@, 7);
            lemma_no_occurrence("Teensy 3.0"@, "Teensy 4.0"@, 7);
            lemma_no_occurrence("Teensy 3.0"@, "Teensy 3.6"@, 9);
            lemma_no_occurrence("Teensy 3.0"@, "Teensy 3.5"@, 9);
            lemma_no_occurrence("Teensy 3.0"@, "Teensy 3.2"@, 9);
            lemma_no_occurrence("Teensy 3.0"@, "Teensy 3.1"@, 9);
            lemma_occurs_at_start("Teensy 3.0"@);
        },
        Model::TeensyLc => {
            lemma_no_occurrence("Teensy LC"@, "Teensy 4.1"@, 9);
            lemma_no_occurrence("Teensy LC"@, "Teensy 4.0"@, 9);
            lemma_no_occurrence("Teensy LC"@, "Teensy 3.6"@, 9);
            lemma_no_occurrence("Teensy LC"@, "Teensy 3.5"@, 9);
            lemma_no_occurrence("Teensy LC"@, "Teensy 3.2"@, 9);
            lemma_no_occurrence("Teensy LC"@, "Teensy 3.1"@, 9);
            lemma_no_occurrence("Teensy LC"@, "Teensy 3.0"@, 9);
            lemma_occurs_at_start("Teensy LC"@);
        },
        Model::TeensyMicroMod => {
            lemma_no_occurrence("Teensy MicroMod"@, "Teensy 4.1"@, 7);
            lemma_no_occurrence("Teensy MicroMod"@, "Teensy 4.0"@, 7);
            lemma_no_occurrence("Teensy MicroMod"@, "Teensy 3.6"@, 7);
            lemma_no_occurrence("Teensy MicroMod"@, "Teensy 3.5"@, 7);
            lemma_no_occurrence("Teensy MicroMod"@, "Teensy 3.2"@, 7);
            lemma_no_occurrence("Teensy MicroMod"@, "Teensy 3.1"@, 7);
            lemma_no_occurrence("Teensy MicroMod"@, "Teensy 3.0"@, 7);
            lemma_no_occurrence("Teensy MicroMod"@, "Teensy LC"@, 7);
            lemma_occurs_at_start("Teensy MicroMod"@);
        },
        Model::TeensyPp20 => {
            lemma_no_occurrence("Teensy++ 2.0"@, "Teensy 4.1"@, 6);
            lemma_no_occurrence("Teensy++ 2.0"@, "Teensy 4.0"@, 6);
            lemma_no_occurrence("Teensy++ 2.0"@, "Teensy 3.6"@, 6);
            lemma_no_occurrence("Teensy++ 2.0"@, "Teensy 3.5"@, 6);
            lemma_no_occurrence("Teensy++ 2.0"@, "Teensy 3.2"@, 6);
            lemma_no_occurrence("Teensy++ 2.0"@, "Teensy 3.1"@, 6);
            lemma_no_occurrence("Teensy++ 2.0"@, "Teensy 3.0"@, 6);
            lemma_no_occurrence("Teensy++ 2.0"@, "Teensy LC"@, 6);
            lemma_no_occurrence("Teensy++ 2.0"@, "Teensy MicroMod"@, 14);
            lemma_occurs_at_start("Teensy++ 2.0"@);
        },
        Model::TeensyPp10 => {
            lemma_no_occurrence("Teensy++ 1.0"@, "Teensy 4.1"@, 6);
            lemma_no_occurrence("Teensy++ 1.0"@, "Teensy 4.0"@, 6);
            lemma_no_occurrence("Teensy++ 1.0"@, "Teensy 3.6"@, 6);
            lemma_no_occurrence("Teensy++ 1.0"@, "Teensy 3.5"@, 6);
            lemma_no_occurrence("Teensy++ 1.0"@, "Teensy 3.2"@, 6);
            lemma_no_occurrence("Teensy++ 1.0"@, "Teensy 3.1"@, 6);
            lemma_no_occurrence("Teensy++ 1.0"@, "Teensy 3.0"@, 6);
            lemma_no_occurrence("Teensy++ 1.0"@, "Teensy LC"@, 6);
            lemma_no_occurrence("Teensy++ 1.0"@, "Teensy MicroMod"@, 14);
            lemma_no_occurrence("Teensy++ 1.0"@, "Teensy++ 2.0"@, 9);
            lemma_occurs_at_start("Teensy++ 1.0"@);
        },
        Model::Teensy20 => {
            lemma_no_occurrence("Teensy 2.0"@, "Teensy 4.1"@, 7);
            lemma_no_occurrence("Teensy 2.0"@, "Teensy 4.0"@, 7);
            lemma_no_occurrence("Teensy 2.0"@, "Teensy 3.6"@, 7);
            lemma_no_occurrence("Teensy 2.0"@, "Teensy 3.5"@, 7);
            lemma_no_occurrence("Teensy 2.0"@, "Teensy 3.2"@, 7);
            lemma_no_occurrence("Teensy 2.0"@, "Teensy 3.1"@, 7);
            lemma_no_occurrence("Teensy 2.0"@, "Teensy 3.0"@, 7);
            lemma_no_occurrence("Teensy 2.0"@, "Teensy LC"@, 7);
            lemma_no_occurrence("Teensy 2.0"@, "Teensy MicroMod"@, 14);
            lemma_no_occurrence("Teensy 2.0"@, "Teensy++ 2.0"@, 11);
            lemma_no_occurrence("Teensy 2.0"@, "Teensy++ 1.0"@, 11);
            lemma_occurs_at_start("Teensy 2.0"@);
        },
        _ => {},
    }
}

/// Every HalfKay usage code names its own board: no two codes name the same model, the
/// codes 0x1A to 0x26 name the boards in the order the bootloaders number them, and every
/// board that reports a release number when running also has a bootloader usage code.
pub proof fn law_halfkay_usage_names_one_board(u1: u16, u2: u16, bcd: u16)
    ensures
        model_from_halfkay_usage_spec(u1) is Some && model_from_halfkay_usage_spec(u1)
            == model_from_halfkay_usage_spec(u2) ==> u1 == u2,
        model_from_halfkay_usage_spec(u1) is Some <==> 0x1A <= u1 <= 0x26,
        u1 == 0x1A ==> model_from_halfkay_usage_spec(u1) == Some(Model::TeensyPp10),
        u1 == 0x1B ==> model_from_halfkay_usage_spec(u1) == Some(Model::Teensy20),
        u1 == 0x1C ==> model_from_halfkay_usage_spec(u1) == Some(Model::TeensyPp20),
        u1 == 0x1D ==> model_from_halfkay_usage_spec(u1) == Some(Model::Teensy30),
        u1 == 0x1E ==> model_from_halfkay_usage_spec(u1) == Some(Model::Teensy31),
        u1 == 0x1F ==> model_from_halfkay_usage_spec(u1) == Some(Model::Teensy35),
        u1 == 0x20 ==> model_from_halfkay_usage_spec(u1) == Some(Model::TeensyLc),
        u1 == 0x21 ==> model_from_halfkay_usage_spec(u1) == Some(Model::Teensy32),
        u1 == 0x22 ==> model_from_halfkay_usage_spec(u1) == Some(Model::Teensy36),
        u1 == 0x23 ==> model_from_halfkay_usage_spec(u1) == Some(Model::Teensy40Beta1),
        u1 == 0x24 ==> model_from_halfkay_usage_spec(u1) == Some(Model::Teensy40),
        u1 == 0x25 ==> model_from_halfkay_usage_spec(u1) == Some(Model::Teensy41),
        u1 == 0x26 ==> model_from_halfkay_usage_spec(u1) == Some(Model::TeensyMicroMod),
        model_from_bcd_device_spec(bcd) matches Some(m) ==> exists|u: u16|
            #[trigger] model_from_halfkay_usage_spec(u) == Some(m),
{
    if let Some(m) = model_from_bcd_device_spec(bcd) {
        assert(model_from_halfkay_usage_spec(0x1D) == Some(Model::Teensy30));
        assert(model_from_halfkay_usage_spec(0x1E) == Some(Model::Teensy31));
        assert(model_from_halfkay_usage_spec(0x20) == Some(Model::TeensyLc));
        assert(model_from_halfkay_usage_spec(0x1F) == Some(Model::Teensy35));
        assert(model_from_halfkay_usage_spec(0x22) == Some(Model::Teensy36));
        assert(model_from_halfkay_usage_spec(0x23) == Some(Model::Teensy40Beta1));
        assert(model_from_halfkay_usage_spec(0x24) == Some(Model::Teensy40));
        assert(model_from_halfkay_usage_spec(0x25) == Some(Model::Teensy41));
        assert(model_from_halfkay_usage_spec(0x26) == Some(Model::TeensyMicroMod));
    }
}

/// Every release number names its own board, and the release numbers 0x273 to 0x281 name
/// the ARM boards in the order they were released.
pub proof fn law_release_number_names_one_board(b1: u16, b2: u16)
    ensures
        model_from_bcd_device_spec(b1) is Some && model_from_bcd_device_spec(b1)
            == model_from_bcd_device_spec(b2) ==> b1 == b2,
        b1 == 0x273 ==> model_from_bcd_device_spec(b1) == Some(Model::TeensyLc),
        b1 == 0x274 ==> model_from_bcd_device_spec(b1) == Some(Model::Teensy30),
        b1 == 0x275 ==> model_from_bcd_device_spec(b1) == Some(Model::Teensy31),
        b1 == 0x276 ==> model_from_bcd_device_spec(b1) == Some(Model::Teensy35),
        b1 == 0x277 ==> model_from_bcd_device_spec(b1) == Some(Model::Teensy36),
        b1 == 0x278 ==> model_from_bcd_device_spec(b1) == Some(Model::Teensy40Beta1),
        b1 == 0x279 ==> model_from_bcd_device_spec(b1) == Some(Model::Teensy40),
        b1 == 0x280 ==> model_from_bcd_device_spec(b1) == Some(Model::Teensy41),
        b1 == 0x281 ==> model_from_bcd_device_spec(b1) == Some(Model::TeensyMicroMod),
        model_from_bcd_device_spec(b1) is Some <==> (0x273 <= b1 <= 0x279 || b1 == 0x280 || b1
            == 0x281),
{
}

} // verus!
