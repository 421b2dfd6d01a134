//! Disks: what the per-device tools and sysfs say of the drive in a slot, the
//! table that maps generic device nodes to block device nodes, and the
//! records that join them.

use crate::helper::SYS_CLASS_ENCLOSURE;
use crate::text::{
    all_digits, chars_of, contains, digits, equals, fields, first_with, is_ascii_digit,
    is_digit, keep_digits, lemma_digits, lemma_first_with, lemma_pieces_non_empty, lines,
    lowercase, occurs_in, remove_all, same_text, slice_of, split, split_whitespace,
    str_to_lowercase, string_of, texts, trim, trimmed, without, words,
};
use vstd::hash_map::StringHashMap;
use vstd::prelude::*;

verus! {

/// A drive in a slot of an enclosure.
#[derive(Debug)]
pub struct Disk {
    /// SCSI address of the enclosure, such as `15:0:1:0`.
    pub enclosure: String,
    /// Bay of the enclosure that holds the drive.
    pub slot: String,
    /// Generic device node, such as `/dev/sg105`.
    pub device_path: String,
    /// Block device node, such as `/dev/sdcz`, or `NONE` where the drive has none.
    pub device_map: String,
    /// Digits of the temperature; empty where it could not be read.
    pub temperature: String,
    pub vendor: String,
    pub model: String,
    pub serial: String,
    pub fw_revision: String,
    /// Control file of the locate indicator, or `NONE` where the slot has none.
    pub led_locate_path: String,
    /// Control file of the fault indicator, or `NONE` where the slot has none.
    pub led_fault_path: String,
}

/// The texts a [`Disk`] holds.
pub ghost struct DiskView {
    pub enclosure: Seq<char>,
    pub slot: Seq<char>,
    pub device_path: Seq<char>,
    pub device_map: Seq<char>,
    pub temperature: Seq<char>,
    pub vendor: Seq<char>,
    pub model: Seq<char>,
    pub serial: Seq<char>,
    pub fw_revision: Seq<char>,
    pub led_locate_path: Seq<char>,
    pub led_fault_path: Seq<char>,
}

impl View for Disk {
    type V = DiskView;

    open spec fn view(&self) -> DiskView {
        DiskView {
            enclosure: self.enclosure@,
            slot: self.slot@,
            device_path: self.device_path@,
            device_map: self.device_map@,
            temperature: self.temperature@,
            vendor: self.vendor@,
            model: self.model@,
            serial: self.serial@,
            fw_revision: self.fw_revision@,
            led_locate_path: self.led_locate_path@,
            led_fault_path: self.led_fault_path@,
        }
    }
}

/// What stands for a sysfs attribute whose file is missing.
pub open spec fn not_available() -> Seq<char> {
    "N/A"@
}

/// What stands for a block device node or an indicator file that does not
/// exist.
pub open spec fn none_marker() -> Seq<char> {
    "NONE"@
}

/// Keeps the decimal digits of a raw reading. The result holds digits only
/// and is empty where the reading holds none.
pub fn extract_digits(raw: &str) -> (r: String)
    ensures
        r@ == digits(raw@),
        all_digits(r@),
        (forall|i: int| 0 <= i < raw@.len() ==> !is_digit(raw@[i])) ==> r@.len() == 0,
{
    proof {
        lemma_digits(raw@);
    }
    string_of(&keep_digits(&chars_of(raw)))
}

/// The temperature that the temperature tool reports: the digits of the
/// third line of its output. An output of fewer than three lines gives the
/// empty, unreadable temperature.
pub open spec fn temperature_of(output: Seq<char>) -> Seq<char> {
    let ls = lines(output);
    if ls.len() >= 3 {
        digits(ls[2])
    } else {
        Seq::empty()
    }
}

/// Reads the temperature off the temperature tool's output.
pub fn get_disk_temperature(output: &str) -> (r: String)
    ensures
        r@ == temperature_of(output@),
        all_digits(r@),
{
    let ls = split(&chars_of(output), '\n');
    if ls.len() >= 3 {
        proof {
            assert(texts(ls@)[2] == ls@[2]@);
            lemma_digits(ls@[2]@);
        }
        string_of(&keep_digits(&ls[2]))
    } else {
        proof {
            assert(texts(ls@).len() == ls@.len());
        }
        String::new()
    }
}

/// The firmware revision that the device-info tool reports: the first line
/// that holds `Revision level`, without the label `Revision level:` and
/// trimmed. [`not_available`] where no line holds the label.
pub open spec fn firmware_of(output: Seq<char>) -> Seq<char> {
    let ls = lines(output);
    let k = first_with(ls, "Revision level"@);
    if 0 <= k < ls.len() {
        trimmed(without(ls[k], "Revision level:"@))
    } else {
        not_available()
    }
}

/// Reads the firmware revision off the device-info tool's output.
pub fn get_disk_firmware(output: &str) -> (r: String)
    ensures
        r@ == firmware_of(output@),
{
    let ls = split(&chars_of(output), '\n');
    let key = chars_of("Revision level");
    let mut k: usize = 0;
    while k < ls.len()
        invariant
            k <= ls.len(),
            texts(ls@) == lines(output@),
            key@ == "Revision level"@,
            forall|j: int| 0 <= j < k ==> !occurs_in(#[trigger] lines(output@)[j], key@),
        decreases ls.len() - k,
    {
        proof {
            assert(texts(ls@)[k as int] == ls@[k as int]@);
        }
        if contains(&ls[k], &key) {
            proof {
                lemma_first_with(lines(output@), key@, k as int);
            }
            let label = chars_of("Revision level:");
            return string_of(&trim(&remove_all(&ls[k], &label)));
        }
        k += 1;
    }
    proof {
        assert(texts(ls@).len() == ls@.len());
        lemma_first_with(lines(output@), key@, k as int);
    }
    "N/A".to_owned()
}

/// The characters of a file's content, where the file could be read.
pub open spec fn content_of(content: Option<&str>) -> Option<Seq<char>> {
    match content {
        Some(c) => Some(c@),
        None => None,
    }
}

/// `s` without the line feed that ends it, if one does.
pub open spec fn without_newline(s: Seq<char>) -> Seq<char> {
    if s.len() > 0 && s.last() == '\n' {
        s.drop_last()
    } else {
        s
    }
}

/// The value of a one-line sysfs attribute: the content of its file without
/// the closing line feed, or [`not_available`] where the file is missing.
pub open spec fn attribute_of(content: Option<Seq<char>>) -> Seq<char> {
    match content {
        Some(c) => without_newline(c),
        None => not_available(),
    }
}

/// The serial number from the device's product-data page: the content of
/// the file as it is, or [`not_available`] where the file is missing.
pub open spec fn serial_of(content: Option<Seq<char>>) -> Seq<char> {
    match content {
        Some(c) => c,
        None => not_available(),
    }
}

fn read_attribute(content: Option<&str>) -> (r: String)
    ensures
        r@ == attribute_of(content_of(content)),
{
    match content {
        Some(c) => {
            let chars = chars_of(c);
            let n: usize = chars.len();
            if n > 0 && chars[n - 1] == '\n' {
                proof {
                    assert(chars@.subrange(0, n - 1) =~= chars@.drop_last());
                }
                string_of(&slice_of(&chars, 0, n - 1))
            } else {
                c.to_owned()
            }
        },
        None => "N/A".to_owned(),
    }
}

/// The vendor of a disk, from the content of its `vendor` attribute file.
pub fn get_disk_vendor(content: Option<&str>) -> (r: String)
    ensures
        r@ == attribute_of(content_of(content)),
{
    read_attribute(content)
}

/// The model of a disk, from the content of its `model` attribute file.
pub fn get_disk_model(content: Option<&str>) -> (r: String)
    ensures
        r@ == attribute_of(content_of(content)),
{
    read_attribute(content)
}

/// The serial number of a disk, from the content of its product-data page.
pub fn get_disk_serial(content: Option<&str>) -> (r: String)
    ensures
        r@ == serial_of(content_of(content)),
{
    match content {
        Some(c) => c.to_owned(),
        None => "N/A".to_owned(),
    }
}

/// The table after one more line of the mapping tool: the first word is the
/// generic device node, the second the block device node; a line of one word
/// maps the node to [`none_marker`], and a line without a word adds nothing.
/// A later line for the same node replaces the earlier one.
pub open spec fn mapping_after(m: Map<Seq<char>, Seq<char>>, line: Seq<char>) -> Map<
    Seq<char>,
    Seq<char>,
> {
    let ws = words(line);
    if ws.len() > 1 {
        m.insert(ws[0], ws[1])
    } else if ws.len() == 1 {
        m.insert(ws[0], none_marker())
    } else {
        m
    }
}

/// The table that the lines `ls` of the mapping tool's output make.
pub open spec fn mapping(ls: Seq<Seq<char>>) -> Map<Seq<char>, Seq<char>>
    decreases ls.len(),
{
    if ls.len() == 0 {
        Map::empty()
    } else {
        mapping_after(mapping(ls.drop_last()), ls.last())
    }
}

/// The table from generic device nodes to block device nodes, built once
/// for a whole scan and then asked once for each disk.
pub struct DeviceMap {
    map: StringHashMap<String>,
}

impl View for DeviceMap {
    type V = Map<Seq<char>, Seq<char>>;

    closed spec fn view(&self) -> Map<Seq<char>, Seq<char>> {
        self.map@.map_values(|s: String| s@)
    }
}

impl DeviceMap {
    /// The empty table.
    pub fn new() -> (r: DeviceMap)
        ensures
            r@ == Map::<Seq<char>, Seq<char>>::empty(),
    {
        let r = DeviceMap { map: StringHashMap::new() };
        proof {
            assert(r@ =~= Map::<Seq<char>, Seq<char>>::empty());
        }
        r
    }

    fn record_words(&mut self, ws: Vec<Vec<char>>, Ghost(line): Ghost<Seq<char>>)
        requires
            texts(ws@) == words(line),
        ensures
            final(self)@ == mapping_after(old(self)@, line),
    {
        if ws.len() > 1 {
            proof {
                assert(texts(ws@)[0] == ws@[0]@);
                assert(texts(ws@)[1] == ws@[1]@);
            }
            let key = string_of(&ws[0]);
            let value = string_of(&ws[1]);
            proof {
                assert(self.map@.insert(key@, value).map_values(|s: String| s@) =~= self@.insert(
                    key@,
                    value@,
                ));
            }
            self.map.insert(key, value);
        } else if ws.len() == 1 {
            proof {
                assert(texts(ws@)[0] == ws@[0]@);
            }
            let key = string_of(&ws[0]);
            let value = "NONE".to_owned();
            proof {
                assert(self.map@.insert(key@, value).map_values(|s: String| s@) =~= self@.insert(
                    key@,
                    value@,
                ));
            }
            self.map.insert(key, value);
        } else {
            proof {
                assert(texts(ws@).len() == ws@.len());
            }
        }
    }

    /// Takes in one line of the mapping tool's output.
    pub fn record_line(&mut self, line: &str)
        ensures
            final(self)@ == mapping_after(old(self)@, line@),
    {
        let ws = split_whitespace(&chars_of(line));
        self.record_words(ws, Ghost(line@));
    }

    /// The block device node of a generic device node: `NONE` where the
    /// mapping tool listed the node without one, and no answer at all where
    /// it did not list the node.
    pub fn correlate(&self, generic: &str) -> (r: Option<String>)
        ensures
            r is Some <==> self@.contains_key(generic@),
            r matches Some(b) ==> b@ == self@[generic@],
    {
        match self.map.get(generic) {
            Some(b) => Some(b.clone()),
            None => None,
        }
    }
}

/// Builds the table from the mapping tool's whole output, in one pass.
pub fn get_disk_sd_map(output: &str) -> (r: DeviceMap)
    ensures
        r@ == mapping(lines(output@)),
{
    let ls = split(&chars_of(output), '\n');
    let mut r = DeviceMap::new();
    let mut i: usize = 0;
    proof {
        assert(lines(output@).take(0).len() == 0);
    }
    while i < ls.len()
        invariant
            i <= ls.len(),
            texts(ls@) == lines(output@),
            r@ == mapping(lines(output@).take(i as int)),
        decreases ls.len() - i,
    {
        proof {
            let all = lines(output@);
            assert(texts(ls@)[i as int] == ls@[i as int]@);
            assert(all.take(i + 1).drop_last() =~= all.take(i as int));
            assert(all.take(i + 1).last() == ls@[i as int]@);
        }
        let ws = split_whitespace(&ls[i]);
        r.record_words(ws, Ghost(ls@[i as int]@));
        i += 1;
    }
    proof {
        assert(texts(ls@).len() == ls@.len());
        assert(lines(output@).take(ls@.len() as int) =~= lines(output@));
    }
    r
}

/// What failed while the disks were put together.
#[derive(Debug, Clone, Copy, PartialEq, Eq, Structural)]
pub enum DiskError {
    /// A sysfs path has fewer segments than the slot tree gives it.
    MalformedPath,
    /// A generic device node is missing from the mapping tool's table.
    Uncorrelated,
}

/// The segments of a path: its pieces between slashes. An absolute path
/// starts with an empty segment.
pub open spec fn segments(path: Seq<char>) -> Seq<Seq<char>> {
    fields(path, '/')
}

/// The name of a slot entry `/sys/class/enclosure/<enclosure>/<name>`: the
/// sixth segment of its path.
pub open spec fn slot_entry_name(path: Seq<char>) -> Option<Seq<char>> {
    if segments(path).len() >= 6 {
        Some(segments(path)[5])
    } else {
        None
    }
}

/// Reads the name of a slot entry off its path.
pub fn get_slot_entry_name(path: &str) -> (r: Option<String>)
    ensures
        r is Some <==> slot_entry_name(path@) is Some,
        r matches Some(name) ==> slot_entry_name(path@) == Some(name@),
{
    let segs = split(&chars_of(path), '/');
    if segs.len() >= 6 {
        proof {
            assert(texts(segs@)[5] == segs@[5]@);
        }
        Some(string_of(&segs[5]))
    } else {
        proof {
            assert(texts(segs@).len() == segs@.len());
        }
        None
    }
}

/// The slot-naming conventions that are accepted, on a name in lower case:
/// it holds `slot`, `disk` or `array device`, or consists of decimal digits
/// only, as the empty name does.
pub open spec fn lowered_name_accepted(lowered: Seq<char>) -> bool {
    ||| occurs_in(lowered, "slot"@)
    ||| occurs_in(lowered, "disk"@)
    ||| occurs_in(lowered, "array device"@)
    ||| all_digits(lowered)
}

/// Whether an entry of this name may be an occupied slot: the name in lower
/// case follows one of the accepted conventions.
pub open spec fn slot_name_accepted(name: Seq<char>) -> bool {
    lowered_name_accepted(lowercase(name))
}

fn only_digits(s: &Vec<char>) -> (r: bool)
    ensures
        r == all_digits(s@),
{
    let mut i: usize = 0;
    while i < s.len()
        invariant
            i <= s.len(),
            forall|j: int| 0 <= j < i ==> is_digit(#[trigger] s@[j]),
        decreases s.len() - i,
    {
        if !is_ascii_digit(s[i]) {
            return false;
        }
        i += 1;
    }
    true
}

/// Tells whether a name that is already in lower case follows one of the
/// accepted slot-naming conventions.
pub fn is_lowered_slot_name(lowered: &str) -> (r: bool)
    ensures
        r == lowered_name_accepted(lowered@),
{
    let chars = chars_of(lowered);
    contains(&chars, &chars_of("slot")) || contains(&chars, &chars_of("disk")) || contains(
        &chars,
        &chars_of("array device"),
    ) || only_digits(&chars)
}

/// Tells whether an entry of this name may be an occupied slot.
pub fn is_slot_name(name: &str) -> (r: bool)
    ensures
        r == slot_name_accepted(name@),
{
    let lowered = str_to_lowercase(name);
    is_lowered_slot_name(lowered.as_str())
}

/// The sysfs directory of the device in a slot.
pub open spec fn device_dir_of(enclosure_slot: Seq<char>, name: Seq<char>) -> Seq<char> {
    SYS_CLASS_ENCLOSURE@ + enclosure_slot + "/"@ + name + "/device"@
}

/// The sysfs directory that lists the generic device node of a slot.
pub open spec fn generic_dir_of(enclosure_slot: Seq<char>, name: Seq<char>) -> Seq<char> {
    device_dir_of(enclosure_slot, name) + "/scsi_generic/"@
}

/// Builds the path of the sysfs directory of the device in a slot.
pub fn device_dir(enclosure_slot: &str, name: &str) -> (r: String)
    ensures
        r@ == device_dir_of(enclosure_slot@, name@),
{
    let mut r = SYS_CLASS_ENCLOSURE.to_owned();
    r.append(enclosure_slot);
    r.append("/");
    r.append(name);
    r.append("/device");
    r
}

/// Builds the path of the sysfs directory that lists the generic device
/// node of a slot.
pub fn generic_dir(enclosure_slot: &str, name: &str) -> (r: String)
    ensures
        r@ == generic_dir_of(enclosure_slot@, name@),
{
    let mut r = device_dir(enclosure_slot, name);
    r.append("/scsi_generic/");
    r
}

/// The sysfs directory of an enclosure, which holds one entry for each slot.
pub fn enclosure_dir(enclosure_slot: &str) -> (r: String)
    ensures
        r@ == SYS_CLASS_ENCLOSURE@ + enclosure_slot@,
{
    let mut r = SYS_CLASS_ENCLOSURE.to_owned();
    r.append(enclosure_slot);
    r
}

/// An attribute of the device in a slot that is read from a file.
#[derive(Debug, Clone, Copy, PartialEq, Eq, Structural)]
pub enum Attribute {
    Vendor,
    Model,
    /// The product-data page that holds the serial number.
    Serial,
}

/// The file of an attribute in the sysfs directory of the device.
pub open spec fn attribute_file_of(
    enclosure_slot: Seq<char>,
    name: Seq<char>,
    attribute: Attribute,
) -> Seq<char> {
    device_dir_of(enclosure_slot, name) + match attribute {
        Attribute::Vendor => "/vendor"@,
        Attribute::Model => "/model"@,
        Attribute::Serial => "/vpd_pg80"@,
    }
}

/// Builds the path of the file of an attribute.
pub fn attribute_file(enclosure_slot: &str, name: &str, attribute: Attribute) -> (r: String)
    ensures
        r@ == attribute_file_of(enclosure_slot@, name@, attribute),
{
    let mut r = device_dir(enclosure_slot, name);
    match attribute {
        Attribute::Vendor => r.append("/vendor"),
        Attribute::Model => r.append("/model"),
        Attribute::Serial => r.append("/vpd_pg80"),
    }
    r
}

/// One of the two indicators of a slot.
#[derive(Debug, Clone, Copy, PartialEq, Eq, Structural)]
pub enum Led {
    Locate,
    Fault,
}

/// The control file of an indicator:
/// `/sys/class/enclosure/<enclosure>/<bay>/locate` or `.../fault`.
pub open spec fn led_file_of(enclosure_slot: Seq<char>, bay: Seq<char>, led: Led) -> Seq<char> {
    SYS_CLASS_ENCLOSURE@ + enclosure_slot + "/"@ + bay + match led {
        Led::Locate => "/locate"@,
        Led::Fault => "/fault"@,
    }
}

/// The indicator path that a disk record holds: the control file where it
/// exists, [`none_marker`] where it does not.
pub open spec fn led_path_of(
    enclosure_slot: Seq<char>,
    bay: Seq<char>,
    led: Led,
    present: bool,
) -> Seq<char> {
    if present {
        led_file_of(enclosure_slot, bay, led)
    } else {
        none_marker()
    }
}

/// Builds the path of the control file of an indicator.
pub fn led_file(enclosure_slot: &str, bay: &str, led: Led) -> (r: String)
    ensures
        r@ == led_file_of(enclosure_slot@, bay@, led),
{
    let mut r = SYS_CLASS_ENCLOSURE.to_owned();
    r.append(enclosure_slot);
    r.append("/");
    r.append(bay);
    match led {
        Led::Locate => r.append("/locate"),
        Led::Fault => r.append("/fault"),
    }
    r
}

/// The locate indicator path of a disk record; `present` tells whether the
/// control file exists.
pub fn get_disk_led_locate_path(enclosure_slot: &str, disk_slot: &str, present: bool) -> (r: String)
    ensures
        r@ == led_path_of(enclosure_slot@, disk_slot@, Led::Locate, present),
{
    if present {
        led_file(enclosure_slot, disk_slot, Led::Locate)
    } else {
        "NONE".to_owned()
    }
}

/// The fault indicator path of a disk record; `present` tells whether the
/// control file exists.
pub fn get_disk_led_fault_path(enclosure_slot: &str, disk_slot: &str, present: bool) -> (r: String)
    ensures
        r@ == led_path_of(enclosure_slot@, disk_slot@, Led::Fault, present),
{
    if present {
        led_file(enclosure_slot, disk_slot, Led::Fault)
    } else {
        "NONE".to_owned()
    }
}

/// Where a generic device entry of the slot tree sits.
pub struct SlotLocation {
    /// SCSI address of the enclosure: the fifth segment of the entry's path.
    pub enclosure: String,
    /// The sixth segment of the path, as it stands.
    pub bay: String,
    /// The sixth segment up to its first comma.
    pub slot: String,
    /// `/dev/` followed by the ninth segment.
    pub device_path: String,
}

/// The texts a [`SlotLocation`] holds.
pub ghost struct SlotLocationView {
    pub enclosure: Seq<char>,
    pub bay: Seq<char>,
    pub slot: Seq<char>,
    pub device_path: Seq<char>,
}

impl View for SlotLocation {
    type V = SlotLocationView;

    open spec fn view(&self) -> SlotLocationView {
        SlotLocationView {
            enclosure: self.enclosure@,
            bay: self.bay@,
            slot: self.slot@,
            device_path: self.device_path@,
        }
    }
}

/// Where the entry
/// `/sys/class/enclosure/<enclosure>/<bay>/device/scsi_generic/<node>` sits.
/// A path of fewer than nine segments is no such entry.
pub open spec fn located(entry: Seq<char>) -> Option<SlotLocationView> {
    let segs = segments(entry);
    if segs.len() >= 9 {
        Some(
            SlotLocationView {
                enclosure: segs[4],
                bay: segs[5],
                slot: fields(segs[5], ',')[0],
                device_path: "/dev/"@ + segs[8],
            },
        )
    } else {
        None
    }
}

/// Reads enclosure, bay and device node off the path of a generic device
/// entry.
pub fn locate_generic_entry(entry: &str) -> (r: Option<SlotLocation>)
    ensures
        r is Some <==> located(entry@) is Some,
        r matches Some(l) ==> located(entry@) == Some(l@),
{
    let segs = split(&chars_of(entry), '/');
    if segs.len() >= 9 {
        proof {
            assert(texts(segs@)[4] == segs@[4]@);
            assert(texts(segs@)[5] == segs@[5]@);
            assert(texts(segs@)[8] == segs@[8]@);
        }
        let parts = split(&segs[5], ',');
        proof {
            lemma_pieces_non_empty(segs@[5]@, equals(','));
            assert(texts(parts@)[0] == parts@[0]@);
        }
        let mut device_path = "/dev/".to_owned();
        let node = string_of(&segs[8]);
        device_path.append(node.as_str());
        Some(
            SlotLocation {
                enclosure: string_of(&segs[4]),
                bay: string_of(&segs[5]),
                slot: string_of(&parts[0]),
                device_path,
            },
        )
    } else {
        proof {
            assert(texts(segs@).len() == segs@.len());
        }
        None
    }
}

/// What was observed of one generic device entry of a slot.
pub struct DiskProbe {
    /// Path of the entry under the slot's `scsi_generic` directory.
    pub entry: String,
    /// Output of the temperature tool for the device node.
    pub temperature: String,
    /// Output of the device-info tool for the device node.
    pub firmware: String,
    /// Content of the `vendor` attribute file, if it could be read.
    pub vendor: Option<String>,
    /// Content of the `model` attribute file, if it could be read.
    pub model: Option<String>,
    /// Content of the product-data page with the serial number, if it could be read.
    pub serial: Option<String>,
    /// Whether the control file of the locate indicator exists.
    pub locate_present: bool,
    /// Whether the control file of the fault indicator exists.
    pub fault_present: bool,
}

/// The characters of an optional text.
pub open spec fn text_of(t: Option<String>) -> Option<Seq<char>> {
    match t {
        Some(s) => Some(s@),
        None => None,
    }
}

/// What is known of the disk in a slot before its block device node is
/// looked up. Every text is empty where the slot holds no disk.
pub struct DiskDetails {
    pub enclosure: String,
    pub slot: String,
    pub device_path: String,
    pub temperature: String,
    pub fw_revision: String,
    pub vendor: String,
    pub model: String,
    pub serial: String,
    pub led_locate_path: String,
    pub led_fault_path: String,
}

/// The texts a [`DiskDetails`] holds.
pub ghost struct DiskDetailsView {
    pub enclosure: Seq<char>,
    pub slot: Seq<char>,
    pub device_path: Seq<char>,
    pub temperature: Seq<char>,
    pub fw_revision: Seq<char>,
    pub vendor: Seq<char>,
    pub model: Seq<char>,
    pub serial: Seq<char>,
    pub led_locate_path: Seq<char>,
    pub led_fault_path: Seq<char>,
}

impl View for DiskDetails {
    type V = DiskDetailsView;

    open spec fn view(&self) -> DiskDetailsView {
        DiskDetailsView {
            enclosure: self.enclosure@,
            slot: self.slot@,
            device_path: self.device_path@,
            temperature: self.temperature@,
            fw_revision: self.fw_revision@,
            vendor: self.vendor@,
            model: self.model@,
            serial: self.serial@,
            led_locate_path: self.led_locate_path@,
            led_fault_path: self.led_fault_path@,
        }
    }
}

/// The details of a slot that holds no disk.
pub open spec fn no_details() -> DiskDetailsView {
    DiskDetailsView {
        enclosure: Seq::empty(),
        slot: Seq::empty(),
        device_path: Seq::empty(),
        temperature: Seq::empty(),
        fw_revision: Seq::empty(),
        vendor: Seq::empty(),
        model: Seq::empty(),
        serial: Seq::empty(),
        led_locate_path: Seq::empty(),
        led_fault_path: Seq::empty(),
    }
}

/// The details that one probe gives for a slot of the enclosure
/// `enclosure_slot`. Each attribute is read on its own: one that is missing
/// or unreadable leaves the others as they are.
pub open spec fn probed(enclosure_slot: Seq<char>, p: DiskProbe) -> Option<DiskDetailsView> {
    match located(p.entry@) {
        Some(l) => Some(
            DiskDetailsView {
                enclosure: l.enclosure,
                slot: l.slot,
                device_path: l.device_path,
                temperature: temperature_of(p.temperature@),
                fw_revision: firmware_of(p.firmware@),
                vendor: attribute_of(text_of(p.vendor)),
                model: attribute_of(text_of(p.model)),
                serial: serial_of(text_of(p.serial)),
                led_locate_path: led_path_of(enclosure_slot, l.bay, Led::Locate, p.locate_present),
                led_fault_path: led_path_of(enclosure_slot, l.bay, Led::Fault, p.fault_present),
            },
        ),
        None => None,
    }
}

/// The details after the probes `ps` of one slot: each probe replaces what
/// the one before it gave, so the last one stays; a probe whose entry is no
/// generic device entry is an error.
pub open spec fn probed_all(enclosure_slot: Seq<char>, ps: Seq<DiskProbe>) -> Result<
    DiskDetailsView,
    DiskError,
>
    decreases ps.len(),
{
    if ps.len() == 0 {
        Ok(no_details())
    } else {
        match probed_all(enclosure_slot, ps.drop_last()) {
            Err(e) => Err(e),
            Ok(_) => match probed(enclosure_slot, ps.last()) {
                Some(d) => Ok(d),
                None => Err(DiskError::MalformedPath),
            },
        }
    }
}

/// The details of the slot entry at `path` in the enclosure
/// `enclosure_slot`, given the probes of the generic device entries found
/// under it. An entry whose name follows none of the accepted conventions
/// holds no disk, whatever was probed.
pub open spec fn details_of(
    path: Seq<char>,
    enclosure_slot: Seq<char>,
    ps: Seq<DiskProbe>,
) -> Result<DiskDetailsView, DiskError> {
    match slot_entry_name(path) {
        None => Err(DiskError::MalformedPath),
        Some(name) => if slot_name_accepted(name) {
            probed_all(enclosure_slot, ps)
        } else {
            Ok(no_details())
        },
    }
}

fn empty_details() -> (r: DiskDetails)
    ensures
        r@ == no_details(),
{
    DiskDetails {
        enclosure: String::new(),
        slot: String::new(),
        device_path: String::new(),
        temperature: String::new(),
        fw_revision: String::new(),
        vendor: String::new(),
        model: String::new(),
        serial: String::new(),
        led_locate_path: String::new(),
        led_fault_path: String::new(),
    }
}

fn as_text(t: &Option<String>) -> (r: Option<&str>)
    ensures
        content_of(r) == text_of(*t),
{
    match t {
        Some(s) => Some(s.as_str()),
        None => None,
    }
}

/// Turns one probe into the details of its disk.
pub fn probe_details(enclosure_slot: &str, probe: &DiskProbe) -> (r: Option<DiskDetails>)
    ensures
        r is Some <==> probed(enclosure_slot@, *probe) is Some,
        r matches Some(d) ==> probed(enclosure_slot@, *probe) == Some(d@),
{
    match locate_generic_entry(probe.entry.as_str()) {
        Some(l) => {
            let led_locate_path = get_disk_led_locate_path(
                enclosure_slot,
                l.bay.as_str(),
                probe.locate_present,
            );
            let led_fault_path = get_disk_led_fault_path(
                enclosure_slot,
                l.bay.as_str(),
                probe.fault_present,
            );
            Some(
                DiskDetails {
                    enclosure: l.enclosure,
                    slot: l.slot,
                    device_path: l.device_path,
                    temperature: get_disk_temperature(probe.temperature.as_str()),
                    fw_revision: get_disk_firmware(probe.firmware.as_str()),
                    vendor: get_disk_vendor(as_text(&probe.vendor)),
                    model: get_disk_model(as_text(&probe.model)),
                    serial: get_disk_serial(as_text(&probe.serial)),
                    led_locate_path,
                    led_fault_path,
                },
            )
        },
        None => None,
    }
}

proof fn lemma_probed_all_keeps_error(enclosure_slot: Seq<char>, ps: Seq<DiskProbe>, k: int)
    requires
        0 <= k <= ps.len(),
        probed_all(enclosure_slot, ps.take(k)) is Err,
    ensures
        probed_all(enclosure_slot, ps) == probed_all(enclosure_slot, ps.take(k)),
    decreases ps.len() - k,
{
    if k == ps.len() {
        assert(ps.take(k) =~= ps);
    } else {
        assert(ps.take(k + 1).drop_last() =~= ps.take(k));
        lemma_probed_all_keeps_error(enclosure_slot, ps, k + 1);
    }
}

/// Collects the details of the disk in one slot entry.
pub fn get_disk_details(path: &str, enclosure_slot: &str, probes: &Vec<DiskProbe>) -> (r: Result<
    DiskDetails,
    DiskError,
>)
    ensures
        match r {
            Ok(d) => details_of(path@, enclosure_slot@, probes@) == Ok::<_, DiskError>(d@),
            Err(e) => details_of(path@, enclosure_slot@, probes@) == Err::<DiskDetailsView, _>(e),
        },
{
    let name = match get_slot_entry_name(path) {
        Some(name) => name,
        None => {
            return Err(DiskError::MalformedPath);
        },
    };
    if !is_slot_name(name.as_str()) {
        return Ok(empty_details());
    }
    let mut details = empty_details();
    let mut i: usize = 0;
    proof {
        assert(probes@.take(0).len() == 0);
    }
    while i < probes.len()
        invariant
            i <= probes.len(),
            slot_entry_name(path@) == Some(name@),
            slot_name_accepted(name@),
            probed_all(enclosure_slot@, probes@.take(i as int)) == Ok::<_, DiskError>(details@),
        decreases probes.len() - i,
    {
        proof {
            assert(probes@.take(i + 1).drop_last() =~= probes@.take(i as int));
            assert(probes@.take(i + 1).last() == probes@[i as int]);
        }
        match probe_details(enclosure_slot, &probes[i]) {
            Some(d) => {
                details = d;
            },
            None => {
                proof {
                    lemma_probed_all_keeps_error(enclosure_slot@, probes@, i + 1);
                }
                return Err(DiskError::MalformedPath);
            },
        }
        i += 1;
    }
    proof {
        assert(probes@.take(probes@.len() as int) =~= probes@);
    }
    Ok(details)
}

/// The disk that details and a block device node make.
pub open spec fn disk_of(d: DiskDetailsView, block: Seq<char>) -> DiskView {
    DiskView {
        enclosure: d.enclosure,
        slot: d.slot,
        device_path: d.device_path,
        device_map: block,
        temperature: d.temperature,
        vendor: d.vendor,
        model: d.model,
        serial: d.serial,
        fw_revision: d.fw_revision,
        led_locate_path: d.led_locate_path,
        led_fault_path: d.led_fault_path,
    }
}

/// The views of a sequence of details.
pub open spec fn detail_views(v: Seq<DiskDetails>) -> Seq<DiskDetailsView> {
    v.map_values(|d: DiskDetails| d@)
}

/// The views of a sequence of disks.
pub open spec fn disk_views(v: Seq<Disk>) -> Seq<DiskView> {
    v.map_values(|d: Disk| d@)
}

/// The disks that the details of the slots make with the table `m`, in the
/// order of the slots. A slot without a generic device node holds no disk
/// and is left out; a node that the table does not list is an error.
pub open spec fn correlated(details: Seq<DiskDetailsView>, m: Map<Seq<char>, Seq<char>>) -> Result<
    Seq<DiskView>,
    DiskError,
>
    decreases details.len(),
{
    if details.len() == 0 {
        Ok(Seq::empty())
    } else {
        let d = details.last();
        match correlated(details.drop_last(), m) {
            Err(e) => Err(e),
            Ok(disks) => if d.device_path.len() == 0 {
                Ok(disks)
            } else if m.contains_key(d.device_path) {
                Ok(disks.push(disk_of(d, m[d.device_path])))
            } else {
                Err(DiskError::Uncorrelated)
            },
        }
    }
}

/// Every disk has a generic device node.
pub open spec fn all_resolved(disks: Seq<DiskView>) -> bool {
    forall|i: int| 0 <= i < disks.len() ==> (#[trigger] disks[i]).device_path.len() > 0
}

/// No record comes out of the correlation without a generic device node.
pub proof fn lemma_correlated_resolved(details: Seq<DiskDetailsView>, m: Map<Seq<char>, Seq<char>>)
    ensures
        correlated(details, m) matches Ok(disks) ==> all_resolved(disks),
    decreases details.len(),
{
    if details.len() > 0 {
        lemma_correlated_resolved(details.drop_last(), m);
    }
}

proof fn lemma_correlated_keeps_error(
    details: Seq<DiskDetailsView>,
    m: Map<Seq<char>, Seq<char>>,
    k: int,
)
    requires
        0 <= k <= details.len(),
        correlated(details.take(k), m) is Err,
    ensures
        correlated(details, m) == correlated(details.take(k), m),
    decreases details.len() - k,
{
    if k == details.len() {
        assert(details.take(k) =~= details);
    } else {
        assert(details.take(k + 1).drop_last() =~= details.take(k));
        lemma_correlated_keeps_error(details, m, k + 1);
    }
}

/// Joins the details of the slots with the table of block device nodes.
pub fn get_disks_per_enclosure(details: &Vec<DiskDetails>, map: &DeviceMap) -> (r: Result<
    Vec<Disk>,
    DiskError,
>)
    ensures
        match r {
            Ok(disks) => correlated(detail_views(details@), map@) == Ok::<_, DiskError>(
                disk_views(disks@),
            ) && all_resolved(disk_views(disks@)),
            Err(e) => correlated(detail_views(details@), map@) == Err::<Seq<DiskView>, _>(e),
        },
{
    let mut disks: Vec<Disk> = Vec::new();
    let mut i: usize = 0;
    let ghost all = detail_views(details@);
    proof {
        assert(all.take(0).len() == 0);
        assert(disk_views(disks@) =~= Seq::<DiskView>::empty());
    }
    while i < details.len()
        invariant
            i <= details.len(),
            all == detail_views(details@),
            correlated(all.take(i as int), map@) == Ok::<_, DiskError>(disk_views(disks@)),
        decreases details.len() - i,
    {
        let d = &details[i];
        proof {
            assert(all.take(i + 1).drop_last() =~= all.take(i as int));
            assert(all.take(i + 1).last() == d@);
        }
        if !d.device_path.as_str().is_empty() {
            match map.correlate(d.device_path.as_str()) {
                Some(block) => {
                    let disk = Disk {
                        enclosure: d.enclosure.clone(),
                        slot: d.slot.clone(),
                        device_path: d.device_path.clone(),
                        device_map: block,
                        temperature: d.temperature.clone(),
                        vendor: d.vendor.clone(),
                        model: d.model.clone(),
                        serial: d.serial.clone(),
                        fw_revision: d.fw_revision.clone(),
                        led_locate_path: d.led_locate_path.clone(),
                        led_fault_path: d.led_fault_path.clone(),
                    };
                    proof {
                        assert(disk_views(disks@.push(disk)) =~= disk_views(disks@).push(disk@));
                    }
                    disks.push(disk);
                },
                None => {
                    proof {
                        lemma_correlated_keeps_error(all, map@, i + 1);
                    }
                    return Err(DiskError::Uncorrelated);
                },
            }
        }
        i += 1;
    }
    proof {
        assert(all.take(details@.len() as int) =~= all);
        lemma_correlated_resolved(all, map@);
    }
    Ok(disks)
}

/// Builds the disk records of a scan: the table is made once from the
/// mapping tool's output, then every slot with a generic device node is
/// looked up in it.
pub fn jbod_disk_map(details: &Vec<DiskDetails>, mapping_output: &str) -> (r: Result<
    Vec<Disk>,
    DiskError,
>)
    ensures
        match r {
            Ok(disks) => correlated(detail_views(details@), mapping(lines(mapping_output@)))
                == Ok::<_, DiskError>(disk_views(disks@)) && all_resolved(disk_views(disks@)),
            Err(e) => correlated(detail_views(details@), mapping(lines(mapping_output@)))
                == Err::<Seq<DiskView>, _>(e),
        },
{
    let map = get_disk_sd_map(mapping_output);
    get_disks_per_enclosure(details, &map)
}

/// A disk answers to the name of its generic device node and to the name of
/// its block device node alike.
pub open spec fn addressed_by(d: DiskView, identifier: Seq<char>) -> bool {
    d.device_path == identifier || d.device_map == identifier
}

/// Position of the first disk that `identifier` addresses, or the number of
/// disks when it addresses none.
pub open spec fn first_addressed(disks: Seq<DiskView>, identifier: Seq<char>) -> int
    decreases disks.len(),
{
    if disks.len() == 0 || addressed_by(disks[0], identifier) {
        0
    } else {
        1 + first_addressed(disks.drop_first(), identifier)
    }
}

proof fn lemma_first_addressed(disks: Seq<DiskView>, identifier: Seq<char>, k: int)
    requires
        0 <= k <= disks.len(),
        forall|j: int| 0 <= j < k ==> !addressed_by(#[trigger] disks[j], identifier),
        k == disks.len() || addressed_by(disks[k], identifier),
    ensures
        first_addressed(disks, identifier) == k,
    decreases disks.len(),
{
    if k > 0 {
        let t = disks.drop_first();
        assert forall|j: int| 0 <= j < k - 1 implies !addressed_by(#[trigger] t[j], identifier) by {
            assert(t[j] == disks[j + 1]);
        }
        lemma_first_addressed(t, identifier, k - 1);
    }
}

/// Finds the disk that a device name addresses: the first one whose generic
/// or block device node is that name.
pub fn find_disk(disks: &Vec<Disk>, identifier: &str) -> (r: Option<usize>)
    ensures
        r is Some <==> first_addressed(disk_views(disks@), identifier@) < disks@.len(),
        r matches Some(i) ==> i == first_addressed(disk_views(disks@), identifier@),
        r matches Some(i) ==> i < disks@.len() && addressed_by(disks@[i as int]@, identifier@),
        r is None ==> forall|j: int|
            0 <= j < disks@.len() ==> !addressed_by((#[trigger] disks@[j])@, identifier@),
{
    let mut i: usize = 0;
    while i < disks.len()
        invariant
            i <= disks.len(),
            forall|j: int|
                0 <= j < i ==> !addressed_by(#[trigger] disk_views(disks@)[j], identifier@),
        decreases disks.len() - i,
    {
        proof {
            assert(disk_views(disks@)[i as int] == disks@[i as int]@);
        }
        if same_text(disks[i].device_path.as_str(), identifier) || same_text(
            disks[i].device_map.as_str(),
            identifier,
        ) {
            proof {
                lemma_first_addressed(disk_views(disks@), identifier@, i as int);
            }
            return Some(i);
        }
        i += 1;
    }
    proof {
        lemma_first_addressed(disk_views(disks@), identifier@, i as int);
        assert forall|j: int| 0 <= j < disks@.len() implies !addressed_by(
            (#[trigger] disks@[j])@,
            identifier@,
        ) by {
            assert(disk_views(disks@)[j] == disks@[j]@);
        }
    }
    None
}

/// The indicator path that a disk record holds for `led`.
pub open spec fn led_path(d: DiskView, led: Led) -> Seq<char> {
    match led {
        Led::Locate => d.led_locate_path,
        Led::Fault => d.led_fault_path,
    }
}

/// What a request to switch an indicator comes to.
pub enum LedOutcome {
    /// The device name given is no path that exists: the request fails.
    DeviceNotFound,
    /// No disk of the topology answers to the name: nothing is done.
    NoSuchDisk,
    /// The slot of the disk does not expose the indicator: nothing is written.
    Unsupported { slot: String },
    /// `data` is to be written to the control file `path` of the slot.
    Write { slot: String, path: String, data: String },
}

/// The outcome of a request, over texts.
pub ghost enum LedOutcomeView {
    DeviceNotFound,
    NoSuchDisk,
    Unsupported { slot: Seq<char> },
    Write { slot: Seq<char>, path: Seq<char>, data: Seq<char> },
}

impl View for LedOutcome {
    type V = LedOutcomeView;

    open spec fn view(&self) -> LedOutcomeView {
        match self {
            LedOutcome::DeviceNotFound => LedOutcomeView::DeviceNotFound,
            LedOutcome::NoSuchDisk => LedOutcomeView::NoSuchDisk,
            LedOutcome::Unsupported { slot } => LedOutcomeView::Unsupported { slot: slot@ },
            LedOutcome::Write { slot, path, data } => LedOutcomeView::Write {
                slot: slot@,
                path: path@,
                data: data@,
            },
        }
    }
}

/// What the request to write `option` to the indicator `led` of the disk
/// named `identifier` comes to. `device_present` tells whether the name is a
/// path that exists, `led_present` whether the control file of the addressed
/// disk exists. A write is due only where the disk holds a control path and
/// that file exists.
pub open spec fn led_outcome(
    disks: Seq<DiskView>,
    identifier: Seq<char>,
    led: Led,
    option: Seq<char>,
    device_present: bool,
    led_present: bool,
) -> LedOutcomeView {
    let i = first_addressed(disks, identifier);
    if !device_present {
        LedOutcomeView::DeviceNotFound
    } else if !(0 <= i < disks.len()) {
        LedOutcomeView::NoSuchDisk
    } else if !led_present || led_path(disks[i], led) == none_marker() {
        LedOutcomeView::Unsupported { slot: disks[i].slot }
    } else {
        LedOutcomeView::Write { slot: disks[i].slot, path: led_path(disks[i], led), data: option }
    }
}

/// An indicator whose control file does not exist is never written.
pub proof fn lemma_absent_led_not_written(
    disks: Seq<DiskView>,
    identifier: Seq<char>,
    led: Led,
    option: Seq<char>,
    device_present: bool,
)
    ensures
        !(led_outcome(disks, identifier, led, option, device_present, false) is Write),
        device_present && 0 <= first_addressed(disks, identifier) < disks.len() ==> led_outcome(
            disks,
            identifier,
            led,
            option,
            device_present,
            false,
        ) is Unsupported,
{
}

/// Decides a request to switch an indicator.
pub fn set_disk_led(
    disks: &Vec<Disk>,
    disk: &str,
    led: Led,
    option: &str,
    device_present: bool,
    led_present: bool,
) -> (r: LedOutcome)
    ensures
        r@ == led_outcome(disk_views(disks@), disk@, led, option@, device_present, led_present),
{
    if !device_present {
        return LedOutcome::DeviceNotFound;
    }
    match find_disk(disks, disk) {
        None => LedOutcome::NoSuchDisk,
        Some(i) => {
            proof {
                assert(disk_views(disks@)[i as int] == disks@[i as int]@);
            }
            let found = &disks[i];
            let path = match led {
                Led::Locate => &found.led_locate_path,
                Led::Fault => &found.led_fault_path,
            };
            if !led_present || same_text(path.as_str(), "NONE") {
                LedOutcome::Unsupported { slot: found.slot.clone() }
            } else {
                LedOutcome::Write {
                    slot: found.slot.clone(),
                    path: path.clone(),
                    data: option.to_owned(),
                }
            }
        },
    }
}

/// Decides a request to write `option` to the locate indicator of `disk`.
pub fn set_disk_led_locate(
    disks: &Vec<Disk>,
    disk: &str,
    option: &str,
    device_present: bool,
    led_present: bool,
) -> (r: LedOutcome)
    ensures
        r@ == led_outcome(
            disk_views(disks@),
            disk@,
            Led::Locate,
            option@,
            device_present,
            led_present,
        ),
{
    set_disk_led(disks, disk, Led::Locate, option, device_present, led_present)
}

/// Decides a request to write `option` to the fault indicator of `disk`.
pub fn set_disk_led_fault(
    disks: &Vec<Disk>,
    disk: &str,
    option: &str,
    device_present: bool,
    led_present: bool,
) -> (r: LedOutcome)
    ensures
        r@ == led_outcome(
            disk_views(disks@),
            disk@,
            Led::Fault,
            option@,
            device_present,
            led_present,
        ),
{
    set_disk_led(disks, disk, Led::Fault, option, device_present, led_present)
}

/// What the indicator command was given on its command line.
pub struct LedOptions {
    /// Whether the locate indicator was named.
    pub locate: bool,
    /// The device given for the locate indicator.
    pub locate_device: Option<String>,
    /// Whether the fault indicator was named.
    pub fault: bool,
    /// The device given for the fault indicator.
    pub fault_device: Option<String>,
    pub on: bool,
    pub off: bool,
}

/// One indicator to switch.
pub struct LedCommand {
    pub led: Led,
    pub device: String,
    /// `1` to switch the indicator on, `0` to switch it off.
    pub data: String,
}

/// The values a [`LedCommand`] holds.
pub ghost struct LedCommandView {
    pub led: Led,
    pub device: Seq<char>,
    pub data: Seq<char>,
}

impl View for LedCommand {
    type V = LedCommandView;

    open spec fn view(&self) -> LedCommandView {
        LedCommandView { led: self.led, device: self.device@, data: self.data@ }
    }
}

/// The views of a sequence of commands.
pub open spec fn command_views(v: Seq<LedCommand>) -> Seq<LedCommandView> {
    v.map_values(|c: LedCommand| c@)
}

/// A command line that cannot be carried out.
#[derive(Debug, Clone, Copy, PartialEq, Eq, Structural)]
pub enum LedUsageError {
    /// Both `on` and `off` were given.
    OnAndOff,
}

/// The commands for one indicator: one command where the indicator was
/// named and a state was given, for the device given or else `/dev/null`.
pub open spec fn commands_for(
    named: bool,
    device: Option<String>,
    led: Led,
    on: bool,
    off: bool,
) -> Seq<LedCommandView> {
    if named && (on || off) {
        seq![
            LedCommandView {
                led,
                device: match device {
                    Some(d) => d@,
                    None => "/dev/null"@,
                },
                data: if on {
                    "1"@
                } else {
                    "0"@
                },
            },
        ]
    } else {
        Seq::empty()
    }
}

/// The commands that a command line asks for, the locate indicator first.
/// `on` and `off` exclude each other.
pub open spec fn led_commands(o: LedOptions) -> Result<Seq<LedCommandView>, LedUsageError> {
    if o.on && o.off {
        Err(LedUsageError::OnAndOff)
    } else {
        Ok(
            commands_for(o.locate, o.locate_device, Led::Locate, o.on, o.off) + commands_for(
                o.fault,
                o.fault_device,
                Led::Fault,
                o.on,
                o.off,
            ),
        )
    }
}

fn push_commands(
    out: &mut Vec<LedCommand>,
    named: bool,
    device: &Option<String>,
    led: Led,
    on: bool,
    off: bool,
)
    ensures
        command_views(final(out)@) == command_views(old(out)@) + commands_for(
            named,
            *device,
            led,
            on,
            off,
        ),
{
    if named && (on || off) {
        let device = match device {
            Some(d) => d.clone(),
            None => "/dev/null".to_owned(),
        };
        let data = if on {
            "1".to_owned()
        } else {
            "0".to_owned()
        };
        let command = LedCommand { led, device, data };
        proof {
            assert(command_views(out@.push(command)) =~= command_views(out@) + seq![command@]);
        }
        out.push(command);
    } else {
        proof {
            assert(command_views(out@) + Seq::<LedCommandView>::empty() =~= command_views(out@));
        }
    }
}

/// Turns the command line of the indicator command into the indicators to
/// switch.
pub fn jbod_led_switch(options: &LedOptions) -> (r: Result<Vec<LedCommand>, LedUsageError>)
    ensures
        match r {
            Ok(commands) => led_commands(*options) == Ok::<_, LedUsageError>(
                command_views(commands@),
            ),
            Err(e) => led_commands(*options) == Err::<Seq<LedCommandView>, _>(e),
        },
{
    if options.on && options.off {
        return Err(LedUsageError::OnAndOff);
    }
    let mut out: Vec<LedCommand> = Vec::new();
    proof {
        assert(command_views(out@) =~= Seq::<LedCommandView>::empty());
    }
    push_commands(
        &mut out,
        options.locate,
        &options.locate_device,
        Led::Locate,
        options.on,
        options.off,
    );
    proof {
        assert(Seq::<LedCommandView>::empty() + commands_for(
            options.locate,
            options.locate_device,
            Led::Locate,
            options.on,
            options.off,
        ) =~= commands_for(
            options.locate,
            options.locate_device,
            Led::Locate,
            options.on,
            options.off,
        ));
    }
    push_commands(
        &mut out,
        options.fault,
        &options.fault_device,
        Led::Fault,
        options.on,
        options.off,
    );
    Ok(out)
}

} // verus!
