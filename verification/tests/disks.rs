use jbod::disks::{
    attribute_file, enclosure_dir, Attribute, device_dir, extract_digits, find_disk, generic_dir, get_disk_details, get_disk_firmware,
    get_disk_led_fault_path, get_disk_led_locate_path, get_disk_model, get_disk_sd_map,
    get_disk_serial, get_disk_temperature, get_disk_vendor, get_disks_per_enclosure,
    get_slot_entry_name, is_lowered_slot_name, is_slot_name, jbod_disk_map, jbod_led_switch,
    led_file, locate_generic_entry, probe_details, set_disk_led, set_disk_led_fault,
    set_disk_led_locate, DeviceMap, Disk, DiskDetails, DiskError, DiskProbe, Led, LedOptions,
    LedOutcome, LedUsageError,
};
use jbod::enclosure::{get_enclosure, parse_listing};

const TEMPERATURE: &str = "SCSI temperature page\n  Reference temperature = 60 C\n  Current temperature = 37 C\n";

fn probe(entry: &str) -> DiskProbe {
    DiskProbe {
        entry: entry.to_string(),
        temperature: TEMPERATURE.to_string(),
        firmware: "Device Type 0\nRevision level:    E002\nSerial: x\n".to_string(),
        vendor: Some("SEAGATE \n".to_string()),
        model: Some("ST8000NM0075\n".to_string()),
        serial: Some("ZA1ABCDE".to_string()),
        locate_present: true,
        fault_present: false,
    }
}

fn details(device_path: &str) -> DiskDetails {
    DiskDetails {
        enclosure: "15:0:1:0".to_string(),
        slot: "Slot00".to_string(),
        device_path: device_path.to_string(),
        temperature: "37".to_string(),
        fw_revision: "E002".to_string(),
        vendor: "SEAGATE".to_string(),
        model: "ST8000".to_string(),
        serial: "ZA1".to_string(),
        led_locate_path: "/sys/class/enclosure/15:0:1:0/Slot00/locate".to_string(),
        led_fault_path: "NONE".to_string(),
    }
}

fn disk(slot: &str, device_path: &str, device_map: &str, locate: &str, fault: &str) -> Disk {
    Disk {
        enclosure: "15:0:1:0".to_string(),
        slot: slot.to_string(),
        device_path: device_path.to_string(),
        device_map: device_map.to_string(),
        temperature: "37".to_string(),
        vendor: "SEAGATE".to_string(),
        model: "ST8000".to_string(),
        serial: "ZA1".to_string(),
        fw_revision: "E002".to_string(),
        led_locate_path: locate.to_string(),
        led_fault_path: fault.to_string(),
    }
}

#[test]
fn digits_are_kept_and_everything_else_is_dropped() {
    assert_eq!(extract_digits("  Current temperature = 37 C"), "37");
    assert_eq!(extract_digits("3a7\u{b0}C 1"), "371");
    assert_eq!(extract_digits("007"), "007");
}

#[test]
fn digits_of_a_text_without_digits_are_empty() {
    assert_eq!(extract_digits(""), "");
    assert_eq!(extract_digits("no reading \u{663}"), "");
}

#[test]
fn temperature_is_read_off_the_third_line() {
    assert_eq!(get_disk_temperature(TEMPERATURE), "37");
    assert_eq!(get_disk_temperature("1\n2\n3 and 4\n5"), "34");
    assert_eq!(get_disk_temperature("a\nb\nnone"), "");
}

#[test]
fn temperature_of_a_short_output_is_unreadable() {
    assert_eq!(get_disk_temperature(""), "");
    assert_eq!(get_disk_temperature("37 C"), "");
    assert_eq!(get_disk_temperature("1\n37 C"), "");
}

#[test]
fn firmware_is_the_trimmed_rest_of_the_first_revision_line() {
    assert_eq!(get_disk_firmware("Vendor: X\nRevision level:    E002  \nRevision level: E003\n"), "E002");
    assert_eq!(get_disk_firmware("Revision level E9"), "Revision level E9");
    assert_eq!(get_disk_firmware("Product Revision level: A1"), "Product  A1");
}

#[test]
fn firmware_without_revision_line_is_not_available() {
    assert_eq!(get_disk_firmware(""), "N/A");
    assert_eq!(get_disk_firmware("revision level: E002"), "N/A");
    assert_eq!(get_disk_firmware("Device Type 0\nSerial: x\n"), "N/A");
    assert_eq!(get_disk_firmware("Revision level:"), "");
}

#[test]
fn attribute_loses_its_closing_line_feed() {
    assert_eq!(get_disk_vendor(Some("SEAGATE \n")), "SEAGATE ");
    assert_eq!(get_disk_model(Some("ST8000NM0075\n")), "ST8000NM0075");
    assert_eq!(get_disk_model(Some("ST8000\n\n")), "ST8000\n");
    assert_eq!(get_disk_vendor(Some("ATA")), "ATA");
    assert_eq!(get_disk_vendor(Some("")), "");
}

#[test]
fn attribute_of_a_missing_file_is_not_available() {
    assert_eq!(get_disk_vendor(None), "N/A");
    assert_eq!(get_disk_model(None), "N/A");
    assert_eq!(get_disk_serial(None), "N/A");
}

#[test]
fn serial_is_the_page_as_it_is() {
    assert_eq!(get_disk_serial(Some("\u{0}\u{80}ZA1ABCDE\n")), "\u{0}\u{80}ZA1ABCDE\n");
}

#[test]
fn mapping_gives_block_device_or_none() {
    let map = get_disk_sd_map("/dev/sg10 /dev/sdz\n/dev/sg11\n");
    assert_eq!(map.correlate("/dev/sg10"), Some("/dev/sdz".to_string()));
    assert_eq!(map.correlate("/dev/sg11"), Some("NONE".to_string()));
    assert_eq!(map.correlate("/dev/sg12"), None);
    assert_eq!(map.correlate(""), None);
}

#[test]
fn mapping_takes_the_later_line_of_a_node() {
    let map = get_disk_sd_map("/dev/sg1  /dev/sda extra\n\n   \n/dev/sg1\t/dev/sdb");
    assert_eq!(map.correlate("/dev/sg1"), Some("/dev/sdb".to_string()));
}

#[test]
fn mapping_can_be_fed_line_by_line() {
    let mut map = DeviceMap::new();
    assert_eq!(map.correlate("/dev/sg10"), None);
    map.record_line("/dev/sg10 /dev/sdz");
    map.record_line("");
    map.record_line("/dev/sg11");
    assert_eq!(map.correlate("/dev/sg10"), Some("/dev/sdz".to_string()));
    assert_eq!(map.correlate("/dev/sg11"), Some("NONE".to_string()));
}

#[test]
fn slot_entry_name_is_the_sixth_segment() {
    assert_eq!(get_slot_entry_name("/sys/class/enclosure/15:0:1:0/Slot00"), Some("Slot00".to_string()));
    assert_eq!(get_slot_entry_name("/sys/class/enclosure/15:0:1:0/Slot00/x"), Some("Slot00".to_string()));
    assert_eq!(get_slot_entry_name("/sys/class/enclosure/15:0:1:0/"), Some("".to_string()));
    assert_eq!(get_slot_entry_name("/sys/class/enclosure/15:0:1:0"), None);
    assert_eq!(get_slot_entry_name(""), None);
}

#[test]
fn slot_names_follow_the_accepted_conventions() {
    for name in ["Slot00", "SLOT 12", "Disk001", "ArrayDevice00 disk", "Array Device 03", "17", "0", ""] {
        assert!(is_slot_name(name), "{}", name);
    }
    for name in ["device", "power", "components", "id", "uevent", "12a", "Array_Device", "\u{661}"] {
        assert!(!is_slot_name(name), "{}", name);
    }
}

#[test]
fn slot_names_are_compared_in_lower_case() {
    assert!(is_slot_name("DIS\u{212a}"));
    assert!(!is_lowered_slot_name("DISK"));
    assert!(is_lowered_slot_name("disk"));
    assert!(is_lowered_slot_name("array device 3"));
    assert!(!is_lowered_slot_name("arraydevice"));
}

#[test]
fn sysfs_directories_are_built_from_enclosure_and_slot() {
    assert_eq!(device_dir("15:0:1:0", "Slot00"), "/sys/class/enclosure/15:0:1:0/Slot00/device");
    assert_eq!(
        generic_dir("15:0:1:0", "Slot00"),
        "/sys/class/enclosure/15:0:1:0/Slot00/device/scsi_generic/"
    );
}

#[test]
fn attribute_files_sit_in_the_device_directory() {
    assert_eq!(enclosure_dir("15:0:1:0"), "/sys/class/enclosure/15:0:1:0");
    assert_eq!(
        attribute_file("15:0:1:0", "Slot00", Attribute::Vendor),
        "/sys/class/enclosure/15:0:1:0/Slot00/device/vendor"
    );
    assert_eq!(
        attribute_file("15:0:1:0", "Slot00", Attribute::Model),
        "/sys/class/enclosure/15:0:1:0/Slot00/device/model"
    );
    assert_eq!(
        attribute_file("15:0:1:0", "Slot00", Attribute::Serial),
        "/sys/class/enclosure/15:0:1:0/Slot00/device/vpd_pg80"
    );
}

#[test]
fn led_files_are_built_from_enclosure_and_bay() {
    assert_eq!(led_file("15:0:1:0", "Slot00", Led::Locate), "/sys/class/enclosure/15:0:1:0/Slot00/locate");
    assert_eq!(led_file("15:0:1:0", "Slot00", Led::Fault), "/sys/class/enclosure/15:0:1:0/Slot00/fault");
    assert_eq!(
        get_disk_led_locate_path("15:0:1:0", "Slot00", true),
        "/sys/class/enclosure/15:0:1:0/Slot00/locate"
    );
    assert_eq!(get_disk_led_locate_path("15:0:1:0", "Slot00", false), "NONE");
    assert_eq!(
        get_disk_led_fault_path("15:0:1:0", "Slot00", true),
        "/sys/class/enclosure/15:0:1:0/Slot00/fault"
    );
    assert_eq!(get_disk_led_fault_path("15:0:1:0", "Slot00", false), "NONE");
}

#[test]
fn generic_entry_gives_enclosure_bay_and_node() {
    let l = locate_generic_entry("/sys/class/enclosure/15:0:1:0/Slot00/device/scsi_generic/sg105").unwrap();
    assert_eq!(l.enclosure, "15:0:1:0");
    assert_eq!(l.bay, "Slot00");
    assert_eq!(l.slot, "Slot00");
    assert_eq!(l.device_path, "/dev/sg105");
    let l = locate_generic_entry("/sys/class/enclosure/1:0:0:0/Slot 03,Disk/device/scsi_generic/sg7/x").unwrap();
    assert_eq!(l.bay, "Slot 03,Disk");
    assert_eq!(l.slot, "Slot 03");
    assert_eq!(l.device_path, "/dev/sg7");
}

#[test]
fn generic_entry_with_too_few_segments_is_refused() {
    assert!(locate_generic_entry("/sys/class/enclosure/15:0:1:0/Slot00/device/scsi_generic").is_none());
    assert!(locate_generic_entry("").is_none());
}

#[test]
fn probe_gives_the_details_of_its_disk() {
    let d = probe_details(
        "15:0:1:0",
        &probe("/sys/class/enclosure/15:0:1:0/Slot00,x/device/scsi_generic/sg105"),
    )
    .unwrap();
    assert_eq!(d.enclosure, "15:0:1:0");
    assert_eq!(d.slot, "Slot00");
    assert_eq!(d.device_path, "/dev/sg105");
    assert_eq!(d.temperature, "37");
    assert_eq!(d.fw_revision, "E002");
    assert_eq!(d.vendor, "SEAGATE ");
    assert_eq!(d.model, "ST8000NM0075");
    assert_eq!(d.serial, "ZA1ABCDE");
    assert_eq!(d.led_locate_path, "/sys/class/enclosure/15:0:1:0/Slot00,x/locate");
    assert_eq!(d.led_fault_path, "NONE");
}

#[test]
fn probe_with_missing_attributes_still_gives_the_others() {
    let mut p = probe("/sys/class/enclosure/15:0:1:0/Slot00/device/scsi_generic/sg105");
    p.vendor = None;
    p.temperature = String::new();
    p.firmware = String::new();
    let d = probe_details("15:0:1:0", &p).unwrap();
    assert_eq!(d.vendor, "N/A");
    assert_eq!(d.temperature, "");
    assert_eq!(d.fw_revision, "N/A");
    assert_eq!(d.model, "ST8000NM0075");
    assert_eq!(d.serial, "ZA1ABCDE");
    assert_eq!(d.device_path, "/dev/sg105");
}

#[test]
fn details_of_a_slot_come_from_its_last_probe() {
    let probes = vec![
        probe("/sys/class/enclosure/15:0:1:0/Slot00/device/scsi_generic/sg105"),
        probe("/sys/class/enclosure/15:0:1:0/Slot00/device/scsi_generic/sg106"),
    ];
    let d = get_disk_details("/sys/class/enclosure/15:0:1:0/Slot00", "15:0:1:0", &probes).unwrap();
    assert_eq!(d.device_path, "/dev/sg106");
}

#[test]
fn details_of_a_slot_without_generic_entry_are_empty() {
    let d = get_disk_details("/sys/class/enclosure/15:0:1:0/Slot00", "15:0:1:0", &vec![]).unwrap();
    assert_eq!(d.device_path, "");
    assert_eq!(d.enclosure, "");
    assert_eq!(d.led_locate_path, "");
}

#[test]
fn details_of_an_entry_that_is_no_slot_are_empty() {
    let probes = vec![probe("/sys/class/enclosure/15:0:1:0/power/device/scsi_generic/sg105")];
    let d = get_disk_details("/sys/class/enclosure/15:0:1:0/power", "15:0:1:0", &probes).unwrap();
    assert_eq!(d.device_path, "");
    assert_eq!(d.temperature, "");
}

#[test]
fn details_of_a_malformed_path_are_an_error() {
    assert_eq!(
        get_disk_details("/sys/class/enclosure", "15:0:1:0", &vec![]).err(),
        Some(DiskError::MalformedPath)
    );
    let probes = vec![
        probe("/sys/class/enclosure/15:0:1:0/Slot00"),
        probe("/sys/class/enclosure/15:0:1:0/Slot00/device/scsi_generic/sg106"),
    ];
    assert_eq!(
        get_disk_details("/sys/class/enclosure/15:0:1:0/Slot00", "15:0:1:0", &probes).err(),
        Some(DiskError::MalformedPath)
    );
}

#[test]
fn disks_are_the_slots_with_a_device_node() {
    let map = get_disk_sd_map("/dev/sg105 /dev/sdcz\n/dev/sg106\n");
    let all = vec![details("/dev/sg105"), details(""), details("/dev/sg106")];
    let disks = get_disks_per_enclosure(&all, &map).unwrap();
    assert_eq!(disks.len(), 2);
    assert_eq!(disks[0].device_path, "/dev/sg105");
    assert_eq!(disks[0].device_map, "/dev/sdcz");
    assert_eq!(disks[0].enclosure, "15:0:1:0");
    assert_eq!(disks[0].slot, "Slot00");
    assert_eq!(disks[0].temperature, "37");
    assert_eq!(disks[0].fw_revision, "E002");
    assert_eq!(disks[0].vendor, "SEAGATE");
    assert_eq!(disks[0].model, "ST8000");
    assert_eq!(disks[0].serial, "ZA1");
    assert_eq!(disks[0].led_locate_path, "/sys/class/enclosure/15:0:1:0/Slot00/locate");
    assert_eq!(disks[0].led_fault_path, "NONE");
    assert_eq!(disks[1].device_path, "/dev/sg106");
    assert_eq!(disks[1].device_map, "NONE");
}

#[test]
fn disk_without_mapping_entry_is_a_correlation_fault() {
    let map = get_disk_sd_map("/dev/sg105 /dev/sdcz\n");
    let all = vec![details("/dev/sg105"), details("/dev/sg107"), details("/dev/sg105")];
    assert_eq!(get_disks_per_enclosure(&all, &map).err(), Some(DiskError::Uncorrelated));
    assert_eq!(jbod_disk_map(&all, "/dev/sg105 /dev/sdcz\n").err(), Some(DiskError::Uncorrelated));
    assert!(jbod_disk_map(&vec![details("")], "").unwrap().is_empty());
}

#[test]
fn scan_of_one_populated_slot_gives_one_disk() {
    let listed = parse_listing("[15:0:1:0]   enclosu VENDOR-X SHELF-60  0001  -  /dev/sg9\n");
    let enclosures = get_enclosure(
        &listed,
        &vec![" Vendor identification: VENDOR-X\n Unit serial number: SER123\n".to_string()],
    );
    assert_eq!(enclosures.len(), 1);
    assert_eq!(enclosures[0].slot, "15:0:1:0");
    assert_eq!(enclosures[0].vendor, "VENDOR-X");
    assert_eq!(enclosures[0].serial, "SER123");
    let entry = format!("/sys/class/enclosure/{}/Slot00", enclosures[0].slot);
    assert_eq!(get_slot_entry_name(&entry), Some("Slot00".to_string()));
    let dir = generic_dir(&enclosures[0].slot, "Slot00");
    let mut p = probe(&format!("{}sg105", dir));
    p.temperature = "line one\nline two\n  37 C\n".to_string();
    let d = get_disk_details(&entry, &enclosures[0].slot, &vec![p]).unwrap();
    let disks = jbod_disk_map(&vec![d], "/dev/sg105 /dev/sdcz\n").unwrap();
    assert_eq!(disks.len(), 1);
    assert_eq!(disks[0].device_path, "/dev/sg105");
    assert_eq!(disks[0].device_map, "/dev/sdcz");
    assert_eq!(disks[0].temperature, "37");
    assert_eq!(disks[0].enclosure, "15:0:1:0");
}

#[test]
fn disk_answers_to_either_device_name() {
    let disks = vec![
        disk("Slot00", "/dev/sg105", "/dev/sdcz", "NONE", "NONE"),
        disk("Slot01", "/dev/sg106", "/dev/sdda", "NONE", "NONE"),
        disk("Slot02", "/dev/sg107", "/dev/sg106", "NONE", "NONE"),
    ];
    assert_eq!(find_disk(&disks, "/dev/sg105"), Some(0));
    assert_eq!(find_disk(&disks, "/dev/sdda"), Some(1));
    assert_eq!(find_disk(&disks, "/dev/sg106"), Some(1));
    assert_eq!(find_disk(&disks, "/dev/sg107"), Some(2));
    assert_eq!(find_disk(&disks, "/dev/sdx"), None);
    assert_eq!(find_disk(&vec![], "/dev/sg105"), None);
}

fn outcome(o: LedOutcome) -> (u8, String, String, String) {
    match o {
        LedOutcome::DeviceNotFound => (0, String::new(), String::new(), String::new()),
        LedOutcome::NoSuchDisk => (1, String::new(), String::new(), String::new()),
        LedOutcome::Unsupported { slot } => (2, slot, String::new(), String::new()),
        LedOutcome::Write { slot, path, data } => (3, slot, path, data),
    }
}

#[test]
fn indicator_whose_file_is_missing_is_not_written() {
    let disks = vec![disk("Slot00", "/dev/sg105", "/dev/sdcz", "NONE", "NONE")];
    assert_eq!(
        outcome(set_disk_led_locate(&disks, "/dev/sg105", "1", true, false)),
        (2, "Slot00".to_string(), String::new(), String::new())
    );
    assert_eq!(
        outcome(set_disk_led_locate(&disks, "/dev/sg105", "1", true, true)),
        (2, "Slot00".to_string(), String::new(), String::new())
    );
    let disks = vec![disk("Slot00", "/dev/sg105", "/dev/sdcz", "/sys/class/enclosure/1/Slot00/locate", "NONE")];
    assert_eq!(
        outcome(set_disk_led_locate(&disks, "/dev/sdcz", "1", true, false)),
        (2, "Slot00".to_string(), String::new(), String::new())
    );
    assert_eq!(
        outcome(set_disk_led_fault(&disks, "/dev/sdcz", "1", true, true)),
        (2, "Slot00".to_string(), String::new(), String::new())
    );
}

#[test]
fn indicator_is_written_through_its_control_file() {
    let disks = vec![
        disk("Slot00", "/dev/sg105", "/dev/sdcz", "/sys/l0", "/sys/f0"),
        disk("Slot01", "/dev/sg106", "/dev/sdda", "/sys/l1", "/sys/f1"),
    ];
    assert_eq!(
        outcome(set_disk_led_locate(&disks, "/dev/sdda", "1", true, true)),
        (3, "Slot01".to_string(), "/sys/l1".to_string(), "1".to_string())
    );
    assert_eq!(
        outcome(set_disk_led_fault(&disks, "/dev/sg105", "0", true, true)),
        (3, "Slot00".to_string(), "/sys/f0".to_string(), "0".to_string())
    );
    assert_eq!(
        outcome(set_disk_led(&disks, "/dev/sg105", Led::Locate, "x", true, true)),
        (3, "Slot00".to_string(), "/sys/l0".to_string(), "x".to_string())
    );
}

#[test]
fn indicator_of_an_unknown_device_is_refused() {
    let disks = vec![disk("Slot00", "/dev/sg105", "/dev/sdcz", "/sys/l0", "/sys/f0")];
    assert_eq!(outcome(set_disk_led_locate(&disks, "/dev/sg105", "1", false, true)).0, 0);
    assert_eq!(outcome(set_disk_led_locate(&disks, "/dev/null", "1", true, true)).0, 1);
    assert_eq!(outcome(set_disk_led_fault(&vec![], "/dev/sg105", "1", true, false)).0, 1);
}

fn options(locate: Option<&str>, fault: Option<&str>, on: bool, off: bool) -> LedOptions {
    LedOptions {
        locate: locate.is_some(),
        locate_device: locate.map(|d| d.to_string()),
        fault: fault.is_some(),
        fault_device: fault.map(|d| d.to_string()),
        on,
        off,
    }
}

#[test]
fn on_and_off_together_are_a_usage_error() {
    assert_eq!(jbod_led_switch(&options(Some("/dev/sg1"), None, true, true)).err(), Some(LedUsageError::OnAndOff));
    assert_eq!(jbod_led_switch(&options(None, None, true, true)).err(), Some(LedUsageError::OnAndOff));
}

#[test]
fn switch_gives_one_command_for_each_indicator_named() {
    let commands = jbod_led_switch(&options(Some("/dev/sg1"), Some("/dev/sdb"), true, false)).unwrap();
    assert_eq!(commands.len(), 2);
    assert_eq!(commands[0].led, Led::Locate);
    assert_eq!(commands[0].device, "/dev/sg1");
    assert_eq!(commands[0].data, "1");
    assert_eq!(commands[1].led, Led::Fault);
    assert_eq!(commands[1].device, "/dev/sdb");
    assert_eq!(commands[1].data, "1");
    let commands = jbod_led_switch(&options(None, Some("/dev/sdb"), false, true)).unwrap();
    assert_eq!(commands.len(), 1);
    assert_eq!(commands[0].led, Led::Fault);
    assert_eq!(commands[0].data, "0");
}

#[test]
fn switch_without_state_or_indicator_does_nothing() {
    assert!(jbod_led_switch(&options(Some("/dev/sg1"), Some("/dev/sdb"), false, false)).unwrap().is_empty());
    assert!(jbod_led_switch(&options(None, None, true, false)).unwrap().is_empty());
}

#[test]
fn switch_falls_back_to_the_null_device() {
    let o = LedOptions {
        locate: true,
        locate_device: None,
        fault: false,
        fault_device: Some("/dev/sdb".to_string()),
        on: false,
        off: true,
    };
    let commands = jbod_led_switch(&o).unwrap();
    assert_eq!(commands.len(), 1);
    assert_eq!(commands[0].led, Led::Locate);
    assert_eq!(commands[0].device, "/dev/null");
    assert_eq!(commands[0].data, "0");
}
