use jbod::enclosure::{
    describe_enclosure, fan_index_argument, fan_listing_command, get_enclosure, get_enclosure_details, get_enclosure_fan,
    get_enclosure_fan_speed, is_fan_known, next_fan_query, parse_fan_line, parse_listing,
    parse_listing_line, record_fan, Enclosure, EnclosureFan, FanSpeedError, ListedEnclosure,
};

const LISTING: &str = "[0:0:0:0]    disk    ATA      ST4000NM0033     SN04  /dev/sda   /dev/sg0\n\
[15:0:1:0]   enclosu VENDOR-X SHELF-60         0001  -          /dev/sg9\n\
[15:0:2:0]   disk    SEAGATE  ST8000           E002  /dev/sdcz  /dev/sg105\n";

const INQUIRY: &str = "standard INQUIRY:\n\
  PQual=0  Device_type=13  RMB=0  version=0x05  [SPC-3]\n\
 Vendor identification: VENDOR-X\n\
 Product identification: SHELF-60\n\
 Product revision level: 0001\n\
 Unit serial number: SER123\n";

fn enclosure(slot: &str, device: &str, serial: &str) -> Enclosure {
    Enclosure {
        slot: slot.to_string(),
        device_path: device.to_string(),
        vendor: "VENDOR-X".to_string(),
        model: "SHELF-60".to_string(),
        revision: "0001".to_string(),
        serial: serial.to_string(),
    }
}

fn strings(lines: &[&str]) -> Vec<String> {
    lines.iter().map(|l| l.to_string()).collect()
}

#[test]
fn listing_line_of_an_enclosure_gives_slot_and_device() {
    let e = parse_listing_line("[15:0:1:0]   enclosu VENDOR-X SHELF-60  0001  -  /dev/sg9").unwrap();
    assert_eq!(e.slot, "15:0:1:0");
    assert_eq!(e.device_path, "/dev/sg9");
}

#[test]
fn listing_line_takes_the_first_word_with_a_device_path() {
    let e = parse_listing_line("[1:0:0:0] enclosu X Y 1 /dev/sdq /dev/sg3").unwrap();
    assert_eq!(e.slot, "1:0:0:0");
    assert_eq!(e.device_path, "/dev/sdq");
}

#[test]
fn listing_line_of_another_class_is_no_enclosure() {
    assert!(parse_listing_line("[0:0:0:0] disk ATA ST4000 SN04 /dev/sda /dev/sg0").is_none());
    assert!(parse_listing_line("").is_none());
}

#[test]
fn listing_line_without_device_node_is_left_out() {
    assert!(parse_listing_line("[15:0:1:0] enclosu VENDOR-X SHELF-60 0001 - -").is_none());
}

#[test]
fn listing_keeps_the_order_of_the_lines() {
    let listed = parse_listing(
        "[2:0:0:0] enclosu A B 1 - /dev/sg2\n[0:0:0:0] disk A B 1 /dev/sda /dev/sg0\n[1:0:0:0] enclosu A B 1 - /dev/sg1",
    );
    assert_eq!(listed.len(), 2);
    assert_eq!(listed[0].slot, "2:0:0:0");
    assert_eq!(listed[0].device_path, "/dev/sg2");
    assert_eq!(listed[1].slot, "1:0:0:0");
    assert_eq!(listed[1].device_path, "/dev/sg1");
    assert!(parse_listing("").is_empty());
}

#[test]
fn inquiry_gives_the_four_fields() {
    let (vendor, model, revision, serial) = get_enclosure_details(INQUIRY);
    assert_eq!(vendor, "VENDOR-X");
    assert_eq!(model, "SHELF-60");
    assert_eq!(revision, "0001");
    assert_eq!(serial, "SER123");
}

#[test]
fn inquiry_field_without_its_line_is_none() {
    let (vendor, model, revision, serial) =
        get_enclosure_details(" Vendor identification: VENDOR-X\n Unit serial number: SER123\n");
    assert_eq!(vendor, "VENDOR-X");
    assert_eq!(model, "NONE");
    assert_eq!(revision, "NONE");
    assert_eq!(serial, "SER123");
    let (vendor, model, revision, serial) = get_enclosure_details("");
    assert_eq!(vendor, "NONE");
    assert_eq!(model, "NONE");
    assert_eq!(revision, "NONE");
    assert_eq!(serial, "NONE");
}

#[test]
fn inquiry_labels_are_case_sensitive() {
    let (vendor, _, _, serial) =
        get_enclosure_details("vendor identification: X\nUnit Serial number: S\n");
    assert_eq!(vendor, "NONE");
    assert_eq!(serial, "NONE");
}

#[test]
fn inquiry_takes_the_last_line_of_a_field() {
    let (vendor, _, _, _) =
        get_enclosure_details("Vendor identification: A\nVendor identification: B\n");
    assert_eq!(vendor, "B");
}

#[test]
fn enclosure_joins_listing_and_inquiry() {
    let listed = ListedEnclosure { slot: "15:0:1:0".to_string(), device_path: "/dev/sg9".to_string() };
    let e = describe_enclosure(&listed, INQUIRY);
    assert_eq!(e.slot, "15:0:1:0");
    assert_eq!(e.device_path, "/dev/sg9");
    assert_eq!(e.vendor, "VENDOR-X");
    assert_eq!(e.model, "SHELF-60");
    assert_eq!(e.revision, "0001");
    assert_eq!(e.serial, "SER123");
}

#[test]
fn enclosures_without_inquiry_output_are_still_reported() {
    let listed = parse_listing(LISTING);
    assert_eq!(listed.len(), 1);
    let found = get_enclosure(&listed, &vec![]);
    assert_eq!(found.len(), 1);
    assert_eq!(found[0].slot, "15:0:1:0");
    assert_eq!(found[0].device_path, "/dev/sg9");
    assert_eq!(found[0].vendor, "NONE");
    assert_eq!(found[0].serial, "NONE");
    let found = get_enclosure(&listed, &vec![INQUIRY.to_string()]);
    assert_eq!(found[0].vendor, "VENDOR-X");
    assert_eq!(found[0].serial, "SER123");
}

#[test]
fn fan_line_gives_description_and_index() {
    let (description, index) = parse_fan_line("   Cooling 3  [2,1]  Element type: Cooling").unwrap();
    assert_eq!(description, "Cooling 3");
    assert_eq!(index, "2,1");
}

#[test]
fn fan_line_without_bracket_is_discarded() {
    assert!(parse_fan_line("Cooling 3 2,1] Element type: Cooling").is_none());
    assert!(parse_fan_line("").is_none());
    assert!(parse_fan_line("Cooling").is_none());
}

#[test]
fn fan_line_with_empty_description_or_index_is_discarded() {
    assert!(parse_fan_line("   [2,1]").is_none());
    assert!(parse_fan_line("Cooling []").is_none());
    assert!(parse_fan_line("Cooling [").is_none());
    assert!(parse_fan_line("Cooling [[3]").is_none());
}

#[test]
fn fan_line_without_closing_bracket_takes_the_rest() {
    let (description, index) = parse_fan_line("Cooling [3").unwrap();
    assert_eq!(description, "Cooling");
    assert_eq!(index, "3");
}

#[test]
fn fan_speed_reads_number_and_comment() {
    let out = "  Cooling 3 [2,1]\n    Predicted failure=0\n    Ident=0, Actual speed=8760 rpm, Fan at third lowest speed\n";
    assert_eq!(get_enclosure_fan_speed(out), Ok((8760, "Fan at third lowest speed".to_string())));
}

#[test]
fn fan_speed_of_zero_is_a_reading() {
    assert_eq!(get_enclosure_fan_speed("a, speed=0 rpm, stopped"), Ok((0, "stopped".to_string())));
}

#[test]
fn fan_speed_takes_the_first_number_of_the_second_field() {
    assert_eq!(get_enclosure_fan_speed("x, speed 12 of 34, c"), Ok((12, "c".to_string())));
    assert_eq!(get_enclosure_fan_speed("x, speed=4294967295, c, d"), Ok((4294967295, "c".to_string())));
}

#[test]
fn fan_speed_takes_the_last_line_that_names_a_speed() {
    assert_eq!(
        get_enclosure_fan_speed("a, speed=1, first\nother\nb, speed=2, second\n"),
        Ok((2, "second".to_string()))
    );
}

#[test]
fn fan_speed_that_is_missing_is_an_error() {
    assert_eq!(get_enclosure_fan_speed(""), Err(FanSpeedError::Missing));
    assert_eq!(get_enclosure_fan_speed("Ident=0, Actual rpm=8760, ok\n"), Err(FanSpeedError::Missing));
}

#[test]
fn fan_speed_that_cannot_be_read_is_an_error() {
    assert_eq!(get_enclosure_fan_speed("speed=8760"), Err(FanSpeedError::Malformed));
    assert_eq!(get_enclosure_fan_speed("a, speed=8760"), Err(FanSpeedError::Malformed));
    assert_eq!(get_enclosure_fan_speed("a, speed=unknown, c"), Err(FanSpeedError::Malformed));
    assert_eq!(get_enclosure_fan_speed("a, speed=4294967296, c"), Err(FanSpeedError::Malformed));
    assert_eq!(
        get_enclosure_fan_speed("a, speed, c\nb, speed=2, second\n"),
        Err(FanSpeedError::Malformed)
    );
}

#[test]
fn fan_with_the_same_index_and_serial_counts_once() {
    let e = enclosure("15:0:1:0", "/dev/sg9", "SER123");
    let mut fans: Vec<EnclosureFan> = Vec::new();
    let first = next_fan_query(&fans, &e, "Fan A [3]").unwrap();
    assert_eq!(first.device_path, "/dev/sg9");
    assert_eq!(first.index, "3");
    assert_eq!(record_fan(&mut fans, &first, "x, speed=100 rpm, ok"), Ok(()));
    assert!(is_fan_known(&fans, "3", "SER123"));
    assert!(!is_fan_known(&fans, "3", "SER124"));
    assert!(!is_fan_known(&fans, "4", "SER123"));
    assert!(next_fan_query(&fans, &e, "Fan B [3]").is_none());
    assert_eq!(fans.len(), 1);
    assert_eq!(fans[0].description, "Fan A");
}

#[test]
fn record_fan_refuses_a_second_record_of_a_component() {
    let e = enclosure("15:0:1:0", "/dev/sg9", "SER123");
    let mut fans: Vec<EnclosureFan> = Vec::new();
    let first = next_fan_query(&fans, &e, "Fan A [3]").unwrap();
    let again = next_fan_query(&fans, &e, "Fan B [3]").unwrap();
    assert_eq!(record_fan(&mut fans, &first, "x, speed=100 rpm, ok"), Ok(()));
    assert_eq!(record_fan(&mut fans, &again, "x, speed=200 rpm, ok"), Ok(()));
    assert_eq!(fans.len(), 1);
    assert_eq!(fans[0].description, "Fan A");
    assert_eq!(fans[0].speed, 100);
}

#[test]
fn record_fan_without_reading_leaves_the_fans_alone() {
    let e = enclosure("15:0:1:0", "/dev/sg9", "SER123");
    let mut fans: Vec<EnclosureFan> = Vec::new();
    let first = next_fan_query(&fans, &e, "Fan A [3]").unwrap();
    assert_eq!(record_fan(&mut fans, &first, "nothing"), Err(FanSpeedError::Missing));
    assert!(fans.is_empty());
}

#[test]
fn enumeration_keeps_the_first_of_two_lines_for_one_component() {
    let enclosures = vec![enclosure("15:0:1:0", "/dev/sg9", "SER123")];
    let listings = vec![strings(&["Fan A [3]", "Fan B [3]"])];
    let answers = strings(&["x, speed=100 rpm, first", "x, speed=200 rpm, second"]);
    let scan = get_enclosure_fan(&enclosures, &listings, &answers);
    assert!(scan.failures.is_empty());
    let fans = scan.fans;
    assert_eq!(fans.len(), 1);
    assert_eq!(fans[0].slot, "15:0:1:0");
    assert_eq!(fans[0].serial, "SER123");
    assert_eq!(fans[0].description, "Fan A");
    assert_eq!(fans[0].index, "3");
    assert_eq!(fans[0].speed, 100);
    assert_eq!(fans[0].comment, "first");
}

#[test]
fn enumeration_tells_enclosures_apart_by_serial_not_by_slot() {
    let enclosures = vec![
        enclosure("15:0:1:0", "/dev/sg9", "SER123"),
        enclosure("15:0:1:0", "/dev/sg10", "SER124"),
        enclosure("16:0:1:0", "/dev/sg11", "SER123"),
    ];
    let listings = vec![
        strings(&["Fan A [3]", "no component here", "Fan B [4]"]),
        strings(&["Fan C [3]"]),
        strings(&["Fan D [3]", "Fan E [5]"]),
    ];
    let answers = strings(&[
        "x, speed=1, a",
        "x, speed=2, b",
        "x, speed=3, c",
        "x, speed=4, d",
    ]);
    let scan = get_enclosure_fan(&enclosures, &listings, &answers);
    assert!(scan.failures.is_empty());
    let fans = scan.fans;
    let got: Vec<(String, String, String, i64)> = fans
        .iter()
        .map(|f| (f.serial.clone(), f.index.clone(), f.description.clone(), f.speed))
        .collect();
    assert_eq!(
        got,
        vec![
            ("SER123".to_string(), "3".to_string(), "Fan A".to_string(), 1),
            ("SER123".to_string(), "4".to_string(), "Fan B".to_string(), 2),
            ("SER124".to_string(), "3".to_string(), "Fan C".to_string(), 3),
            ("SER123".to_string(), "5".to_string(), "Fan E".to_string(), 4),
        ]
    );
    assert_eq!(fans[3].slot, "16:0:1:0");
}

#[test]
fn enumeration_leaves_out_a_component_without_reading_and_goes_on() {
    let enclosures = vec![
        enclosure("15:0:1:0", "/dev/sg9", "SER123"),
        enclosure("16:0:1:0", "/dev/sg10", "SER124"),
    ];
    let listings = vec![strings(&["Fan A [3]", "Fan B [4]"]), strings(&["Fan C [3]"])];
    let scan = get_enclosure_fan(
        &enclosures,
        &listings,
        &strings(&["x, speed=, a", "x, speed=2, b", "x, speed=3, c"]),
    );
    assert_eq!(scan.fans.len(), 2);
    assert_eq!(scan.fans[0].description, "Fan B");
    assert_eq!(scan.fans[0].speed, 2);
    assert_eq!(scan.fans[1].description, "Fan C");
    assert_eq!(scan.fans[1].serial, "SER124");
    assert_eq!(scan.fans[1].speed, 3);
    assert_eq!(scan.failures.len(), 1);
    assert_eq!(scan.failures[0].error, FanSpeedError::Malformed);
    assert_eq!(scan.failures[0].component.description, "Fan A");
    assert_eq!(scan.failures[0].component.index, "3");
    assert_eq!(scan.failures[0].component.serial, "SER123");
    assert_eq!(scan.failures[0].component.device_path, "/dev/sg9");
}

#[test]
fn enumeration_notes_every_component_without_answer() {
    let enclosures = vec![enclosure("15:0:1:0", "/dev/sg9", "SER123")];
    let listings = vec![strings(&["Fan A [3]", "Fan B [4]", "Fan C [5]"])];
    let scan = get_enclosure_fan(&enclosures, &listings, &strings(&["x, speed=1, a"]));
    assert_eq!(scan.fans.len(), 1);
    assert_eq!(scan.fans[0].description, "Fan A");
    assert_eq!(scan.failures.len(), 2);
    assert_eq!(scan.failures[0].error, FanSpeedError::Missing);
    assert_eq!(scan.failures[0].component.index, "4");
    assert_eq!(scan.failures[1].error, FanSpeedError::Missing);
    assert_eq!(scan.failures[1].component.index, "5");
}

#[test]
fn enumeration_asks_again_for_a_component_that_had_no_reading() {
    let enclosures = vec![enclosure("15:0:1:0", "/dev/sg9", "SER123")];
    let listings = vec![strings(&["Fan A [3]", "Fan B [3]", "Fan C [3]"])];
    let scan = get_enclosure_fan(
        &enclosures,
        &listings,
        &strings(&["nothing", "x, speed=200 rpm, second", "x, speed=300 rpm, third"]),
    );
    assert_eq!(scan.failures.len(), 1);
    assert_eq!(scan.failures[0].component.description, "Fan A");
    assert_eq!(scan.failures[0].error, FanSpeedError::Missing);
    assert_eq!(scan.fans.len(), 1);
    assert_eq!(scan.fans[0].description, "Fan B");
    assert_eq!(scan.fans[0].speed, 200);
}

#[test]
fn enumeration_without_listing_gives_no_fan() {
    let enclosures = vec![enclosure("15:0:1:0", "/dev/sg9", "SER123")];
    let scan = get_enclosure_fan(&enclosures, &vec![], &vec![]);
    assert!(scan.fans.is_empty() && scan.failures.is_empty());
    let scan = get_enclosure_fan(&vec![], &vec![strings(&["Fan A [3]"])], &vec![]);
    assert!(scan.fans.is_empty() && scan.failures.is_empty());
}

#[test]
fn fan_commands_address_device_and_component() {
    assert_eq!(fan_listing_command("/dev/sg9"), "/usr/bin/sg_ses -j -ff /dev/sg9 | grep Cooling");
    assert_eq!(fan_index_argument("2,1"), "--index=2,1");
}

#[test]
fn inquiry_line_without_colon_keeps_its_label() {
    let (vendor, model, _, _) =
        get_enclosure_details("Vendor identification VENDOR-X\nxx Product identification:  Y  z\n");
    assert_eq!(vendor, "Vendor identification VENDOR-X");
    assert_eq!(model, "xx   Y  z");
}

#[test]
fn enclosures_are_the_same_by_serial() {
    let a = enclosure("15:0:1:0", "/dev/sg9", "SER123");
    let b = enclosure("16:0:1:0", "/dev/sg10", "SER123");
    let c = enclosure("15:0:1:0", "/dev/sg9", "SER124");
    assert!(a.is_same_enclosure(&b));
    assert!(!a.is_same_enclosure(&c));
}
