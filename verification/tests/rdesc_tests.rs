use udev_hid_bpf::dump::{dump_bytes, hex_dump, python_dump, DumpFormat};
use udev_hid_bpf::rdesc_parse::{parse_report_descriptor, report_descriptor_c_bytes, ReportDescriptorError};
use udev_hid_bpf::rdesc_scan::{lacks_usage_page, report_bits_fit};
use udev_hid_bpf::rdesc::FieldInfo;
use udev_hid_bpf::sysfs::{bus_name, device_entry, group_name, lists_device, modalias_ids, sysname_from_match};

const MOUSE: [u8; 50] = [
    0x05, 0x01, 0x09, 0x02, 0xA1, 0x01, 0x09, 0x01, 0xA1, 0x00, 0x05, 0x09, 0x19, 0x01, 0x29, 0x03,
    0x15, 0x00, 0x25, 0x01, 0x95, 0x03, 0x75, 0x01, 0x81, 0x02, 0x95, 0x01, 0x75, 0x05, 0x81, 0x01,
    0x05, 0x01, 0x09, 0x30, 0x09, 0x31, 0x15, 0x81, 0x25, 0x7F, 0x75, 0x08, 0x95, 0x02, 0x81, 0x06,
    0xC0, 0xC0,
];

#[test]
fn report_descriptor_converts_to_c_layout() {
    let info = parse_report_descriptor(&MOUSE).unwrap();
    assert_eq!(info.input_reports.len(), 1);
    assert!(info.output_reports.is_empty());
    let bytes = report_descriptor_c_bytes(&MOUSE).unwrap();
    assert_eq!(bytes.len(), 556227);
    assert_eq!(&bytes[..6], &[1, 0, 0, 0, 24, 0]);
    assert!(report_descriptor_c_bytes(&[0xC0]).is_err());
}

#[test]
fn byte_dumps() {
    assert_eq!(hex_dump(&[0x01, 0xab, 0x00]), "01ab00");
    assert_eq!(python_dump(&[0x01, 0xab]), "b'\\x01\\xab'");
    assert_eq!(python_dump(&[]), "b''");
    assert_eq!(dump_bytes(&[0x01, 0x02, 0x03], DumpFormat::Base64), "AQID");
    assert_eq!(dump_bytes(&[0xff], DumpFormat::Base64), "/w==");
    assert_eq!(dump_bytes(&[0xff], DumpFormat::Hex), "ff");
}

#[test]
fn modalias_names() {
    let ids = modalias_ids("hid:b0003g0001v0000045Ep000007A5").unwrap();
    assert_eq!(ids, ("0003".into(), "0001".into(), "045E".into(), "07A5".into()));
    assert_eq!(modalias_ids("hid:empty"), None);
    assert_eq!(bus_name("0003"), "BUS_USB");
    assert_eq!(bus_name("001F"), "BUS_INTEL_ISHTP");
    assert_eq!(bus_name("00FF"), "00FF");
    assert_eq!(group_name("0105"), "HID_GROUP_VIVALDI");
    assert_eq!(group_name("0200"), "0200");
    assert_eq!(device_entry("0003", "0001", "045E", "07A5"), "HID_DEVICE(BUS_USB, HID_GROUP_GENERIC, 0x045E, 0x07A5)");
    assert!(lists_device(false, 0));
    assert!(!lists_device(true, 0));
    assert!(lists_device(true, 2));
    assert_eq!(sysname_from_match("x".into(), None), Err(22));
    assert_eq!(sysname_from_match("x".into(), Some(vec![Some("x".into())])), Ok("x".to_string()));
}

#[test]
fn usages_without_a_page_are_refused() {
    let bad = [0x09, 0x01, 0xA1, 0x01];
    assert!(lacks_usage_page(&bad));
    assert!(matches!(parse_report_descriptor(&bad), Err(ReportDescriptorError::MissingUsagePage)));
    assert!(matches!(report_descriptor_c_bytes(&bad), Err(ReportDescriptorError::MissingUsagePage)));
    assert!(!lacks_usage_page(&MOUSE));
    // A page that a Pop takes away again leaves the usage without one.
    assert!(lacks_usage_page(&[0xA4, 0x05, 0x01, 0xB4, 0x09, 0x01, 0xA1, 0x01]));
    // A usage with its own page, or a usage minimum, needs no Usage Page.
    assert!(!lacks_usage_page(&[0x0B, 0x01, 0x00, 0x01, 0x00, 0xA1, 0x01]));
    // A Usage Page given before the main item is enough.
    assert!(!lacks_usage_page(&[0x09, 0x01, 0x05, 0x01, 0xA1, 0x01]));
    // A constant field needs no usage.
    assert!(!lacks_usage_page(&[0x09, 0x01, 0x75, 0x08, 0x95, 0x01, 0x81, 0x01, 0x05, 0x01, 0x09, 0x02, 0xA1, 0x01, 0xC0]));
}

#[test]
fn parsed_fields_carry_hidreport_values() {
    let info = parse_report_descriptor(&MOUSE).unwrap();
    let fields = &info.input_reports[0].fields;
    match &fields[0] {
        FieldInfo::Variable { usage_page, usage_id, bits_start, bits_end, logical_maximum, collections, .. } => {
            assert_eq!((*usage_page, *usage_id), (0x09, 0x01));
            assert_eq!((*bits_start, *bits_end), (0, 1));
            assert_eq!(*logical_maximum, 1);
            assert_eq!(collections.len(), 2);
            assert_eq!(collections[0].usage, Some((0x01, 0x02)));
            assert_eq!(collections[1].usage, Some((0x01, 0x01)));
        }
        other => panic!("unexpected field {other:?}"),
    }
    assert!(fields.iter().any(|f| matches!(f, FieldInfo::Constant { .. })));
}

#[test]
fn bit_positions_beyond_32_bits_are_refused() {
    assert!(report_bits_fit(&MOUSE));
    assert!(report_bits_fit(&[]));
    // Report Size 0xFFFFFFFF, Report Count 2, one variable Input field.
    let huge = [0x05, 0x01, 0x09, 0x30, 0x77, 0xFF, 0xFF, 0xFF, 0xFF, 0x95, 0x02, 0x81, 0x02];
    assert!(!report_bits_fit(&huge));
    assert!(matches!(parse_report_descriptor(&huge), Err(ReportDescriptorError::TooLarge)));
    assert!(matches!(report_descriptor_c_bytes(&huge), Err(ReportDescriptorError::TooLarge)));
    // Two constant fields of 0xFFFF bits each stay well within the limit.
    let padding = [0x77, 0xFF, 0xFF, 0x00, 0x00, 0x95, 0x01, 0x81, 0x01, 0x81, 0x01];
    assert!(report_bits_fit(&padding));
    // A count pushed and popped again: the sizes of the outer level count.
    let pushed = [0x75, 0x08, 0xA4, 0x97, 0xFF, 0xFF, 0xFF, 0xFF, 0xB4, 0x95, 0x02, 0x81, 0x01];
    assert!(report_bits_fit(&pushed));
    let unpopped = [0x75, 0x08, 0xA4, 0x97, 0xFF, 0xFF, 0xFF, 0xFF, 0x81, 0x01];
    assert!(!report_bits_fit(&unpopped));
}
