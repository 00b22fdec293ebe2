use udev_hid_bpf::inspect::inspection_udev_properties;
use udev_hid_bpf::metadata::{
    get_report_descriptor_metadata, get_udev_properties_metadata, inject_report_descriptor_into,
    inject_udev_properties_into, map_holds_section, udev_property_value_bytes, udev_writes_fit_in, BpfMetadata,
    BtfDataSections, DataSec, DataSecVar, VariableMetadata,
};
use udev_hid_bpf::properties::{hid_bpf_properties, merge_udev_properties, HidUdevProperty};

fn var(name: Option<&str>, offset: u32, size: usize) -> DataSecVar {
    DataSecVar { name: name.map(String::from), offset, size }
}

fn btf() -> BtfDataSections {
    BtfDataSections {
        sections: vec![
            DataSec {
                name: ".bss".into(),
                vars: vec![
                    var(Some("UDEV_PROP_ID_MODEL"), 0, 16),
                    var(None, 16, 4),
                    var(Some("HID_REPORT_DESCRIPTOR"), 32, 64),
                    var(Some("counter"), 96, 4),
                ],
            },
            DataSec { name: ".data".into(), vars: vec![var(Some("UDEV_PROP_NAME"), 8, 8)] },
        ],
    }
}

fn prop(name: &str, value: &str) -> HidUdevProperty {
    HidUdevProperty { name: name.into(), value: value.into() }
}

#[test]
fn metadata_from_data_sections() {
    let b = btf();
    let bss = get_udev_properties_metadata(".bss", &b);
    assert_eq!(bss.len(), 1);
    assert_eq!((bss[0].name.as_str(), bss[0].offset, bss[0].size), ("ID_MODEL", 0, 16));
    let rd = get_report_descriptor_metadata(".bss", &b).unwrap();
    assert_eq!((rd.name.as_str(), rd.offset, rd.size), ("HID_REPORT_DESCRIPTOR", 32, 64));
    assert!(get_report_descriptor_metadata(".data", &b).is_none());
    assert!(get_udev_properties_metadata(".rodata", &b).is_empty());
    let m = BpfMetadata::from_btf(&b);
    assert!(m.has_report_descriptor());
    assert_eq!(m.report_descriptor_size(), Some(64));
    let listed = inspection_udev_properties(&m);
    let names: Vec<(&str, usize, bool)> =
        listed.iter().map(|p| (p.name.as_str(), p.size, p.readonly)).collect();
    assert_eq!(names, vec![("ID_MODEL", 16, true), ("NAME", 8, true)]);
}

#[test]
fn udev_properties_are_written_with_room_for_a_zero() {
    let vars = vec![
        VariableMetadata { name: "ID_MODEL".into(), offset: 0, size: 6 },
        VariableMetadata { name: "NAME".into(), offset: 8, size: 4 },
        VariableMetadata { name: "MISSING".into(), offset: 12, size: 4 },
    ];
    let props = vec![prop("ID_MODEL", "mouse"), prop("NAME", "long"), prop("ID_MODEL", "other")];
    let mut data = vec![0xaau8; 16];
    assert!(udev_writes_fit_in(data.len(), &vars, &props));
    let updated = inject_udev_properties_into(&mut data, &vars, &props);
    assert!(updated);
    assert_eq!(&data[..6], b"mouse\xaa");
    assert_eq!(&data[8..12], &[0xaa; 4]);
    let mut untouched = vec![0u8; 16];
    assert!(!inject_udev_properties_into(&mut untouched, &vars[1..], &props));
    assert_eq!(untouched, vec![0u8; 16]);
    assert!(!udev_writes_fit_in(3, &vars, &props));
    assert!(map_holds_section("foo.bss", ".bss"));
    assert!(!map_holds_section("foo.data", ".bss"));
}

#[test]
fn report_descriptor_is_written_when_it_fits() {
    let v = VariableMetadata { name: "HID_REPORT_DESCRIPTOR".into(), offset: 2, size: 3 };
    let mut data = vec![0u8; 8];
    assert!(inject_report_descriptor_into(&mut data, Some(&v), &[1, 2, 3]));
    assert_eq!(data, vec![0, 0, 1, 2, 3, 0, 0, 0]);
    let mut data = vec![0u8; 8];
    assert!(!inject_report_descriptor_into(&mut data, Some(&v), &[1, 2, 3, 4]));
    assert_eq!(data, vec![0u8; 8]);
    assert!(!inject_report_descriptor_into(&mut data, None, &[1]));
}

#[test]
fn extra_properties_take_precedence() {
    let device = vec![prop("A", "1"), prop("B", "2"), prop("A", "3"), prop("C", "4")];
    let extra = vec![prop("A", "x"), prop("D", "y")];
    let merged = merge_udev_properties(&device, &extra);
    let pairs: Vec<(&str, &str)> = merged.iter().map(|p| (p.name.as_str(), p.value.as_str())).collect();
    assert_eq!(pairs, vec![("B", "2"), ("C", "4"), ("A", "x"), ("D", "y")]);
    let found = merged.iter().find(|p| p.name == "A").unwrap();
    assert_eq!(found.value, "x");
    assert_eq!(hid_bpf_properties(&vec![prop("HID_BPF_1", "a.bpf.o"), prop("X", "b")]), vec!["a.bpf.o"]);
}

#[test]
fn udev_property_values_end_at_the_first_zero() {
    assert_eq!(udev_property_value_bytes(b"abc\0\0\0"), b"abc".to_vec());
    assert_eq!(udev_property_value_bytes(b"abc"), b"abc".to_vec());
    assert_eq!(udev_property_value_bytes(b"\0abc"), Vec::<u8>::new());
    assert_eq!(udev_property_value_bytes(b"a\0b\0"), b"a".to_vec());
    assert_eq!(udev_property_value_bytes(b""), Vec::<u8>::new());
}
