use udev_hid_bpf::install::{device_ids, is_bpf_object_path, plan_install, write_udev_rule, InstallError};
use udev_hid_bpf::inspect::inspection_device;
use udev_hid_bpf::paths::InspectionDevice;

fn device(bus: &str, group: &str, vid: &str, pid: &str) -> InspectionDevice {
    InspectionDevice { bus: bus.into(), group: group.into(), vid: vid.into(), pid: pid.into() }
}

const HEADER: &str = "# This udev rule was generated by udev-hid-bpf install\nACTION!=\"add|remove|bind|unbind\", GOTO=\"hid_bpf_end\"\nSUBSYSTEM!=\"hid\", GOTO=\"hid_bpf_end\"\n\n";

fn block(km: &str) -> String {
    format!(
        "# 0010-foo.bpf.o \nACTION==\"add\",{km}, IMPORT{{program}}+=\"/usr/local/bin/udev-hid-bpf add $sys$devpath /etc/udev-hid-bpf/0010-foo.bpf.o\"\nACTION==\"remove\",{km}, RUN{{program}}+=\"/usr/local/bin/udev-hid-bpf remove $sys$devpath \"\n\n# bind/unbind clears the properties set during the previous add/bind stage, so\n# let's import them to keep them alive\n\nACTION==\"bind|unbind\",{km}, IMPORT{{program}}+=\"/usr/local/bin/udev-hid-bpf list-loaded --format udev --syspath $sys$devpath\"\n"
    )
}

#[test]
fn udev_rule_for_one_device() {
    let devices = vec![device("0x0003", "0x0001", "0x045E", "0x07A5")];
    let rule = write_udev_rule("/usr/local/bin", "/etc/udev-hid-bpf/0010-foo.bpf.o", &devices);
    let expected = format!(
        "{HEADER}{}\nLABEL=\"hid_bpf_end\"\n",
        block("ENV{MODALIAS}==\"hid:b0003g0001v0000045Ep000007A5\"")
    );
    assert_eq!(rule, expected);
}

#[test]
fn udev_rule_matches_any_id_of_zero() {
    let devices = vec![
        device("0x0003", "0x0000", "0x0000", "0x0000"),
        device("0x0018", "0x0102", "0x1234ABCD", "0x0001"),
    ];
    let rule = write_udev_rule("/usr/local/bin", "/etc/udev-hid-bpf/0010-foo.bpf.o", &devices);
    let expected = format!(
        "{HEADER}{}{}\nLABEL=\"hid_bpf_end\"\n",
        block("ENV{MODALIAS}==\"hid:b0003g*v*p*\""),
        block("ENV{MODALIAS}==\"hid:b0018g0102v1234ABCDp00000001\"")
    );
    assert_eq!(rule, expected);
}

#[test]
fn udev_rule_without_devices() {
    let rule = write_udev_rule("/usr/local/bin", "/etc/udev-hid-bpf/0010-foo.bpf.o", &Vec::new());
    assert_eq!(rule, format!("{HEADER}\nLABEL=\"hid_bpf_end\"\n"));
}

#[test]
fn device_ids_read_hex_after_prefix() {
    assert_eq!(device_ids(&device("0x0003", "0x0001", "0x045E", "0x07A5")), Some((3, 1, 0x45e, 0x7a5)));
    assert_eq!(device_ids(&device("0x0003", "0x0001", "0xZZZZ", "0x07A5")), None);
    assert_eq!(device_ids(&device("3", "0x0001", "0x045E", "0x07A5")), None);
}

#[test]
fn inspection_devices_print_ids() {
    let d = inspection_device(3, 1, 0x45e, 0x12345);
    assert_eq!((d.bus.as_str(), d.group.as_str()), ("0x0003", "0x0001"));
    assert_eq!((d.vid.as_str(), d.pid.as_str()), ("0x045E", "0x12345"));
}

#[test]
fn install_plan() {
    assert!(is_bpf_object_path("/tmp/0010-foo.bpf.o"));
    assert!(!is_bpf_object_path("/tmp/0010-foo.bpf.c"));
    let plan = plan_install("/tmp/build/0010-foo.bpf.o", None, 1).unwrap();
    assert_eq!(plan.bindir, "/usr/local/bin");
    assert_eq!(plan.executable, "/usr/local/bin/udev-hid-bpf");
    assert_eq!(plan.target, "/etc/udev-hid-bpf/0010-foo.bpf.o");
    assert_eq!(plan.udev_rule, "/etc/udev/rules.d/99-hid-bpf-0010-foo.rules");
    let plan = plan_install("0010-foo.bpf.o", Some("/opt/x"), 2).unwrap();
    assert_eq!(plan.bindir, "/opt/x/bin");
    assert_eq!(plan.executable, "/opt/x/bin/udev-hid-bpf");
    assert_eq!(plan_install("/tmp/foo.o", None, 1).unwrap_err(), InstallError::NotABpfObject);
    assert_eq!(plan_install("/tmp/foo.bpf.o", None, 0).unwrap_err(), InstallError::NoDevices);
}

#[test]
fn inspected_ids_read_back_as_rule_ids() {
    for (b, g, v, p) in [(3u32, 1u32, 0x45eu32, 0x7a5u32), (0, 0, 0, 0), (0x18, 0x102, 0x1234abcd, u32::MAX)] {
        assert_eq!(device_ids(&inspection_device(b, g, v, p)), Some((b, g, v, p)));
    }
}
