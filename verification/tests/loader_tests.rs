use udev_hid_bpf::device::{hid_id_from_sysname, HidUdev};
use udev_hid_bpf::errors::{BpfError, EINVAL, ENOTSUP};
use udev_hid_bpf::loader::{
    attach_result, bpffs_object_dir, choose_loader, first_attempt, first_load_stage, hid_bpf_probe_args,
    log_level, next_load_action, LoadAction, LoadStage,
    next_attempt, object_name, pin_path_of, probe_result, syscall_status, AttachProgArgs, HidBPF,
    HidBPFStructOps, HidBPFTrace, LoaderKind, MapInfo, PrintLevel, ProgramInfo,
};
use udev_hid_bpf::properties::HidUdevProperty;

fn prop(name: &str, value: &str) -> HidUdevProperty {
    HidUdevProperty { name: name.into(), value: value.into() }
}

fn device() -> HidUdev {
    HidUdev {
        sysname: "0003:045E:07A5.000B".into(),
        syspath: "/sys/devices/pci0000:00/0003:045E:07A5.000B".into(),
        properties: vec![
            prop("SUBSYSTEM", "hid"),
            prop("HID_BPF_10", "0010-foo.bpf.o"),
            prop("MODALIAS", "hid:b0003g0001v0000045Ep000007A5"),
            prop("HID_BPF_20", "0020-bar.bpf.o"),
        ],
    }
}

#[test]
fn device_ids_and_properties() {
    let d = device();
    assert_eq!(d.id(), 11);
    assert_eq!(hid_id_from_sysname("0003:045E:07A5.00FF"), Some(255));
    assert_eq!(hid_id_from_sysname("0003:045E:07A5"), None);
    assert_eq!(d.sysname(), "0003:045E:07A5.000B");
    assert_eq!(d.hid_bpf_properties(), vec!["0010-foo.bpf.o", "0020-bar.bpf.o"]);
    assert_eq!(d.udev_properties().len(), 4);
    assert!(!d.is_ignored());
    let mut ignored = device();
    ignored.properties.push(prop("HID_BPF_IGNORE_DEVICE", "1"));
    assert!(ignored.is_ignored());
    assert_eq!(d.bpffs_dir(), "/sys/fs/bpf/hid/0003_045E_07A5_000B/");
}

#[test]
fn probe_arguments() {
    let d = device();
    let rdesc: Vec<u8> = (0..5000u32).map(|i| (i % 251) as u8).collect();
    let args = hid_bpf_probe_args::from(&d, &rdesc);
    assert_eq!((args.hid, args.rdesc_size, args.retval), (11, 4096, -1));
    assert_eq!(&args.rdesc[..], &rdesc[..4096]);
    let small = hid_bpf_probe_args::from(&d, &[1, 2, 3]);
    assert_eq!(small.rdesc_size, 3);
    assert_eq!(&small.rdesc[..4], &[1, 2, 3, 0]);
    let bytes = small.to_bytes();
    assert_eq!(bytes.len(), 4108);
    assert_eq!(&bytes[..11], &[11, 0, 0, 0, 3, 0, 0, 0, 1, 2, 3]);
    assert_eq!(&bytes[4104..], &[0xff, 0xff, 0xff, 0xff]);
    let attach = AttachProgArgs::new(7, 11);
    assert_eq!(attach.to_bytes(), vec![7, 0, 0, 0, 11, 0, 0, 0, 0xff, 0xff, 0xff, 0xff]);
}

#[test]
fn syscall_return_values() {
    assert_eq!(syscall_status(0), Ok(()));
    assert_eq!(syscall_status(-22), Err(BpfError::OsError { errno: 22 }));
    assert_eq!(attach_result(5), Ok(5));
    assert_eq!(attach_result(0), Ok(0));
    assert_eq!(attach_result(-19), Err(BpfError::OsError { errno: 19 }));
    assert_eq!(probe_result(0), Ok(0));
    assert_eq!(probe_result(-19), Err(BpfError::OsError { errno: 19 }));
    assert_eq!(probe_result(1), Err(BpfError::OsError { errno: (-1i32) as u32 }));
    assert_eq!(syscall_status(i32::MIN), Err(BpfError::OsError { errno: 0x8000_0000 }));
}

#[test]
fn loader_choice() {
    let tracing = ProgramInfo { name: "a".into(), section: "fmodret/hid_bpf_device_event".into(), is_tracing: true };
    let other = ProgramInfo { name: "b".into(), section: "struct_ops/hid_device_event".into(), is_tracing: false };
    let wrong_section = ProgramInfo { name: "c".into(), section: "fentry/x".into(), is_tracing: true };
    assert_eq!(choose_loader(&vec![other.clone(), tracing.clone()]), LoaderKind::Trace);
    assert_eq!(choose_loader(&vec![other.clone(), wrong_section.clone()]), LoaderKind::StructOps);
    assert_eq!(choose_loader(&Vec::new()), LoaderKind::StructOps);
    assert_eq!(HidBPFTrace::programs_to_attach(&vec![other, tracing, wrong_section]), vec![1, 2]);
    assert_eq!(HidBPFTrace::new(true).check_load(), Ok(()));
    assert_eq!(HidBPFTrace::new(false).check_load(), Err(BpfError::OsError { errno: ENOTSUP as u32 }));
    assert_eq!(HidBPFTrace::attached(vec![None, None]), Err(BpfError::OsError { errno: EINVAL as u32 }));
    assert_eq!(
        HidBPFTrace::attached(vec![None, Some("/p/a".into()), Some("/p/b".into())]),
        Ok(vec!["/p/a".to_string(), "/p/b".to_string()])
    );
}

#[test]
fn struct_ops_loading() {
    let mut data = vec![9u8; 8];
    HidBPFStructOps::set_hid_id(&mut data, 0x0102_0304);
    assert_eq!(data, vec![4, 3, 2, 1, 9, 9, 9, 9]);
    assert_eq!(HidBPFStructOps::load_error(true, -2), BpfError::Unsupported);
    assert_eq!(HidBPFStructOps::load_error(false, -13), BpfError::LibBPFError { error: -13 });
}

#[test]
fn pinning() {
    let maps = vec![
        MapInfo { name: "foo.bss".into(), is_struct_ops: false },
        MapInfo { name: "UDEV_PROP_X".into(), is_struct_ops: false },
        MapInfo { name: "ops".into(), is_struct_ops: true },
        MapInfo { name: "hid_jmp_table".into(), is_struct_ops: false },
    ];
    assert_eq!(HidBPF::maps_to_pin(&maps), vec![1, 3]);
    assert_eq!(pin_path_of("/sys/fs/bpf/hid/x/y", "map"), "/sys/fs/bpf/hid/x/y/map");
    assert_eq!(object_name("/lib/firmware/0010-foo.bpf.o"), Some("0010-foo.bpf".to_string()));
    assert_eq!(object_name("/lib/.hidden"), Some(".hidden".to_string()));
    assert_eq!(object_name("/lib/plain"), Some("plain".to_string()));
    assert_eq!(object_name("/"), None);
    assert_eq!(
        bpffs_object_dir("0003:045E:07A5.000B", "/lib/firmware/0010-foo.bpf.o"),
        Some("/sys/fs/bpf/hid/0003_045E_07A5_000B/0010-foo_bpf".to_string())
    );
}

#[test]
fn groups_are_tried_until_one_loads() {
    let sizes = vec![2, 0, 3];
    assert_eq!(first_attempt(&sizes), Some((0, 0)));
    assert_eq!(next_attempt(&sizes, 0, 0, false), Some((0, 1)));
    assert_eq!(next_attempt(&sizes, 0, 0, true), Some((2, 0)));
    assert_eq!(next_attempt(&sizes, 0, 1, false), Some((2, 0)));
    assert_eq!(next_attempt(&sizes, 2, 1, false), Some((2, 2)));
    assert_eq!(next_attempt(&sizes, 2, 2, false), None);
    assert_eq!(next_attempt(&sizes, 2, 0, true), None);
    assert_eq!(first_attempt(&vec![0, 0]), None);
}

#[test]
fn libbpf_message_levels() {
    let msg = "libbpf: elf: skipping unrecognized data section(7) .hid_bpf_config";
    assert_eq!(log_level(PrintLevel::Warn, msg), PrintLevel::Debug);
    assert_eq!(log_level(PrintLevel::Info, "libbpf: elf: skipping relo section(5) .rel.x"), PrintLevel::Debug);
    assert_eq!(log_level(PrintLevel::Warn, "libbpf: elf: skipping unrecognized data section(7) .other"), PrintLevel::Warn);
    assert_eq!(log_level(PrintLevel::Info, "loaded"), PrintLevel::Info);
}

#[test]
fn load_stages_run_in_order_and_stop_at_a_failure() {
    let mut stage = first_load_stage();
    let mut seen = vec![stage];
    while let LoadAction::Run(next) = next_load_action(stage, true) {
        stage = next;
        seen.push(stage);
    }
    assert_eq!(
        seen,
        vec![
            LoadStage::Load,
            LoadStage::InjectUdevProperties,
            LoadStage::InjectReportDescriptor,
            LoadStage::Probe,
            LoadStage::AttachAndPin,
            LoadStage::PinMaps,
        ]
    );
    assert_eq!(next_load_action(LoadStage::PinMaps, true), LoadAction::Finish);
    assert_eq!(next_load_action(LoadStage::Probe, false), LoadAction::Fail);
    assert_eq!(next_load_action(LoadStage::Load, false), LoadAction::Fail);
    assert_eq!(next_load_action(LoadStage::AttachAndPin, false), LoadAction::Fail);
    assert_eq!(next_load_action(LoadStage::PinMaps, false), LoadAction::RemovePinsAndFail);
}
