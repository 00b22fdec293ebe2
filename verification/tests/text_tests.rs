use udev_hid_bpf::hex::{hex_upper_string, parse_hex_u32};
use udev_hid_bpf::order::chars_lt;
use udev_hid_bpf::paths::{
    bpf_lookup_dirs,
    default_bpf_dirs, device_vid_pid_name, file_name, get_bpffs_path, join_path, list_filter_name, split_chars,
    sysname_to_bpffs, bpffs_to_sysname, InspectionDevice, BPFFS_ROOT,
};
use udev_hid_bpf::text::{str_contains, str_skip_bytes};

fn chars(s: &str) -> Vec<char> {
    s.chars().collect()
}

#[test]
fn hex_parses_like_from_str_radix() {
    for s in ["0", "1f", "+1F", "ffffffff", "FFFFFFFF", "0000000000001", "abc", "+0"] {
        assert_eq!(parse_hex_u32(s), u32::from_str_radix(s, 16).ok(), "{s}");
    }
    for s in ["", "+", "-", "-1", "100000000", "0x10", "g", "1 ", " 1", "++1", "é"] {
        assert_eq!(parse_hex_u32(s), None, "{s}");
        assert!(u32::from_str_radix(s, 16).is_err(), "{s}");
    }
    assert_eq!(parse_hex_u32("045E"), Some(0x45e));
}

#[test]
fn hex_prints_upper_case_padded() {
    assert_eq!(hex_upper_string(0x45e, 8), "0000045E");
    assert_eq!(hex_upper_string(3, 4), "0003");
    assert_eq!(hex_upper_string(0x12345, 4), "12345");
    assert_eq!(hex_upper_string(0, 0), "0");
    assert_eq!(hex_upper_string(u32::MAX, 8), "FFFFFFFF");
    for v in [0u32, 1, 15, 16, 255, 4096, 0xdead_beef] {
        assert_eq!(hex_upper_string(v, 6), format!("{v:06X}"));
    }
}

#[test]
fn file_names_follow_std_path() {
    for p in ["/a/b", "/a/b/", "/a/..", "/", "a/.", "", ".", "./", "a", "/a/./b/.", "..", "a//b", "/sys/blah/0003:04F3:2D4A.0001"] {
        let expected = std::path::Path::new(p).file_name().map(|s| s.to_string_lossy().into_owned());
        assert_eq!(file_name(p), expected, "{p:?}");
    }
}

#[test]
fn joins_follow_std_path() {
    for (base, c) in [("/etc/udev-hid-bpf/", "x.bpf.o"), ("/usr", "bin"), ("", "bin"), ("/usr/", "bin"), ("a", "/abs"), ("a", "")] {
        let expected = std::path::Path::new(base).join(c).to_string_lossy().into_owned();
        assert_eq!(join_path(base, c), expected, "{base:?} {c:?}");
    }
}

#[test]
fn byte_offsets_follow_str_slicing() {
    assert_eq!(str_skip_bytes("0x045E", 2), Some("045E"));
    assert_eq!(str_skip_bytes("x", 2), None);
    assert_eq!(str_skip_bytes("é12", 2), Some("12"));
    assert_eq!(str_skip_bytes("aé1", 2), None);
    assert_eq!(str_skip_bytes("0003:045E:07A5.000B", 15), Some("000B"));
}

#[test]
fn bpffs_paths_replace_colons_and_dots() {
    assert_eq!(BPFFS_ROOT, "/sys/fs/bpf/hid");
    assert_eq!(sysname_to_bpffs("0003:045E:07A5.000B"), "0003_045E_07A5_000B");
    assert_eq!(
        get_bpffs_path("0003:045E:07A5.000B", "0010-foo.bpf"),
        "/sys/fs/bpf/hid/0003_045E_07A5_000B/0010-foo_bpf"
    );
    assert_eq!(get_bpffs_path("0003:045E:07A5.000B", ""), "/sys/fs/bpf/hid/0003_045E_07A5_000B/");
}

#[test]
fn device_name_prefix() {
    let d = InspectionDevice {
        bus: "0x0003".into(),
        group: "0x0001".into(),
        vid: "0x045E".into(),
        pid: "0x07A5".into(),
    };
    assert_eq!(device_vid_pid_name(&d), "0003:045E:07A5.");
}

#[test]
fn split_keeps_empty_pieces() {
    assert_eq!(split_chars("a::b", ':'), vec!["a", "", "b"]);
    assert_eq!(split_chars("", ':'), vec![""]);
    assert_eq!(split_chars("a:", ':'), vec!["a", ""]);
    assert_eq!(default_bpf_dirs(), vec!["/usr/local/lib/firmware/hid/bpf"]);
}

#[test]
fn substrings_and_order() {
    assert!(str_contains("libbpf: skipping relo section x", "skipping relo section"));
    assert!(!str_contains("abc", "abd"));
    assert!(str_contains("abc", ""));
    assert!(chars_lt(&chars("one"), &chars("three")));
    assert!(chars_lt(&chars("ab"), &chars("abc")));
    assert!(!chars_lt(&chars("abc"), &chars("abc")));
    assert!(!chars_lt(&chars("b"), &chars("abc")));
}

#[test]
fn printed_hex_parses_back() {
    for v in [0u32, 7, 0x45e, 0x1000, 0xdead_beef, u32::MAX] {
        for w in [0usize, 4, 8, 12] {
            assert_eq!(parse_hex_u32(&hex_upper_string(v, w)), Some(v));
        }
    }
}

#[test]
fn object_dirs_lie_in_the_device_dir() {
    let device_dir = get_bpffs_path("0003:045E:07A5.000B", "");
    for object in ["0010-foo.bpf", "x", ""] {
        assert!(get_bpffs_path("0003:045E:07A5.000B", object).starts_with(&device_dir));
    }
}

#[test]
fn list_loaded_filter_names() {
    assert_eq!(list_filter_name(Some("0003:056A:0374.0008"), "/x"), "0003_056A_0374_0008");
    assert_eq!(list_filter_name(None, "/sys/bus/hid/devices/0003:056A:0374.0008"), "0003_056A_0374_0008");
    assert_eq!(list_filter_name(None, "0003:056A:0374.0008"), "0003_056A_0374_0008");
    assert_eq!(list_filter_name(None, "/"), "/");
}

#[test]
fn extra_bpf_dir_comes_first() {
    assert_eq!(bpf_lookup_dirs(Some("/tmp/bpf")), vec!["/tmp/bpf", "/usr/local/lib/firmware/hid/bpf"]);
    assert_eq!(bpf_lookup_dirs(None), vec!["/usr/local/lib/firmware/hid/bpf"]);
}

#[test]
fn bpffs_names_give_the_sysname_back() {
    for sysname in ["0003:056A:0374.0008", "0005:045E:0B22.000C", "0018:27C6:0E52.0001"] {
        let name = sysname_to_bpffs(sysname);
        assert_eq!(bpffs_to_sysname(&name), sysname);
    }
    assert_eq!(bpffs_to_sysname("0003_056A_0374_0008"), "0003:056A:0374.0008");
    assert_eq!(bpffs_to_sysname("a_b_c_d_e"), "a:b:c.d_e");
    assert_eq!(bpffs_to_sysname("plain"), "plain");
    assert_eq!(bpffs_to_sysname(""), "");
}
