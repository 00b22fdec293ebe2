use udev_hid_bpf::cli::{parse_list_format, split_paths, unknown_format_message, ListFormat, SplitPathsError};
use udev_hid_bpf::paths::hex_without_prefix;
use udev_hid_bpf::properties::HidUdevProperty;
use udev_hid_bpf::sysfs::sysname_from_syspath;

fn strings(items: &[&str]) -> Vec<String> {
    items.iter().map(|s| s.to_string()).collect()
}

fn tuple_parse(s: &str) -> Result<HidUdevProperty, String> {
    HidUdevProperty::try_from(s)
}

/// Resolves a sysfs link the way the command line does before it asks for
/// the sysname.
fn resolved(syspath: &str) -> String {
    std::path::Path::new(syspath)
        .read_link()
        .map(|p| p.to_string_lossy().into_owned())
        .unwrap_or(syspath.to_string())
}

#[test]
fn test_sysname_resolution() {
    let syspath = "/sys/blah/1234";
    let sysname = sysname_from_syspath(&resolved(syspath));
    assert!(sysname.is_err());

    let syspath = "/sys/blah/0003:04F3:2D4A.0001";
    let sysname = sysname_from_syspath(&resolved(syspath));
    assert!(sysname.unwrap() == "0003:04F3:2D4A.0001");

    let syspath = "/sys/blah/0003:04F3:2D4A-0001";
    let sysname = sysname_from_syspath(&resolved(syspath));
    assert!(sysname.is_err());

    // Only run this test if there's a local hidraw0 device
    let syspath = "/sys/class/hidraw/hidraw0/device";
    if std::path::Path::new(syspath).exists() {
        let sysname = sysname_from_syspath(&resolved(syspath));
        assert!(sysname.is_ok());
    }
}

#[test]
fn test_split_paths() {
    let paths: Vec<String> = strings(&["a"]);
    let (a, b) = split_paths(paths).unwrap();
    assert_eq!(a, vec!["a"]);
    assert_eq!(b, vec![] as Vec<&str>);

    let paths: Vec<String> = strings(&["a", "b"]);
    let (a, b) = split_paths(paths).unwrap();
    assert_eq!(a, vec!["a"]);
    assert_eq!(b, vec!["b"]);

    let paths: Vec<String> = strings(&["a", "b", "c"]);
    let (a, b) = split_paths(paths).unwrap();
    assert_eq!(a, vec!["a", "b", "c"]);
    assert_eq!(b, vec![] as Vec<&str>);

    let paths: Vec<String> = strings(&["a", "b", "-", "c"]);
    let (a, b) = split_paths(paths).unwrap();
    assert_eq!(a, vec!["a", "b"]);
    assert_eq!(b, vec!["c"]);

    let paths: Vec<String> = strings(&["a", "-", "b", "c"]);
    let (a, b) = split_paths(paths).unwrap();
    assert_eq!(a, vec!["a"]);
    assert_eq!(b, vec!["b", "c"] as Vec<&str>);

    let paths: Vec<String> = strings(&["a", "b", "c", "-"]);
    let (a, b) = split_paths(paths).unwrap();
    assert_eq!(a, vec!["a", "b", "c"]);
    assert_eq!(b, vec![] as Vec<&str>);

    let paths: Vec<String> = strings(&["-", "b", "c", "d"]);
    let (a, b) = split_paths(paths).unwrap();
    assert_eq!(a, vec![] as Vec<&str>);
    assert_eq!(b, vec!["b", "c", "d"]);

    let paths: Vec<String> = strings(&["-", "a"]);
    let (a, b) = split_paths(paths).unwrap();
    assert_eq!(a, vec![] as Vec<&str>);
    assert_eq!(b, vec!["a"]);

    let paths: Vec<String> = strings(&["a", "-"]);
    assert!(split_paths(paths).is_err());

    let paths: Vec<String> = strings(&["-"]);
    assert!(split_paths(paths).is_err());
    let paths: Vec<String> = strings(&[""]);
    assert!(split_paths(paths).is_err());
    let paths: Vec<String> = strings(&["a", "-", ""]);
    assert!(split_paths(paths).is_err());
}

#[test]
fn split_paths_errors_name_their_cause() {
    assert_eq!(split_paths(Vec::new()), Err(SplitPathsError::MissingDevice));
    assert_eq!(split_paths(strings(&["a", "-", ""])), Err(SplitPathsError::InvalidPath));
    assert_eq!(split_paths(strings(&["-", "-", "b"])), Err(SplitPathsError::InvalidPath));
    assert_eq!(SplitPathsError::MissingDevice.message(), "At least one device path is required");
    assert_eq!(SplitPathsError::InvalidPath.message(), "Invalid device or object path");
}

#[test]
fn split_paths_keeps_every_path_in_order() {
    let paths = strings(&["a", "b", "-", "c", "d"]);
    let (d, o) = split_paths(paths.clone()).unwrap();
    let mut rebuilt = d.clone();
    rebuilt.push("-".to_string());
    rebuilt.extend(o.clone());
    assert_eq!(rebuilt, paths);
    // Only the first "-" divides; two paths are a device and an object.
    let (d, o) = split_paths(strings(&["x", "y"])).unwrap();
    assert_eq!((d, o), (strings(&["x"]), strings(&["y"])));
}

#[test]
fn test_tuple_parse() {
    let p = tuple_parse("foo=bar").unwrap();
    assert_eq!(p.name, "foo");
    assert_eq!(p.value, "bar");

    let p = tuple_parse("foo=bar=baz").unwrap();
    assert_eq!(p.name, "foo");
    assert_eq!(p.value, "bar=baz");

    let p = tuple_parse("foo=").unwrap();
    assert_eq!(p.name, "foo");
    assert_eq!(p.value, "");

    assert!(tuple_parse("foo bar=baz").is_err());
    assert!(tuple_parse("foo\tbar=baz").is_err());
    assert!(tuple_parse("foobar =baz").is_err());
    assert!(tuple_parse("foobar").is_err());
}

#[test]
fn tuple_parse_error_message() {
    assert_eq!(tuple_parse("foobar").unwrap_err(), "Invalid property format");
    let p = tuple_parse("=x").unwrap();
    assert_eq!((p.name.as_str(), p.value.as_str()), ("", "x"));
}

#[test]
fn test_hex_without_prefix() {
    assert_eq!(hex_without_prefix("0x0"), "0");
    assert_eq!(hex_without_prefix("0"), "0");
    assert_eq!(hex_without_prefix("0x12"), "12");
    assert_eq!(hex_without_prefix("12"), "12");
}

#[test]
fn list_format_is_json_or_udev() {
    assert_eq!(parse_list_format("json"), Some(ListFormat::Json));
    assert_eq!(parse_list_format("udev"), Some(ListFormat::Udev));
    assert_eq!(parse_list_format("yaml"), None);
    assert_eq!(unknown_format_message("yaml"), "Unknown format 'yaml', expected 'json' or 'udev'");
}
