use udev_hid_bpf::lookup::{choose_objfile, compatible_devices, lookup_paths, match_objects_to_devices, select_bpf_objects};
use udev_hid_bpf::stems::{group_by_stem, sort_by_stem};

fn strings(items: &[&str]) -> Vec<String> {
    items.iter().map(|s| s.to_string()).collect()
}

#[test]
fn test_bpf_stem_sorting() {
    let usr_local = "/tmp/x/usr/local/lib/firmware";
    let usr = "/tmp/x/lib/firmware";
    let files = vec![
        format!("{usr_local}/0010-one.bpf.o"),
        format!("{usr}/0020-ONE.bpf.o"),
        format!("{usr_local}/0010-two.bpf.o"),
        format!("{usr}/0010-three.bpf.o"),
        format!("{usr_local}/0020-three.bpf.o"),
        format!("{usr_local}/0030-THREE.bpf.o"),
    ];
    // The returned list is dict sorted by stem
    let expected: Vec<Vec<String>> = vec![
        vec![format!("{usr}/0020-ONE.bpf.o"), format!("{usr_local}/0010-one.bpf.o")],
        vec![
            format!("{usr_local}/0030-THREE.bpf.o"),
            format!("{usr_local}/0020-three.bpf.o"),
            format!("{usr}/0010-three.bpf.o"),
        ],
        vec![format!("{usr_local}/0010-two.bpf.o")],
    ];
    assert_eq!(sort_by_stem(&files), expected);
}

#[test]
fn stem_groups_keep_ties_in_order() {
    let files = strings(&["/a/0010-x.bpf.o", "/b/0010-x.bpf.o", "/c/nodash.bpf.o", "/d/0020-X.bpf.o"]);
    let sorted = sort_by_stem(&files);
    assert_eq!(
        sorted,
        vec![
            strings(&["/c/nodash.bpf.o"]),
            strings(&["/d/0020-X.bpf.o", "/a/0010-x.bpf.o", "/b/0010-x.bpf.o"]),
        ]
    );
}

#[test]
fn grouping_lists_each_position_once() {
    let stems = strings(&["b", "a", "b", "c", "a"]);
    let keys = strings(&["1", "2", "3", "1", "2"]);
    let groups = group_by_stem(&stems, &keys);
    assert_eq!(groups, vec![vec![1, 4], vec![2, 0], vec![3]]);
    let mut all: Vec<usize> = groups.concat();
    all.sort();
    assert_eq!(all, vec![0, 1, 2, 3, 4]);
    assert!(group_by_stem(&Vec::new(), &Vec::new()).is_empty());
}

#[test]
fn bpf_object_selection() {
    let names = strings(&["0010-one.bpf.o", "0010-ignored.bpf.c", "0010-ignored.o", "0010-two.bpf.o"]);
    assert_eq!(select_bpf_objects(&names), strings(&["0010-one.bpf.o", "0010-two.bpf.o"]));
    let dirs = strings(&["/usr/local/lib/firmware", "/lib/firmware/"]);
    assert_eq!(
        lookup_paths(&dirs, "0010-one.bpf.o"),
        strings(&["/usr/local/lib/firmware/0010-one.bpf.o", "/lib/firmware/0010-one.bpf.o"])
    );
    assert_eq!(lookup_paths(&dirs, "/abs/x.bpf.o"), strings(&["/abs/x.bpf.o", "/abs/x.bpf.o"]));
}

#[test]
fn devices_matching_prefixes() {
    let names = strings(&["0003:045E:07A5.0002", "0005:045E:07A5.0003", "0003:045E:07A5.0004"]);
    let prefixes = strings(&["0003:045E:07A5.", "0003:045E:"]);
    assert_eq!(compatible_devices(&names, &prefixes), vec![0, 0, 2, 2]);
    assert_eq!(compatible_devices(&names, &strings(&["0005:"])), vec![1]);
    assert!(compatible_devices(&names, &Vec::new()).is_empty());
}

#[test]
fn objects_keep_command_line_order() {
    let objects = strings(&["b.bpf.o", "a.bpf.o", "b.bpf.o", "c.bpf.o"]);
    let devices = vec![vec![1], vec![], vec![2, 3], vec![]];
    let plan = match_objects_to_devices(&objects, &devices);
    assert_eq!(
        plan,
        vec![("b.bpf.o".to_string(), vec![1, 2, 3]), ("b.bpf.o".to_string(), vec![1, 2, 3])]
    );
}

#[test]
fn objfile_resolution_looks_up_bare_names() {
    let candidates = strings(&["/usr/local/lib/firmware/x.bpf.o", "/lib/firmware/x.bpf.o"]);
    // A bare name is looked up even when a file of that name exists here.
    assert_eq!(
        choose_objfile("x.bpf.o", true, &candidates, &vec![false, true]),
        Some("/lib/firmware/x.bpf.o".to_string())
    );
    assert_eq!(choose_objfile("x.bpf.o", true, &candidates, &vec![false, false]), None);
    // A path with a directory part that exists is taken as it is.
    assert_eq!(choose_objfile("./x.bpf.o", true, &candidates, &vec![true, true]), Some("./x.bpf.o".to_string()));
    assert_eq!(
        choose_objfile("x.bpf.o", false, &candidates, &vec![true, true]),
        Some("/usr/local/lib/firmware/x.bpf.o".to_string())
    );
}
