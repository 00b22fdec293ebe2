//! Finding BPF objects and the devices they are for.
use vstd::prelude::*;
use vstd::string::*;
use crate::text::{has_prefix, has_suffix, has_char, str_ends_with, str_starts_with};
use crate::cli::string_views;
use crate::install::BPF_OBJECT_SUFFIX;
use crate::paths::{path_join, join_path, lookup_dirs};

verus! {

// ---------------------------------------------------------------------
// Objects named on the command line or in udev properties
// ---------------------------------------------------------------------

/// The names among `names` that end in `.bpf.o`, in order.
pub open spec fn bpf_object_names(names: Seq<Seq<char>>) -> Seq<Seq<char>>
    decreases names.len(),
{
    if names.len() == 0 {
        Seq::empty()
    } else if has_suffix(names.last(), BPF_OBJECT_SUFFIX@) {
        bpf_object_names(names.drop_last()).push(names.last())
    } else {
        bpf_object_names(names.drop_last())
    }
}

/// The names that can be BPF objects (they end in `.bpf.o`), in order;
/// anything else is ignored.
pub fn select_bpf_objects(names: &Vec<String>) -> (r: Vec<String>)
    ensures
        string_views(r@) == bpf_object_names(string_views(names@)),
{
    let mut out: Vec<String> = Vec::new();
    let mut i: usize = 0;
    while i < names.len()
        invariant
            i <= names@.len(),
            string_views(out@) =~= bpf_object_names(string_views(names@).take(i as int)),
        decreases names@.len() - i,
    {
        assert(string_views(names@).take(i + 1).drop_last() =~= string_views(names@).take(i as int));
        assert(string_views(names@).take(i + 1).last() == names@[i as int]@);
        if str_ends_with(names[i].as_str(), BPF_OBJECT_SUFFIX) {
            let ghost before = out@;
            out.push(names[i].clone());
            assert(string_views(out@) =~= string_views(before).push(names@[i as int]@));
        }
        i = i + 1;
    }
    assert(string_views(names@).take(names@.len() as int) =~= string_views(names@));
    out
}

/// Where a file named `name` is looked for, in order of preference: in
/// each directory of `dirs` in turn.
pub open spec fn lookup_candidates(dirs: Seq<Seq<char>>, name: Seq<char>) -> Seq<Seq<char>> {
    dirs.map_values(|d: Seq<char>| path_join(d, name))
}

/// The paths at which a file named `name` is looked for, one per directory
/// and in the directories' order; the first that is a file wins.
pub fn lookup_paths(dirs: &Vec<String>, name: &str) -> (r: Vec<String>)
    ensures
        string_views(r@) == lookup_candidates(string_views(dirs@), name@),
{
    let mut out: Vec<String> = Vec::new();
    let mut i: usize = 0;
    while i < dirs.len()
        invariant
            i <= dirs@.len(),
            string_views(out@) =~= lookup_candidates(string_views(dirs@), name@).take(i as int),
        decreases dirs@.len() - i,
    {
        let p = join_path(dirs[i].as_str(), name);
        let ghost before = out@;
        out.push(p);
        assert(string_views(out@) =~= string_views(before).push(p@));
        i = i + 1;
    }
    assert(lookup_candidates(string_views(dirs@), name@).take(dirs@.len() as int) =~= lookup_candidates(
        string_views(dirs@),
        name@,
    ));
    out
}

/// The position of the first `true` in `flags`, if any.
pub open spec fn first_true(flags: Seq<bool>) -> Option<int>
    decreases flags.len(),
{
    if flags.len() == 0 {
        None
    } else if flags[0] {
        Some(0)
    } else {
        match first_true(flags.drop_first()) {
            Some(i) => Some(i + 1),
            None => None,
        }
    }
}

/// Whether a name has a directory part (holds a `/`): only such a name is
/// a path of its own; a bare file name is looked up in the directories.
pub open spec fn has_directory_part(name: Seq<char>) -> bool {
    has_char(name, '/')
}

/// Which file a named object resolves to: a name with a directory part that
/// is an existing path (`exists`) is taken as it is; otherwise, and for
/// every bare file name, the first of the lookup paths (`candidates`, see
/// `lookup_paths`) that is a file (`is_file`), if any.
pub open spec fn chosen_objfile(name: Seq<char>, exists: bool, candidates: Seq<Seq<char>>, is_file: Seq<bool>) -> Option<Seq<char>> {
    if has_directory_part(name) && exists {
        Some(name)
    } else {
        match first_true(is_file) {
            Some(i) => if i < candidates.len() {
                Some(candidates[i])
            } else {
                None
            },
            None => None,
        }
    }
}

/// The file a named object resolves to: a path with a directory part that
/// exists is taken as it is; a bare file name (or a path that does not
/// exist) is looked up, and the first lookup path that is a file wins;
/// `is_file[i]` tells whether `candidates[i]` is one.
pub fn choose_objfile(name: &str, exists: bool, candidates: &Vec<String>, is_file: &Vec<bool>) -> (r: Option<String>)
    ensures
        match chosen_objfile(name@, exists, string_views(candidates@), is_file@) {
            Some(p) => r matches Some(s) && s@ == p,
            None => r is None,
        },
{
    if exists && crate::text::find_char(crate::text::chars_of(name).as_slice(), '/').is_some() {
        proof {
            crate::text::lemma_first_index_of(name@, '/');
        }
        return Some(crate::text::string_of(name));
    }
    proof {
        crate::text::lemma_first_index_of(name@, '/');
    }
    let mut i: usize = 0;
    assert(is_file@.skip(0) =~= is_file@);
    while i < is_file.len()
        invariant
            !(has_directory_part(name@) && exists),
            i <= is_file@.len(),
            first_true(is_file@) == match first_true(is_file@.skip(i as int)) {
                Some(k) => Some(k + i),
                None => None::<int>,
            },
        decreases is_file@.len() - i,
    {
        assert(is_file@.skip(i as int).drop_first() =~= is_file@.skip(i + 1));
        if is_file[i] {
            assert(is_file@.skip(i as int)[0] == is_file@[i as int]);
            assert(first_true(is_file@) == Some(i as int));
            if i < candidates.len() {
                return Some(candidates[i].clone());
            }
            return None;
        }
        i = i + 1;
    }
    None
}

/// `--bpfdir` takes precedence over the built-in directories: an object
/// given by a bare file name that is a file in the extra directory is taken
/// from there, whatever else exists, in the current directory too.
pub proof fn lemma_extra_dir_takes_precedence(d: Seq<char>, name: Seq<char>, exists: bool, is_file: Seq<bool>)
    requires
        !has_directory_part(name),
        is_file.len() > 0,
        is_file[0],
    ensures
        chosen_objfile(name, exists, lookup_candidates(lookup_dirs(Some(d)), name), is_file) == Some(
            path_join(d, name),
        ),
{
    assert(lookup_dirs(Some(d))[0] == d);
}

// ---------------------------------------------------------------------
// Devices that an object declares
// ---------------------------------------------------------------------

/// `i`, once for each prefix in `prefixes` that `name` starts with.
pub open spec fn prefix_hits(i: usize, name: Seq<char>, prefixes: Seq<Seq<char>>) -> Seq<usize>
    decreases prefixes.len(),
{
    if prefixes.len() == 0 {
        Seq::empty()
    } else if has_prefix(name, prefixes.last()) {
        prefix_hits(i, name, prefixes.drop_last()).push(i)
    } else {
        prefix_hits(i, name, prefixes.drop_last())
    }
}

/// The positions of the device names that start with one of the prefixes,
/// device by device, a device once for each prefix it starts with.
pub open spec fn compatible_positions(names: Seq<Seq<char>>, prefixes: Seq<Seq<char>>) -> Seq<usize>
    decreases names.len(),
{
    if names.len() == 0 {
        Seq::empty()
    } else {
        compatible_positions(names.drop_last(), prefixes) + prefix_hits(
            (names.len() - 1) as usize,
            names.last(),
            prefixes,
        )
    }
}

/// The devices (by position in `names`, their sysfs names such as
/// `0003:045E:07A5.0002`) whose names start with one of the `BUS:VID:PID.`
/// prefixes an object declares; a device is listed once per prefix it
/// starts with.
pub fn compatible_devices(names: &Vec<String>, prefixes: &Vec<String>) -> (r: Vec<usize>)
    ensures
        r@ == compatible_positions(string_views(names@), string_views(prefixes@)),
{
    let ghost ps = string_views(prefixes@);
    let mut out: Vec<usize> = Vec::new();
    let mut i: usize = 0;
    while i < names.len()
        invariant
            i <= names@.len(),
            ps == string_views(prefixes@),
            out@ =~= compatible_positions(string_views(names@).take(i as int), ps),
        decreases names@.len() - i,
    {
        let ghost base = out@;
        let mut j: usize = 0;
        while j < prefixes.len()
            invariant
                i < names@.len(),
                j <= prefixes@.len(),
                ps == string_views(prefixes@),
                out@ =~= base + prefix_hits(i, names@[i as int]@, ps.take(j as int)),
            decreases prefixes@.len() - j,
        {
            assert(ps.take(j + 1).drop_last() =~= ps.take(j as int));
            assert(ps.take(j + 1).last() == prefixes@[j as int]@);
            if str_starts_with(names[i].as_str(), prefixes[j].as_str()) {
                out.push(i);
            }
            j = j + 1;
        }
        proof {
            let ns = string_views(names@);
            assert(ps.take(prefixes@.len() as int) =~= ps);
            assert(ns.take(i + 1).drop_last() =~= ns.take(i as int));
            assert(ns.take(i + 1).last() == names@[i as int]@);
            assert(ns.take(i + 1).len() - 1 == i);
        }
        i = i + 1;
    }
    assert(string_views(names@).take(names@.len() as int) =~= string_views(names@));
    out
}

/// The devices of all entries for the object `object`: the lists of the
/// entries whose object is `object`, joined in order.
pub open spec fn devices_of_object(objects: Seq<Seq<char>>, devices: Seq<Seq<usize>>, object: Seq<char>) -> Seq<usize>
    decreases objects.len(),
{
    if objects.len() == 0 || devices.len() == 0 {
        Seq::empty()
    } else if objects.last() == object {
        devices_of_object(objects.drop_last(), devices.drop_last(), object) + devices.last()
    } else {
        devices_of_object(objects.drop_last(), devices.drop_last(), object)
    }
}

fn devices_of(objects: &Vec<String>, devices: &Vec<Vec<usize>>, object: &str) -> (r: Vec<usize>)
    requires
        objects@.len() == devices@.len(),
    ensures
        r@ == devices_of_object(string_views(objects@), device_lists(devices@), object@),
{
    let ghost os = string_views(objects@);
    let ghost ds = device_lists(devices@);
    let mut out: Vec<usize> = Vec::new();
    let mut i: usize = 0;
    while i < objects.len()
        invariant
            i <= objects@.len(),
            objects@.len() == devices@.len(),
            os == string_views(objects@),
            ds == device_lists(devices@),
            out@ =~= devices_of_object(os.take(i as int), ds.take(i as int), object@),
        decreases objects@.len() - i,
    {
        assert(os.take(i + 1).drop_last() =~= os.take(i as int));
        assert(ds.take(i + 1).drop_last() =~= ds.take(i as int));
        assert(os.take(i + 1).last() == objects@[i as int]@);
        assert(ds.take(i + 1).last() == devices@[i as int]@);
        if crate::text::str_eq(objects[i].as_str(), object) {
            let mut j: usize = 0;
            let ghost base = out@;
            while j < devices[i].len()
                invariant
                    i < devices@.len(),
                    j <= devices@[i as int]@.len(),
                    out@ =~= base + devices@[i as int]@.take(j as int),
                decreases devices@[i as int]@.len() - j,
            {
                out.push(devices[i][j]);
                j = j + 1;
            }
            assert(devices@[i as int]@.take(j as int) =~= devices@[i as int]@);
        }
        i = i + 1;
    }
    assert(os.take(objects@.len() as int) =~= os);
    assert(ds.take(objects@.len() as int) =~= ds);
    out
}

/// The first `n` objects in the order given, each with all the devices
/// found for it, leaving out those with none.
pub open spec fn objects_to_load(objects: Seq<Seq<char>>, devices: Seq<Seq<usize>>, n: nat) -> Seq<
    (Seq<char>, Seq<usize>),
>
    decreases n,
{
    if n == 0 {
        Seq::empty()
    } else {
        let o = objects[n - 1];
        let found = devices_of_object(objects, devices, o);
        let rest = objects_to_load(objects, devices, (n - 1) as nat);
        if found.len() == 0 {
            rest
        } else {
            rest.push((o, found))
        }
    }
}

/// The device lists of `devices`.
pub open spec fn device_lists(devices: Seq<Vec<usize>>) -> Seq<Seq<usize>> {
    devices.map_values(|v: Vec<usize>| v@)
}

/// Pairs each object named on the command line (in that order) with all
/// the devices that were found for any entry of the same name, and drops
/// the objects for which none was found.  `devices[i]` lists the devices
/// found for `objects[i]`.  The devices are gathered per name, but the
/// command line is walked entry by entry, so an object named twice comes
/// twice, each time with the devices found for both entries.
pub fn match_objects_to_devices(objects: &Vec<String>, devices: &Vec<Vec<usize>>) -> (r: Vec<(String, Vec<usize>)>)
    requires
        objects@.len() == devices@.len(),
    ensures
        ({
            let expected = objects_to_load(string_views(objects@), device_lists(devices@), objects@.len());
            &&& r@.len() == expected.len()
            &&& forall|k: int|
                0 <= k < r@.len() ==> (#[trigger] r@[k]).0@ == expected[k].0 && r@[k].1@ == expected[k].1
        }),
{
    let ghost os = string_views(objects@);
    let ghost ds = device_lists(devices@);
    let mut out: Vec<(String, Vec<usize>)> = Vec::new();
    let mut i: usize = 0;
    while i < objects.len()
        invariant
            i <= objects@.len(),
            objects@.len() == devices@.len(),
            os == string_views(objects@),
            ds == device_lists(devices@),
            out@.len() == objects_to_load(os, ds, i as nat).len(),
            forall|k: int|
                0 <= k < out@.len() ==> (#[trigger] out@[k]).0@ == objects_to_load(os, ds, i as nat)[k].0
                    && out@[k].1@ == objects_to_load(os, ds, i as nat)[k].1,
        decreases objects@.len() - i,
    {
        let found = devices_of(objects, devices, objects[i].as_str());
        assert(objects@[i as int]@ == os[i as int]);
        if found.len() > 0 {
            let ghost o0 = out@;
            out.push((objects[i].clone(), found));
            proof {
                assert forall|k: int| 0 <= k < out@.len() implies (#[trigger] out@[k]).0@ == objects_to_load(
                    os,
                    ds,
                    (i + 1) as nat,
                )[k].0 && out@[k].1@ == objects_to_load(os, ds, (i + 1) as nat)[k].1 by {
                    if k < o0.len() {
                        assert(out@[k] == o0[k]);
                    }
                }
            }
        }
        i = i + 1;
    }
    out
}

} // verus!
