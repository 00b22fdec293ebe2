//! Names and paths: bpffs locations, command line path lists, hex
//! prefixes, device ids and lookup directories.
use vstd::prelude::*;
use vstd::string::*;
use crate::text::{
    chars_of, push_char, push_str_chars, string_from_chars, find_char_from, first_index_of,
    lemma_first_index_of,
};

verus! {

/// Where HID-BPF objects are pinned.
pub const BPFFS_ROOT: &'static str = "/sys/fs/bpf/hid";

/// The built-in directories searched for BPF objects, separated by `:`.
pub const DEFAULT_BPF_DIRS: &'static str = "/usr/local/lib/firmware/hid/bpf";

// ---------------------------------------------------------------------
// bpffs paths
// ---------------------------------------------------------------------

/// `s` with every `:` and `.` replaced by `_`, as names in bpffs are.
pub open spec fn bpffs_name(s: Seq<char>) -> Seq<char> {
    s.map_values(|c: char| if c == ':' || c == '.' { '_' } else { c })
}

/// Appends `s` to `out` with every `:` and `.` replaced by `_`.
fn push_bpffs_name(out: &mut String, s: &str)
    ensures
        final(out)@ == old(out)@ + bpffs_name(s@),
{
    let v = chars_of(s);
    let ghost start = out@;
    let mut i: usize = 0;
    while i < v.len()
        invariant
            v@ == s@,
            i <= v@.len(),
            out@ == start + bpffs_name(v@.take(i as int)),
        decreases v@.len() - i,
    {
        let c = v[i];
        let d = if c == ':' || c == '.' {
            '_'
        } else {
            c
        };
        push_char(out, d);
        assert(bpffs_name(v@.take(i + 1)) =~= bpffs_name(v@.take(i as int)).push(d));
        i = i + 1;
    }
    assert(v@.take(v@.len() as int) =~= v@);
}

/// The name of a device's directory in bpffs: its sysname with `:` and
/// `.` replaced by `_`.
pub fn sysname_to_bpffs(sysname: &str) -> (r: String)
    ensures
        r@ == bpffs_name(sysname@),
{
    let mut s = String::new();
    push_bpffs_name(&mut s, sysname);
    assert(s@ =~= bpffs_name(sysname@));
    s
}

/// The number of `_` in `s`.
pub open spec fn underscores(s: Seq<char>) -> nat
    decreases s.len(),
{
    if s.len() == 0 {
        0
    } else {
        underscores(s.drop_last()) + if s.last() == '_' {
            1nat
        } else {
            0nat
        }
    }
}

/// What the `k`-th `_` (counting from 0) of a device's bpffs name stands for
/// in its sysname `BBBB:VVVV:PPPP.NNNN`: the first two are `:`, the third
/// is `.`; any further one stays as it is.
pub open spec fn sysname_separator(k: nat) -> char {
    if k < 2 {
        ':'
    } else if k == 2 {
        '.'
    } else {
        '_'
    }
}

/// The sysname that a device's bpffs name stands for: each `_` is put back
/// as the separator at its place in `BBBB:VVVV:PPPP.NNNN`.
pub open spec fn sysname_of_bpffs(name: Seq<char>) -> Seq<char> {
    Seq::new(
        name.len(),
        |i: int|
            if name[i] == '_' {
                sysname_separator(underscores(name.take(i)))
            } else {
                name[i]
            },
    )
}

/// The HID sysname that the bpffs directory name of a device stands for.
pub fn bpffs_to_sysname(name: &str) -> (r: String)
    ensures
        r@ == sysname_of_bpffs(name@),
{
    let v = chars_of(name);
    let mut s = String::new();
    let mut k: usize = 0;
    let mut i: usize = 0;
    while i < v.len()
        invariant
            v@ == name@,
            i <= v@.len(),
            k <= i,
            k == underscores(v@.take(i as int)),
            s@ == sysname_of_bpffs(v@).take(i as int),
        decreases v@.len() - i,
    {
        let c = v[i];
        assert(v@.take(i + 1).drop_last() =~= v@.take(i as int));
        if c == '_' {
            let d = if k < 2 {
                ':'
            } else if k == 2 {
                '.'
            } else {
                '_'
            };
            push_char(&mut s, d);
            k = k + 1;
        } else {
            push_char(&mut s, c);
        }
        assert(s@ =~= sysname_of_bpffs(v@).take(i + 1));
        i = i + 1;
    }
    assert(sysname_of_bpffs(v@).take(v@.len() as int) =~= sysname_of_bpffs(v@));
    s
}

/// A HID sysname: bus, vendor and product id and instance, four
/// hexadecimal digits each, as `BBBB:VVVV:PPPP.NNNN`.
pub open spec fn is_hid_sysname(s: Seq<char>) -> bool {
    &&& s.len() == 19
    &&& forall|i: int|
        0 <= i < 19 ==> if i == 4 || i == 9 {
            s[i] == ':'
        } else if i == 14 {
            s[i] == '.'
        } else {
            crate::hex::hex_digit_value(#[trigger] s[i]) is Some
        }
}

/// How many `_` come before place `i` in the bpffs name of a HID sysname.
proof fn lemma_hid_bpffs_underscores(s: Seq<char>, i: int)
    requires
        is_hid_sysname(s),
        0 <= i <= 19,
    ensures
        underscores(bpffs_name(s).take(i)) == (if i > 4 {
            1int
        } else {
            0int
        }) + (if i > 9 {
            1int
        } else {
            0int
        }) + (if i > 14 {
            1int
        } else {
            0int
        }),
    decreases i,
{
    if i > 0 {
        lemma_hid_bpffs_underscores(s, i - 1);
        assert(bpffs_name(s).take(i).drop_last() =~= bpffs_name(s).take(i - 1));
        assert(s[i - 1] == s[i - 1]);
    }
}

/// The bpffs name of a HID sysname gives the sysname back.
pub proof fn lemma_bpffs_name_round_trip(s: Seq<char>)
    requires
        is_hid_sysname(s),
    ensures
        sysname_of_bpffs(bpffs_name(s)) == s,
{
    let b = bpffs_name(s);
    assert forall|i: int| 0 <= i < 19 implies sysname_of_bpffs(b)[i] == s[i] by {
        lemma_hid_bpffs_underscores(s, i);
        assert(s[i] == s[i]);
    }
    assert(sysname_of_bpffs(b) =~= s);
}

/// The bpffs directory of a device's BPF object.
pub open spec fn bpffs_path(sysname: Seq<char>, object: Seq<char>) -> Seq<char> {
    BPFFS_ROOT@ + seq!['/'] + bpffs_name(sysname) + seq!['/'] + bpffs_name(object)
}

/// The directory where the BPF object `object` of device `sysname` is
/// pinned: `/sys/fs/bpf/hid/<sysname>/<object>`, both names with `:` and
/// `.` replaced by `_`.  With an empty object name it is the device's
/// directory followed by `/`.
pub fn get_bpffs_path(sysname: &str, object: &str) -> (r: String)
    ensures
        r@ == bpffs_path(sysname@, object@),
{
    let mut s = String::new();
    push_str_chars(&mut s, BPFFS_ROOT);
    push_char(&mut s, '/');
    push_bpffs_name(&mut s, sysname);
    push_char(&mut s, '/');
    push_bpffs_name(&mut s, object);
    assert(s@ =~= bpffs_path(sysname@, object@));
    s
}

/// Everything pinned for a device lies in its directory: the directory of
/// any of its objects starts with the device's directory (the path with an
/// empty object name), which is what removing a device's objects deletes.
pub proof fn lemma_object_dirs_under_device_dir(sysname: Seq<char>, object: Seq<char>)
    ensures
        crate::text::has_prefix(bpffs_path(sysname, object), bpffs_path(sysname, Seq::empty())),
{
    let d = bpffs_path(sysname, Seq::empty());
    assert(bpffs_name(Seq::<char>::empty()) =~= Seq::<char>::empty());
    assert(bpffs_path(sysname, object).subrange(0, d.len() as int) =~= d);
}

// ---------------------------------------------------------------------
// Hex prefixes and device names
// ---------------------------------------------------------------------

/// `s` without a leading `0x`, if it has one.
pub open spec fn spec_hex_without_prefix(s: Seq<char>) -> Seq<char> {
    if s.len() >= 2 && s[0] == '0' && s[1] == 'x' {
        s.skip(2)
    } else {
        s
    }
}

/// Remove the "0x" prefix from a string, if it exists.
pub fn hex_without_prefix(s: &str) -> (r: &str)
    ensures
        r@ == spec_hex_without_prefix(s@),
{
    let n = s.unicode_len();
    if n >= 2 && s.get_char(0) == '0' && s.get_char(1) == 'x' {
        s.substring_char(2, n)
    } else {
        s
    }
}

/// A device a BPF object declares itself for, each id as a `0x`-prefixed
/// hex string.
#[derive(Debug, Clone)]
pub struct InspectionDevice {
    pub bus: String,
    pub group: String,
    pub vid: String,
    pub pid: String,
}

/// The prefix `BUS:VID:PID.` that the sysnames of matching devices start with.
pub open spec fn vid_pid_prefix(d: InspectionDevice) -> Seq<char> {
    spec_hex_without_prefix(d.bus@) + seq![':'] + spec_hex_without_prefix(d.vid@) + seq![':']
        + spec_hex_without_prefix(d.pid@) + seq!['.']
}

/// The prefix `BUS:VID:PID.` that the sysnames (e.g. `0003:045E:07A5.0002`)
/// of the devices matching `device` start with.
pub fn device_vid_pid_name(device: &InspectionDevice) -> (r: String)
    ensures
        r@ == vid_pid_prefix(*device),
{
    let bus = hex_without_prefix(device.bus.as_str());
    let vid = hex_without_prefix(device.vid.as_str());
    let pid = hex_without_prefix(device.pid.as_str());
    let mut s = String::new();
    push_str_chars(&mut s, bus);
    push_char(&mut s, ':');
    push_str_chars(&mut s, vid);
    push_char(&mut s, ':');
    push_str_chars(&mut s, pid);
    push_char(&mut s, '.');
    assert(s@ =~= vid_pid_prefix(*device));
    s
}

// ---------------------------------------------------------------------
// Lookup directories
// ---------------------------------------------------------------------

/// The pieces of `s` between `sep` characters (`str::split`), empty pieces
/// included.
pub open spec fn split_on(s: Seq<char>, sep: char) -> Seq<Seq<char>>
    decreases s.len(),
{
    match first_index_of(s, sep) {
        Some(i) => {
            proof {
                lemma_first_index_of(s, sep);
            }
            seq![s.take(i)] + split_on(s.skip(i + 1), sep)
        },
        None => seq![s],
    }
}

/// The pieces of `s` between `sep` characters, empty pieces included.
pub fn split_chars(s: &str, sep: char) -> (r: Vec<String>)
    ensures
        r@.len() == split_on(s@, sep).len(),
        forall|i: int| 0 <= i < r@.len() ==> (#[trigger] r@[i])@ == split_on(s@, sep)[i],
{
    let v = chars_of(s);
    let mut out: Vec<String> = Vec::new();
    let mut start: usize = 0;
    let total = v.len();
    assert(v@.skip(0) =~= v@);
    loop
        invariant
            v@ == s@,
            total == v@.len(),
            start <= v@.len(),
            out@.len() + split_on(v@.skip(start as int), sep).len() == split_on(s@, sep).len(),
            forall|i: int| 0 <= i < out@.len() ==> (#[trigger] out@[i])@ == split_on(s@, sep)[i],
            forall|i: int|
                0 <= i < split_on(v@.skip(start as int), sep).len() ==> split_on(s@, sep)[out@.len()
                    + i] == #[trigger] split_on(v@.skip(start as int), sep)[i],
        decreases v@.len() - start,
    {
        let ghost rest = v@.skip(start as int);
        match find_char_from(v.as_slice(), start, sep) {
            Some(i) => {
                proof {
                    lemma_first_index_of(rest, sep);
                    assert(rest.take(i - start) =~= v@.subrange(start as int, i as int));
                    assert(rest.skip(i - start + 1) =~= v@.skip(i + 1));
                    assert(split_on(rest, sep) == seq![rest.take(i - start)] + split_on(v@.skip(i + 1), sep));
                }
                let piece = string_from_chars(v.as_slice(), start, i);
                let ghost n: int = out@.len() as int;
                let ghost next = v@.skip(i + 1);
                let ghost st = start;
                assert(i < v@.len());
                proof {
                    assert(split_on(rest, sep)[0] == rest.take(i - start));
                    assert(split_on(s@, sep)[n + 0] == split_on(rest, sep)[0]);
                    assert forall|k: int| 0 <= k < split_on(next, sep).len() implies split_on(s@, sep)[n + 1
                        + k] == #[trigger] split_on(next, sep)[k] by {
                        assert(split_on(rest, sep)[k + 1] == split_on(next, sep)[k]);
                        assert(split_on(s@, sep)[n + (k + 1)] == split_on(rest, sep)[k + 1]);
                    }
                }
                out.push(piece);
                start = i + 1;
                proof {
                    assert forall|j: int| 0 <= j < out@.len() implies (#[trigger] out@[j])@ == split_on(s@, sep)[j] by {
                        if j == n {
                            assert(out@[j]@ == rest.take(i - st));
                        }
                    }
                }
            },
            None => {
                let piece = string_from_chars(v.as_slice(), start, v.len());
                let ghost n: int = out@.len() as int;
                proof {
                    assert(v@.subrange(start as int, v@.len() as int) =~= rest);
                    assert(split_on(rest, sep) == seq![rest]);
                    assert(split_on(s@, sep)[n + 0] == split_on(rest, sep)[0]);
                }
                out.push(piece);
                proof {
                    assert forall|j: int| 0 <= j < out@.len() implies (#[trigger] out@[j])@ == split_on(s@, sep)[j] by {
                        if j == n {
                            assert(out@[j]@ == rest);
                        }
                    }
                }
                return out;
            },
        }
    }
}

/// The built-in directories searched for BPF objects.
pub fn default_bpf_dirs() -> (r: Vec<String>)
    ensures
        r@.len() == split_on(DEFAULT_BPF_DIRS@, ':').len(),
        forall|i: int| 0 <= i < r@.len() ==> (#[trigger] r@[i])@ == split_on(DEFAULT_BPF_DIRS@, ':')[i],
{
    split_chars(DEFAULT_BPF_DIRS, ':')
}

} // verus!

verus! {

// ---------------------------------------------------------------------
// Path joining and file names, as `std::path` does them on Unix
// ---------------------------------------------------------------------

/// `Path::new(base).join(component)`: an absolute component replaces the
/// base; otherwise a `/` goes between them unless the base is empty or
/// already ends in one.
pub open spec fn path_join(base: Seq<char>, component: Seq<char>) -> Seq<char> {
    if component.len() > 0 && component[0] == '/' {
        component
    } else if base.len() == 0 || base.last() == '/' {
        base + component
    } else {
        base + seq!['/'] + component
    }
}

/// Joins `component` onto `base` as `Path::join` does.
pub fn join_path(base: &str, component: &str) -> (r: String)
    ensures
        r@ == path_join(base@, component@),
{
    let mut s = String::new();
    let n = base.unicode_len();
    if component.unicode_len() > 0 && component.get_char(0) == '/' {
        push_str_chars(&mut s, component);
        assert(s@ =~= path_join(base@, component@));
        return s;
    }
    push_str_chars(&mut s, base);
    if !(n == 0 || base.get_char(n - 1) == '/') {
        push_char(&mut s, '/');
    }
    push_str_chars(&mut s, component);
    assert(s@ =~= path_join(base@, component@));
    s
}

/// The last piece among `pieces` that is neither empty nor `.`.
pub open spec fn last_component(pieces: Seq<Seq<char>>) -> Option<Seq<char>>
    decreases pieces.len(),
{
    if pieces.len() == 0 {
        None
    } else if pieces.last().len() == 0 || pieces.last() == seq!['.'] {
        last_component(pieces.drop_last())
    } else {
        Some(pieces.last())
    }
}

/// `Path::new(p).file_name()`: the last component of the path, unless the
/// path has none (empty, `/`, `.`) or ends in `..`.
pub open spec fn path_file_name(p: Seq<char>) -> Option<Seq<char>> {
    match last_component(split_on(p, '/')) {
        Some(c) => if c == seq!['.', '.'] {
            None
        } else {
            Some(c)
        },
        None => None,
    }
}

/// The final component of a path, as `Path::file_name` gives it.
pub fn file_name(p: &str) -> (r: Option<String>)
    ensures
        match path_file_name(p@) {
            Some(c) => r matches Some(s) && s@ == c,
            None => r is None,
        },
{
    let pieces = split_chars(p, '/');
    let ghost all = split_on(p@, '/');
    let mut i = pieces.len();
    assert(all.take(i as int) =~= all);
    while i > 0
        invariant
            i <= pieces@.len(),
            all == split_on(p@, '/'),
            pieces@.len() == all.len(),
            forall|k: int| 0 <= k < pieces@.len() ==> (#[trigger] pieces@[k])@ == all[k],
            last_component(all.take(i as int)) == last_component(all),
        decreases i,
    {
        let piece = pieces[i - 1].as_str();
        let m = piece.unicode_len();
        assert(all.take(i as int).last() == piece@);
        assert(all.take(i as int).drop_last() =~= all.take(i - 1));
        if m == 0 || (m == 1 && piece.get_char(0) == '.') {
            assert(m == 1 ==> piece@ =~= seq!['.']);
            i = i - 1;
        } else {
            assert(piece@ != seq!['.']);
            assert(piece@.len() != 0);
            assert(last_component(all.take(i as int)) == Some(piece@));
            let is_parent = m == 2 && piece.get_char(0) == '.' && piece.get_char(1) == '.';
            assert(is_parent == (piece@ == seq!['.', '.'])) by {
                if m == 2 {
                    assert(is_parent ==> piece@ =~= seq!['.', '.']);
                }
            }
            if is_parent {
                return None;
            }
            return Some(pieces[i - 1].clone());
        }
    }
    assert(all.take(0) =~= Seq::<Seq<char>>::empty());
    None
}

} // verus!

verus! {

/// The bpffs name that `list-loaded --syspath` filters on: that of the
/// device's sysname when the path leads to a HID device (`device_sysname`),
/// otherwise that of the path's file name, or of the whole argument when
/// it has none (it is then taken to be a sysname).
pub open spec fn list_filter(device_sysname: Option<Seq<char>>, syspath: Seq<char>) -> Seq<char> {
    match device_sysname {
        Some(s) => bpffs_name(s),
        None => match path_file_name(syspath) {
            Some(f) => bpffs_name(f),
            None => bpffs_name(syspath),
        },
    }
}

/// The bpffs name to list for a `--syspath` argument, given the sysname of
/// the HID device it leads to, if any.
pub fn list_filter_name(device_sysname: Option<&str>, syspath: &str) -> (r: String)
    ensures
        r@ == list_filter(
            match device_sysname {
                Some(s) => Some(s@),
                None => None,
            },
            syspath@,
        ),
{
    match device_sysname {
        Some(s) => sysname_to_bpffs(s),
        None => match file_name(syspath) {
            Some(f) => sysname_to_bpffs(f.as_str()),
            None => sysname_to_bpffs(syspath),
        },
    }
}

} // verus!

verus! {

/// The directories searched for BPF objects named without a path: the one
/// given with `--bpfdir` first, then the built-in ones.
pub open spec fn lookup_dirs(bpfdir: Option<Seq<char>>) -> Seq<Seq<char>> {
    match bpfdir {
        Some(d) => seq![d] + split_on(DEFAULT_BPF_DIRS@, ':'),
        None => split_on(DEFAULT_BPF_DIRS@, ':'),
    }
}

/// The directories searched for BPF objects, in order of preference: an
/// extra directory takes precedence over the built-in ones.
pub fn bpf_lookup_dirs(bpfdir: Option<&str>) -> (r: Vec<String>)
    ensures
        r@.len() == lookup_dirs(
            match bpfdir {
                Some(d) => Some(d@),
                None => None,
            },
        ).len(),
        forall|i: int|
            0 <= i < r@.len() ==> (#[trigger] r@[i])@ == lookup_dirs(
                match bpfdir {
                    Some(d) => Some(d@),
                    None => None,
                },
            )[i],
{
    let defaults = default_bpf_dirs();
    let mut out: Vec<String> = Vec::new();
    let ghost extra: Seq<Seq<char>> = match bpfdir {
        Some(d) => seq![d@],
        None => Seq::empty(),
    };
    match bpfdir {
        Some(d) => {
            out.push(crate::text::string_of(d));
        },
        None => {},
    }
    let ghost base = out@;
    let mut i: usize = 0;
    while i < defaults.len()
        invariant
            i <= defaults@.len(),
            out@.len() == extra.len() + i,
            defaults@.len() == split_on(DEFAULT_BPF_DIRS@, ':').len(),
            forall|k: int| 0 <= k < defaults@.len() ==> (#[trigger] defaults@[k])@ == split_on(DEFAULT_BPF_DIRS@, ':')[k],
            forall|k: int| 0 <= k < extra.len() ==> (#[trigger] out@[k])@ == extra[k],
            forall|k: int| extra.len() <= k < out@.len() ==> (#[trigger] out@[k])@ == split_on(DEFAULT_BPF_DIRS@, ':')[k - extra.len()],
        decreases defaults@.len() - i,
    {
        out.push(defaults[i].clone());
        i = i + 1;
    }
    out
}

} // verus!
