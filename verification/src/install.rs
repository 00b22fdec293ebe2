//! Installing one BPF object: where its files go and the udev rule that
//! loads it for the devices it declares.
use vstd::prelude::*;
use vstd::string::*;
use crate::text::{push_char, push_str_chars, skip_bytes, str_skip_bytes, string_of, has_suffix, str_ends_with};
use crate::hex::{spec_parse_hex_u32, parse_hex_u32, hex_upper, push_hex_upper};
use crate::paths::{InspectionDevice, path_file_name, file_name, path_join, join_path, split_on, last_component};

verus! {

/// The file name suffix of a compiled BPF object.
pub const BPF_OBJECT_SUFFIX: &'static str = ".bpf.o";

/// The directory where installed BPF objects go.
pub const INSTALL_FIRMWARE_DIR: &'static str = "/etc/udev-hid-bpf/";

/// The directory where the udev rules go.
pub const UDEV_RULES_DIR: &'static str = "/etc/udev/rules.d";

/// The name of an installed rule is this, the object's stem, then `.rules`.
pub const UDEV_RULE_PREFIX: &'static str = "/99-hid-bpf-";

/// The file name ending of a udev rule.
pub const UDEV_RULE_SUFFIX: &'static str = ".rules";

/// Where the executable is installed when no prefix is given.
pub const DEFAULT_BINDIR: &'static str = "/usr/local/bin";

/// The executable's name.
pub const EXECUTABLE_NAME: &'static str = "udev-hid-bpf";

/// The executables go into this directory of a prefix.
pub const BIN_SUBDIR: &'static str = "bin";

/// The first lines of a rule file.
pub const RULE_HEADER: &'static str = "# This udev rule was generated by udev-hid-bpf install\nACTION!=\"add|remove|bind|unbind\", GOTO=\"hid_bpf_end\"\nSUBSYSTEM!=\"hid\", GOTO=\"hid_bpf_end\"\n";

/// The last line of a rule file.
pub const RULE_FOOTER: &'static str = "LABEL=\"hid_bpf_end\"";

/// The device match of a rule starts with this, then the bus.
pub const MATCH_BUS: &'static str = "ENV{MODALIAS}==\"hid:b";

/// Pieces of a rule, in the order they are written.
pub const MATCH_GROUP: &'static str = "g";
pub const MATCH_VENDOR: &'static str = "v";
pub const MATCH_PRODUCT: &'static str = "p";
pub const MATCH_END: &'static str = "\"";
pub const ANY_ID: &'static str = "*";
pub const COMMENT_START: &'static str = "# ";
pub const COMMENT_END: &'static str = " \n";
pub const ADD_ACTION: &'static str = "ACTION==\"add\",";
pub const ADD_COMMAND: &'static str = ", IMPORT{program}+=\"";
pub const ADD_PROGRAM: &'static str = "/udev-hid-bpf add $sys$devpath ";
pub const REMOVE_ACTION: &'static str = "ACTION==\"remove\",";
pub const REMOVE_COMMAND: &'static str = ", RUN{program}+=\"";
pub const REMOVE_PROGRAM: &'static str = "/udev-hid-bpf remove $sys$devpath ";
pub const LINE_END: &'static str = "\"\n";
pub const BIND_COMMENT: &'static str = "\n# bind/unbind clears the properties set during the previous add/bind stage, so\n# let's import them to keep them alive\n\nACTION==\"bind|unbind\",";
pub const BIND_PROGRAM: &'static str = "/udev-hid-bpf list-loaded --format udev --syspath $sys$devpath";
pub const NEWLINE: &'static str = "\n";

// ---------------------------------------------------------------------
// Device ids in a rule
// ---------------------------------------------------------------------

/// The number in a `0x`-prefixed id: whatever follows its first two bytes,
/// read as `u32::from_str_radix(.., 16)` does.
pub open spec fn id_value(s: Seq<char>) -> Option<u32> {
    match skip_bytes(s, 2) {
        Some(t) => spec_parse_hex_u32(t),
        None => None,
    }
}

/// The numeric ids of a device: bus, group, vendor, product.
pub open spec fn device_id_values(d: InspectionDevice) -> Option<(u32, u32, u32, u32)> {
    match (id_value(d.bus@), id_value(d.group@), id_value(d.vid@), id_value(d.pid@)) {
        (Some(b), Some(g), Some(v), Some(p)) => Some((b, g, v, p)),
        _ => None,
    }
}

/// Whether every id of every device reads as a number.
pub open spec fn devices_have_ids(devices: Seq<InspectionDevice>) -> bool {
    forall|i: int| 0 <= i < devices.len() ==> (#[trigger] device_id_values(devices[i])) is Some
}

fn id_of(s: &str) -> (r: Option<u32>)
    ensures
        r == id_value(s@),
{
    match str_skip_bytes(s, 2) {
        Some(t) => parse_hex_u32(t),
        None => None,
    }
}

/// The numeric ids of a device (bus, group, vendor, product), if each of
/// them reads as a `0x`-prefixed hexadecimal number.
pub fn device_ids(d: &InspectionDevice) -> (r: Option<(u32, u32, u32, u32)>)
    ensures
        r == device_id_values(*d),
{
    let b = id_of(d.bus.as_str());
    let g = id_of(d.group.as_str());
    let v = id_of(d.vid.as_str());
    let p = id_of(d.pid.as_str());
    match (b, g, v, p) {
        (Some(b), Some(g), Some(v), Some(p)) => Some((b, g, v, p)),
        _ => None,
    }
}

/// An id as a rule matches it: `*` for zero, otherwise upper case
/// hexadecimal of at least `width` digits.
pub open spec fn rule_id(v: u32, width: nat) -> Seq<char> {
    if v == 0 {
        ANY_ID@
    } else {
        hex_upper(v as nat, width)
    }
}

fn push_rule_id(out: &mut String, v: u32, width: usize)
    ensures
        final(out)@ == old(out)@ + rule_id(v, width as nat),
{
    if v == 0 {
        push_str_chars(out, ANY_ID);
    } else {
        push_hex_upper(out, v, width);
    }
}

/// `ENV{MODALIAS}=="hid:b<bus>g<group>v<vendor>p<product>"`.
pub open spec fn kernel_match(ids: (u32, u32, u32, u32)) -> Seq<char> {
    MATCH_BUS@ + rule_id(ids.0, 4) + MATCH_GROUP@ + rule_id(ids.1, 4) + MATCH_VENDOR@ + rule_id(
        ids.2,
        8,
    ) + MATCH_PRODUCT@ + rule_id(ids.3, 8) + MATCH_END@
}

fn push_kernel_match(out: &mut String, ids: (u32, u32, u32, u32))
    ensures
        final(out)@ == old(out)@ + kernel_match(ids),
{
    let ghost start = out@;
    push_str_chars(out, MATCH_BUS);
    push_rule_id(out, ids.0, 4);
    push_str_chars(out, MATCH_GROUP);
    push_rule_id(out, ids.1, 4);
    push_str_chars(out, MATCH_VENDOR);
    push_rule_id(out, ids.2, 8);
    push_str_chars(out, MATCH_PRODUCT);
    push_rule_id(out, ids.3, 8);
    push_str_chars(out, MATCH_END);
    assert(out@ =~= start + kernel_match(ids));
}

// ---------------------------------------------------------------------
// The rule file
// ---------------------------------------------------------------------

/// The comment naming the object.
pub open spec fn rule_comment(name: Seq<char>) -> Seq<char> {
    COMMENT_START@ + name + COMMENT_END@
}

/// The line that loads the object when the device is added.
pub open spec fn rule_add(bindir: Seq<char>, target: Seq<char>, km: Seq<char>) -> Seq<char> {
    ADD_ACTION@ + km + ADD_COMMAND@ + bindir + ADD_PROGRAM@ + target + LINE_END@
}

/// The line that removes the device's objects when it goes away.
pub open spec fn rule_remove(bindir: Seq<char>, km: Seq<char>) -> Seq<char> {
    REMOVE_ACTION@ + km + REMOVE_COMMAND@ + bindir + REMOVE_PROGRAM@ + LINE_END@
}

/// The lines that import the loaded objects' properties again on
/// `bind` and `unbind`.
pub open spec fn rule_bind(bindir: Seq<char>, km: Seq<char>) -> Seq<char> {
    BIND_COMMENT@ + km + ADD_COMMAND@ + bindir + BIND_PROGRAM@ + LINE_END@
}

/// The lines of a rule for one device: a comment naming the object, the
/// `add` and `remove` actions, and the `bind|unbind` import of the
/// properties set at load time.
pub open spec fn rule_block(bindir: Seq<char>, target: Seq<char>, name: Seq<char>, km: Seq<char>) -> Seq<char> {
    rule_comment(name) + rule_add(bindir, target, km) + rule_remove(bindir, km) + rule_bind(bindir, km)
}

/// The blocks of all devices, in order.
pub open spec fn rule_blocks(bindir: Seq<char>, target: Seq<char>, name: Seq<char>, devices: Seq<InspectionDevice>) -> Seq<char>
    decreases devices.len(),
{
    if devices.len() == 0 {
        Seq::empty()
    } else {
        rule_blocks(bindir, target, name, devices.drop_last()) + rule_block(
            bindir,
            target,
            name,
            kernel_match(device_id_values(devices.last())->Some_0),
        )
    }
}

/// The whole rule file that installs `target` for `devices`, with the
/// executable in `bindir`.
pub open spec fn udev_rule(bindir: Seq<char>, target: Seq<char>, devices: Seq<InspectionDevice>) -> Seq<char> {
    let name = path_file_name(target)->Some_0;
    RULE_HEADER@ + NEWLINE@ + rule_blocks(bindir, target, name, devices) + NEWLINE@ + RULE_FOOTER@ + NEWLINE@
}

fn push_rule_add(out: &mut String, bindir: &str, target: &str, km: &str)
    ensures
        final(out)@ == old(out)@ + rule_add(bindir@, target@, km@),
{
    let ghost start = out@;
    push_str_chars(out, ADD_ACTION);
    push_str_chars(out, km);
    push_str_chars(out, ADD_COMMAND);
    push_str_chars(out, bindir);
    push_str_chars(out, ADD_PROGRAM);
    push_str_chars(out, target);
    push_str_chars(out, LINE_END);
    assert(out@ =~= start + rule_add(bindir@, target@, km@));
}

fn push_rule_remove(out: &mut String, bindir: &str, km: &str)
    ensures
        final(out)@ == old(out)@ + rule_remove(bindir@, km@),
{
    let ghost start = out@;
    push_str_chars(out, REMOVE_ACTION);
    push_str_chars(out, km);
    push_str_chars(out, REMOVE_COMMAND);
    push_str_chars(out, bindir);
    push_str_chars(out, REMOVE_PROGRAM);
    push_str_chars(out, LINE_END);
    assert(out@ =~= start + rule_remove(bindir@, km@));
}

fn push_rule_bind(out: &mut String, bindir: &str, km: &str)
    ensures
        final(out)@ == old(out)@ + rule_bind(bindir@, km@),
{
    let ghost start = out@;
    push_str_chars(out, BIND_COMMENT);
    push_str_chars(out, km);
    push_str_chars(out, ADD_COMMAND);
    push_str_chars(out, bindir);
    push_str_chars(out, BIND_PROGRAM);
    push_str_chars(out, LINE_END);
    assert(out@ =~= start + rule_bind(bindir@, km@));
}

fn push_rule_block(out: &mut String, bindir: &str, target: &str, name: &str, ids: (u32, u32, u32, u32))
    ensures
        final(out)@ == old(out)@ + rule_block(bindir@, target@, name@, kernel_match(ids)),
{
    let ghost start = out@;
    let mut km = String::new();
    push_kernel_match(&mut km, ids);
    assert(km@ =~= kernel_match(ids));
    push_str_chars(out, COMMENT_START);
    push_str_chars(out, name);
    push_str_chars(out, COMMENT_END);
    assert(out@ =~= start + rule_comment(name@));
    push_rule_add(out, bindir, target, km.as_str());
    push_rule_remove(out, bindir, km.as_str());
    push_rule_bind(out, bindir, km.as_str());
    assert(out@ =~= start + rule_block(bindir@, target@, name@, kernel_match(ids)));
}

/// The udev rule file that loads the BPF object installed at `target`
/// (with the executable in `bindir`) for each of `devices`: ids of zero
/// match any value, the others are matched in upper case hexadecimal.
pub fn write_udev_rule(bindir: &str, target: &str, devices: &Vec<InspectionDevice>) -> (r: String)
    requires
        path_file_name(target@) is Some,
        devices_have_ids(devices@),
    ensures
        r@ == udev_rule(bindir@, target@, devices@),
{
    let name = match file_name(target) {
        Some(n) => n,
        None => String::new(),
    };
    let ghost nm = path_file_name(target@)->Some_0;
    let mut out = String::new();
    push_str_chars(&mut out, RULE_HEADER);
    push_str_chars(&mut out, NEWLINE);
    let ghost head = out@;
    let mut i: usize = 0;
    while i < devices.len()
        invariant
            i <= devices@.len(),
            name@ == nm,
            devices_have_ids(devices@),
            out@ == head + rule_blocks(bindir@, target@, nm, devices@.take(i as int)),
        decreases devices@.len() - i,
    {
        let ids = match device_ids(&devices[i]) {
            Some(ids) => ids,
            None => (0, 0, 0, 0),
        };
        assert(device_id_values(devices@[i as int]) is Some);
        let ghost before = out@;
        push_rule_block(&mut out, bindir, target, name.as_str(), ids);
        proof {
            let ds = devices@.take(i + 1);
            assert(ds.drop_last() =~= devices@.take(i as int));
            assert(ds.last() == devices@[i as int]);
        }
        i = i + 1;
    }
    assert(devices@.take(devices@.len() as int) =~= devices@);
    push_str_chars(&mut out, NEWLINE);
    push_str_chars(&mut out, RULE_FOOTER);
    push_str_chars(&mut out, NEWLINE);
    assert(out@ =~= udev_rule(bindir@, target@, devices@));
    out
}

// ---------------------------------------------------------------------
// Where the files go
// ---------------------------------------------------------------------

/// Why an object cannot be installed.
#[derive(Debug, Clone, Copy, PartialEq, Eq)]
pub enum InstallError {
    /// The path does not end in `.bpf.o`.
    NotABpfObject,
    /// The object declares no device, so it has to be attached by hand.
    NoDevices,
}

/// The files an installation writes.
#[derive(Debug, Clone)]
pub struct InstallPlan {
    /// The directory of the executable that the rule runs.
    pub bindir: String,
    /// The executable that the rule runs.
    pub executable: String,
    /// Where the object is copied.
    pub target: String,
    /// Where the udev rule is written.
    pub udev_rule: String,
}

/// The characters of an optional string.
pub open spec fn opt_str_view(o: Option<&str>) -> Option<Seq<char>> {
    match o {
        Some(s) => Some(s@),
        None => None,
    }
}

/// The directory of the executable: `<prefix>/bin`, or the built-in one.
pub open spec fn install_bindir(prefix: Option<Seq<char>>) -> Seq<char> {
    match prefix {
        Some(p) => path_join(p, BIN_SUBDIR@),
        None => DEFAULT_BINDIR@,
    }
}

/// The file name of the object at `path` (`path` ends in `.bpf.o`).
pub open spec fn object_file_name(path: Seq<char>) -> Seq<char> {
    path_file_name(path)->Some_0
}

/// The object's name without `.bpf.o`.
pub open spec fn object_stem(path: Seq<char>) -> Seq<char> {
    let f = object_file_name(path);
    f.take(f.len() - BPF_OBJECT_SUFFIX@.len())
}

/// The plan for installing the object at `path` with `device_count`
/// declared devices.
pub open spec fn spec_plan_install(path: Seq<char>, prefix: Option<Seq<char>>, device_count: nat) -> Result<
    (Seq<char>, Seq<char>, Seq<char>, Seq<char>),
    InstallError,
> {
    if !has_suffix(path, BPF_OBJECT_SUFFIX@) {
        Err(InstallError::NotABpfObject)
    } else if device_count == 0 {
        Err(InstallError::NoDevices)
    } else {
        let bindir = install_bindir(prefix);
        Ok(
            (
                bindir,
                path_join(bindir, EXECUTABLE_NAME@),
                path_join(INSTALL_FIRMWARE_DIR@, object_file_name(path)),
                UDEV_RULES_DIR@ + UDEV_RULE_PREFIX@ + object_stem(path) + UDEV_RULE_SUFFIX@,
            ),
        )
    }
}

/// The last piece of a split keeps a suffix that holds no separator.
proof fn lemma_split_last_suffix(s: Seq<char>, sep: char, t: Seq<char>)
    requires
        has_suffix(s, t),
        forall|i: int| 0 <= i < t.len() ==> t[i] != sep,
    ensures
        split_on(s, sep).len() > 0,
        has_suffix(split_on(s, sep).last(), t),
    decreases s.len(),
{
    crate::text::lemma_first_index_of(s, sep);
    match crate::text::first_index_of(s, sep) {
        Some(i) => {
            let rest = s.skip(i + 1);
            assert(i < s.len() - t.len()) by {
                if i >= s.len() - t.len() {
                    assert(s.subrange(s.len() - t.len(), s.len() as int)[i - (s.len() - t.len())] == s[i]);
                }
            }
            assert(rest.subrange(rest.len() - t.len(), rest.len() as int) =~= s.subrange(
                s.len() - t.len(),
                s.len() as int,
            ));
            lemma_split_last_suffix(rest, sep, t);
            assert(split_on(s, sep) == seq![s.take(i)] + split_on(rest, sep));
            assert((seq![s.take(i)] + split_on(rest, sep)).last() == split_on(rest, sep).last());
        },
        None => {
            assert(split_on(s, sep) == seq![s]);
        },
    }
}

/// A path ending in `.bpf.o` has a file name, which ends in `.bpf.o` too.
pub proof fn lemma_object_file_name(path: Seq<char>)
    requires
        has_suffix(path, BPF_OBJECT_SUFFIX@),
    ensures
        path_file_name(path) is Some,
        has_suffix(object_file_name(path), BPF_OBJECT_SUFFIX@),
{
    reveal_strlit(".bpf.o");
    let t = BPF_OBJECT_SUFFIX@;
    lemma_split_last_suffix(path, '/', t);
    let pieces = split_on(path, '/');
    let last = pieces.last();
    assert(last.len() >= 6);
    assert(last != seq!['.']);
    assert(last != seq!['.', '.']);
    assert(last_component(pieces) == Some(last));
}

/// Whether `path` names a compiled BPF object (ends in `.bpf.o`).
pub fn is_bpf_object_path(path: &str) -> (r: bool)
    ensures
        r == has_suffix(path@, BPF_OBJECT_SUFFIX@),
{
    str_ends_with(path, BPF_OBJECT_SUFFIX)
}

/// Where installing the object at `path` puts its files: the object goes
/// to `/etc/udev-hid-bpf/`, its rule to
/// `/etc/udev/rules.d/99-hid-bpf-<stem>.rules`, and the rule runs the
/// executable in `<prefix>/bin` (or the built-in directory).  Refused when
/// the path does not end in `.bpf.o` or the object declares no device.
pub fn plan_install(path: &str, prefix: Option<&str>, device_count: usize) -> (r: Result<InstallPlan, InstallError>)
    ensures
        match spec_plan_install(path@, opt_str_view(prefix), device_count as nat) {
            Ok((b, e, t, u)) => r matches Ok(plan) && plan.bindir@ == b && plan.executable@ == e
                && plan.target@ == t && plan.udev_rule@ == u,
            Err(err) => r == Err::<InstallPlan, InstallError>(err),
        },
{
    if !is_bpf_object_path(path) {
        return Err(InstallError::NotABpfObject);
    }
    if device_count == 0 {
        return Err(InstallError::NoDevices);
    }
    proof {
        lemma_object_file_name(path@);
        reveal_strlit(".bpf.o");
    }
    let filename = match file_name(path) {
        Some(f) => f,
        None => String::new(),
    };
    let n = filename.as_str().unicode_len();
    let stem = filename.as_str().substring_char(0, n - 6);
    assert(stem@ =~= object_stem(path@));
    let bindir = match prefix {
        Some(p) => join_path(p, BIN_SUBDIR),
        None => string_of(DEFAULT_BINDIR),
    };
    let executable = join_path(bindir.as_str(), EXECUTABLE_NAME);
    let target = join_path(INSTALL_FIRMWARE_DIR, filename.as_str());
    let mut rule = String::new();
    push_str_chars(&mut rule, UDEV_RULES_DIR);
    push_str_chars(&mut rule, UDEV_RULE_PREFIX);
    push_str_chars(&mut rule, stem);
    push_str_chars(&mut rule, UDEV_RULE_SUFFIX);
    assert(rule@ =~= UDEV_RULES_DIR@ + UDEV_RULE_PREFIX@ + object_stem(path@) + UDEV_RULE_SUFFIX@);
    Ok(InstallPlan { bindir, executable, target, udev_rule: rule })
}

} // verus!
