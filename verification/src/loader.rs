//! The decisions of loading a BPF object for a device: which loader to
//! use, the arguments of the probe and attach syscall programs, what their
//! return values mean, what gets pinned where, and which object of a group
//! is tried next.
use vstd::prelude::*;
use vstd::string::*;
use crate::errors::{BpfError, EINVAL, ENOTSUP};
use crate::device::{HidUdev, hid_id_of};
use crate::rdesc::{le32, push_le32};
use crate::text::{has_prefix, has_char, has_substring, str_contains, str_starts_with, push_char, push_str_chars, chars_of};
use crate::paths::{bpffs_path, get_bpffs_path, path_file_name, file_name};

verus! {

// ---------------------------------------------------------------------
// Syscall program arguments
// ---------------------------------------------------------------------

/// The size of the report descriptor buffer handed to a `probe` program.
pub const HID_MAX_DESCRIPTOR_SIZE: usize = 4096;

/// The context of a `probe` syscall program, laid out as the C struct.
#[allow(non_camel_case_types)]
pub struct hid_bpf_probe_args {
    pub hid: u32,
    pub rdesc_size: u32,
    pub rdesc: [u8; 4096],
    pub retval: i32,
}

/// How many report descriptor bytes a probe gets: all, up to 4096.
pub open spec fn probe_rdesc_len(len: nat) -> nat {
    if len < 4096 {
        len
    } else {
        4096
    }
}

/// The bytes of a `probe` context: the HID id, the descriptor size, the
/// descriptor buffer and the return value, in little endian.
pub open spec fn probe_args_bytes(a: hid_bpf_probe_args) -> Seq<u8> {
    le32(a.hid) + le32(a.rdesc_size) + a.rdesc@ + le32(a.retval as u32)
}

impl hid_bpf_probe_args {
    /// The context of a device's `probe`: its HID id, its report
    /// descriptor (cut at 4096 bytes, the rest of the buffer zero) and a
    /// return value of -1 that the program overwrites.
    pub fn from(device: &HidUdev, rdesc_bytes: &[u8]) -> (r: Self)
        requires
            hid_id_of(device.sysname@) is Some,
        ensures
            Some(r.hid) == hid_id_of(device.sysname@),
            r.rdesc_size == probe_rdesc_len(rdesc_bytes@.len()),
            forall|i: int| 0 <= i < r.rdesc_size ==> r.rdesc@[i] == rdesc_bytes@[i],
            forall|i: int| r.rdesc_size <= i < 4096 ==> r.rdesc@[i] == 0,
            r.retval == -1,
    {
        let mut rdesc = [0u8; 4096];
        let length = if rdesc_bytes.len() < 4096 {
            rdesc_bytes.len()
        } else {
            4096
        };
        let mut i: usize = 0;
        while i < length
            invariant
                length <= 4096,
                length <= rdesc_bytes@.len(),
                i <= length,
                rdesc@.len() == 4096,
                forall|j: int| 0 <= j < i ==> rdesc@[j] == rdesc_bytes@[j],
                forall|j: int| i <= j < 4096 ==> rdesc@[j] == 0,
            decreases length - i,
        {
            rdesc[i] = rdesc_bytes[i];
            i = i + 1;
        }
        hid_bpf_probe_args { hid: device.id(), rdesc_size: length as u32, rdesc, retval: -1 }
    }

    /// The bytes of the context as the program reads them.
    pub fn to_bytes(&self) -> (r: Vec<u8>)
        ensures
            r@ == probe_args_bytes(*self),
            r@.len() == 4108,
    {
        let mut out: Vec<u8> = Vec::new();
        push_le32(&mut out, self.hid);
        push_le32(&mut out, self.rdesc_size);
        let ghost head = out@;
        let mut i: usize = 0;
        while i < 4096
            invariant
                i <= 4096,
                self.rdesc@.len() == 4096,
                out@ == head + self.rdesc@.take(i as int),
            decreases 4096 - i,
        {
            out.push(self.rdesc[i]);
            assert(self.rdesc@.take(i + 1) =~= self.rdesc@.take(i as int).push(self.rdesc@[i as int]));
            i = i + 1;
        }
        assert(self.rdesc@.take(4096) =~= self.rdesc@);
        push_le32(&mut out, self.retval as u32);
        assert(out@ =~= probe_args_bytes(*self));
        out
    }
}

/// The context of the syscall program that attaches a tracing program to
/// a device, laid out as the C struct.
pub struct AttachProgArgs {
    pub prog_fd: i32,
    pub hid: u32,
    pub retval: i32,
}

/// The bytes of an attach context, in little endian.
pub open spec fn attach_args_bytes(a: AttachProgArgs) -> Seq<u8> {
    le32(a.prog_fd as u32) + le32(a.hid) + le32(a.retval as u32)
}

impl AttachProgArgs {
    /// The context that attaches the program `prog_fd` to the device with
    /// HID id `hid`; the return value starts at -1.
    pub fn new(prog_fd: i32, hid: u32) -> (r: Self)
        ensures
            r.prog_fd == prog_fd,
            r.hid == hid,
            r.retval == -1,
    {
        AttachProgArgs { prog_fd, hid, retval: -1 }
    }

    /// The bytes of the context as the program reads them.
    pub fn to_bytes(&self) -> (r: Vec<u8>)
        ensures
            r@ == attach_args_bytes(*self),
    {
        let mut out: Vec<u8> = Vec::new();
        push_le32(&mut out, self.prog_fd as u32);
        push_le32(&mut out, self.hid);
        push_le32(&mut out, self.retval as u32);
        assert(out@ =~= attach_args_bytes(*self));
        out
    }
}

// ---------------------------------------------------------------------
// What the syscalls and programs return
// ---------------------------------------------------------------------

/// The error number of a negative return code: its negation, as 32 bits.
pub open spec fn errno_of(code: i32) -> u32 {
    (-(code as int)) as u32
}

fn negate_code(code: i32) -> (r: u32)
    ensures
        r == errno_of(code),
{
    let wide: i64 = code as i64;
    (0i64 - wide) as u32
}

/// A libbpf or bpf syscall status: zero is success, anything else the
/// negated error number.
pub fn syscall_status(code: i32) -> (r: Result<(), BpfError>)
    ensures
        code == 0 ==> r is Ok,
        code != 0 ==> r == Err::<(), BpfError>(BpfError::OsError { errno: errno_of(code) }),
{
    if code == 0 {
        Ok(())
    } else {
        Err(BpfError::OsError { errno: negate_code(code) })
    }
}

/// What the attach program returned: a link (not negative) or a negated
/// error number.
pub fn attach_result(retval: i32) -> (r: Result<i32, BpfError>)
    ensures
        retval >= 0 ==> r == Ok::<i32, BpfError>(retval),
        retval < 0 ==> r == Err::<i32, BpfError>(BpfError::OsError { errno: errno_of(retval) }),
{
    if retval < 0 {
        Err(BpfError::OsError { errno: negate_code(retval) })
    } else {
        Ok(retval)
    }
}

/// What a `probe` program returned: zero accepts the device, anything else
/// refuses it with that (negated) error number.
pub fn probe_result(retval: i32) -> (r: Result<i32, BpfError>)
    ensures
        retval == 0 ==> r == Ok::<i32, BpfError>(0),
        retval != 0 ==> r == Err::<i32, BpfError>(BpfError::OsError { errno: errno_of(retval) }),
{
    if retval != 0 {
        Err(BpfError::OsError { errno: negate_code(retval) })
    } else {
        Ok(retval)
    }
}

// ---------------------------------------------------------------------
// Choosing the loader
// ---------------------------------------------------------------------

/// The section prefix of the tracing programs that attach to HID devices.
pub const HID_TRACING_SECTION_PREFIX: &'static str = "fmodret/hid_";

/// What the loader needs to know of a program in a BPF object.
#[derive(Debug, Clone)]
pub struct ProgramInfo {
    pub name: String,
    pub section: String,
    /// Whether it is a tracing program.
    pub is_tracing: bool,
}

/// The two ways HID-BPF objects are attached.
#[derive(Debug, Clone, Copy, PartialEq, Eq)]
pub enum LoaderKind {
    /// Tracing programs attached through a syscall program.
    Trace,
    /// `struct_ops` maps.
    StructOps,
}

/// Whether a program is a tracing program in a HID section.
pub open spec fn is_hid_tracing(p: ProgramInfo) -> bool {
    p.is_tracing && has_prefix(p.section@, HID_TRACING_SECTION_PREFIX@)
}

/// The loader an object needs: the tracing one if it has a tracing
/// program in a `fmodret/hid_` section, `struct_ops` otherwise.
pub fn choose_loader(programs: &Vec<ProgramInfo>) -> (r: LoaderKind)
    ensures
        r == (if exists|i: int| 0 <= i < programs@.len() && is_hid_tracing(#[trigger] programs@[i]) {
            LoaderKind::Trace
        } else {
            LoaderKind::StructOps
        }),
{
    let mut i: usize = 0;
    while i < programs.len()
        invariant
            i <= programs@.len(),
            forall|j: int| 0 <= j < i ==> !is_hid_tracing(#[trigger] programs@[j]),
        decreases programs@.len() - i,
    {
        if programs[i].is_tracing && str_starts_with(programs[i].section.as_str(), HID_TRACING_SECTION_PREFIX) {
            assert(is_hid_tracing(programs@[i as int]));
            return LoaderKind::Trace;
        }
        i = i + 1;
    }
    LoaderKind::StructOps
}

/// Whether the kernel can load tracing HID-BPF objects.
pub struct HidBPFTrace {
    pub supported: bool,
}

impl HidBPFTrace {
    /// The tracing loader, for a kernel that does or does not support it.
    pub fn new(supported: bool) -> (r: Self)
        ensures
            r.supported == supported,
    {
        HidBPFTrace { supported }
    }

    /// Whether an object may be loaded: refused with `ENOTSUP` when the
    /// kernel does not support tracing HID-BPF.
    pub fn check_load(&self) -> (r: Result<(), BpfError>)
        ensures
            self.supported ==> r is Ok,
            !self.supported ==> r == Err::<(), BpfError>(BpfError::OsError { errno: ENOTSUP as u32 }),
    {
        if self.supported {
            Ok(())
        } else {
            Err(BpfError::OsError { errno: ENOTSUP as u32 })
        }
    }

    /// The programs of an object that get attached: its tracing programs,
    /// by position.
    pub fn programs_to_attach(programs: &Vec<ProgramInfo>) -> (r: Vec<usize>)
        ensures
            forall|k: int| 0 <= k < r@.len() ==> r@[k] < programs@.len() && programs@[r@[k] as int].is_tracing,
            forall|j: int| 0 <= j < programs@.len() && programs@[j].is_tracing ==> r@.contains(j as usize),
            forall|k1: int, k2: int| 0 <= k1 < k2 < r@.len() ==> r@[k1] < r@[k2],
    {
        let mut out: Vec<usize> = Vec::new();
        let mut i: usize = 0;
        while i < programs.len()
            invariant
                i <= programs@.len(),
                forall|k: int| 0 <= k < out@.len() ==> out@[k] < i && programs@[out@[k] as int].is_tracing,
                forall|j: int| 0 <= j < i && programs@[j].is_tracing ==> out@.contains(j as usize),
                forall|k1: int, k2: int| 0 <= k1 < k2 < out@.len() ==> out@[k1] < out@[k2],
            decreases programs@.len() - i,
        {
            if programs[i].is_tracing {
                let ghost o0 = out@;
                out.push(i);
                proof {
                    assert forall|j: int| 0 <= j < i + 1 && programs@[j].is_tracing implies out@.contains(j as usize) by {
                        if j < i {
                            assert(o0.contains(j as usize));
                            let k = choose|k: int| 0 <= k < o0.len() && o0[k] == j as usize;
                            assert(out@[k] == j as usize);
                        } else {
                            assert(out@[o0.len() as int] == i);
                        }
                    }
                }
            }
            i = i + 1;
        }
        out
    }

    /// The pin paths of the programs that attached (`None` for those that
    /// failed); refused with `EINVAL` when none did.
    pub fn attached(results: Vec<Option<String>>) -> (r: Result<Vec<String>, BpfError>)
        ensures
            match r {
                Ok(paths) => paths@.len() > 0 && paths@.map_values(|s: String| s@) == attached_paths(results@),
                Err(e) => e == BpfError::OsError { errno: EINVAL as u32 } && attached_paths(results@).len() == 0,
            },
    {
        let mut out: Vec<String> = Vec::new();
        let mut i: usize = 0;
        while i < results.len()
            invariant
                i <= results@.len(),
                out@.map_values(|s: String| s@) =~= attached_paths(results@.take(i as int)),
            decreases results@.len() - i,
        {
            assert(results@.take(i + 1).drop_last() =~= results@.take(i as int));
            let ghost o0 = out@;
            match &results[i] {
                Some(p) => {
                    out.push(p.clone());
                    assert(out@.map_values(|s: String| s@) =~= o0.map_values(|s: String| s@).push(p@));
                },
                None => {},
            }
            i = i + 1;
        }
        assert(results@.take(results@.len() as int) =~= results@);
        if out.len() == 0 {
            Err(BpfError::OsError { errno: EINVAL as u32 })
        } else {
            Ok(out)
        }
    }
}

/// The paths among `results` of the programs that attached, in order.
pub open spec fn attached_paths(results: Seq<Option<String>>) -> Seq<Seq<char>>
    decreases results.len(),
{
    if results.len() == 0 {
        Seq::empty()
    } else {
        match results.last() {
            Some(p) => attached_paths(results.drop_last()).push(p@),
            None => attached_paths(results.drop_last()),
        }
    }
}

/// The `struct_ops` loader.
pub struct HidBPFStructOps {}

impl HidBPFStructOps {
    /// The `struct_ops` loader.
    pub fn new() -> (r: Self) {
        HidBPFStructOps {  }
    }

    /// Writes the device's HID id, in little endian, over the first four
    /// bytes of a `struct_ops` map's initial value.
    pub fn set_hid_id(data: &mut Vec<u8>, hid_id: u32)
        requires
            old(data)@.len() >= 4,
        ensures
            final(data)@ == le32(hid_id) + old(data)@.skip(4),
    {
        data.set(0, (hid_id % 256) as u8);
        data.set(1, ((hid_id / 256) % 256) as u8);
        data.set(2, ((hid_id / 65536) % 256) as u8);
        data.set(3, (hid_id / 16777216) as u8);
        assert(data@ =~= le32(hid_id) + old(data)@.skip(4));
    }

    /// The error of a failed load: libbpf reports a kernel without
    /// `struct_ops` support as "not found", which becomes `Unsupported`;
    /// other errors are kept.
    pub fn load_error(not_found: bool, code: i32) -> (r: BpfError)
        ensures
            not_found ==> r == BpfError::Unsupported,
            !not_found ==> r == (BpfError::LibBPFError { error: code }),
    {
        if not_found {
            BpfError::Unsupported
        } else {
            BpfError::LibBPFError { error: code }
        }
    }
}

// ---------------------------------------------------------------------
// Pinning
// ---------------------------------------------------------------------

// ---------------------------------------------------------------------
// The order of loading
// ---------------------------------------------------------------------

/// The stages of loading a BPF object for a device, in the order they run.
#[derive(Debug, Clone, Copy, PartialEq, Eq, Structural)]
pub enum LoadStage {
    /// Read the report descriptor, open the object and load it with its loader.
    Load,
    /// Write the device's udev properties into the object.
    InjectUdevProperties,
    /// Write the converted report descriptor into the object.
    InjectReportDescriptor,
    /// Run the object's `probe`; a refusal ends the load.
    Probe,
    /// Attach the object and pin its programs.
    AttachAndPin,
    /// Pin the object's maps.
    PinMaps,
}

/// What the loader does once a stage is over.
#[derive(Debug, Clone, Copy, PartialEq, Eq, Structural)]
pub enum LoadAction {
    /// Go on with this stage.
    Run(LoadStage),
    /// Give up and report the stage's error.
    Fail,
    /// Remove the object's bpffs directory, then report the error.
    RemovePinsAndFail,
    /// The object is loaded.
    Finish,
}

/// The place of a stage in the order of loading.
pub open spec fn stage_index(s: LoadStage) -> nat {
    match s {
        LoadStage::Load => 0,
        LoadStage::InjectUdevProperties => 1,
        LoadStage::InjectReportDescriptor => 2,
        LoadStage::Probe => 3,
        LoadStage::AttachAndPin => 4,
        LoadStage::PinMaps => 5,
    }
}

/// What follows `stage`: on success the next stage, or the end after the
/// maps are pinned; on failure the load stops, and a failure to pin the
/// maps also removes what was pinned for the object.
pub open spec fn load_action(stage: LoadStage, succeeded: bool) -> LoadAction {
    if !succeeded {
        if stage == LoadStage::PinMaps {
            LoadAction::RemovePinsAndFail
        } else {
            LoadAction::Fail
        }
    } else {
        match stage {
            LoadStage::Load => LoadAction::Run(LoadStage::InjectUdevProperties),
            LoadStage::InjectUdevProperties => LoadAction::Run(LoadStage::InjectReportDescriptor),
            LoadStage::InjectReportDescriptor => LoadAction::Run(LoadStage::Probe),
            LoadStage::Probe => LoadAction::Run(LoadStage::AttachAndPin),
            LoadStage::AttachAndPin => LoadAction::Run(LoadStage::PinMaps),
            LoadStage::PinMaps => LoadAction::Finish,
        }
    }
}

/// Loading starts by loading the object.
pub fn first_load_stage() -> (s: LoadStage)
    ensures
        s == LoadStage::Load,
        stage_index(s) == 0,
{
    LoadStage::Load
}

/// What the loader does after `stage` succeeded or failed.
pub fn next_load_action(stage: LoadStage, succeeded: bool) -> (a: LoadAction)
    ensures
        a == load_action(stage, succeeded),
{
    if !succeeded {
        return match stage {
            LoadStage::PinMaps => LoadAction::RemovePinsAndFail,
            _ => LoadAction::Fail,
        };
    }
    match stage {
        LoadStage::Load => LoadAction::Run(LoadStage::InjectUdevProperties),
        LoadStage::InjectUdevProperties => LoadAction::Run(LoadStage::InjectReportDescriptor),
        LoadStage::InjectReportDescriptor => LoadAction::Run(LoadStage::Probe),
        LoadStage::Probe => LoadAction::Run(LoadStage::AttachAndPin),
        LoadStage::AttachAndPin => LoadAction::Run(LoadStage::PinMaps),
        LoadStage::PinMaps => LoadAction::Finish,
    }
}

/// The stages run one after the other in their order, each only once the
/// one before succeeded; a failed stage is the last one run; the load
/// finishes only when the last stage, the pinning of the maps, succeeded,
/// and only a failure there removes what was pinned.
pub proof fn lemma_load_stages_in_order(stage: LoadStage, succeeded: bool)
    ensures
        load_action(stage, succeeded) matches LoadAction::Run(next) ==> succeeded && stage_index(next)
            == stage_index(stage) + 1,
        !succeeded ==> !(load_action(stage, succeeded) is Run) && !(load_action(stage, succeeded) is Finish),
        load_action(stage, succeeded) is Finish <==> succeeded && stage == LoadStage::PinMaps,
        load_action(stage, succeeded) is RemovePinsAndFail <==> !succeeded && stage == LoadStage::PinMaps,
{
}

/// Where something named `name` is pinned in the directory `dir`.
pub open spec fn pin_path(dir: Seq<char>, name: Seq<char>) -> Seq<char> {
    dir + seq!['/'] + name
}

/// `<dir>/<name>`, where a program, link or map is pinned.
pub fn pin_path_of(dir: &str, name: &str) -> (r: String)
    ensures
        r@ == pin_path(dir@, name@),
{
    let mut s = String::new();
    push_str_chars(&mut s, dir);
    push_char(&mut s, '/');
    push_str_chars(&mut s, name);
    assert(s@ =~= pin_path(dir@, name@));
    s
}

/// What pinning needs to know of a map.
#[derive(Debug, Clone)]
pub struct MapInfo {
    pub name: String,
    /// Whether it is a `struct_ops` map.
    pub is_struct_ops: bool,
}

/// Whether a map is pinned with the object: not a compiler-internal map
/// (whose name holds a `.`), and not a `struct_ops` map.
pub open spec fn map_is_pinned(m: MapInfo) -> bool {
    !has_char(m.name@, '.') && !m.is_struct_ops
}

/// The objects of HID-BPF.
pub struct HidBPF {}

impl HidBPF {
    /// The maps that are pinned with an object, by position, in order.
    pub fn maps_to_pin(maps: &Vec<MapInfo>) -> (r: Vec<usize>)
        ensures
            forall|k: int| 0 <= k < r@.len() ==> r@[k] < maps@.len() && map_is_pinned(maps@[r@[k] as int]),
            forall|j: int| 0 <= j < maps@.len() && map_is_pinned(maps@[j]) ==> r@.contains(j as usize),
            forall|k1: int, k2: int| 0 <= k1 < k2 < r@.len() ==> r@[k1] < r@[k2],
    {
        let mut out: Vec<usize> = Vec::new();
        let mut i: usize = 0;
        while i < maps.len()
            invariant
                i <= maps@.len(),
                forall|k: int| 0 <= k < out@.len() ==> out@[k] < i && map_is_pinned(maps@[out@[k] as int]),
                forall|j: int| 0 <= j < i && map_is_pinned(maps@[j]) ==> out@.contains(j as usize),
                forall|k1: int, k2: int| 0 <= k1 < k2 < out@.len() ==> out@[k1] < out@[k2],
            decreases maps@.len() - i,
        {
            let v = chars_of(maps[i].name.as_str());
            let dotted = crate::text::find_char(v.as_slice(), '.').is_some();
            proof {
                crate::text::lemma_first_index_of(v@, '.');
            }
            if !dotted && !maps[i].is_struct_ops {
                let ghost o0 = out@;
                out.push(i);
                proof {
                    assert forall|j: int| 0 <= j < i + 1 && map_is_pinned(maps@[j]) implies out@.contains(j as usize) by {
                        if j < i {
                            assert(o0.contains(j as usize));
                            let k = choose|k: int| 0 <= k < o0.len() && o0[k] == j as usize;
                            assert(out@[k] == j as usize);
                        } else {
                            assert(out@[o0.len() as int] == i);
                        }
                    }
                }
            }
            i = i + 1;
        }
        out
    }
}

/// `Path::file_stem`: the file name without its last extension (a name
/// whose only `.` is its first character is kept whole).
pub open spec fn path_file_stem(p: Seq<char>) -> Option<Seq<char>> {
    match path_file_name(p) {
        Some(name) => match last_dot(name) {
            Some(i) => if i > 0 {
                Some(name.take(i))
            } else {
                Some(name)
            },
            None => Some(name),
        },
        None => None,
    }
}

/// The position of the last `.` in `s`, if any.
pub open spec fn last_dot(s: Seq<char>) -> Option<int>
    decreases s.len(),
{
    if s.len() == 0 {
        None
    } else if s.last() == '.' {
        Some(s.len() - 1)
    } else {
        last_dot(s.drop_last())
    }
}

proof fn lemma_last_dot(s: Seq<char>)
    ensures
        match last_dot(s) {
            Some(i) => 0 <= i < s.len(),
            None => true,
        },
    decreases s.len(),
{
    if s.len() > 0 && s.last() != '.' {
        lemma_last_dot(s.drop_last());
    }
}

/// The name of a BPF object as its bpffs directory is named: the file
/// stem of its path (`0010-foo.bpf.o` is `0010-foo.bpf`).
pub fn object_name(path: &str) -> (r: Option<String>)
    ensures
        match path_file_stem(path@) {
            Some(stem) => r matches Some(s) && s@ == stem,
            None => r is None,
        },
{
    let name = match file_name(path) {
        Some(n) => n,
        None => return None,
    };
    let v = chars_of(name.as_str());
    let mut i = v.len();
    assert(v@.take(i as int) =~= v@);
    while i > 0
        invariant
            i <= v@.len(),
            v@ == name@,
            path_file_name(path@) == Some(name@),
            last_dot(v@.take(i as int)) == last_dot(v@),
        decreases i,
    {
        assert(v@.take(i as int).drop_last() =~= v@.take(i - 1));
        if v[i - 1] == '.' {
            let k = i - 1;
            assert(last_dot(v@) == Some(k as int));
            if k > 0 {
                let stem = name.as_str().substring_char(0, k);
                assert(stem@ =~= name@.take(k as int));
                return Some(crate::text::string_of(stem));
            } else {
                return Some(name);
            }
        }
        i = i - 1;
    }
    assert(v@.take(0) =~= Seq::<char>::empty());
    Some(name)
}

/// The bpffs directory where the object at `path` is pinned for the device
/// `sysname`, if the path names a file.
pub fn bpffs_object_dir(sysname: &str, path: &str) -> (r: Option<String>)
    ensures
        match path_file_stem(path@) {
            Some(stem) => r matches Some(s) && s@ == bpffs_path(sysname@, stem),
            None => r is None,
        },
{
    match object_name(path) {
        Some(name) => Some(get_bpffs_path(sysname, name.as_str())),
        None => None,
    }
}

// ---------------------------------------------------------------------
// Trying the objects of each group
// ---------------------------------------------------------------------

/// The first object to try at or after group `g`: the first member of the
/// first non-empty group from `g` on.
pub open spec fn first_from(sizes: Seq<usize>, g: int) -> Option<(usize, usize)>
    decreases sizes.len() - g,
{
    if g < 0 || g >= sizes.len() {
        None
    } else if sizes[g] > 0 {
        Some((g as usize, 0))
    } else {
        first_from(sizes, g + 1)
    }
}

/// Where to start: the first member of the first non-empty group.
pub fn first_attempt(sizes: &Vec<usize>) -> (r: Option<(usize, usize)>)
    ensures
        r == first_from(sizes@, 0),
{
    next_group(sizes, 0)
}

fn next_group(sizes: &Vec<usize>, g: usize) -> (r: Option<(usize, usize)>)
    ensures
        r == first_from(sizes@, g as int),
{
    let mut k = g;
    while k < sizes.len()
        invariant
            g <= k,
            first_from(sizes@, k as int) == first_from(sizes@, g as int),
        decreases sizes@.len() - k,
    {
        if sizes[k] > 0 {
            return Some((k, 0));
        }
        k = k + 1;
    }
    None
}

/// What comes after trying member `m` of group `g`: a success ends the
/// group and moves on to the next one; a failure moves on to the next
/// member, or to the next group after the last member.
pub open spec fn after_attempt(sizes: Seq<usize>, g: int, m: int, loaded: bool) -> Option<(usize, usize)> {
    if !loaded && m + 1 < sizes[g] {
        Some((g as usize, (m + 1) as usize))
    } else {
        first_from(sizes, g + 1)
    }
}

/// The next object to try after member `m` of group `g` loaded or failed:
/// the groups are tried one after the other, and within a group the
/// members in order until one loads.
pub fn next_attempt(sizes: &Vec<usize>, g: usize, m: usize, loaded: bool) -> (r: Option<(usize, usize)>)
    requires
        g < sizes@.len(),
        m < sizes@[g as int],
    ensures
        r == after_attempt(sizes@, g as int, m as int, loaded),
{
    proof {
        assert(sizes@.len() == sizes.len());
    }
    if !loaded && m + 1 < sizes[g] {
        Some((g, m + 1))
    } else {
        next_group(sizes, g + 1)
    }
}

// ---------------------------------------------------------------------
// libbpf messages
// ---------------------------------------------------------------------

/// The levels of libbpf's messages.
#[derive(Debug, Clone, Copy, PartialEq, Eq)]
pub enum PrintLevel {
    Debug,
    Info,
    Warn,
}

/// The level a libbpf message is logged at: the notes about the
/// `.hid_bpf_config` section and relocation sections are only debug
/// output, whatever level libbpf gave them.
pub open spec fn log_level_of(level: PrintLevel, msg: Seq<char>) -> PrintLevel {
    if (has_substring(msg, "skipping unrecognized data section"@) && has_substring(msg, ".hid_bpf_config"@))
        || has_substring(msg, "skipping relo section"@) {
        PrintLevel::Debug
    } else {
        level
    }
}

/// The level a libbpf message is logged at.
pub fn log_level(level: PrintLevel, msg: &str) -> (r: PrintLevel)
    ensures
        r == log_level_of(level, msg@),
{
    if (str_contains(msg, "skipping unrecognized data section") && str_contains(msg, ".hid_bpf_config"))
        || str_contains(msg, "skipping relo section") {
        PrintLevel::Debug
    } else {
        level
    }
}

} // verus!
