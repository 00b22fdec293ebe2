//! What `inspect` reports of a BPF object: the devices it declares and
//! the udev properties it reads.
use vstd::prelude::*;
use vstd::string::*;
use crate::hex::{hex_upper, push_hex_upper, lemma_hex_upper_parses_back};
use crate::install::{id_value, device_id_values};
use crate::text::skip_bytes;
use crate::paths::InspectionDevice;
use crate::metadata::{BpfMetadata, VariableMetadata};
use crate::text::push_str_chars;

verus! {

/// A udev property that a BPF object reads.
#[derive(Debug, Clone)]
pub struct InspectionUdevProp {
    pub name: String,
    pub size: usize,
    pub readonly: bool,
}

/// An id as `inspect` shows it: `0x` and at least four upper case
/// hexadecimal digits.
pub open spec fn inspection_id(v: u32) -> Seq<char> {
    "0x"@ + hex_upper(v as nat, 4)
}

fn inspection_id_string(v: u32) -> (r: String)
    ensures
        r@ == inspection_id(v),
{
    let mut s = String::new();
    push_str_chars(&mut s, "0x");
    push_hex_upper(&mut s, v, 4);
    assert(s@ =~= inspection_id(v));
    s
}

/// The device a `HID_DEVICE(bus, group, vid, pid)` declaration stands for,
/// each id written as `0x` followed by four or more upper case hexadecimal
/// digits.
pub fn inspection_device(bus: u32, group: u32, vid: u32, pid: u32) -> (r: InspectionDevice)
    ensures
        r.bus@ == inspection_id(bus),
        r.group@ == inspection_id(group),
        r.vid@ == inspection_id(vid),
        r.pid@ == inspection_id(pid),
{
    InspectionDevice {
        bus: inspection_id_string(bus),
        group: inspection_id_string(group),
        vid: inspection_id_string(vid),
        pid: inspection_id_string(pid),
    }
}

/// The udev properties a BPF object reads from its data sections, those
/// of `.bss` first, then those of `.data`: names and sizes, all read-only.
pub open spec fn udev_props_of(m: BpfMetadata) -> Seq<(Seq<char>, usize)> {
    (m.udev_properties_bss@ + m.udev_properties_data@).map_values(|v: VariableMetadata| (v.name@, v.size))
}

/// The udev properties a BPF object reads, as `inspect` lists them: those
/// of `.bss`, then those of `.data`, each read-only.
pub fn inspection_udev_properties(m: &BpfMetadata) -> (r: Vec<InspectionUdevProp>)
    ensures
        r@.len() == udev_props_of(*m).len(),
        forall|i: int|
            0 <= i < r@.len() ==> (#[trigger] r@[i]).name@ == udev_props_of(*m)[i].0 && r@[i].size
                == udev_props_of(*m)[i].1 && r@[i].readonly,
{
    let ghost all = m.udev_properties_bss@ + m.udev_properties_data@;
    let mut out: Vec<InspectionUdevProp> = Vec::new();
    let mut i: usize = 0;
    while i < m.udev_properties_bss.len()
        invariant
            i <= m.udev_properties_bss@.len(),
            all == m.udev_properties_bss@ + m.udev_properties_data@,
            out@.len() == i,
            forall|k: int|
                0 <= k < i ==> (#[trigger] out@[k]).name@ == all[k].name@ && out@[k].size == all[k].size
                    && out@[k].readonly,
        decreases m.udev_properties_bss@.len() - i,
    {
        let v = &m.udev_properties_bss[i];
        out.push(InspectionUdevProp { name: v.name.clone(), size: v.size, readonly: true });
        i = i + 1;
    }
    let nb = m.udev_properties_bss.len();
    let mut j: usize = 0;
    while j < m.udev_properties_data.len()
        invariant
            j <= m.udev_properties_data@.len(),
            nb == m.udev_properties_bss@.len(),
            all == m.udev_properties_bss@ + m.udev_properties_data@,
            out@.len() == nb + j,
            forall|k: int|
                0 <= k < nb + j ==> (#[trigger] out@[k]).name@ == all[k].name@ && out@[k].size == all[k].size
                    && out@[k].readonly,
        decreases m.udev_properties_data@.len() - j,
    {
        let v = &m.udev_properties_data[j];
        assert(all[nb + j] == m.udev_properties_data@[j as int]);
        out.push(InspectionUdevProp { name: v.name.clone(), size: v.size, readonly: true });
        j = j + 1;
    }
    out
}

/// What `inspect` reports of a device is what an installed rule matches:
/// reading the ids of a reported device back (as the udev rule is written)
/// gives the numbers of its declaration.
pub proof fn lemma_inspected_ids_read_back(d: InspectionDevice, bus: u32, group: u32, vid: u32, pid: u32)
    requires
        d.bus@ == inspection_id(bus),
        d.group@ == inspection_id(group),
        d.vid@ == inspection_id(vid),
        d.pid@ == inspection_id(pid),
    ensures
        device_id_values(d) == Some((bus, group, vid, pid)),
{
    lemma_id_reads_back(bus);
    lemma_id_reads_back(group);
    lemma_id_reads_back(vid);
    lemma_id_reads_back(pid);
}

proof fn lemma_id_reads_back(v: u32)
    ensures
        id_value(inspection_id(v)) == Some(v),
{
    reveal_strlit("0x");
    let s = inspection_id(v);
    let h = hex_upper(v as nat, 4);
    assert(s.drop_first() =~= seq!['x'] + h);
    assert((seq!['x'] + h).drop_first() =~= h);
    assert(skip_bytes(s, 2) == skip_bytes(s.drop_first(), 1));
    assert(skip_bytes(s.drop_first(), 1) == skip_bytes(h, 0));
    lemma_hex_upper_parses_back(v, 4);
}

} // verus!
