//! A HID device as udev describes it: its sysfs name and path, and its
//! udev properties.
use vstd::prelude::*;
use vstd::string::*;
use crate::text::{skip_bytes, str_skip_bytes};
use crate::hex::{spec_parse_hex_u32, parse_hex_u32};
use crate::properties::{HidUdevProperty, hid_bpf_values, hid_bpf_properties, has_property, property_named};
use crate::paths::{bpffs_path, get_bpffs_path};

verus! {

/// The udev property that makes the device be left alone.
pub const IGNORE_DEVICE_PROPERTY: &'static str = "HID_BPF_IGNORE_DEVICE";

/// The HID id of a device: the hexadecimal number after the first 15 bytes
/// of its sysname (`0003:045E:07A5.000B` has the id `0xB`).
pub open spec fn hid_id_of(sysname: Seq<char>) -> Option<u32> {
    match skip_bytes(sysname, 15) {
        Some(rest) => spec_parse_hex_u32(rest),
        None => None,
    }
}

/// The HID id in a sysname such as `0003:045E:07A5.000B`, if it has one.
pub fn hid_id_from_sysname(sysname: &str) -> (r: Option<u32>)
    ensures
        r == hid_id_of(sysname@),
{
    match str_skip_bytes(sysname, 15) {
        Some(rest) => parse_hex_u32(rest),
        None => None,
    }
}

/// Skipping `n` characters of one byte each skips `n` bytes.
proof fn lemma_skip_one_byte_chars(s: Seq<char>, n: nat)
    requires
        n <= s.len(),
        forall|i: int| 0 <= i < n ==> crate::text::utf8_len(#[trigger] s[i]) == 1,
    ensures
        skip_bytes(s, n) == Some(s.skip(n as int)),
    decreases n,
{
    if n > 0 {
        assert forall|i: int| 0 <= i < n - 1 implies crate::text::utf8_len(#[trigger] s.drop_first()[i]) == 1 by {
            assert(s.drop_first()[i] == s[i + 1]);
        }
        lemma_skip_one_byte_chars(s.drop_first(), (n - 1) as nat);
        assert(s.drop_first().skip(n - 1) =~= s.skip(n as int));
    } else {
        assert(s.skip(0) =~= s);
    }
}

/// The HID id of a device with a sysname `BBBB:VVVV:PPPP.NNNN` is the
/// hexadecimal number `NNNN`, all four digits of the instance after the
/// `.`.
pub proof fn lemma_hid_id_is_instance_number(s: Seq<char>)
    requires
        crate::paths::is_hid_sysname(s),
    ensures
        hid_id_of(s) == Some(
            (4096 * crate::hex::hex_digit_value(s[15])->Some_0 + 256 * crate::hex::hex_digit_value(
                s[16],
            )->Some_0 + 16 * crate::hex::hex_digit_value(s[17])->Some_0 + crate::hex::hex_digit_value(
                s[18],
            )->Some_0) as u32,
        ),
{
    assert forall|i: int| 0 <= i < 15 implies crate::text::utf8_len(#[trigger] s[i]) == 1 by {
        assert(s[i] == s[i]);
    }
    lemma_skip_one_byte_chars(s, 15);
    let t = s.skip(15);
    assert(t.len() == 4);
    assert(t[0] == s[15] && t[1] == s[16] && t[2] == s[17] && t[3] == s[18]);
    assert(s[15] == s[15] && s[16] == s[16] && s[17] == s[17] && s[18] == s[18]);
    assert(t[0] != '+');
    assert(t.drop_last() =~= seq![t[0], t[1], t[2]]);
    assert(t.drop_last().drop_last() =~= seq![t[0], t[1]]);
    assert(t.drop_last().drop_last().drop_last() =~= seq![t[0]]);
    assert(t.drop_last().drop_last().drop_last().drop_last() =~= Seq::<char>::empty());
    reveal_with_fuel(crate::hex::hex_value, 5);
}

/// A HID device: its sysname (such as `0003:045E:07A5.000B`), its sysfs
/// path and its udev properties in udev's order.
#[derive(Debug, Clone)]
pub struct HidUdev {
    pub sysname: String,
    pub syspath: String,
    pub properties: Vec<HidUdevProperty>,
}

impl HidUdev {
    /// The device's sysname.
    pub fn sysname(&self) -> (r: String)
        ensures
            r@ == self.sysname@,
    {
        self.sysname.clone()
    }

    /// The device's sysfs path.
    pub fn syspath(&self) -> (r: String)
        ensures
            r@ == self.syspath@,
    {
        self.syspath.clone()
    }

    /// The device's HID id, read from its sysname.
    pub fn id(&self) -> (r: u32)
        requires
            hid_id_of(self.sysname@) is Some,
        ensures
            Some(r) == hid_id_of(self.sysname@),
    {
        match hid_id_from_sysname(self.sysname.as_str()) {
            Some(id) => id,
            None => 0,
        }
    }

    /// The values of the device's `HID_BPF_*` properties.
    pub fn hid_bpf_properties(&self) -> (r: Vec<String>)
        ensures
            r@.len() == hid_bpf_values(self.properties@).len(),
            forall|i: int| 0 <= i < r@.len() ==> (#[trigger] r@[i])@ == hid_bpf_values(self.properties@)[i],
    {
        hid_bpf_properties(&self.properties)
    }

    /// The device's udev properties.
    pub fn udev_properties(&self) -> (r: Vec<HidUdevProperty>)
        ensures
            r@.len() == self.properties@.len(),
            forall|i: int|
                0 <= i < r@.len() ==> (#[trigger] r@[i]).name@ == self.properties@[i].name@
                    && r@[i].value@ == self.properties@[i].value@,
    {
        let mut out: Vec<HidUdevProperty> = Vec::new();
        let mut i: usize = 0;
        while i < self.properties.len()
            invariant
                i <= self.properties@.len(),
                out@.len() == i,
                forall|k: int|
                    0 <= k < i ==> (#[trigger] out@[k]).name@ == self.properties@[k].name@
                        && out@[k].value@ == self.properties@[k].value@,
            decreases self.properties@.len() - i,
        {
            out.push(HidUdevProperty::from(&self.properties[i]));
            i = i + 1;
        }
        out
    }

    /// Whether udev marked the device `HID_BPF_IGNORE_DEVICE`, so that no
    /// BPF object is loaded for it.
    pub fn is_ignored(&self) -> (r: bool)
        ensures
            r == has_property(self.properties@, IGNORE_DEVICE_PROPERTY@),
    {
        property_named(&self.properties, IGNORE_DEVICE_PROPERTY)
    }

    /// The bpffs directory holding all of the device's BPF objects.
    pub fn bpffs_dir(&self) -> (r: String)
        ensures
            r@ == bpffs_path(self.sysname@, Seq::empty()),
    {
        let r = get_bpffs_path(self.sysname.as_str(), "");
        proof {
            reveal_strlit("");
        }
        r
    }
}

} // verus!
