//! The variables of a BPF object's data sections that udev-hid-bpf fills
//! in: `UDEV_PROP_*` strings and the `HID_REPORT_DESCRIPTOR`, and how they
//! are written into the sections' map values.
use vstd::prelude::*;
use vstd::utf8::encode_utf8;
use vstd::string::*;
use crate::text::{chars_of, string_from_chars, str_eq, str_starts_with, str_ends_with, has_prefix, has_suffix};
use crate::properties::{HidUdevProperty, find_property};

verus! {

/// The prefix of the variables that receive udev properties.
pub const UDEV_PROP_PREFIX: &'static str = "UDEV_PROP_";

/// The variable that receives the report descriptor.
pub const HID_REPORT_DESCRIPTOR_NAME: &'static str = "HID_REPORT_DESCRIPTOR";

/// The data section of initialised globals.
pub const DATA_SECTION: &'static str = ".data";

/// The data section of zero-initialised globals.
pub const BSS_SECTION: &'static str = ".bss";

/// A variable of a BTF data section: its name (if it has a valid one), its
/// offset in the section and its size.
#[derive(Debug, Clone)]
pub struct DataSecVar {
    pub name: Option<String>,
    pub offset: u32,
    pub size: usize,
}

/// A BTF data section and its variables.
#[derive(Debug, Clone)]
pub struct DataSec {
    pub name: String,
    pub vars: Vec<DataSecVar>,
}

/// The data sections of a BPF object's BTF, in type id order.
#[derive(Debug, Clone)]
pub struct BtfDataSections {
    pub sections: Vec<DataSec>,
}

/// Metadata for a variable extracted from BTF
#[derive(Debug, Clone)]
pub struct VariableMetadata {
    pub name: String,
    pub offset: usize,
    pub size: usize,
}

/// Cached BTF metadata extracted from .bss and .data sections
#[derive(Debug)]
pub struct BpfMetadata {
    /// UDEV properties found in .bss section
    pub udev_properties_bss: Vec<VariableMetadata>,
    /// UDEV properties found in .data section
    pub udev_properties_data: Vec<VariableMetadata>,
    /// HID_REPORT_DESCRIPTOR in .bss section
    pub report_descriptor_bss: Option<VariableMetadata>,
    /// HID_REPORT_DESCRIPTOR in .data section
    pub report_descriptor_data: Option<VariableMetadata>,
}

/// A variable's metadata as plain values: name, offset, size.
pub open spec fn var_view(v: VariableMetadata) -> (Seq<char>, int, int) {
    (v.name@, v.offset as int, v.size as int)
}

/// The first section of `btf` named `name`.
pub open spec fn find_section(sections: Seq<DataSec>, name: Seq<char>) -> Option<DataSec>
    decreases sections.len(),
{
    if sections.len() == 0 {
        None
    } else if sections[0].name@ == name {
        Some(sections[0])
    } else {
        find_section(sections.drop_first(), name)
    }
}

/// The variables of the section named `name`, none if there is no such section.
pub open spec fn section_vars(btf: BtfDataSections, name: Seq<char>) -> Seq<DataSecVar> {
    match find_section(btf.sections@, name) {
        Some(s) => s.vars@,
        None => Seq::empty(),
    }
}

/// The `UDEV_PROP_*` variables, each named by what follows the prefix.
pub open spec fn udev_property_vars(vars: Seq<DataSecVar>) -> Seq<(Seq<char>, int, int)>
    decreases vars.len(),
{
    if vars.len() == 0 {
        Seq::empty()
    } else {
        let rest = udev_property_vars(vars.drop_last());
        let v = vars.last();
        match v.name {
            Some(n) => if has_prefix(n@, UDEV_PROP_PREFIX@) {
                rest.push((n@.skip(UDEV_PROP_PREFIX@.len() as int), v.offset as int, v.size as int))
            } else {
                rest
            },
            None => rest,
        }
    }
}

/// The listing of the `UDEV_PROP_*` variables keeps every variable whose
/// name starts with `UDEV_PROP_`, in order, as its name without the prefix,
/// its offset and its size, and nothing else: it is `filter_map` over the
/// variables.  In particular each such variable is listed.
pub proof fn lemma_udev_property_vars_lists_each(vars: Seq<DataSecVar>)
    ensures
        udev_property_vars(vars) == vars.filter_map(
            |v: DataSecVar|
                if v.name is Some && UDEV_PROP_PREFIX@.len() <= v.name->Some_0@.len()
                    && v.name->Some_0@.subrange(0, UDEV_PROP_PREFIX@.len() as int) == UDEV_PROP_PREFIX@ {
                    Some((v.name->Some_0@.skip(UDEV_PROP_PREFIX@.len() as int), v.offset as int, v.size as int))
                } else {
                    None
                },
        ),
        forall|j: int|
            0 <= j < vars.len() && (#[trigger] vars[j]).name is Some && UDEV_PROP_PREFIX@.len()
                <= vars[j].name->Some_0@.len() && vars[j].name->Some_0@.subrange(
                0,
                UDEV_PROP_PREFIX@.len() as int,
            ) == UDEV_PROP_PREFIX@ ==> udev_property_vars(vars).contains(
                (vars[j].name->Some_0@.skip(UDEV_PROP_PREFIX@.len() as int), vars[j].offset as int, vars[j].size as int),
            ),
    decreases vars.len(),
{
    if vars.len() > 0 {
        let init = vars.drop_last();
        lemma_udev_property_vars_lists_each(init);
        let rest = udev_property_vars(init);
        let r = udev_property_vars(vars);
        assert forall|j: int|
            0 <= j < vars.len() && (#[trigger] vars[j]).name is Some && UDEV_PROP_PREFIX@.len()
                <= vars[j].name->Some_0@.len() && vars[j].name->Some_0@.subrange(
                0,
                UDEV_PROP_PREFIX@.len() as int,
            ) == UDEV_PROP_PREFIX@ implies r.contains(
            (vars[j].name->Some_0@.skip(UDEV_PROP_PREFIX@.len() as int), vars[j].offset as int, vars[j].size as int),
        ) by {
            let e = (vars[j].name->Some_0@.skip(UDEV_PROP_PREFIX@.len() as int), vars[j].offset as int, vars[j].size as int);
            if j < vars.len() - 1 {
                assert(init[j] == vars[j]);
                assert(rest.contains(e));
                let k = choose|k: int| 0 <= k < rest.len() && rest[k] == e;
                assert(r[k] == e);
            } else {
                assert(r[r.len() - 1] == e);
            }
        }
    }
}

/// The variables named `HID_REPORT_DESCRIPTOR`.
pub open spec fn report_descriptor_vars(vars: Seq<DataSecVar>) -> Seq<(Seq<char>, int, int)>
    decreases vars.len(),
{
    if vars.len() == 0 {
        Seq::empty()
    } else {
        let rest = report_descriptor_vars(vars.drop_last());
        let v = vars.last();
        match v.name {
            Some(n) => if n@ == HID_REPORT_DESCRIPTOR_NAME@ {
                rest.push((n@, v.offset as int, v.size as int))
            } else {
                rest
            },
            None => rest,
        }
    }
}

/// The variables named `HID_REPORT_DESCRIPTOR` are exactly those of the
/// variables, in order, with their name, offset and size: `filter_map` over
/// the variables.
pub proof fn lemma_report_descriptor_vars_lists_each(vars: Seq<DataSecVar>)
    ensures
        report_descriptor_vars(vars) == vars.filter_map(
            |v: DataSecVar|
                if v.name is Some && v.name->Some_0@ == HID_REPORT_DESCRIPTOR_NAME@ {
                    Some((v.name->Some_0@, v.offset as int, v.size as int))
                } else {
                    None
                },
        ),
    decreases vars.len(),
{
    if vars.len() > 0 {
        lemma_report_descriptor_vars_lists_each(vars.drop_last());
    }
}

/// Finds the section named `name`.
fn lookup_section<'a>(btf: &'a BtfDataSections, name: &str) -> (r: Option<&'a DataSec>)
    ensures
        match find_section(btf.sections@, name@) {
            Some(s) => r matches Some(x) && *x == s,
            None => r is None,
        },
{
    let mut i: usize = 0;
    assert(btf.sections@.skip(0) =~= btf.sections@);
    while i < btf.sections.len()
        invariant
            i <= btf.sections@.len(),
            find_section(btf.sections@, name@) == find_section(btf.sections@.skip(i as int), name@),
        decreases btf.sections@.len() - i,
    {
        assert(btf.sections@.skip(i as int).drop_first() =~= btf.sections@.skip(i + 1));
        if str_eq(btf.sections[i].name.as_str(), name) {
            return Some(&btf.sections[i]);
        }
        i = i + 1;
    }
    None
}

/// Helper function to extract UDEV property metadata from a BTF DataSec
/// Returns a vector of VariableMetadata for each UDEV_PROP_* variable found,
/// named without the prefix.
pub fn get_udev_properties_metadata(array_name: &str, btf: &BtfDataSections) -> (r: Vec<VariableMetadata>)
    ensures
        r@.map_values(|v: VariableMetadata| var_view(v)) == udev_property_vars(section_vars(*btf, array_name@)),
{
    let vars = match lookup_section(btf, array_name) {
        Some(s) => &s.vars,
        None => {
            let r: Vec<VariableMetadata> = Vec::new();
            assert(r@.map_values(|v: VariableMetadata| var_view(v)) =~= Seq::empty());
            return r;
        },
    };
    let mut out: Vec<VariableMetadata> = Vec::new();
    let mut i: usize = 0;
    while i < vars.len()
        invariant
            i <= vars@.len(),
            out@.map_values(|v: VariableMetadata| var_view(v)) == udev_property_vars(vars@.take(i as int)),
        decreases vars@.len() - i,
    {
        assert(vars@.take(i + 1).drop_last() =~= vars@.take(i as int));
        let ghost before = out@;
        match &vars[i].name {
            Some(n) => {
                if str_starts_with(n.as_str(), UDEV_PROP_PREFIX) {
                    let chars = chars_of(n.as_str());
                    let plen = UDEV_PROP_PREFIX.unicode_len();
                    let stripped = string_from_chars(chars.as_slice(), plen, chars.len());
                    assert(chars@.subrange(plen as int, chars@.len() as int) =~= n@.skip(
                        UDEV_PROP_PREFIX@.len() as int,
                    ));
                    out.push(
                        VariableMetadata {
                            name: stripped,
                            offset: vars[i].offset as usize,
                            size: vars[i].size,
                        },
                    );
                    assert(out@.map_values(|v: VariableMetadata| var_view(v)) =~= before.map_values(
                        |v: VariableMetadata| var_view(v),
                    ).push(var_view(out@.last())));
                }
            },
            None => {},
        }
        i = i + 1;
    }
    assert(vars@.take(vars@.len() as int) =~= vars@);
    out
}

/// Helper function to find HID_REPORT_DESCRIPTOR in a BTF DataSec: the
/// first variable of that name.
pub fn get_report_descriptor_metadata(array_name: &str, btf: &BtfDataSections) -> (r: Option<
    VariableMetadata,
>)
    ensures
        ({
            let found = report_descriptor_vars(section_vars(*btf, array_name@));
            match r {
                Some(v) => found.len() > 0 && var_view(v) == found[0],
                None => found.len() == 0,
            }
        }),
{
    let vars = match lookup_section(btf, array_name) {
        Some(s) => &s.vars,
        None => {
            return None;
        },
    };
    assert(vars@ == section_vars(*btf, array_name@));
    let mut i: usize = 0;
    while i < vars.len()
        invariant
            i <= vars@.len(),
            vars@ == section_vars(*btf, array_name@),
            report_descriptor_vars(vars@.take(i as int)).len() == 0,
        decreases vars@.len() - i,
    {
        assert(vars@.take(i + 1).drop_last() =~= vars@.take(i as int));
        match &vars[i].name {
            Some(n) => {
                if str_eq(n.as_str(), HID_REPORT_DESCRIPTOR_NAME) {
                    proof {
                        let v = vars@[i as int];
                        assert(vars@.take(i + 1).last() == v);
                        assert(report_descriptor_vars(vars@.take(i + 1)) =~= seq![
                            (n@, v.offset as int, v.size as int),
                        ]);
                        lemma_report_descriptor_vars_prefix(vars@, i as int + 1);
                    }
                    let found = VariableMetadata {
                        name: n.clone(),
                        offset: vars[i].offset as usize,
                        size: vars[i].size,
                    };
                    proof {
                        let all = report_descriptor_vars(vars@);
                        assert(all.len() > 0);
                        assert(all[0] == (n@, vars@[i as int].offset as int, vars@[i as int].size as int));
                        assert(found.name@ == n@);
                        assert(var_view(found) == all[0]);
                    }
                    return Some(found);
                }
            },
            None => {},
        }
        i = i + 1;
    }
    assert(vars@.take(vars@.len() as int) =~= vars@);
    None
}

/// The matches found in a prefix of the variables come first among all
/// matches.
pub proof fn lemma_report_descriptor_vars_prefix(vars: Seq<DataSecVar>, k: int)
    requires
        0 <= k <= vars.len(),
    ensures
        report_descriptor_vars(vars).len() >= report_descriptor_vars(vars.take(k)).len(),
        forall|i: int|
            0 <= i < report_descriptor_vars(vars.take(k)).len() ==> report_descriptor_vars(vars)[i]
                == report_descriptor_vars(vars.take(k))[i],
    decreases vars.len() - k,
{
    if k < vars.len() {
        lemma_report_descriptor_vars_prefix(vars, k + 1);
        assert(vars.take(k + 1).drop_last() =~= vars.take(k));
    } else {
        assert(vars.take(k) =~= vars);
    }
}

impl BpfMetadata {
    /// The metadata of a BPF object's BTF: its `UDEV_PROP_*` variables and
    /// `HID_REPORT_DESCRIPTOR` in `.bss` and in `.data`.
    pub fn from_btf(btf: &BtfDataSections) -> (r: Self)
        ensures
            r.udev_properties_bss@.map_values(|v: VariableMetadata| var_view(v)) == udev_property_vars(
                section_vars(*btf, BSS_SECTION@),
            ),
            r.udev_properties_data@.map_values(|v: VariableMetadata| var_view(v)) == udev_property_vars(
                section_vars(*btf, DATA_SECTION@),
            ),
            ({
                let found = report_descriptor_vars(section_vars(*btf, BSS_SECTION@));
                match r.report_descriptor_bss {
                    Some(v) => found.len() > 0 && var_view(v) == found[0],
                    None => found.len() == 0,
                }
            }),
            ({
                let found = report_descriptor_vars(section_vars(*btf, DATA_SECTION@));
                match r.report_descriptor_data {
                    Some(v) => found.len() > 0 && var_view(v) == found[0],
                    None => found.len() == 0,
                }
            }),
    {
        Self {
            udev_properties_bss: get_udev_properties_metadata(BSS_SECTION, btf),
            udev_properties_data: get_udev_properties_metadata(DATA_SECTION, btf),
            report_descriptor_bss: get_report_descriptor_metadata(BSS_SECTION, btf),
            report_descriptor_data: get_report_descriptor_metadata(DATA_SECTION, btf),
        }
    }

    /// Check if the BPF program expects a HID_REPORT_DESCRIPTOR
    pub fn has_report_descriptor(&self) -> (r: bool)
        ensures
            r == (self.report_descriptor_bss is Some || self.report_descriptor_data is Some),
    {
        self.report_descriptor_bss.is_some() || self.report_descriptor_data.is_some()
    }

    /// The size of the report descriptor variable, from `.bss` first.
    pub fn report_descriptor_size(&self) -> (r: Option<usize>)
        ensures
            r == match self.report_descriptor_bss {
                Some(v) => Some(v.size),
                None => match self.report_descriptor_data {
                    Some(v) => Some(v.size),
                    None => None,
                },
            },
    {
        match &self.report_descriptor_bss {
            Some(v) => Some(v.size),
            None => match &self.report_descriptor_data {
                Some(v) => Some(v.size),
                None => None,
            },
        }
    }
}

// ---------------------------------------------------------------------
// Writing into a section's map value
// ---------------------------------------------------------------------

/// Whether the map `map_name` holds the section `array_name`: libbpf names
/// section maps after the object, a dot and the section.
pub fn map_holds_section(map_name: &str, array_name: &str) -> (r: bool)
    ensures
        r == has_suffix(map_name@, array_name@),
{
    str_ends_with(map_name, array_name)
}

/// `data` with `bytes` written from `offset` on.
pub open spec fn splice(data: Seq<u8>, offset: int, bytes: Seq<u8>) -> Seq<u8> {
    data.take(offset) + bytes + data.skip(offset + bytes.len())
}

/// The property value that variable `v` receives: the value of the first
/// property of its name, if that value's UTF-8 bytes are shorter than the
/// variable (leaving room for the terminating zero).
pub open spec fn udev_value_for(v: VariableMetadata, props: Seq<HidUdevProperty>) -> Option<Seq<u8>> {
    match find_property(props, v.name@) {
        Some(value) => if encode_utf8(value).len() < v.size {
            Some(encode_utf8(value))
        } else {
            None
        },
        None => None,
    }
}

/// A map value after the udev properties were written into the variables
/// `vars`, in order, and whether any was written.
pub open spec fn with_udev_properties(
    data: Seq<u8>,
    vars: Seq<VariableMetadata>,
    props: Seq<HidUdevProperty>,
) -> (Seq<u8>, bool)
    decreases vars.len(),
{
    if vars.len() == 0 {
        (data, false)
    } else {
        let (d, updated) = with_udev_properties(data, vars.drop_last(), props);
        let v = vars.last();
        match udev_value_for(v, props) {
            Some(bytes) => (splice(d, v.offset as int, bytes), true),
            None => (d, updated),
        }
    }
}

/// Every value that is written lies inside the map value of length `len`.
pub open spec fn udev_writes_fit(len: int, vars: Seq<VariableMetadata>, props: Seq<HidUdevProperty>) -> bool {
    forall|i: int|
        0 <= i < vars.len() ==> match #[trigger] udev_value_for(vars[i], props) {
            Some(bytes) => vars[i].offset + bytes.len() <= len,
            None => true,
        }
}

/// The bytes of `data` from `offset` on replaced by `bytes`.
fn write_bytes_at(data: &mut Vec<u8>, offset: usize, bytes: &[u8])
    requires
        offset + bytes@.len() <= old(data)@.len(),
    ensures
        final(data)@ == splice(old(data)@, offset as int, bytes@),
{
    let mut k: usize = 0;
    while k < bytes.len()
        invariant
            offset + bytes@.len() <= data.len(),
            k <= bytes@.len(),
            data@.len() == old(data)@.len(),
            data@ =~= old(data)@.take(offset as int) + bytes@.take(k as int) + old(data)@.skip(offset + k),
        decreases bytes@.len() - k,
    {
        data.set(offset + k, bytes[k]);
        assert(bytes@.take(k + 1) =~= bytes@.take(k as int).push(bytes@[k as int]));
        k = k + 1;
    }
    assert(bytes@.take(bytes@.len() as int) =~= bytes@);
}

/// The value of the first property named `name`.
fn lookup_property<'a>(props: &'a [HidUdevProperty], name: &str) -> (r: Option<&'a String>)
    ensures
        match find_property(props@, name@) {
            Some(v) => r matches Some(s) && s@ == v,
            None => r is None,
        },
{
    let mut i: usize = 0;
    assert(props@.skip(0) =~= props@);
    while i < props.len()
        invariant
            i <= props@.len(),
            find_property(props@, name@) == find_property(props@.skip(i as int), name@),
        decreases props@.len() - i,
    {
        assert(props@.skip(i as int).drop_first() =~= props@.skip(i + 1));
        if str_eq(props[i].name.as_str(), name) {
            return Some(&props[i].value);
        }
        i = i + 1;
    }
    None
}

/// Writes the udev properties into one map value of a data section: each
/// variable in `properties_metadata`, in order, receives the value of the
/// first property of its name if that value is shorter than the variable.
/// Returns whether anything was written.
pub fn inject_udev_properties_into(
    data: &mut Vec<u8>,
    properties_metadata: &[VariableMetadata],
    udev_properties: &[HidUdevProperty],
) -> (updated: bool)
    requires
        udev_writes_fit(old(data)@.len() as int, properties_metadata@, udev_properties@),
    ensures
        (final(data)@, updated) == with_udev_properties(old(data)@, properties_metadata@, udev_properties@),
{
    let mut updated = false;
    let mut i: usize = 0;
    while i < properties_metadata.len()
        invariant
            i <= properties_metadata@.len(),
            data@.len() == old(data)@.len(),
            udev_writes_fit(old(data)@.len() as int, properties_metadata@, udev_properties@),
            (data@, updated) == with_udev_properties(
                old(data)@,
                properties_metadata@.take(i as int),
                udev_properties@,
            ),
        decreases properties_metadata@.len() - i,
    {
        assert(properties_metadata@.take(i + 1).drop_last() =~= properties_metadata@.take(i as int));
        let var = &properties_metadata[i];
        assert(match udev_value_for(properties_metadata@[i as int], udev_properties@) {
            Some(bytes) => properties_metadata@[i as int].offset + bytes.len() <= old(data)@.len(),
            None => true,
        });
        match lookup_property(udev_properties, var.name.as_str()) {
            Some(value) => {
                let buf = value.as_str().as_bytes();
                if buf.len() < var.size {
                    write_bytes_at(data, var.offset, buf);
                    updated = true;
                }
            },
            None => {},
        }
        i = i + 1;
    }
    assert(properties_metadata@.take(properties_metadata@.len() as int) =~= properties_metadata@);
    updated
}

/// Whether every udev property value that would be written lies inside a
/// map value of `len` bytes (writing past its end is a fatal error).
pub fn udev_writes_fit_in(len: usize, vars: &[VariableMetadata], props: &[HidUdevProperty]) -> (r: bool)
    ensures
        r == udev_writes_fit(len as int, vars@, props@),
{
    let mut i: usize = 0;
    while i < vars.len()
        invariant
            i <= vars@.len(),
            forall|j: int|
                0 <= j < i ==> match #[trigger] udev_value_for(vars@[j], props@) {
                    Some(bytes) => vars@[j].offset + bytes.len() <= len,
                    None => true,
                },
        decreases vars@.len() - i,
    {
        let var = &vars[i];
        match lookup_property(props, var.name.as_str()) {
            Some(value) => {
                let buf = value.as_str().as_bytes();
                if buf.len() < var.size {
                    if var.offset > len || buf.len() > len - var.offset {
                        assert(udev_value_for(vars@[i as int], props@) == Some(buf@));
                        assert(!(vars@[i as int].offset + buf@.len() <= len));
                        return false;
                    }
                }
            },
            None => {},
        }
        i = i + 1;
    }
    true
}

/// Whether the report descriptor is written into variable `var`: it is
/// there and large enough.
pub open spec fn report_descriptor_fits(var: Option<VariableMetadata>, rdesc: Seq<u8>) -> bool {
    var matches Some(v) && rdesc.len() <= v.size
}

/// Writes the report descriptor into one map value of a data section, at
/// the variable `rdesc_metadata`, if there is one and the descriptor fits
/// in it; otherwise leaves the value alone.  Returns whether it wrote.
pub fn inject_report_descriptor_into(
    data: &mut Vec<u8>,
    rdesc_metadata: Option<&VariableMetadata>,
    rdesc_bytes: &[u8],
) -> (written: bool)
    requires
        match rdesc_metadata {
            Some(v) => rdesc_bytes@.len() <= v.size ==> v.offset + rdesc_bytes@.len() <= old(data)@.len(),
            None => true,
        },
    ensures
        written == match rdesc_metadata {
            Some(v) => rdesc_bytes@.len() <= v.size,
            None => false,
        },
        written ==> final(data)@ == splice(old(data)@, rdesc_metadata.unwrap().offset as int, rdesc_bytes@),
        !written ==> final(data)@ == old(data)@,
{
    let var = match rdesc_metadata {
        Some(v) => v,
        None => {
            return false;
        },
    };
    if rdesc_bytes.len() > var.size {
        return false;
    }
    write_bytes_at(data, var.offset, rdesc_bytes);
    true
}

/// Reading back what was written: after `bytes` are written at `offset`
/// into `data` (where they fit), the value keeps its length, holds `bytes`
/// at `offset`, and is unchanged everywhere else.
pub proof fn lemma_splice_reads_back(data: Seq<u8>, offset: int, bytes: Seq<u8>)
    requires
        0 <= offset,
        offset + bytes.len() <= data.len(),
    ensures
        splice(data, offset, bytes).len() == data.len(),
        splice(data, offset, bytes).subrange(offset, offset + bytes.len()) == bytes,
        forall|i: int|
            0 <= i < data.len() && !(offset <= i < offset + bytes.len()) ==> #[trigger] splice(data, offset, bytes)[i]
                == data[i],
{
    assert(splice(data, offset, bytes).subrange(offset, offset + bytes.len()) =~= bytes);
}

/// The value of a `UDEV_PROP_*` map as it is read back: its bytes up to the
/// first zero byte that ends the string, or all of them if there is none.
pub fn udev_property_value_bytes(value: &[u8]) -> (r: Vec<u8>)
    ensures
        r@.len() <= value@.len(),
        r@ == value@.take(r@.len() as int),
        forall|i: int| 0 <= i < r@.len() ==> r@[i] != 0,
        r@.len() == value@.len() || value@[r@.len() as int] == 0,
{
    let mut r: Vec<u8> = Vec::new();
    let mut i: usize = 0;
    while i < value.len()
        invariant
            i <= value@.len(),
            r@ == value@.take(i as int),
            forall|j: int| 0 <= j < i ==> value@[j] != 0,
        decreases value@.len() - i,
    {
        if value[i] == 0 {
            return r;
        }
        r.push(value[i]);
        assert(r@ =~= value@.take(i + 1));
        i = i + 1;
    }
    r
}

} // verus!
