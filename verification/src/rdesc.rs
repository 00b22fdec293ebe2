//! The C-compatible form of a parsed HID report descriptor that is handed
//! to BPF programs, and its byte layout.
//!
//! The layout matches the packed structs of `hid_bpf_helpers.h`:
//! every struct is packed (no padding) and every integer is little endian.
use vstd::prelude::*;

verus! {

/// The number of collections recorded per field.
pub const HID_MAX_COLLECTIONS: usize = 32;

/// The number of fields recorded per report.
pub const HID_MAX_FIELDS: usize = 64;

/// The number of reports recorded per report type.
pub const HID_MAX_REPORTS: usize = 16;

/// The `field_type` of a Variable field.
pub const HID_RDESC_FIELD_VARIABLE: u8 = 0;

/// The `field_type` of an Array field.
pub const HID_RDESC_FIELD_ARRAY: u8 = 1;

/// The `field_type` of a Constant field.
pub const HID_RDESC_FIELD_CONSTANT: u8 = 2;

/// The number of bytes of one [`HidRdescCollection`].
pub const COLLECTION_BYTES: usize = 5;

/// The number of bytes of one [`HidRdescField`].
pub const FIELD_BYTES: usize = 181;

/// The number of bytes of one [`HidRdescReport`].
pub const REPORT_BYTES: usize = 11588;

/// The number of bytes of one [`HidRdescDescriptor`].
pub const DESCRIPTOR_BYTES: usize = 556227;

// ---------------------------------------------------------------------
// What the report descriptor parser gives
// ---------------------------------------------------------------------

/// A collection a field belongs to.
#[derive(Debug, Clone, Copy, PartialEq, Eq)]
pub struct CollectionInfo {
    /// The first usage (page, id) of the collection, if it has one.
    pub usage: Option<(u16, u16)>,
    /// The collection type (physical, application, logical, ...).
    pub collection_type: u8,
}

/// The HID Main Item attributes of a Variable or Array field.
#[derive(Debug, Clone, Copy, PartialEq, Eq)]
pub struct FieldAttributes {
    pub is_relative: bool,
    pub wraps: bool,
    pub is_nonlinear: bool,
    pub has_no_preferred_state: bool,
    pub has_null_state: bool,
    /// Only known for fields of output and feature reports.
    pub is_volatile: Option<bool>,
    pub is_buffered_bytes: bool,
}

/// A field of a report.
#[derive(Debug, Clone, PartialEq, Eq)]
pub enum FieldInfo {
    /// A single element of data.
    Variable {
        bits_start: usize,
        bits_end: usize,
        usage_page: u16,
        usage_id: u16,
        logical_minimum: i32,
        logical_maximum: i32,
        attributes: FieldAttributes,
        collections: Vec<CollectionInfo>,
    },
    /// A set of elements; `usages` are (page, id) pairs.
    Array {
        bits_start: usize,
        bits_end: usize,
        usages: Vec<(u16, u16)>,
        logical_minimum: i32,
        logical_maximum: i32,
        attributes: FieldAttributes,
        collections: Vec<CollectionInfo>,
    },
    /// Padding.
    Constant { bits_start: usize, bits_end: usize },
}

/// An input, output or feature report.
#[derive(Debug, Clone, PartialEq, Eq)]
pub struct ReportInfo {
    pub report_id: Option<u8>,
    pub size_in_bits: usize,
    pub fields: Vec<FieldInfo>,
}

/// A parsed report descriptor.
#[derive(Debug, Clone, PartialEq, Eq)]
pub struct ReportDescriptorInfo {
    pub input_reports: Vec<ReportInfo>,
    pub output_reports: Vec<ReportInfo>,
    pub feature_reports: Vec<ReportInfo>,
}

// ---------------------------------------------------------------------
// The C-compatible structs
// ---------------------------------------------------------------------

/// A collection as BPF programs see it.
#[derive(Debug, Clone, Copy, PartialEq, Eq)]
pub struct HidRdescCollection {
    pub usage_page: u16,
    pub usage_id: u16,
    pub collection_type: u8,
}

/// The usage range of an Array field.
#[derive(Debug, Clone, Copy, PartialEq, Eq)]
pub struct UsageRange {
    pub usage_minimum: u16,
    pub usage_maximum: u16,
}

/// The usage of a field: a usage id for Variable fields, a usage range
/// for Array fields.  Both take the same 4 bytes; a usage id fills the
/// first two and leaves the others zero.
#[derive(Debug, Clone, Copy, PartialEq, Eq)]
pub enum UsageIdUnion {
    UsageId(u16),
    Range(UsageRange),
}

/// A field as BPF programs see it.
#[derive(Debug, Clone, Copy, PartialEq, Eq)]
pub struct HidRdescField {
    pub field_type: u8,
    pub num_collections: u8,
    pub bits_start: u16,
    pub bits_end: u16,
    pub usage_page: u16,
    pub anon_usage_id: UsageIdUnion,
    pub logical_minimum: i32,
    pub logical_maximum: i32,
    /// Packed boolean flags matching C bitfield layout (HID Main Item attributes):
    /// bit 0: is_relative - Data is relative to previous value
    /// bit 1: wraps - Value wraps around (e.g., rotary encoder)
    /// bit 2: is_nonlinear - Non-linear relationship between logical/physical
    /// bit 3: has_no_preferred_state - No rest position (e.g., free-floating joystick)
    /// bit 4: has_null_state - Can report null/no-data values
    /// bit 5: is_volatile - Volatile (for Output/Feature items)
    /// bit 6: is_buffered_bytes - Fixed-size byte stream vs bitfield
    /// bit 7: reserved
    pub flags: u8,
    pub collections: [HidRdescCollection; HID_MAX_COLLECTIONS],
}

/// A report as BPF programs see it.
#[derive(Debug, Clone, Copy, PartialEq, Eq)]
pub struct HidRdescReport {
    pub report_id: u8,
    pub size_in_bits: u16,
    pub num_fields: u8,
    pub fields: [HidRdescField; HID_MAX_FIELDS],
}

/// A report descriptor as BPF programs see it.
#[derive(Debug, Clone, Copy, PartialEq, Eq)]
pub struct HidRdescDescriptor {
    pub num_input_reports: u8,
    pub num_output_reports: u8,
    pub num_feature_reports: u8,
    pub input_reports: [HidRdescReport; HID_MAX_REPORTS],
    pub output_reports: [HidRdescReport; HID_MAX_REPORTS],
    pub feature_reports: [HidRdescReport; HID_MAX_REPORTS],
}

// ---------------------------------------------------------------------
// Defaults
// ---------------------------------------------------------------------

/// The all-zero collection.
pub open spec fn default_collection() -> HidRdescCollection {
    HidRdescCollection { usage_page: 0, usage_id: 0, collection_type: 0 }
}

/// Whether `f` is the all-zero field.
pub open spec fn is_default_field(f: HidRdescField) -> bool {
    &&& f.field_type == 0
    &&& f.num_collections == 0
    &&& f.bits_start == 0
    &&& f.bits_end == 0
    &&& f.usage_page == 0
    &&& f.anon_usage_id == UsageIdUnion::UsageId(0)
    &&& f.logical_minimum == 0
    &&& f.logical_maximum == 0
    &&& f.flags == 0
    &&& forall|i: int| 0 <= i < HID_MAX_COLLECTIONS ==> #[trigger] f.collections@[i] == default_collection()
}

/// Whether `r` is the all-zero report.
pub open spec fn is_default_report(r: HidRdescReport) -> bool {
    &&& r.report_id == 0
    &&& r.size_in_bits == 0
    &&& r.num_fields == 0
    &&& forall|i: int| 0 <= i < HID_MAX_FIELDS ==> is_default_field(#[trigger] r.fields@[i])
}

impl Default for HidRdescCollection {
    fn default() -> (r: Self)
        ensures
            r == default_collection(),
    {
        HidRdescCollection { usage_page: 0, usage_id: 0, collection_type: 0 }
    }
}

impl Default for UsageIdUnion {
    fn default() -> (r: Self)
        ensures
            r == UsageIdUnion::UsageId(0),
    {
        UsageIdUnion::UsageId(0)
    }
}

impl Default for HidRdescField {
    fn default() -> (r: Self)
        ensures
            is_default_field(r),
    {
        let c = HidRdescCollection { usage_page: 0, usage_id: 0, collection_type: 0 };
        HidRdescField {
            field_type: 0,
            num_collections: 0,
            bits_start: 0,
            bits_end: 0,
            usage_page: 0,
            anon_usage_id: UsageIdUnion::UsageId(0),
            logical_minimum: 0,
            logical_maximum: 0,
            flags: 0,
            collections: [c; HID_MAX_COLLECTIONS],
        }
    }
}

impl Default for HidRdescReport {
    fn default() -> (r: Self)
        ensures
            is_default_report(r),
    {
        let f = HidRdescField::default();
        HidRdescReport { report_id: 0, size_in_bits: 0, num_fields: 0, fields: [f; HID_MAX_FIELDS] }
    }
}

impl Default for HidRdescDescriptor {
    fn default() -> (r: Self)
        ensures
            r.num_input_reports == 0,
            r.num_output_reports == 0,
            r.num_feature_reports == 0,
            forall|i: int| 0 <= i < HID_MAX_REPORTS ==> is_default_report(#[trigger] r.input_reports@[i]),
            forall|i: int| 0 <= i < HID_MAX_REPORTS ==> is_default_report(#[trigger] r.output_reports@[i]),
            forall|i: int| 0 <= i < HID_MAX_REPORTS ==> is_default_report(#[trigger] r.feature_reports@[i]),
    {
        let r = HidRdescReport::default();
        HidRdescDescriptor {
            num_input_reports: 0,
            num_output_reports: 0,
            num_feature_reports: 0,
            input_reports: [r; HID_MAX_REPORTS],
            output_reports: [r; HID_MAX_REPORTS],
            feature_reports: [r; HID_MAX_REPORTS],
        }
    }
}

// ---------------------------------------------------------------------
// Conversion from the parsed descriptor
// ---------------------------------------------------------------------

/// 1 for true, 0 for false.
pub open spec fn bit(b: bool) -> int {
    if b {
        1
    } else {
        0
    }
}

/// The Main Item attributes packed into one byte, bit 0 to bit 6 as
/// documented on [`HidRdescField::flags`]; an unknown volatility counts as
/// not volatile.
pub open spec fn packed_flags(a: FieldAttributes) -> u8 {
    (bit(a.is_relative) + 2 * bit(a.wraps) + 4 * bit(a.is_nonlinear) + 8 * bit(
        a.has_no_preferred_state,
    ) + 16 * bit(a.has_null_state) + 32 * bit(
        match a.is_volatile {
            Some(v) => v,
            None => false,
        },
    ) + 64 * bit(a.is_buffered_bytes)) as u8
}

/// The C form of a collection: its first usage, or zeros.
pub open spec fn c_collection(c: CollectionInfo) -> HidRdescCollection {
    HidRdescCollection {
        usage_page: match c.usage {
            Some(u) => u.0,
            None => 0,
        },
        usage_id: match c.usage {
            Some(u) => u.1,
            None => 0,
        },
        collection_type: c.collection_type,
    }
}

/// The first `HID_MAX_COLLECTIONS` collections in C form, the remaining
/// slots zero.
pub open spec fn collections_converted(
    infos: Seq<CollectionInfo>,
    arr: [HidRdescCollection; HID_MAX_COLLECTIONS],
) -> bool {
    forall|i: int|
        0 <= i < HID_MAX_COLLECTIONS ==> #[trigger] arr@[i] == if i < infos.len() {
            c_collection(infos[i])
        } else {
            default_collection()
        }
}

/// The smaller of two integers.
pub open spec fn min(a: int, b: int) -> int {
    if a <= b {
        a
    } else {
        b
    }
}

/// Whether `f` is the C form of the parsed field `info`.
pub open spec fn field_converted(info: FieldInfo, f: HidRdescField) -> bool {
    match info {
        FieldInfo::Variable {
            bits_start,
            bits_end,
            usage_page,
            usage_id,
            logical_minimum,
            logical_maximum,
            attributes,
            collections,
        } => {
            &&& f.field_type == HID_RDESC_FIELD_VARIABLE
            &&& f.bits_start == bits_start as u16
            &&& f.bits_end == bits_end as u16
            &&& f.usage_page == usage_page
            &&& f.anon_usage_id == UsageIdUnion::UsageId(usage_id)
            &&& f.logical_minimum == logical_minimum
            &&& f.logical_maximum == logical_maximum
            &&& f.flags == packed_flags(attributes)
            &&& f.num_collections as int == min(collections@.len() as int, HID_MAX_COLLECTIONS as int)
            &&& collections_converted(collections@, f.collections)
        },
        FieldInfo::Array {
            bits_start,
            bits_end,
            usages,
            logical_minimum,
            logical_maximum,
            attributes,
            collections,
        } => {
            &&& f.field_type == HID_RDESC_FIELD_ARRAY
            &&& f.bits_start == bits_start as u16
            &&& f.bits_end == bits_end as u16
            &&& f.usage_page == if usages@.len() > 0 {
                usages@[0].0
            } else {
                0
            }
            &&& f.anon_usage_id == UsageIdUnion::Range(
                UsageRange {
                    usage_minimum: if usages@.len() > 0 {
                        usages@[0].1
                    } else {
                        0
                    },
                    usage_maximum: if usages@.len() > 0 {
                        usages@.last().1
                    } else {
                        0
                    },
                },
            )
            &&& f.logical_minimum == logical_minimum
            &&& f.logical_maximum == logical_maximum
            &&& f.flags == packed_flags(attributes)
            &&& f.num_collections as int == min(collections@.len() as int, HID_MAX_COLLECTIONS as int)
            &&& collections_converted(collections@, f.collections)
        },
        FieldInfo::Constant { bits_start, bits_end } => {
            &&& f.field_type == HID_RDESC_FIELD_CONSTANT
            &&& f.bits_start == bits_start as u16
            &&& f.bits_end == bits_end as u16
            &&& f.num_collections == 0
            &&& f.usage_page == 0
            &&& f.anon_usage_id == UsageIdUnion::UsageId(0)
            &&& f.logical_minimum == 0
            &&& f.logical_maximum == 0
            &&& f.flags == 0
            &&& forall|i: int|
                0 <= i < HID_MAX_COLLECTIONS ==> #[trigger] f.collections@[i] == default_collection()
        },
    }
}

/// Whether `r` is the C form of the parsed report `info`: its report id
/// (0 without one), its size in bits (truncated to 16 bits), and its first
/// `HID_MAX_FIELDS` fields, the remaining slots zero.
pub open spec fn report_converted(info: ReportInfo, r: HidRdescReport) -> bool {
    &&& r.report_id == match info.report_id {
        Some(id) => id,
        None => 0u8,
    }
    &&& r.size_in_bits == info.size_in_bits as u16
    &&& r.num_fields as int == min(info.fields@.len() as int, HID_MAX_FIELDS as int)
    &&& forall|i: int|
        0 <= i < HID_MAX_FIELDS ==> if i < info.fields@.len() {
            field_converted(info.fields@[i], #[trigger] r.fields@[i])
        } else {
            is_default_field(r.fields@[i])
        }
}

/// Whether `arr` holds the first `HID_MAX_REPORTS` reports of `infos` in C
/// form, the remaining slots zero, and `num` counts them.
pub open spec fn reports_converted(
    infos: Seq<ReportInfo>,
    num: u8,
    arr: [HidRdescReport; HID_MAX_REPORTS],
) -> bool {
    &&& num as int == min(infos.len() as int, HID_MAX_REPORTS as int)
    &&& forall|i: int|
        0 <= i < HID_MAX_REPORTS ==> if i < infos.len() {
            report_converted(infos[i], #[trigger] arr@[i])
        } else {
            is_default_report(arr@[i])
        }
}

/// Whether `d` is the C form of the parsed report descriptor `info`.
pub open spec fn descriptor_converted(info: ReportDescriptorInfo, d: HidRdescDescriptor) -> bool {
    &&& reports_converted(info.input_reports@, d.num_input_reports, d.input_reports)
    &&& reports_converted(info.output_reports@, d.num_output_reports, d.output_reports)
    &&& reports_converted(info.feature_reports@, d.num_feature_reports, d.feature_reports)
}

impl HidRdescCollection {
    /// The C form of a collection.
    pub fn from_info(c: &CollectionInfo) -> (r: Self)
        ensures
            r == c_collection(*c),
    {
        match c.usage {
            Some((page, id)) => HidRdescCollection {
                usage_page: page,
                usage_id: id,
                collection_type: c.collection_type,
            },
            None => HidRdescCollection { usage_page: 0, usage_id: 0, collection_type: c.collection_type },
        }
    }
}

/// The C form of the first `HID_MAX_COLLECTIONS` collections.
fn convert_collections(infos: &Vec<CollectionInfo>) -> (r: ([HidRdescCollection; HID_MAX_COLLECTIONS], u8))
    ensures
        collections_converted(infos@, r.0),
        r.1 as int == min(infos@.len() as int, HID_MAX_COLLECTIONS as int),
{
    let d = HidRdescCollection { usage_page: 0, usage_id: 0, collection_type: 0 };
    let mut arr = [d; HID_MAX_COLLECTIONS];
    let num = if infos.len() < HID_MAX_COLLECTIONS {
        infos.len()
    } else {
        HID_MAX_COLLECTIONS
    };
    let mut i: usize = 0;
    while i < num
        invariant
            num <= HID_MAX_COLLECTIONS,
            num as int == min(infos@.len() as int, HID_MAX_COLLECTIONS as int),
            i <= num,
            forall|j: int|
                0 <= j < HID_MAX_COLLECTIONS ==> #[trigger] arr@[j] == if j < i {
                    c_collection(infos@[j])
                } else {
                    default_collection()
                },
        decreases num - i,
    {
        arr[i] = HidRdescCollection::from_info(&infos[i]);
        i = i + 1;
    }
    (arr, num as u8)
}

impl HidRdescField {
    /// Pack HID Main Item attributes into u8 matching C bitfield layout
    pub fn pack_flags(a: &FieldAttributes) -> (r: u8)
        ensures
            r == packed_flags(*a),
    {
        let mut f: u8 = 0;
        if a.is_relative {
            f = f + 1;
        }
        if a.wraps {
            f = f + 2;
        }
        if a.is_nonlinear {
            f = f + 4;
        }
        if a.has_no_preferred_state {
            f = f + 8;
        }
        if a.has_null_state {
            f = f + 16;
        }
        let volatile = match a.is_volatile {
            Some(v) => v,
            None => false,
        };
        if volatile {
            f = f + 32;
        }
        if a.is_buffered_bytes {
            f = f + 64;
        }
        f
    }

    /// The C form of a parsed field.
    pub fn from_info(field: &FieldInfo) -> (r: Self)
        ensures
            field_converted(*field, r),
    {
        let mut c_field = HidRdescField::default();
        match field {
            FieldInfo::Variable {
                bits_start,
                bits_end,
                usage_page,
                usage_id,
                logical_minimum,
                logical_maximum,
                attributes,
                collections,
            } => {
                c_field.field_type = HID_RDESC_FIELD_VARIABLE;
                c_field.bits_start = *bits_start as u16;
                c_field.bits_end = *bits_end as u16;
                c_field.usage_page = *usage_page;
                c_field.anon_usage_id = UsageIdUnion::UsageId(*usage_id);
                c_field.logical_minimum = *logical_minimum;
                c_field.logical_maximum = *logical_maximum;
                c_field.flags = Self::pack_flags(attributes);
                let (arr, num) = convert_collections(collections);
                c_field.num_collections = num;
                c_field.collections = arr;
            },
            FieldInfo::Array {
                bits_start,
                bits_end,
                usages,
                logical_minimum,
                logical_maximum,
                attributes,
                collections,
            } => {
                c_field.field_type = HID_RDESC_FIELD_ARRAY;
                c_field.bits_start = *bits_start as u16;
                c_field.bits_end = *bits_end as u16;
                let (page, minimum, maximum) = if usages.len() > 0 {
                    (usages[0].0, usages[0].1, usages[usages.len() - 1].1)
                } else {
                    (0u16, 0u16, 0u16)
                };
                c_field.usage_page = page;
                c_field.anon_usage_id = UsageIdUnion::Range(
                    UsageRange { usage_minimum: minimum, usage_maximum: maximum },
                );
                c_field.logical_minimum = *logical_minimum;
                c_field.logical_maximum = *logical_maximum;
                c_field.flags = Self::pack_flags(attributes);
                let (arr, num) = convert_collections(collections);
                c_field.num_collections = num;
                c_field.collections = arr;
            },
            FieldInfo::Constant { bits_start, bits_end } => {
                c_field.field_type = HID_RDESC_FIELD_CONSTANT;
                c_field.bits_start = *bits_start as u16;
                c_field.bits_end = *bits_end as u16;
                c_field.num_collections = 0;
            },
        }
        c_field
    }
}

impl HidRdescReport {
    /// The C form of a parsed report.
    pub fn from_info(report: &ReportInfo) -> (r: Self)
        ensures
            report_converted(*report, r),
    {
        let mut c_report = HidRdescReport::default();
        c_report.report_id = match report.report_id {
            Some(id) => id,
            None => 0,
        };
        c_report.size_in_bits = report.size_in_bits as u16;
        let num = if report.fields.len() < HID_MAX_FIELDS {
            report.fields.len()
        } else {
            HID_MAX_FIELDS
        };
        c_report.num_fields = num as u8;
        let mut i: usize = 0;
        while i < num
            invariant
                num <= HID_MAX_FIELDS,
                num as int == min(report.fields@.len() as int, HID_MAX_FIELDS as int),
                i <= num,
                c_report.report_id == match report.report_id {
                    Some(id) => id,
                    None => 0u8,
                },
                c_report.size_in_bits == report.size_in_bits as u16,
                c_report.num_fields as int == num,
                forall|j: int|
                    0 <= j < HID_MAX_FIELDS ==> if j < i {
                        field_converted(report.fields@[j], #[trigger] c_report.fields@[j])
                    } else {
                        is_default_field(c_report.fields@[j])
                    },
            decreases num - i,
        {
            c_report.fields[i] = HidRdescField::from_info(&report.fields[i]);
            i = i + 1;
        }
        c_report
    }
}

/// The C form of the first `HID_MAX_REPORTS` reports of a list.
fn convert_reports(infos: &Vec<ReportInfo>) -> (r: ([HidRdescReport; HID_MAX_REPORTS], u8))
    ensures
        reports_converted(infos@, r.1, r.0),
{
    let d = HidRdescReport::default();
    let mut arr = [d; HID_MAX_REPORTS];
    let num = if infos.len() < HID_MAX_REPORTS {
        infos.len()
    } else {
        HID_MAX_REPORTS
    };
    let mut i: usize = 0;
    while i < num
        invariant
            num <= HID_MAX_REPORTS,
            num as int == min(infos@.len() as int, HID_MAX_REPORTS as int),
            i <= num,
            is_default_report(d),
            forall|j: int|
                0 <= j < HID_MAX_REPORTS ==> if j < i {
                    report_converted(infos@[j], #[trigger] arr@[j])
                } else {
                    arr@[j] == d
                },
        decreases num - i,
    {
        arr[i] = HidRdescReport::from_info(&infos[i]);
        i = i + 1;
    }
    (arr, num as u8)
}

impl HidRdescDescriptor {
    /// The C form of a parsed report descriptor.
    pub fn from_info(rdesc: &ReportDescriptorInfo) -> (r: Self)
        ensures
            descriptor_converted(*rdesc, r),
    {
        let (input_reports, num_input_reports) = convert_reports(&rdesc.input_reports);
        let (output_reports, num_output_reports) = convert_reports(&rdesc.output_reports);
        let (feature_reports, num_feature_reports) = convert_reports(&rdesc.feature_reports);
        HidRdescDescriptor {
            num_input_reports,
            num_output_reports,
            num_feature_reports,
            input_reports,
            output_reports,
            feature_reports,
        }
    }
}

// ---------------------------------------------------------------------
// Byte layout
// ---------------------------------------------------------------------

/// A 16-bit value in little endian.
pub open spec fn le16(v: u16) -> Seq<u8> {
    seq![(v % 256) as u8, (v / 256) as u8]
}

/// A 32-bit value in little endian.
pub open spec fn le32(v: u32) -> Seq<u8> {
    seq![(v % 256) as u8, ((v / 256) % 256) as u8, ((v / 65536) % 256) as u8, (v / 16777216) as u8]
}

/// The 5 bytes of a collection: usage page, usage id, collection type.
pub open spec fn collection_bytes(c: HidRdescCollection) -> Seq<u8> {
    le16(c.usage_page) + le16(c.usage_id) + seq![c.collection_type]
}

/// The 4 bytes of a field's usage: a usage id followed by two zero bytes,
/// or the usage minimum followed by the usage maximum.
pub open spec fn usage_bytes(u: UsageIdUnion) -> Seq<u8> {
    match u {
        UsageIdUnion::UsageId(id) => le16(id) + seq![0u8, 0u8],
        UsageIdUnion::Range(r) => le16(r.usage_minimum) + le16(r.usage_maximum),
    }
}

/// The collections one after the other.
pub open spec fn collections_bytes(s: Seq<HidRdescCollection>) -> Seq<u8>
    decreases s.len(),
{
    if s.len() == 0 {
        Seq::empty()
    } else {
        collections_bytes(s.drop_last()) + collection_bytes(s.last())
    }
}

/// The 181 bytes of a field, in the order of its C struct members.
pub open spec fn field_bytes(f: HidRdescField) -> Seq<u8> {
    seq![f.field_type, f.num_collections] + le16(f.bits_start) + le16(f.bits_end) + le16(
        f.usage_page,
    ) + usage_bytes(f.anon_usage_id) + le32(f.logical_minimum as u32) + le32(
        f.logical_maximum as u32,
    ) + seq![f.flags] + collections_bytes(f.collections@)
}

/// The fields one after the other.
pub open spec fn fields_bytes(s: Seq<HidRdescField>) -> Seq<u8>
    decreases s.len(),
{
    if s.len() == 0 {
        Seq::empty()
    } else {
        fields_bytes(s.drop_last()) + field_bytes(s.last())
    }
}

/// The 11588 bytes of a report: report id, size in bits, number of
/// fields, then the fields.
pub open spec fn report_bytes(r: HidRdescReport) -> Seq<u8> {
    seq![r.report_id] + le16(r.size_in_bits) + seq![r.num_fields] + fields_bytes(r.fields@)
}

/// The reports one after the other.
pub open spec fn reports_bytes(s: Seq<HidRdescReport>) -> Seq<u8>
    decreases s.len(),
{
    if s.len() == 0 {
        Seq::empty()
    } else {
        reports_bytes(s.drop_last()) + report_bytes(s.last())
    }
}

/// The 556227 bytes of a descriptor: the three report counts, then the
/// input, output and feature reports.
pub open spec fn descriptor_bytes(d: HidRdescDescriptor) -> Seq<u8> {
    seq![d.num_input_reports, d.num_output_reports, d.num_feature_reports] + reports_bytes(
        d.input_reports@,
    ) + reports_bytes(d.output_reports@) + reports_bytes(d.feature_reports@)
}

/// The collections take 5 bytes each.
pub proof fn lemma_collections_bytes_len(s: Seq<HidRdescCollection>)
    ensures
        collections_bytes(s).len() == COLLECTION_BYTES * s.len(),
    decreases s.len(),
{
    if s.len() > 0 {
        lemma_collections_bytes_len(s.drop_last());
    }
}

/// A field takes 181 bytes.
pub proof fn lemma_field_bytes_len(f: HidRdescField)
    ensures
        field_bytes(f).len() == FIELD_BYTES,
{
    lemma_collections_bytes_len(f.collections@);
}

/// The fields take 181 bytes each.
pub proof fn lemma_fields_bytes_len(s: Seq<HidRdescField>)
    ensures
        fields_bytes(s).len() == FIELD_BYTES * s.len(),
    decreases s.len(),
{
    if s.len() > 0 {
        lemma_fields_bytes_len(s.drop_last());
        lemma_field_bytes_len(s.last());
    }
}

/// A report takes 11588 bytes.
pub proof fn lemma_report_bytes_len(r: HidRdescReport)
    ensures
        report_bytes(r).len() == REPORT_BYTES,
{
    lemma_fields_bytes_len(r.fields@);
}

/// The reports take 11588 bytes each.
pub proof fn lemma_reports_bytes_len(s: Seq<HidRdescReport>)
    ensures
        reports_bytes(s).len() == REPORT_BYTES * s.len(),
    decreases s.len(),
{
    if s.len() > 0 {
        lemma_reports_bytes_len(s.drop_last());
        lemma_report_bytes_len(s.last());
    }
}

/// A descriptor takes 556227 bytes, whatever it holds.
pub proof fn lemma_descriptor_bytes_len(d: HidRdescDescriptor)
    ensures
        descriptor_bytes(d).len() == DESCRIPTOR_BYTES,
{
    lemma_reports_bytes_len(d.input_reports@);
    lemma_reports_bytes_len(d.output_reports@);
    lemma_reports_bytes_len(d.feature_reports@);
}

/// Where each collection lies among the bytes of a sequence of collections.
proof fn lemma_collections_bytes_at(s: Seq<HidRdescCollection>, c: int)
    requires
        0 <= c < s.len(),
    ensures
        collections_bytes(s).subrange(5 * c, 5 * c + 5) == collection_bytes(s[c]),
    decreases s.len(),
{
    lemma_collections_bytes_len(s.drop_last());
    if c < s.len() - 1 {
        lemma_collections_bytes_at(s.drop_last(), c);
        lemma_collections_bytes_len(s.drop_last());
        assert(collections_bytes(s).subrange(5 * c, 5 * c + 5) =~= collections_bytes(s.drop_last()).subrange(
            5 * c,
            5 * c + 5,
        ));
    } else {
        assert(collections_bytes(s).subrange(5 * c, 5 * c + 5) =~= collection_bytes(s.last()));
    }
}

/// Where each field lies among the bytes of a sequence of fields.
proof fn lemma_fields_bytes_at(s: Seq<HidRdescField>, i: int)
    requires
        0 <= i < s.len(),
    ensures
        fields_bytes(s).subrange(181 * i, 181 * i + 181) == field_bytes(s[i]),
    decreases s.len(),
{
    lemma_fields_bytes_len(s.drop_last());
    lemma_field_bytes_len(s.last());
    if i < s.len() - 1 {
        lemma_fields_bytes_at(s.drop_last(), i);
        assert(fields_bytes(s).subrange(181 * i, 181 * i + 181) =~= fields_bytes(s.drop_last()).subrange(
            181 * i,
            181 * i + 181,
        ));
    } else {
        assert(fields_bytes(s).subrange(181 * i, 181 * i + 181) =~= field_bytes(s.last()));
    }
}

/// Where each report lies among the bytes of a sequence of reports.
proof fn lemma_reports_bytes_at(s: Seq<HidRdescReport>, k: int)
    requires
        0 <= k < s.len(),
    ensures
        reports_bytes(s).subrange(11588 * k, 11588 * k + 11588) == report_bytes(s[k]),
    decreases s.len(),
{
    lemma_reports_bytes_len(s.drop_last());
    lemma_report_bytes_len(s.last());
    if k < s.len() - 1 {
        lemma_reports_bytes_at(s.drop_last(), k);
        assert(reports_bytes(s).subrange(11588 * k, 11588 * k + 11588) =~= reports_bytes(
            s.drop_last(),
        ).subrange(11588 * k, 11588 * k + 11588));
    } else {
        assert(reports_bytes(s).subrange(11588 * k, 11588 * k + 11588) =~= report_bytes(s.last()));
    }
}

/// The bytes of a field follow the packed C struct `hid_rdesc_field`, little
/// endian: `field_type` at 0, `num_collections` at 1, `bits_start` at 2,
/// `bits_end` at 4, `usage_page` at 6, the usage union at 8 (a usage id and
/// two zero bytes, or the usage minimum and maximum), `logical_minimum` at
/// 12, `logical_maximum` at 16, `flags` at 20, and from 21 on the 32
/// collections of 5 bytes each (usage page, usage id, collection type).
pub proof fn lemma_field_bytes_layout(f: HidRdescField)
    ensures
        ({
            let b = field_bytes(f);
            let min = f.logical_minimum as u32;
            let max = f.logical_maximum as u32;
            &&& b.len() == 181
            &&& b[0] == f.field_type
            &&& b[1] == f.num_collections
            &&& b[2] as int == f.bits_start as int % 256 && b[3] as int == f.bits_start as int / 256
            &&& b[4] as int == f.bits_end as int % 256 && b[5] as int == f.bits_end as int / 256
            &&& b[6] as int == f.usage_page as int % 256 && b[7] as int == f.usage_page as int / 256
            &&& match f.anon_usage_id {
                UsageIdUnion::UsageId(id) => b[8] as int == id as int % 256 && b[9] as int == id as int / 256
                    && b[10] == 0 && b[11] == 0,
                UsageIdUnion::Range(r) => b[8] as int == r.usage_minimum as int % 256 && b[9] as int
                    == r.usage_minimum as int / 256 && b[10] as int == r.usage_maximum as int % 256 && b[11] as int
                    == r.usage_maximum as int / 256,
            }
            &&& b[12] as int == min as int % 256 && b[13] as int == min as int / 256 % 256
            &&& b[14] as int == min as int / 65536 % 256 && b[15] as int == min as int / 16777216
            &&& b[16] as int == max as int % 256 && b[17] as int == max as int / 256 % 256
            &&& b[18] as int == max as int / 65536 % 256 && b[19] as int == max as int / 16777216
            &&& b[20] == f.flags
            &&& forall|c: int|
                0 <= c < 32 ==> {
                    let col = #[trigger] f.collections@[c];
                    &&& b[21 + 5 * c] as int == col.usage_page as int % 256
                    &&& b[22 + 5 * c] as int == col.usage_page as int / 256
                    &&& b[23 + 5 * c] as int == col.usage_id as int % 256
                    &&& b[24 + 5 * c] as int == col.usage_id as int / 256
                    &&& b[25 + 5 * c] == col.collection_type
                }
        }),
{
    let b = field_bytes(f);
    lemma_field_bytes_len(f);
    lemma_collections_bytes_len(f.collections@);
    let head = seq![f.field_type, f.num_collections] + le16(f.bits_start) + le16(f.bits_end) + le16(
        f.usage_page,
    ) + usage_bytes(f.anon_usage_id) + le32(f.logical_minimum as u32) + le32(f.logical_maximum as u32)
        + seq![f.flags];
    assert(head.len() == 21);
    assert(b == head + collections_bytes(f.collections@));
    assert(b.subrange(0, 21) =~= head);
    assert forall|c: int| 0 <= c < 32 implies {
        let col = #[trigger] f.collections@[c];
        &&& b[21 + 5 * c] as int == col.usage_page as int % 256
        &&& b[22 + 5 * c] as int == col.usage_page as int / 256
        &&& b[23 + 5 * c] as int == col.usage_id as int % 256
        &&& b[24 + 5 * c] as int == col.usage_id as int / 256
        &&& b[25 + 5 * c] == col.collection_type
    } by {
        lemma_collections_bytes_at(f.collections@, c);
        let cb = collections_bytes(f.collections@);
        assert(cb.subrange(5 * c, 5 * c + 5) == collection_bytes(f.collections@[c]));
        assert(b[21 + 5 * c] == cb[5 * c]);
        assert(b[22 + 5 * c] == cb[5 * c + 1]);
        assert(b[23 + 5 * c] == cb[5 * c + 2]);
        assert(b[24 + 5 * c] == cb[5 * c + 3]);
        assert(b[25 + 5 * c] == cb[5 * c + 4]);
        assert(cb[5 * c] == cb.subrange(5 * c, 5 * c + 5)[0]);
        assert(cb[5 * c + 1] == cb.subrange(5 * c, 5 * c + 5)[1]);
        assert(cb[5 * c + 2] == cb.subrange(5 * c, 5 * c + 5)[2]);
        assert(cb[5 * c + 3] == cb.subrange(5 * c, 5 * c + 5)[3]);
        assert(cb[5 * c + 4] == cb.subrange(5 * c, 5 * c + 5)[4]);
    }
}

/// The bytes of a report follow the packed C struct `hid_rdesc_report`:
/// `report_id` at 0, `size_in_bits` at 1 (little endian), `num_fields` at 3,
/// then its 64 fields of 181 bytes each from 4 on.
pub proof fn lemma_report_bytes_layout(r: HidRdescReport)
    ensures
        ({
            let b = report_bytes(r);
            &&& b.len() == 11588
            &&& b[0] == r.report_id
            &&& b[1] as int == r.size_in_bits as int % 256 && b[2] as int == r.size_in_bits as int / 256
            &&& b[3] == r.num_fields
            &&& forall|i: int| 0 <= i < 64 ==> b.subrange(4 + 181 * i, 4 + 181 * i + 181) == field_bytes(
                #[trigger] r.fields@[i],
            )
        }),
{
    let b = report_bytes(r);
    lemma_report_bytes_len(r);
    lemma_fields_bytes_len(r.fields@);
    let fb = fields_bytes(r.fields@);
    assert forall|i: int| 0 <= i < 64 implies b.subrange(4 + 181 * i, 4 + 181 * i + 181) == field_bytes(
        #[trigger] r.fields@[i],
    ) by {
        lemma_fields_bytes_at(r.fields@, i);
        assert(b.subrange(4 + 181 * i, 4 + 181 * i + 181) =~= fb.subrange(181 * i, 181 * i + 181));
    }
}

/// The bytes of a descriptor follow the packed C struct
/// `hid_rdesc_descriptor`: the three report counts at 0, 1 and 2, then the
/// 16 input reports, the 16 output reports and the 16 feature reports, of
/// 11588 bytes each.
pub proof fn lemma_descriptor_bytes_layout(d: HidRdescDescriptor)
    ensures
        ({
            let b = descriptor_bytes(d);
            &&& b.len() == 556227
            &&& b[0] == d.num_input_reports
            &&& b[1] == d.num_output_reports
            &&& b[2] == d.num_feature_reports
            &&& forall|k: int| 0 <= k < 16 ==> b.subrange(3 + 11588 * k, 3 + 11588 * k + 11588) == report_bytes(
                #[trigger] d.input_reports@[k],
            )
            &&& forall|k: int|
                0 <= k < 16 ==> b.subrange(185411 + 11588 * k, 185411 + 11588 * k + 11588) == report_bytes(
                    #[trigger] d.output_reports@[k],
                )
            &&& forall|k: int|
                0 <= k < 16 ==> b.subrange(370819 + 11588 * k, 370819 + 11588 * k + 11588) == report_bytes(
                    #[trigger] d.feature_reports@[k],
                )
        }),
{
    let b = descriptor_bytes(d);
    lemma_descriptor_bytes_len(d);
    lemma_reports_bytes_len(d.input_reports@);
    lemma_reports_bytes_len(d.output_reports@);
    lemma_reports_bytes_len(d.feature_reports@);
    let ib = reports_bytes(d.input_reports@);
    let ob = reports_bytes(d.output_reports@);
    let fb = reports_bytes(d.feature_reports@);
    assert(b == seq![d.num_input_reports, d.num_output_reports, d.num_feature_reports] + ib + ob + fb);
    assert forall|k: int| 0 <= k < 16 implies b.subrange(3 + 11588 * k, 3 + 11588 * k + 11588) == report_bytes(
        #[trigger] d.input_reports@[k],
    ) by {
        lemma_reports_bytes_at(d.input_reports@, k);
        assert(b.subrange(3 + 11588 * k, 3 + 11588 * k + 11588) =~= ib.subrange(11588 * k, 11588 * k + 11588));
    }
    assert forall|k: int| 0 <= k < 16 implies b.subrange(185411 + 11588 * k, 185411 + 11588 * k + 11588)
        == report_bytes(#[trigger] d.output_reports@[k]) by {
        lemma_reports_bytes_at(d.output_reports@, k);
        assert(b.subrange(185411 + 11588 * k, 185411 + 11588 * k + 11588) =~= ob.subrange(
            11588 * k,
            11588 * k + 11588,
        ));
    }
    assert forall|k: int| 0 <= k < 16 implies b.subrange(370819 + 11588 * k, 370819 + 11588 * k + 11588)
        == report_bytes(#[trigger] d.feature_reports@[k]) by {
        lemma_reports_bytes_at(d.feature_reports@, k);
        assert(b.subrange(370819 + 11588 * k, 370819 + 11588 * k + 11588) =~= fb.subrange(
            11588 * k,
            11588 * k + 11588,
        ));
    }
}

/// Appends a 16-bit value in little endian.
fn push_le16(out: &mut Vec<u8>, v: u16)
    ensures
        final(out)@ == old(out)@ + le16(v),
{
    out.push((v % 256) as u8);
    out.push((v / 256) as u8);
    assert(final(out)@ =~= old(out)@ + le16(v));
}

/// Appends a 32-bit value in little endian.
pub(crate) fn push_le32(out: &mut Vec<u8>, v: u32)
    ensures
        final(out)@ == old(out)@ + le32(v),
{
    out.push((v % 256) as u8);
    out.push(((v / 256) % 256) as u8);
    out.push(((v / 65536) % 256) as u8);
    out.push((v / 16777216) as u8);
    assert(final(out)@ =~= old(out)@ + le32(v));
}

impl HidRdescCollection {
    /// Appends the bytes of this collection.
    pub fn write_bytes(&self, out: &mut Vec<u8>)
        ensures
            final(out)@ == old(out)@ + collection_bytes(*self),
    {
        push_le16(out, self.usage_page);
        push_le16(out, self.usage_id);
        out.push(self.collection_type);
        assert(final(out)@ =~= old(out)@ + collection_bytes(*self));
    }
}

impl HidRdescField {
    /// Appends the bytes of this field.
    pub fn write_bytes(&self, out: &mut Vec<u8>)
        ensures
            final(out)@ == old(out)@ + field_bytes(*self),
    {
        let ghost start = out@;
        out.push(self.field_type);
        out.push(self.num_collections);
        push_le16(out, self.bits_start);
        push_le16(out, self.bits_end);
        push_le16(out, self.usage_page);
        match self.anon_usage_id {
            UsageIdUnion::UsageId(id) => {
                push_le16(out, id);
                out.push(0);
                out.push(0);
            },
            UsageIdUnion::Range(r) => {
                push_le16(out, r.usage_minimum);
                push_le16(out, r.usage_maximum);
            },
        }
        push_le32(out, self.logical_minimum as u32);
        push_le32(out, self.logical_maximum as u32);
        out.push(self.flags);
        let ghost head = out@;
        assert(head =~= start + (seq![self.field_type, self.num_collections] + le16(self.bits_start)
            + le16(self.bits_end) + le16(self.usage_page) + usage_bytes(self.anon_usage_id) + le32(
            self.logical_minimum as u32,
        ) + le32(self.logical_maximum as u32) + seq![self.flags]));
        let mut i: usize = 0;
        while i < HID_MAX_COLLECTIONS
            invariant
                i <= HID_MAX_COLLECTIONS,
                out@ == head + collections_bytes(self.collections@.take(i as int)),
            decreases HID_MAX_COLLECTIONS - i,
        {
            let ghost before = out@;
            self.collections[i].write_bytes(out);
            assert(self.collections@.take(i + 1).drop_last() =~= self.collections@.take(i as int));
            i = i + 1;
        }
        assert(self.collections@.take(HID_MAX_COLLECTIONS as int) =~= self.collections@);
        assert(final(out)@ =~= old(out)@ + field_bytes(*self));
    }
}

impl HidRdescReport {
    /// Appends the bytes of this report.
    pub fn write_bytes(&self, out: &mut Vec<u8>)
        ensures
            final(out)@ == old(out)@ + report_bytes(*self),
    {
        let ghost start = out@;
        out.push(self.report_id);
        push_le16(out, self.size_in_bits);
        out.push(self.num_fields);
        let ghost head = out@;
        assert(head =~= start + (seq![self.report_id] + le16(self.size_in_bits) + seq![self.num_fields]));
        let mut i: usize = 0;
        while i < HID_MAX_FIELDS
            invariant
                i <= HID_MAX_FIELDS,
                out@ == head + fields_bytes(self.fields@.take(i as int)),
            decreases HID_MAX_FIELDS - i,
        {
            self.fields[i].write_bytes(out);
            assert(self.fields@.take(i + 1).drop_last() =~= self.fields@.take(i as int));
            i = i + 1;
        }
        assert(self.fields@.take(HID_MAX_FIELDS as int) =~= self.fields@);
        assert(final(out)@ =~= old(out)@ + report_bytes(*self));
    }
}

/// Appends the bytes of the reports of a list.
fn write_reports_bytes(reports: &[HidRdescReport; HID_MAX_REPORTS], out: &mut Vec<u8>)
    ensures
        final(out)@ == old(out)@ + reports_bytes(reports@),
{
    let ghost head = out@;
    let mut i: usize = 0;
    while i < HID_MAX_REPORTS
        invariant
            i <= HID_MAX_REPORTS,
            out@ == head + reports_bytes(reports@.take(i as int)),
        decreases HID_MAX_REPORTS - i,
    {
        reports[i].write_bytes(out);
        assert(reports@.take(i + 1).drop_last() =~= reports@.take(i as int));
        i = i + 1;
    }
    assert(reports@.take(HID_MAX_REPORTS as int) =~= reports@);
}

impl HidRdescDescriptor {
    /// The bytes of this descriptor as the C struct holds them in memory.
    pub fn to_bytes(&self) -> (r: Vec<u8>)
        ensures
            r@ == descriptor_bytes(*self),
            r@.len() == DESCRIPTOR_BYTES,
    {
        let mut out: Vec<u8> = Vec::new();
        out.push(self.num_input_reports);
        out.push(self.num_output_reports);
        out.push(self.num_feature_reports);
        write_reports_bytes(&self.input_reports, &mut out);
        write_reports_bytes(&self.output_reports, &mut out);
        write_reports_bytes(&self.feature_reports, &mut out);
        proof {
            assert(out@ =~= descriptor_bytes(*self));
            lemma_descriptor_bytes_len(*self);
        }
        out
    }
}

} // verus!
