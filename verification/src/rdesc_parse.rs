//! Parsing of raw report descriptor bytes with the `hidreport` crate, and
//! the transfer of its result into [`ReportDescriptorInfo`].
//!
//! What `hidreport` finds in the bytes is named over the bytes and the
//! position of each report and field (`hid_*`); the parsed descriptor keeps
//! the bytes it came from, and each field where it stands, so that every
//! value read out of it is tied to those names.
use vstd::prelude::*;
use hidreport::Report;
use hidreport::FieldAttributes as HidFieldAttributes;
use crate::rdesc::{
    CollectionInfo, FieldAttributes, FieldInfo, ReportInfo, ReportDescriptorInfo,
    HidRdescDescriptor, descriptor_converted, descriptor_bytes, DESCRIPTOR_BYTES,
};
use crate::rdesc_scan::{usage_page_missing, lacks_usage_page, bits_fit, report_bits_fit};

verus! {

/// `hidreport`'s parsed report descriptor.
#[verifier::external_type_specification]
#[verifier::external_body]
pub struct ExReportDescriptor(hidreport::ReportDescriptor);

/// `hidreport`'s field of a report.
#[verifier::external_type_specification]
#[verifier::external_body]
pub struct ExField(hidreport::Field);

/// `hidreport`'s parse error.
#[verifier::external_type_specification]
#[verifier::external_body]
pub struct ExParserError(hidreport::ParserError);

// ---------------------------------------------------------------------
// What hidreport finds, by position
// ---------------------------------------------------------------------
//
// `dir` is 0 for input, 1 for output and 2 for feature reports; `i` is a
// report's position among those, `j` a field's position in its report, `c`
// a collection's position among the field's collections.

/// Names whether `hidreport::ReportDescriptor::try_from` accepts `bytes` as
/// a HID report descriptor; it depends on the bytes alone.
pub uninterp spec fn hidreport_accepts(bytes: Seq<u8>) -> bool;

/// Names how many reports of direction `dir` `hidreport` finds in `bytes`.
pub uninterp spec fn hid_report_count(bytes: Seq<u8>, dir: int) -> nat;

/// Names the id of report `i` (`Report::report_id`).
pub uninterp spec fn hid_report_id(bytes: Seq<u8>, dir: int, i: int) -> Option<u8>;

/// Names the size in bits of report `i` (`Report::size_in_bits`).
pub uninterp spec fn hid_report_size(bytes: Seq<u8>, dir: int, i: int) -> usize;

/// Names how many fields report `i` has (`Report::fields`).
pub uninterp spec fn hid_field_count(bytes: Seq<u8>, dir: int, i: int) -> nat;

/// Names the start and end of field `j`'s bit range (`Field::bits`).
pub uninterp spec fn hid_field_bits(bytes: Seq<u8>, dir: int, i: int, j: int) -> (usize, usize);

/// Names the kind of field `j`: 0 Variable, 1 Array, 2 Constant.
pub uninterp spec fn hid_field_kind(bytes: Seq<u8>, dir: int, i: int, j: int) -> u8;

/// Names the usage (page, id) of Variable field `j`.
pub uninterp spec fn hid_variable_usage(bytes: Seq<u8>, dir: int, i: int, j: int) -> (u16, u16);

/// Names the logical minimum and maximum of Variable or Array field `j`.
pub uninterp spec fn hid_logical_range(bytes: Seq<u8>, dir: int, i: int, j: int) -> (i32, i32);

/// Names the usages (page, id) of Array field `j` (`ArrayField::usages`).
pub uninterp spec fn hid_array_usages(bytes: Seq<u8>, dir: int, i: int, j: int) -> Seq<(u16, u16)>;

/// Names the Main Item attributes of field `j`, none for a Constant field.
pub uninterp spec fn hid_field_attributes(bytes: Seq<u8>, dir: int, i: int, j: int) -> Option<FieldAttributes>;

/// Names how many collections field `j` is in (`Field::collections`).
pub uninterp spec fn hid_collection_count(bytes: Seq<u8>, dir: int, i: int, j: int) -> nat;

/// Names the usages (page, id) of collection `c` of field `j`.
pub uninterp spec fn hid_collection_usages(bytes: Seq<u8>, dir: int, i: int, j: int, c: int) -> Seq<(u16, u16)>;

/// Names the collection type of collection `c` of field `j`.
pub uninterp spec fn hid_collection_type(bytes: Seq<u8>, dir: int, i: int, j: int, c: int) -> u8;

/// A descriptor as `hidreport` parsed it, with the bytes it came from.
pub struct ParsedDescriptor {
    rd: hidreport::ReportDescriptor,
    source: Ghost<Seq<u8>>,
}

impl ParsedDescriptor {
    /// The bytes the descriptor was parsed from.
    pub closed spec fn source(&self) -> Seq<u8> {
        self.source@
    }
}

/// A field as `hidreport` gives it, with where it stands: the descriptor's
/// bytes, the direction, the report and the field's position.
pub struct FieldParts {
    field: hidreport::Field,
    origin: Ghost<(Seq<u8>, int, int, int)>,
}

impl FieldParts {
    /// Where the field stands.
    pub closed spec fn origin(&self) -> (Seq<u8>, int, int, int) {
        self.origin@
    }
}

/// A report as `hidreport` hands it out: its id, size, and fields.
pub struct ReportParts {
    pub report_id: Option<u8>,
    pub size_in_bits: usize,
    pub fields: Vec<FieldParts>,
}

/// Whether `parts` are the reports of direction `dir` that `hidreport`
/// finds in `bytes`, each field knowing where it stands.
pub open spec fn parts_named(bytes: Seq<u8>, dir: int, parts: Seq<ReportParts>) -> bool {
    &&& parts.len() == hid_report_count(bytes, dir)
    &&& forall|i: int|
        0 <= i < parts.len() ==> {
            &&& (#[trigger] parts[i]).report_id == hid_report_id(bytes, dir, i)
            &&& parts[i].size_in_bits == hid_report_size(bytes, dir, i)
            &&& parts[i].fields@.len() == hid_field_count(bytes, dir, i)
            &&& forall|j: int|
                0 <= j < parts[i].fields@.len() ==> (#[trigger] parts[i].fields@[j]).origin() == (
                    bytes,
                    dir,
                    i,
                    j,
                )
        }
}

/// Why a report descriptor could not be turned into its C form.
#[derive(Debug, Clone)]
pub enum ReportDescriptorError {
    /// `hidreport` rejected the bytes, with its message.
    Parse { message: String },
    /// A usage gets no usage page (see `lacks_usage_page`), which `hidreport`
    /// cannot parse.
    MissingUsagePage,
    /// The bit positions of the fields do not fit in 32 bits (see
    /// `report_bits_fit`), which `hidreport` cannot parse.
    TooLarge,
}

/// Trusted: `hidreport::ReportDescriptor::try_from(&[u8])` parses the bytes
/// of a HID report descriptor; whether it succeeds is named, and the parsed
/// descriptor records the bytes.  The parser panics where a usage gets no
/// usage page, and its arithmetic on bit positions overflows where these do
/// not fit in 32 bits; `requires` rules out both.  It can also run out of
/// memory on huge usage ranges or report counts, a limit of the machine
/// that is not ruled out.
#[verifier::external_body]
fn parse_descriptor(bytes: &[u8]) -> (r: Result<ParsedDescriptor, hidreport::ParserError>)
    requires
        !usage_page_missing(bytes@),
        bits_fit(bytes@),
    ensures
        r is Ok <==> hidreport_accepts(bytes@),
        r matches Ok(d) ==> d.source() == bytes@,
{
    hidreport::ReportDescriptor::try_from(bytes).map(|rd| ParsedDescriptor { rd, source: Ghost(bytes@) })
}

/// The message of a `hidreport::ParserError` (its `Display`).  Nothing is
/// claimed of the text.
#[verifier::external_body]
fn parser_error_message(e: &hidreport::ParserError) -> String {
    format!("{}", e)
}

/// Trusted: `ReportDescriptor::input_reports`, each report handed out with
/// its `report_id`, `size_in_bits` and a copy of each of its `fields`,
/// named by position.
#[verifier::external_body]
fn input_report_parts(d: &ParsedDescriptor) -> (r: Vec<ReportParts>)
    ensures
        r@.len() == hid_report_count(d.source(), 0),
        forall|i: int|
            0 <= i < r@.len() ==> {
                &&& (#[trigger] r@[i]).report_id == hid_report_id(d.source(), 0, i)
                &&& r@[i].size_in_bits == hid_report_size(d.source(), 0, i)
                &&& r@[i].fields@.len() == hid_field_count(d.source(), 0, i)
                &&& forall|j: int|
                    0 <= j < r@[i].fields@.len() ==> (#[trigger] r@[i].fields@[j]).origin() == (
                        d.source(),
                        0int,
                        i,
                        j,
                    )
            },
{
    d.rd.input_reports().iter().enumerate().map(|(i, r)| ReportParts {
        report_id: r.report_id().map(u8::from),
        size_in_bits: r.size_in_bits(),
        fields: r.fields().iter().enumerate().map(|(j, f)| FieldParts {
            field: f.clone(), origin: Ghost((d.source@, 0int, i as int, j as int)),
        }).collect(),
    }).collect()
}

/// Trusted: `ReportDescriptor::output_reports`, handed out as by
/// [`input_report_parts`].
#[verifier::external_body]
fn output_report_parts(d: &ParsedDescriptor) -> (r: Vec<ReportParts>)
    ensures
        r@.len() == hid_report_count(d.source(), 1),
        forall|i: int|
            0 <= i < r@.len() ==> {
                &&& (#[trigger] r@[i]).report_id == hid_report_id(d.source(), 1, i)
                &&& r@[i].size_in_bits == hid_report_size(d.source(), 1, i)
                &&& r@[i].fields@.len() == hid_field_count(d.source(), 1, i)
                &&& forall|j: int|
                    0 <= j < r@[i].fields@.len() ==> (#[trigger] r@[i].fields@[j]).origin() == (
                        d.source(),
                        1int,
                        i,
                        j,
                    )
            },
{
    d.rd.output_reports().iter().enumerate().map(|(i, r)| ReportParts {
        report_id: r.report_id().map(u8::from),
        size_in_bits: r.size_in_bits(),
        fields: r.fields().iter().enumerate().map(|(j, f)| FieldParts {
            field: f.clone(), origin: Ghost((d.source@, 1int, i as int, j as int)),
        }).collect(),
    }).collect()
}

/// Trusted: `ReportDescriptor::feature_reports`, handed out as by
/// [`input_report_parts`].
#[verifier::external_body]
fn feature_report_parts(d: &ParsedDescriptor) -> (r: Vec<ReportParts>)
    ensures
        r@.len() == hid_report_count(d.source(), 2),
        forall|i: int|
            0 <= i < r@.len() ==> {
                &&& (#[trigger] r@[i]).report_id == hid_report_id(d.source(), 2, i)
                &&& r@[i].size_in_bits == hid_report_size(d.source(), 2, i)
                &&& r@[i].fields@.len() == hid_field_count(d.source(), 2, i)
                &&& forall|j: int|
                    0 <= j < r@[i].fields@.len() ==> (#[trigger] r@[i].fields@[j]).origin() == (
                        d.source(),
                        2int,
                        i,
                        j,
                    )
            },
{
    d.rd.feature_reports().iter().enumerate().map(|(i, r)| ReportParts {
        report_id: r.report_id().map(u8::from),
        size_in_bits: r.size_in_bits(),
        fields: r.fields().iter().enumerate().map(|(j, f)| FieldParts {
            field: f.clone(), origin: Ghost((d.source@, 2int, i as int, j as int)),
        }).collect(),
    }).collect()
}

/// Trusted: `Field::bits`, the start and end of the field's bit range.
#[verifier::external_body]
fn field_bits(f: &FieldParts) -> (r: (usize, usize))
    ensures
        r == hid_field_bits(f.origin().0, f.origin().1, f.origin().2, f.origin().3),
{
    let bits = f.field.bits();
    (bits.start, bits.end)
}

/// Trusted: which variant of `hidreport::Field` the field is.
#[verifier::external_body]
fn field_kind(f: &FieldParts) -> (r: u8)
    ensures
        r == hid_field_kind(f.origin().0, f.origin().1, f.origin().2, f.origin().3),
{
    match &f.field {
        hidreport::Field::Variable(_) => 0,
        hidreport::Field::Array(_) => 1,
        hidreport::Field::Constant(_) => 2,
    }
}

/// Trusted: the `usage` of a Variable field as (page, id).
#[verifier::external_body]
fn variable_usage(f: &FieldParts) -> (r: (u16, u16))
    requires
        hid_field_kind(f.origin().0, f.origin().1, f.origin().2, f.origin().3) == 0,
    ensures
        r == hid_variable_usage(f.origin().0, f.origin().1, f.origin().2, f.origin().3),
{
    match &f.field {
        hidreport::Field::Variable(v) => (u16::from(&v.usage.usage_page), u16::from(&v.usage.usage_id)),
        _ => (0, 0),
    }
}

/// Trusted: the `logical_minimum` and `logical_maximum` of a Variable or
/// Array field.
#[verifier::external_body]
fn logical_range(f: &FieldParts) -> (r: (i32, i32))
    requires
        hid_field_kind(f.origin().0, f.origin().1, f.origin().2, f.origin().3) != 2,
    ensures
        r == hid_logical_range(f.origin().0, f.origin().1, f.origin().2, f.origin().3),
{
    match &f.field {
        hidreport::Field::Variable(v) => (i32::from(&v.logical_minimum), i32::from(&v.logical_maximum)),
        hidreport::Field::Array(a) => (i32::from(&a.logical_minimum), i32::from(&a.logical_maximum)),
        hidreport::Field::Constant(_) => (0, 0),
    }
}

/// Trusted: `ArrayField::usages` of an Array field, as (page, id) pairs.
#[verifier::external_body]
fn array_usages(f: &FieldParts) -> (r: Vec<(u16, u16)>)
    requires
        hid_field_kind(f.origin().0, f.origin().1, f.origin().2, f.origin().3) == 1,
    ensures
        r@ == hid_array_usages(f.origin().0, f.origin().1, f.origin().2, f.origin().3),
{
    match &f.field {
        hidreport::Field::Array(a) => a.usages().iter().map(|u| (u16::from(&u.usage_page), u16::from(&u.usage_id))).collect(),
        _ => Vec::new(),
    }
}

/// Trusted: the `hidreport::FieldAttributes` of a Variable or Array field;
/// `None` for a Constant field, which has none.
#[verifier::external_body]
fn field_attributes(f: &FieldParts) -> (r: Option<FieldAttributes>)
    ensures
        r == hid_field_attributes(f.origin().0, f.origin().1, f.origin().2, f.origin().3),
{
    match &f.field {
        hidreport::Field::Variable(v) => Some(FieldAttributes {
            is_relative: v.is_relative(), wraps: v.wraps(), is_nonlinear: v.is_nonlinear(),
            has_no_preferred_state: v.has_no_preferred_state(), has_null_state: v.has_null_state(),
            is_volatile: v.is_volatile(), is_buffered_bytes: v.is_buffered_bytes(),
        }),
        hidreport::Field::Array(a) => Some(FieldAttributes {
            is_relative: a.is_relative(), wraps: a.wraps(), is_nonlinear: a.is_nonlinear(),
            has_no_preferred_state: a.has_no_preferred_state(), has_null_state: a.has_null_state(),
            is_volatile: a.is_volatile(), is_buffered_bytes: a.is_buffered_bytes(),
        }),
        hidreport::Field::Constant(_) => None,
    }
}

/// Trusted: how many collections `Field::collections` lists.
#[verifier::external_body]
fn collection_count(f: &FieldParts) -> (r: usize)
    ensures
        r == hid_collection_count(f.origin().0, f.origin().1, f.origin().2, f.origin().3),
{
    f.field.collections().len()
}

/// Trusted: `Collection::usages` of collection `c` of the field, as
/// (page, id) pairs.
#[verifier::external_body]
fn collection_usages(f: &FieldParts, c: usize) -> (r: Vec<(u16, u16)>)
    requires
        c < hid_collection_count(f.origin().0, f.origin().1, f.origin().2, f.origin().3),
    ensures
        r@ == hid_collection_usages(f.origin().0, f.origin().1, f.origin().2, f.origin().3, c as int),
{
    f.field.collections()[c].usages().iter().map(|u| (u16::from(&u.usage_page), u16::from(&u.usage_id))).collect()
}

/// Trusted: `Collection::collection_type` of collection `c` of the field,
/// as a byte.
#[verifier::external_body]
fn collection_type(f: &FieldParts, c: usize) -> (r: u8)
    requires
        c < hid_collection_count(f.origin().0, f.origin().1, f.origin().2, f.origin().3),
    ensures
        r == hid_collection_type(f.origin().0, f.origin().1, f.origin().2, f.origin().3, c as int),
{
    u8::from(f.field.collections()[c].collection_type())
}

// ---------------------------------------------------------------------
// The parsed form
// ---------------------------------------------------------------------

/// Collection `c` of the field at `(bytes, dir, i, j)`: its first usage, if
/// it has one, and its type.
pub open spec fn spec_collection(bytes: Seq<u8>, dir: int, i: int, j: int, c: int) -> CollectionInfo {
    let us = hid_collection_usages(bytes, dir, i, j, c);
    CollectionInfo {
        usage: if us.len() > 0 {
            Some(us[0])
        } else {
            None
        },
        collection_type: hid_collection_type(bytes, dir, i, j, c),
    }
}

/// The collections of the field at `(bytes, dir, i, j)`, in order.
pub open spec fn spec_collections(bytes: Seq<u8>, dir: int, i: int, j: int) -> Seq<CollectionInfo> {
    Seq::new(hid_collection_count(bytes, dir, i, j), |c: int| spec_collection(bytes, dir, i, j, c))
}

/// Whether `f` is the parsed form of the field at `(bytes, dir, i, j)`.
pub open spec fn field_matches(bytes: Seq<u8>, dir: int, i: int, j: int, f: FieldInfo) -> bool {
    let kind = hid_field_kind(bytes, dir, i, j);
    let bits = hid_field_bits(bytes, dir, i, j);
    let attrs = attributes_or_none(hid_field_attributes(bytes, dir, i, j));
    let range = hid_logical_range(bytes, dir, i, j);
    let colls = spec_collections(bytes, dir, i, j);
    if kind == 0 {
        &&& f matches FieldInfo::Variable {
            bits_start,
            bits_end,
            usage_page,
            usage_id,
            logical_minimum,
            logical_maximum,
            attributes,
            collections,
        }
        &&& bits_start == bits.0 && bits_end == bits.1
        &&& usage_page == hid_variable_usage(bytes, dir, i, j).0
        &&& usage_id == hid_variable_usage(bytes, dir, i, j).1
        &&& logical_minimum == range.0 && logical_maximum == range.1
        &&& attributes == attrs
        &&& collections@ == colls
    } else if kind == 1 {
        &&& f matches FieldInfo::Array {
            bits_start,
            bits_end,
            usages,
            logical_minimum,
            logical_maximum,
            attributes,
            collections,
        }
        &&& bits_start == bits.0 && bits_end == bits.1
        &&& usages@ == hid_array_usages(bytes, dir, i, j)
        &&& logical_minimum == range.0 && logical_maximum == range.1
        &&& attributes == attrs
        &&& collections@ == colls
    } else {
        f == (FieldInfo::Constant { bits_start: bits.0, bits_end: bits.1 })
    }
}

/// Whether `rs` are the parsed reports of direction `dir` of `bytes`.
pub open spec fn reports_match(bytes: Seq<u8>, dir: int, rs: Seq<ReportInfo>) -> bool {
    &&& rs.len() == hid_report_count(bytes, dir)
    &&& forall|i: int|
        0 <= i < rs.len() ==> {
            &&& (#[trigger] rs[i]).report_id == hid_report_id(bytes, dir, i)
            &&& rs[i].size_in_bits == hid_report_size(bytes, dir, i)
            &&& rs[i].fields@.len() == hid_field_count(bytes, dir, i)
            &&& forall|j: int| 0 <= j < rs[i].fields@.len() ==> field_matches(bytes, dir, i, j, #[trigger] rs[i].fields@[j])
        }
}

/// Whether `info` is what `hidreport` finds in `bytes`: its input, output
/// and feature reports, with their ids, sizes and fields.
pub open spec fn info_matches(bytes: Seq<u8>, info: ReportDescriptorInfo) -> bool {
    &&& reports_match(bytes, 0, info.input_reports@)
    &&& reports_match(bytes, 1, info.output_reports@)
    &&& reports_match(bytes, 2, info.feature_reports@)
}

/// What distinguishes the kinds of fields: usages and logical range.
pub enum FieldUsages {
    Variable { usage_page: u16, usage_id: u16, logical_minimum: i32, logical_maximum: i32 },
    Array { usages: Vec<(u16, u16)>, logical_minimum: i32, logical_maximum: i32 },
    Constant,
}

/// The attributes of a field that has none (a Constant field).
pub open spec fn no_attributes() -> FieldAttributes {
    FieldAttributes {
        is_relative: false,
        wraps: false,
        is_nonlinear: false,
        has_no_preferred_state: false,
        has_null_state: false,
        is_volatile: None,
        is_buffered_bytes: false,
    }
}

/// The attributes a field is given: its own, or none at all.
pub open spec fn attributes_or_none(a: Option<FieldAttributes>) -> FieldAttributes {
    match a {
        Some(x) => x,
        None => no_attributes(),
    }
}

/// The parsed form of one field, from what `hidreport` gives of it: its bit
/// range, its attributes (none for a Constant field), its kind with usages
/// and logical range, and its collections.  The kind decides the form; a
/// Constant field keeps only its bit range.
fn field_info(
    bits: (usize, usize),
    attributes: Option<FieldAttributes>,
    usages: FieldUsages,
    collections: Vec<CollectionInfo>,
) -> (r: FieldInfo)
    ensures
        match usages {
            FieldUsages::Variable { usage_page, usage_id, logical_minimum, logical_maximum } => r
                matches FieldInfo::Variable {
                bits_start: bs,
                bits_end: be,
                usage_page: up,
                usage_id: ui,
                logical_minimum: lmin,
                logical_maximum: lmax,
                attributes: a,
                collections: c,
            } && bs == bits.0 && be == bits.1 && up == usage_page && ui == usage_id && lmin
                == logical_minimum && lmax == logical_maximum && a == attributes_or_none(attributes)
                && c@ == collections@,
            FieldUsages::Array { usages: u, logical_minimum, logical_maximum } => r matches FieldInfo::Array {
                bits_start: bs,
                bits_end: be,
                usages: ru,
                logical_minimum: lmin,
                logical_maximum: lmax,
                attributes: a,
                collections: c,
            } && bs == bits.0 && be == bits.1 && ru@ == u@ && lmin == logical_minimum && lmax
                == logical_maximum && a == attributes_or_none(attributes) && c@ == collections@,
            FieldUsages::Constant => r == (FieldInfo::Constant { bits_start: bits.0, bits_end: bits.1 }),
        },
{
    let (bits_start, bits_end) = bits;
    let attributes = match attributes {
        Some(a) => a,
        None => FieldAttributes {
            is_relative: false,
            wraps: false,
            is_nonlinear: false,
            has_no_preferred_state: false,
            has_null_state: false,
            is_volatile: None,
            is_buffered_bytes: false,
        },
    };
    match usages {
        FieldUsages::Variable { usage_page, usage_id, logical_minimum, logical_maximum } => {
            FieldInfo::Variable {
                bits_start,
                bits_end,
                usage_page,
                usage_id,
                logical_minimum,
                logical_maximum,
                attributes,
                collections,
            }
        },
        FieldUsages::Array { usages, logical_minimum, logical_maximum } => {
            FieldInfo::Array {
                bits_start,
                bits_end,
                usages,
                logical_minimum,
                logical_maximum,
                attributes,
                collections,
            }
        },
        FieldUsages::Constant => FieldInfo::Constant { bits_start, bits_end },
    }
}

/// The collections of a field, each with its first usage and its type.
fn collection_infos(f: &FieldParts) -> (r: Vec<CollectionInfo>)
    ensures
        r@ == spec_collections(f.origin().0, f.origin().1, f.origin().2, f.origin().3),
{
    let ghost o = f.origin();
    let n = collection_count(f);
    let mut out: Vec<CollectionInfo> = Vec::new();
    let mut c: usize = 0;
    while c < n
        invariant
            o == f.origin(),
            n == hid_collection_count(o.0, o.1, o.2, o.3),
            c <= n,
            out@ =~= spec_collections(o.0, o.1, o.2, o.3).take(c as int),
        decreases n - c,
    {
        let usages = collection_usages(f, c);
        let usage = if usages.len() > 0 {
            Some(usages[0])
        } else {
            None
        };
        out.push(CollectionInfo { usage, collection_type: collection_type(f, c) });
        c = c + 1;
    }
    assert(spec_collections(o.0, o.1, o.2, o.3).take(n as int) =~= spec_collections(o.0, o.1, o.2, o.3));
    out
}

/// The parsed form of one field.
fn field_info_of(f: &FieldParts) -> (r: FieldInfo)
    ensures
        field_matches(f.origin().0, f.origin().1, f.origin().2, f.origin().3, r),
{
    let kind = field_kind(f);
    let bits = field_bits(f);
    let attributes = field_attributes(f);
    let collections = collection_infos(f);
    let usages = if kind == 0 {
        let (usage_page, usage_id) = variable_usage(f);
        let (logical_minimum, logical_maximum) = logical_range(f);
        FieldUsages::Variable { usage_page, usage_id, logical_minimum, logical_maximum }
    } else if kind == 1 {
        let usages = array_usages(f);
        let (logical_minimum, logical_maximum) = logical_range(f);
        FieldUsages::Array { usages, logical_minimum, logical_maximum }
    } else {
        FieldUsages::Constant
    };
    field_info(bits, attributes, usages, collections)
}

/// The parsed form of the reports of direction `dir`, in order.
fn report_infos(parts: &Vec<ReportParts>, Ghost(bytes): Ghost<Seq<u8>>, Ghost(dir): Ghost<int>) -> (r: Vec<ReportInfo>)
    requires
        parts_named(bytes, dir, parts@),
    ensures
        reports_match(bytes, dir, r@),
{
    let mut reports: Vec<ReportInfo> = Vec::new();
    let mut i: usize = 0;
    while i < parts.len()
        invariant
            parts_named(bytes, dir, parts@),
            i <= parts@.len(),
            reports@.len() == i,
            forall|k: int|
                0 <= k < i ==> {
                    &&& (#[trigger] reports@[k]).report_id == hid_report_id(bytes, dir, k)
                    &&& reports@[k].size_in_bits == hid_report_size(bytes, dir, k)
                    &&& reports@[k].fields@.len() == hid_field_count(bytes, dir, k)
                    &&& forall|j: int|
                        0 <= j < reports@[k].fields@.len() ==> field_matches(
                            bytes,
                            dir,
                            k,
                            j,
                            #[trigger] reports@[k].fields@[j],
                        )
                },
        decreases parts@.len() - i,
    {
        let p = &parts[i];
        assert(parts@[i as int] == *p);
        let mut fields: Vec<FieldInfo> = Vec::new();
        let mut j: usize = 0;
        while j < p.fields.len()
            invariant
                parts_named(bytes, dir, parts@),
                i < parts@.len(),
                *p == parts@[i as int],
                j <= p.fields@.len(),
                fields@.len() == j,
                forall|m: int| 0 <= m < j ==> field_matches(bytes, dir, i as int, m, #[trigger] fields@[m]),
            decreases p.fields@.len() - j,
        {
            assert(p.fields@[j as int].origin() == (bytes, dir, i as int, j as int));
            let fi = field_info_of(&p.fields[j]);
            fields.push(fi);
            j = j + 1;
        }
        let ghost r0 = reports@;
        reports.push(ReportInfo { report_id: p.report_id, size_in_bits: p.size_in_bits, fields });
        proof {
            assert forall|k: int| 0 <= k < i + 1 implies {
                &&& (#[trigger] reports@[k]).report_id == hid_report_id(bytes, dir, k)
                &&& reports@[k].size_in_bits == hid_report_size(bytes, dir, k)
                &&& reports@[k].fields@.len() == hid_field_count(bytes, dir, k)
                &&& forall|j: int|
                    0 <= j < reports@[k].fields@.len() ==> field_matches(
                        bytes,
                        dir,
                        k,
                        j,
                        #[trigger] reports@[k].fields@[j],
                    )
            } by {
                if k < i {
                    assert(reports@[k] == r0[k]);
                }
            }
        }
        i = i + 1;
    }
    reports
}

/// Parses the bytes of a HID report descriptor with `hidreport` into a
/// [`ReportDescriptorInfo`]: the input, output and feature reports with
/// their ids, sizes and fields, each field with its kind, bit range,
/// usages, logical range, attributes and collections.  A descriptor where a
/// usage gets no usage page is refused before it reaches the parser.
pub fn parse_report_descriptor(bytes: &[u8]) -> (r: Result<ReportDescriptorInfo, ReportDescriptorError>)
    ensures
        r is Ok <==> !usage_page_missing(bytes@) && bits_fit(bytes@) && hidreport_accepts(bytes@),
        usage_page_missing(bytes@) ==> r matches Err(ReportDescriptorError::MissingUsagePage),
        !usage_page_missing(bytes@) && !bits_fit(bytes@) ==> r matches Err(ReportDescriptorError::TooLarge),
        r matches Ok(info) ==> info_matches(bytes@, info),
{
    if lacks_usage_page(bytes) {
        return Err(ReportDescriptorError::MissingUsagePage);
    }
    if !report_bits_fit(bytes) {
        return Err(ReportDescriptorError::TooLarge);
    }
    match parse_descriptor(bytes) {
        Ok(d) => {
            let input_reports = report_infos(&input_report_parts(&d), Ghost(bytes@), Ghost(0));
            let output_reports = report_infos(&output_report_parts(&d), Ghost(bytes@), Ghost(1));
            let feature_reports = report_infos(&feature_report_parts(&d), Ghost(bytes@), Ghost(2));
            Ok(ReportDescriptorInfo { input_reports, output_reports, feature_reports })
        },
        Err(e) => Err(ReportDescriptorError::Parse { message: parser_error_message(&e) }),
    }
}

/// Parses the bytes of a HID report descriptor and gives the bytes of its
/// C form: the [`HidRdescDescriptor`] that BPF programs read, built from
/// what `hidreport` finds in these bytes.
pub fn report_descriptor_c_bytes(bytes: &[u8]) -> (r: Result<Vec<u8>, ReportDescriptorError>)
    ensures
        r is Ok <==> !usage_page_missing(bytes@) && bits_fit(bytes@) && hidreport_accepts(bytes@),
        usage_page_missing(bytes@) ==> r matches Err(ReportDescriptorError::MissingUsagePage),
        !usage_page_missing(bytes@) && !bits_fit(bytes@) ==> r matches Err(ReportDescriptorError::TooLarge),
        r matches Ok(v) ==> v@.len() == DESCRIPTOR_BYTES && exists|info: ReportDescriptorInfo, d: HidRdescDescriptor|
            info_matches(bytes@, info) && descriptor_converted(info, d) && v@ == descriptor_bytes(d),
{
    match parse_report_descriptor(bytes) {
        Ok(info) => {
            let d = HidRdescDescriptor::from_info(&info);
            let v = d.to_bytes();
            assert(info_matches(bytes@, info) && descriptor_converted(info, d) && v@ == descriptor_bytes(d));
            Ok(v)
        },
        Err(e) => Err(e),
    }
}

} // verus!
