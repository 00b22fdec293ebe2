//! Validation of Rust struct/union layouts against the BTF type
//! information of a BPF object.
//!
//! The BTF of an object is held as a [`BtfModel`]: a table indexed by type
//! id with, for each type, what the validation reads of it.  Rust types that
//! take part in the validation are described by a [`BtfRegistry`] of
//! [`BtfLayout`]s, each with its [`ValidationField`]s.
use vstd::prelude::*;
use crate::errors::{BpfError, EINVAL};
use crate::text::{
    chars_of, chars_eq, str_starts_with, string_of, str_eq, find_char_from, trim_bounds, trim,
    has_prefix, first_index_of,
};

verus! {

/// Prefix used for anonymous field names in validation
pub const ANONYMOUS_FIELD_PREFIX: &'static str = "anon_";

/// Represents a field to be validated against BTF.
/// Contains all necessary information for validation: name, offset, size, and type.
#[derive(Debug, Clone, Copy)]
pub struct ValidationField {
    /// Field name (uses ANONYMOUS_FIELD_PREFIX for anonymous fields)
    pub name: &'static str,
    /// Byte offset from start of struct (0 for union members)
    pub offset: usize,
    /// Size in bytes
    pub size: usize,
    /// Rust type name as string
    pub rust_type: &'static str,
}

impl ValidationField {
    /// Creates a new validation field
    pub fn new(name: &'static str, offset: usize, size: usize, rust_type: &'static str) -> (f: Self)
        ensures
            f.name == name,
            f.offset == offset,
            f.size == size,
            f.rust_type == rust_type,
    {
        Self { name, offset, size, rust_type }
    }
}

/// A member of a BTF struct or union.
pub struct BtfMember {
    /// The member's name; `None` for anonymous members.
    pub name: Option<String>,
    /// The type id of the member.
    pub ty: u32,
    /// The member's offset in bits (for union members this is not used).
    pub bit_offset: u32,
}

/// What the validation reads of one BTF type.
pub enum BtfTypeInfo {
    /// A type that refers to another one: pointer, typedef, volatile, const,
    /// restrict, function, function prototype, variable, decl tag or type tag.
    Reference { target: u32 },
    /// An integer of the given size in bytes.
    Int { size: usize },
    /// A struct of the given size in bytes.
    Struct { size: usize, members: Vec<BtfMember> },
    /// A union of the given size in bytes.
    Union { size: usize, members: Vec<BtfMember> },
    /// An enum of the given size in bytes.
    Enum { size: usize },
    /// An array of `capacity` elements of type `elem`.
    Array { elem: u32, capacity: usize },
    /// Void, forward declarations, data sections, floats and 64-bit enums.
    Other,
}

/// The BTF of a BPF object: `types[id]` describes the type with that id.
pub struct BtfModel {
    pub types: Vec<BtfTypeInfo>,
}

/// A Rust struct or union whose layout is checked against BTF.
pub struct BtfLayout {
    /// The Rust type's name, as field type names refer to it.
    pub name: &'static str,
    /// True for unions, false for structs.
    pub is_union: bool,
    /// `size_of` the Rust type.
    pub size: usize,
    /// The fields (or union members) of the Rust type.
    pub fields: Vec<ValidationField>,
}

/// The Rust types whose layout can be validated, looked up by name.
pub struct BtfRegistry {
    pub layouts: Vec<BtfLayout>,
}

/// The names of the types that were validated already.
pub struct ValidatedTypes {
    names: Vec<String>,
}

// ---------------------------------------------------------------------
// The model and its well-formedness
// ---------------------------------------------------------------------

/// `id` names a type of `m`.
pub open spec fn valid_id(m: BtfModel, id: int) -> bool {
    0 <= id < m.types@.len()
}

/// `rank` strictly decreases along the references and array element
/// types of `m`: following them always comes to an end.
pub open spec fn model_ranked(m: BtfModel, rank: spec_fn(int) -> nat) -> bool {
    forall|i: int|
        0 <= i < m.types@.len() ==> match #[trigger] m.types@[i] {
            BtfTypeInfo::Reference { target } => (target as int) < m.types@.len() ==> rank(
                target as int,
            ) < rank(i),
            BtfTypeInfo::Array { elem, .. } => (elem as int) < m.types@.len() ==> rank(elem as int)
                < rank(i),
            _ => true,
        }
}

/// Following references and array element types in `m` terminates.
pub open spec fn model_well_founded(m: BtfModel) -> bool {
    exists|rank: spec_fn(int) -> nat| model_ranked(m, rank)
}

/// A ranking of the types of a well-founded model.
pub open spec fn model_rank(m: BtfModel) -> spec_fn(int) -> nat {
    choose|rank: spec_fn(int) -> nat| model_ranked(m, rank)
}

/// The type that `id` stands for once typedefs, qualifiers, pointers and
/// other references are followed (`BtfType::next_type` until there is none).
pub open spec fn resolve(m: BtfModel, id: int) -> int
    decreases model_rank(m)(id),
    when model_well_founded(m) && valid_id(m, id)
{
    match m.types@[id] {
        BtfTypeInfo::Reference { target } => if valid_id(m, target as int) {
            resolve(m, target as int)
        } else {
            id
        },
        _ => id,
    }
}

/// Resolving never climbs in rank and ends at a type that refers to no
/// further (valid) type.
pub proof fn lemma_resolve(m: BtfModel, id: int)
    requires
        model_well_founded(m),
        valid_id(m, id),
    ensures
        valid_id(m, resolve(m, id)),
        model_rank(m)(resolve(m, id)) <= model_rank(m)(id),
        !(m.types@[resolve(m, id)] matches BtfTypeInfo::Reference { target } && valid_id(
            m,
            target as int,
        )),
    decreases model_rank(m)(id),
{
    if let BtfTypeInfo::Reference { target } = m.types@[id] {
        if valid_id(m, target as int) {
            lemma_resolve(m, target as int);
        }
    }
}

/// The size in bytes of the (resolved) type `id`, as `get_btf_type_size`
/// computes it: ints, structs, unions and enums have their own size, an
/// array has its element size times its capacity, anything else has none.
pub open spec fn type_size(m: BtfModel, id: int) -> Option<int>
    decreases model_rank(m)(id),
    when model_well_founded(m) && valid_id(m, id)
{
    match m.types@[id] {
        BtfTypeInfo::Int { size } => Some(size as int),
        BtfTypeInfo::Struct { size, .. } => Some(size as int),
        BtfTypeInfo::Union { size, .. } => Some(size as int),
        BtfTypeInfo::Enum { size } => Some(size as int),
        BtfTypeInfo::Array { elem, capacity } => if valid_id(m, elem as int) {
            proof {
                lemma_resolve(m, elem as int);
            }
            match type_size(m, resolve(m, elem as int)) {
                Some(s) => Some(s * capacity),
                None => None,
            }
        } else {
            None
        },
        _ => None,
    }
}

/// Sizes are never negative.
pub proof fn lemma_type_size_nonneg(m: BtfModel, id: int)
    requires
        model_well_founded(m),
        valid_id(m, id),
    ensures
        type_size(m, id) matches Some(s) ==> s >= 0,
    decreases model_rank(m)(id),
{
    if let BtfTypeInfo::Array { elem, capacity } = m.types@[id] {
        if valid_id(m, elem as int) {
            assert(model_ranked(m, model_rank(m)));
            assert(match m.types@[id] {
                BtfTypeInfo::Array { elem, .. } => (elem as int) < m.types@.len() ==> model_rank(m)(
                    elem as int,
                ) < model_rank(m)(id),
                _ => true,
            });
            lemma_resolve(m, elem as int);
            lemma_type_size_nonneg(m, resolve(m, elem as int));
            if let Some(s) = type_size(m, resolve(m, elem as int)) {
                assert(s * capacity >= 0) by (nonlinear_arith)
                    requires
                        s >= 0,
                        capacity >= 0,
                ;
            }
        }
    }
}

/// Every size that `type_size` gives fits in a `usize`.
pub open spec fn sizes_fit(m: BtfModel) -> bool {
    forall|id: int|
        valid_id(m, id) ==> match #[trigger] type_size(m, id) {
            Some(s) => s <= usize::MAX,
            None => true,
        }
}

/// The model can be validated against: following references ends, and all
/// sizes are representable.
pub open spec fn model_wf(m: BtfModel) -> bool {
    model_well_founded(m) && sizes_fit(m)
}

// ---------------------------------------------------------------------
// Type names and the registry
// ---------------------------------------------------------------------

/// `s` without leading `c` characters (`trim_start_matches(c)`).
pub open spec fn drop_leading(s: Seq<char>, c: char) -> Seq<char>
    decreases s.len(),
{
    if s.len() > 0 && s[0] == c {
        drop_leading(s.drop_first(), c)
    } else {
        s
    }
}

/// The part of `s` before the first `c` (`split(c).next()`).
pub open spec fn before_char(s: Seq<char>, c: char) -> Seq<char> {
    match first_index_of(s, c) {
        Some(i) => s.take(i),
        None => s,
    }
}

/// The element type named by a Rust type name, with array syntax such as
/// `[Foo; 32]` stripped to `Foo`.
pub open spec fn base_rust_type(rust_type: Seq<char>) -> Seq<char> {
    trim(before_char(drop_leading(rust_type, '['), ';'))
}

/// The names of the primitive Rust types, which need no validation.
pub open spec fn primitive_names() -> Seq<Seq<char>> {
    seq![
        seq!['u', '8'],
        seq!['u', '1', '6'],
        seq!['u', '3', '2'],
        seq!['u', '6', '4'],
        seq!['i', '8'],
        seq!['i', '1', '6'],
        seq!['i', '3', '2'],
        seq!['i', '6', '4'],
        seq!['u', 's', 'i', 'z', 'e'],
        seq!['i', 's', 'i', 'z', 'e'],
        seq!['b', 'o', 'o', 'l'],
        seq!['c', 'h', 'a', 'r'],
        seq!['f', '3', '2'],
        seq!['f', '6', '4'],
    ]
}

/// Whether `name` is one of the primitive Rust types.
pub open spec fn is_primitive_name(name: Seq<char>) -> bool {
    primitive_names().contains(name)
}

/// The index of the first layout in `reg` named `name`, from index `from` on.
pub open spec fn lookup_layout_from(reg: BtfRegistry, name: Seq<char>, from: int) -> Option<int>
    decreases reg.layouts@.len() - from,
{
    if from < 0 || from >= reg.layouts@.len() {
        None
    } else if reg.layouts@[from].name@ == name {
        Some(from)
    } else {
        lookup_layout_from(reg, name, from + 1)
    }
}

/// The index of the first layout in `reg` named `name`.
pub open spec fn lookup_layout(reg: BtfRegistry, name: Seq<char>) -> Option<int> {
    lookup_layout_from(reg, name, 0)
}

/// The layout that a field refers to and that validation descends into, if any.
pub open spec fn nested_layout(reg: BtfRegistry, field: ValidationField) -> Option<int> {
    let base = base_rust_type(field.rust_type@);
    if is_primitive_name(base) {
        None
    } else {
        lookup_layout(reg, base)
    }
}

/// `rank` strictly decreases from a layout to the layouts its fields refer to.
pub open spec fn registry_ranked(reg: BtfRegistry, rank: spec_fn(int) -> nat) -> bool {
    forall|i: int, k: int|
        0 <= i < reg.layouts@.len() && 0 <= k < reg.layouts@[i].fields@.len() ==> match nested_layout(
            reg,
            #[trigger] reg.layouts@[i].fields@[k],
        ) {
            Some(j) => rank(j) < rank(i),
            None => true,
        }
}

/// No layout of `reg` contains itself, directly or through other layouts,
/// as Rust's sized types never do.
pub open spec fn registry_wf(reg: BtfRegistry) -> bool {
    exists|rank: spec_fn(int) -> nat| registry_ranked(reg, rank)
}

/// A ranking of the layouts of a well-formed registry.
pub open spec fn registry_rank(reg: BtfRegistry) -> spec_fn(int) -> nat {
    choose|rank: spec_fn(int) -> nat| registry_ranked(reg, rank)
}

// ---------------------------------------------------------------------
// What validation decides
// ---------------------------------------------------------------------

/// The members of a struct or union type.
pub open spec fn members_of(t: BtfTypeInfo) -> Seq<BtfMember> {
    match t {
        BtfTypeInfo::Struct { members, .. } => members@,
        BtfTypeInfo::Union { members, .. } => members@,
        _ => Seq::empty(),
    }
}

/// Whether `member` is the BTF member that stands for `field`: for
/// anonymous fields of a struct, an unnamed member at the field's offset;
/// for anonymous union members, any unnamed member; otherwise the member
/// with the field's name.
pub open spec fn member_matches(is_union: bool, field: ValidationField, member: BtfMember) -> bool {
    if has_prefix(field.name@, ANONYMOUS_FIELD_PREFIX@) {
        if is_union {
            member.name is None
        } else {
            member.name is None && (member.bit_offset / 8) as int == field.offset as int
        }
    } else {
        member.name matches Some(n) && n@ == field.name@
    }
}

/// The index of the first member from `from` on that stands for `field`.
pub open spec fn find_member_from(
    members: Seq<BtfMember>,
    is_union: bool,
    field: ValidationField,
    from: int,
) -> Option<int>
    decreases members.len() - from,
{
    if from < 0 || from >= members.len() {
        None
    } else if member_matches(is_union, field, members[from]) {
        Some(from)
    } else {
        find_member_from(members, is_union, field, from + 1)
    }
}

/// The checks on one field that come before its nested validation: the
/// member exists, has the expected offset (structs) and a valid type whose
/// resolved size is the field's size.  Gives the resolved member type.
pub open spec fn check_field(
    m: BtfModel,
    is_union: bool,
    members: Seq<BtfMember>,
    field: ValidationField,
) -> Option<int> {
    match find_member_from(members, is_union, field, 0) {
        None => None,
        Some(k) => {
            let member = members[k];
            if !is_union && (member.bit_offset / 8) as int != field.offset as int {
                None
            } else if !valid_id(m, member.ty as int) {
                None
            } else {
                let r = resolve(m, member.ty as int);
                match type_size(m, r) {
                    Some(s) => if s == field.size as int {
                        Some(r)
                    } else {
                        None
                    },
                    None => None,
                }
            }
        },
    }
}

/// The measure under which validation of layout `e` recurses.
pub open spec fn layout_measure(reg: BtfRegistry, e: int) -> int {
    registry_rank(reg)(e) as int + 1
}

/// The measure under which validation of a field's type recurses.
pub open spec fn name_measure(reg: BtfRegistry, rust_type: Seq<char>) -> int {
    let base = base_rust_type(rust_type);
    if is_primitive_name(base) {
        0
    } else {
        match lookup_layout(reg, base) {
            Some(j) => registry_rank(reg)(j) as int + 1,
            None => 0,
        }
    }
}

/// Validation of layout `e` against the type `t`: succeeds iff `t`
/// resolves to a struct (union) of the layout's size whose fields all
/// validate.  Gives the outcome and the set of validated names after it.
pub open spec fn spec_validate_layout(
    m: BtfModel,
    reg: BtfRegistry,
    e: int,
    t: int,
    cache: Set<Seq<char>>,
) -> (bool, Set<Seq<char>>)
    decreases layout_measure(reg, e), 2int, 0int,
    when model_well_founded(m) && registry_wf(reg) && 0 <= e < reg.layouts@.len() && valid_id(m, t)
{
    let layout = reg.layouts@[e];
    let r = resolve(m, t);
    proof {
        lemma_resolve(m, t);
    }
    match m.types@[r] {
        BtfTypeInfo::Struct { size, .. } => if layout.is_union || size != layout.size {
            (false, cache)
        } else {
            spec_validate_fields(m, reg, e, r, 0, cache)
        },
        BtfTypeInfo::Union { size, .. } => if !layout.is_union || size != layout.size {
            (false, cache)
        } else {
            spec_validate_fields(m, reg, e, r, 0, cache)
        },
        _ => (false, cache),
    }
}

/// Validation of the fields `k..` of layout `e` against the members of the
/// composite type `r`, in order, stopping at the first failure.
pub open spec fn spec_validate_fields(
    m: BtfModel,
    reg: BtfRegistry,
    e: int,
    r: int,
    k: int,
    cache: Set<Seq<char>>,
) -> (bool, Set<Seq<char>>)
    decreases layout_measure(reg, e), 1int, reg.layouts@[e].fields@.len() - k,
    when model_well_founded(m) && registry_wf(reg) && 0 <= e < reg.layouts@.len() && valid_id(m, r)
        && 0 <= k
{
    let layout = reg.layouts@[e];
    if k >= layout.fields@.len() {
        (true, cache)
    } else {
        let field = layout.fields@[k];
        match check_field(m, layout.is_union, members_of(m.types@[r]), field) {
            None => (false, cache),
            Some(rt) => {
                proof {
                    assert(registry_ranked(reg, registry_rank(reg)));
                    assert(match nested_layout(reg, reg.layouts@[e].fields@[k]) {
                        Some(j) => registry_rank(reg)(j) < registry_rank(reg)(e),
                        None => true,
                    });
                    lemma_check_field_valid(m, layout.is_union, members_of(m.types@[r]), field);
                }
                let res = spec_validate_rust_type(m, reg, rt, field.rust_type@, cache);
                if res.0 {
                    spec_validate_fields(m, reg, e, r, k + 1, res.1)
                } else {
                    (false, res.1)
                }
            },
        }
    }
}

/// Validation of a field's type `t` named `rust_type`
/// (`validate_complex_type_by_name`): names validated before pass at
/// once; otherwise an array type is replaced by its element type, the
/// layout named by the base type name (if not primitive and registered) is
/// validated, and on success the name is recorded.
pub open spec fn spec_validate_rust_type(
    m: BtfModel,
    reg: BtfRegistry,
    t: int,
    rust_type: Seq<char>,
    cache: Set<Seq<char>>,
) -> (bool, Set<Seq<char>>)
    decreases name_measure(reg, rust_type), 3int, 0int,
    when model_well_founded(m) && registry_wf(reg) && valid_id(m, t)
{
    if cache.contains(rust_type) {
        (true, cache)
    } else {
        let base = base_rust_type(rust_type);
        let r = resolve(m, t);
        proof {
            lemma_resolve(m, t);
        }
        let vt: Option<int> = match m.types@[r] {
            BtfTypeInfo::Array { elem, .. } => if valid_id(m, elem as int) {
                Some(elem as int)
            } else {
                None
            },
            _ => Some(r),
        };
        match vt {
            None => (false, cache),
            Some(v) => if is_primitive_name(base) {
                (true, cache.insert(rust_type))
            } else {
                match lookup_layout(reg, base) {
                    None => (true, cache.insert(rust_type)),
                    Some(j) => {
                        proof {
                            lemma_lookup_layout_from(reg, base, 0);
                        }
                        let res = spec_validate_layout(m, reg, j, v, cache);
                        if res.0 {
                            (true, res.1.insert(rust_type))
                        } else {
                            (false, res.1)
                        }
                    },
                }
            },
        }
    }
}

/// A found layout index is in range and carries the looked-up name.
pub proof fn lemma_lookup_layout_from(reg: BtfRegistry, name: Seq<char>, from: int)
    ensures
        match lookup_layout_from(reg, name, from) {
            Some(j) => from <= j < reg.layouts@.len() && 0 <= j && reg.layouts@[j].name@ == name
                && forall|i: int| from <= i < j ==> reg.layouts@[i].name@ != name,
            None => forall|i: int| 0 <= from <= i < reg.layouts@.len() ==> reg.layouts@[i].name@ != name,
        },
    decreases reg.layouts@.len() - from,
{
    if 0 <= from < reg.layouts@.len() && reg.layouts@[from].name@ != name {
        lemma_lookup_layout_from(reg, name, from + 1);
    }
}

/// A found member index is in range, matches, and no earlier member does.
pub proof fn lemma_find_member_from(
    members: Seq<BtfMember>,
    is_union: bool,
    field: ValidationField,
    from: int,
)
    ensures
        match find_member_from(members, is_union, field, from) {
            Some(k) => 0 <= from <= k < members.len() && member_matches(is_union, field, members[k])
                && forall|i: int| from <= i < k ==> !member_matches(is_union, field, members[i]),
            None => forall|i: int|
                0 <= from <= i < members.len() ==> !member_matches(is_union, field, members[i]),
        },
    decreases members.len() - from,
{
    if 0 <= from < members.len() && !member_matches(is_union, field, members[from]) {
        lemma_find_member_from(members, is_union, field, from + 1);
    }
}

/// The type that `check_field` hands on is a valid type id.
pub proof fn lemma_check_field_valid(
    m: BtfModel,
    is_union: bool,
    members: Seq<BtfMember>,
    field: ValidationField,
)
    requires
        model_well_founded(m),
    ensures
        check_field(m, is_union, members, field) matches Some(r) ==> valid_id(m, r),
{
    lemma_find_member_from(members, is_union, field, 0);
    if let Some(k) = find_member_from(members, is_union, field, 0) {
        if valid_id(m, members[k].ty as int) {
            lemma_resolve(m, members[k].ty as int);
        }
    }
}

/// Validating layout `e` against type `t` only ever adds names to the set of
/// validated types, whatever the outcome; and when it succeeds, the type
/// name of every field of the layout is in the set afterwards.
pub proof fn lemma_validate_layout_grows(
    m: BtfModel,
    reg: BtfRegistry,
    e: int,
    t: int,
    cache: Set<Seq<char>>,
)
    requires
        model_well_founded(m),
        registry_wf(reg),
        0 <= e < reg.layouts@.len(),
        valid_id(m, t),
    ensures
        cache.subset_of(spec_validate_layout(m, reg, e, t, cache).1),
        spec_validate_layout(m, reg, e, t, cache).0 ==> forall|k: int|
            0 <= k < reg.layouts@[e].fields@.len() ==> spec_validate_layout(m, reg, e, t, cache).1.contains(
                #[trigger] reg.layouts@[e].fields@[k].rust_type@,
            ),
    decreases layout_measure(reg, e), 2int, 0int,
{
    lemma_resolve(m, t);
    lemma_validate_fields_grows(m, reg, e, resolve(m, t), 0, cache);
}

/// Validating the fields `k..` of layout `e` only ever adds names to the set
/// of validated types; when it succeeds, the type names of those fields are
/// all in the set afterwards.
pub proof fn lemma_validate_fields_grows(
    m: BtfModel,
    reg: BtfRegistry,
    e: int,
    r: int,
    k: int,
    cache: Set<Seq<char>>,
)
    requires
        model_well_founded(m),
        registry_wf(reg),
        0 <= e < reg.layouts@.len(),
        valid_id(m, r),
        0 <= k,
    ensures
        cache.subset_of(spec_validate_fields(m, reg, e, r, k, cache).1),
        spec_validate_fields(m, reg, e, r, k, cache).0 ==> forall|i: int|
            k <= i < reg.layouts@[e].fields@.len() ==> spec_validate_fields(m, reg, e, r, k, cache).1.contains(
                #[trigger] reg.layouts@[e].fields@[i].rust_type@,
            ),
    decreases layout_measure(reg, e), 1int, reg.layouts@[e].fields@.len() - k,
{
    let layout = reg.layouts@[e];
    if k < layout.fields@.len() {
        let field = layout.fields@[k];
        if let Some(rt) = check_field(m, layout.is_union, members_of(m.types@[r]), field) {
            assert(registry_ranked(reg, registry_rank(reg)));
            assert(match nested_layout(reg, reg.layouts@[e].fields@[k]) {
                Some(j) => registry_rank(reg)(j) < registry_rank(reg)(e),
                None => true,
            });
            lemma_check_field_valid(m, layout.is_union, members_of(m.types@[r]), field);
            lemma_validate_rust_type_grows(m, reg, rt, field.rust_type@, cache);
            let res = spec_validate_rust_type(m, reg, rt, field.rust_type@, cache);
            if res.0 {
                lemma_validate_fields_grows(m, reg, e, r, k + 1, res.1);
                let fin = spec_validate_fields(m, reg, e, r, k + 1, res.1).1;
                assert(cache.subset_of(fin));
                assert(fin.contains(field.rust_type@));
            }
        }
    }
}

/// When the fields `k..` of layout `e` validate against the composite type
/// `r`, each of them has a member of `r` that stands for it (one of the
/// field's name, or an unnamed one for an anonymous field), at the field's
/// byte offset in a
/// struct, whose type is valid and resolves to a type of exactly the
/// field's size.
pub proof fn lemma_validated_fields_have_members(
    m: BtfModel,
    reg: BtfRegistry,
    e: int,
    r: int,
    k: int,
    cache: Set<Seq<char>>,
)
    requires
        model_well_founded(m),
        registry_wf(reg),
        0 <= e < reg.layouts@.len(),
        valid_id(m, r),
        0 <= k,
    ensures
        spec_validate_fields(m, reg, e, r, k, cache).0 ==> forall|i: int|
            k <= i < reg.layouts@[e].fields@.len() ==> exists|mi: int|
                0 <= mi < members_of(m.types@[r]).len() && member_matches(
                    reg.layouts@[e].is_union,
                    #[trigger] reg.layouts@[e].fields@[i],
                    members_of(m.types@[r])[mi],
                ) && (!has_prefix(reg.layouts@[e].fields@[i].name@, ANONYMOUS_FIELD_PREFIX@)
                    ==> members_of(m.types@[r])[mi].name is Some && members_of(m.types@[r])[mi].name->Some_0@ == reg.layouts@[e].fields@[i].name@)
                    && (!reg.layouts@[e].is_union ==> (members_of(m.types@[r])[mi].bit_offset / 8) as int
                    == reg.layouts@[e].fields@[i].offset as int) && valid_id(
                    m,
                    members_of(m.types@[r])[mi].ty as int,
                ) && type_size(m, resolve(m, members_of(m.types@[r])[mi].ty as int)) == Some(
                    reg.layouts@[e].fields@[i].size as int,
                ),
    decreases layout_measure(reg, e), 1int, reg.layouts@[e].fields@.len() - k,
{
    let layout = reg.layouts@[e];
    let members = members_of(m.types@[r]);
    if k < layout.fields@.len() {
        let field = layout.fields@[k];
        if let Some(rt) = check_field(m, layout.is_union, members, field) {
            assert(registry_ranked(reg, registry_rank(reg)));
            assert(match nested_layout(reg, reg.layouts@[e].fields@[k]) {
                Some(j) => registry_rank(reg)(j) < registry_rank(reg)(e),
                None => true,
            });
            lemma_check_field_valid(m, layout.is_union, members, field);
            lemma_find_member_from(members, layout.is_union, field, 0);
            let res = spec_validate_rust_type(m, reg, rt, field.rust_type@, cache);
            if res.0 {
                lemma_validated_fields_have_members(m, reg, e, r, k + 1, res.1);
                let mk = find_member_from(members, layout.is_union, field, 0)->Some_0;
                assert(member_matches(layout.is_union, reg.layouts@[e].fields@[k], members[mk]));
            }
        }
    }
}

/// When layout `e` validates against the type `t`, `t` resolves to a struct
/// (a union, for a union layout) of the layout's size, and each field of
/// the layout has a member that stands for it, at its byte offset in a
/// struct, whose type resolves to a type of exactly the field's size.
pub proof fn lemma_validated_layout_matches(
    m: BtfModel,
    reg: BtfRegistry,
    e: int,
    t: int,
    cache: Set<Seq<char>>,
)
    requires
        model_well_founded(m),
        registry_wf(reg),
        0 <= e < reg.layouts@.len(),
        valid_id(m, t),
    ensures
        spec_validate_layout(m, reg, e, t, cache).0 ==> {
            let r = resolve(m, t);
            &&& valid_id(m, r)
            &&& if reg.layouts@[e].is_union {
                m.types@[r] matches BtfTypeInfo::Union { size, .. } && size == reg.layouts@[e].size
            } else {
                m.types@[r] matches BtfTypeInfo::Struct { size, .. } && size == reg.layouts@[e].size
            }
            &&& forall|i: int|
                0 <= i < reg.layouts@[e].fields@.len() ==> exists|mi: int|
                    0 <= mi < members_of(m.types@[r]).len() && member_matches(
                        reg.layouts@[e].is_union,
                        #[trigger] reg.layouts@[e].fields@[i],
                        members_of(m.types@[r])[mi],
                    ) && (!has_prefix(reg.layouts@[e].fields@[i].name@, ANONYMOUS_FIELD_PREFIX@)
                        ==> members_of(m.types@[r])[mi].name is Some && members_of(m.types@[r])[mi].name->Some_0@ == reg.layouts@[e].fields@[i].name@)
                        && (!reg.layouts@[e].is_union ==> (members_of(m.types@[r])[mi].bit_offset / 8) as int
                        == reg.layouts@[e].fields@[i].offset as int) && valid_id(
                        m,
                        members_of(m.types@[r])[mi].ty as int,
                    ) && type_size(m, resolve(m, members_of(m.types@[r])[mi].ty as int)) == Some(
                        reg.layouts@[e].fields@[i].size as int,
                    )
        },
{
    lemma_resolve(m, t);
    lemma_validated_fields_have_members(m, reg, e, resolve(m, t), 0, cache);
}

/// Validating a field's type only ever adds names to the set of validated
/// types, whatever the outcome; when it succeeds, the type's own name is in
/// the set afterwards.
pub proof fn lemma_validate_rust_type_grows(
    m: BtfModel,
    reg: BtfRegistry,
    t: int,
    rust_type: Seq<char>,
    cache: Set<Seq<char>>,
)
    requires
        model_well_founded(m),
        registry_wf(reg),
        valid_id(m, t),
    ensures
        cache.subset_of(spec_validate_rust_type(m, reg, t, rust_type, cache).1),
        spec_validate_rust_type(m, reg, t, rust_type, cache).0 ==> spec_validate_rust_type(
            m,
            reg,
            t,
            rust_type,
            cache,
        ).1.contains(rust_type),
    decreases name_measure(reg, rust_type), 3int, 0int,
{
    if !cache.contains(rust_type) {
        let base = base_rust_type(rust_type);
        let r = resolve(m, t);
        lemma_resolve(m, t);
        let vt: Option<int> = match m.types@[r] {
            BtfTypeInfo::Array { elem, .. } => if valid_id(m, elem as int) {
                Some(elem as int)
            } else {
                None
            },
            _ => Some(r),
        };
        if let Some(v) = vt {
            if !is_primitive_name(base) {
                if let Some(j) = lookup_layout(reg, base) {
                    lemma_lookup_layout_from(reg, base, 0);
                    lemma_validate_layout_grows(m, reg, j, v, cache);
                }
            }
        }
    }
}

// ---------------------------------------------------------------------
// Executable validation
// ---------------------------------------------------------------------

impl ValidatedTypes {
    /// No name is recorded twice: the list stands for a set.
    #[verifier::type_invariant]
    spec fn names_distinct(self) -> bool {
        forall|i: int, j: int|
            0 <= i < j < self.names@.len() ==> self.names@[i]@ != self.names@[j]@
    }

    /// The set of names recorded as validated.
    pub closed spec fn view(&self) -> Set<Seq<char>> {
        Set::new(|x: Seq<char>| exists|i: int| 0 <= i < self.names@.len() && self.names@[i]@ == x)
    }

    /// No type validated yet.
    pub fn new() -> (c: Self)
        ensures
            c.view() == Set::<Seq<char>>::empty(),
    {
        let c = ValidatedTypes { names: Vec::new() };
        assert(c.view() =~= Set::<Seq<char>>::empty());
        c
    }

    /// Whether `name` was recorded.
    pub fn contains(&self, name: &str) -> (r: bool)
        ensures
            r == self.view().contains(name@),
    {
        let mut i: usize = 0;
        while i < self.names.len()
            invariant
                i <= self.names@.len(),
                forall|j: int| 0 <= j < i ==> self.names@[j]@ != name@,
            decreases self.names@.len() - i,
        {
            if str_eq(self.names[i].as_str(), name) {
                return true;
            }
            i = i + 1;
        }
        false
    }

    /// Records `name` as validated.
    pub fn insert(&mut self, name: &str)
        ensures
            final(self).view() == old(self).view().insert(name@),
    {
        proof {
            use_type_invariant(&*self);
        }
        if !self.contains(name) {
            let s = string_of(name);
            let ghost before = self.names@;
            let mut names: Vec<String> = Vec::new();
            std::mem::swap(&mut names, &mut self.names);
            names.push(s);
            self.names = names;
            assert(self.view() =~= old(self).view().insert(name@)) by {
                assert(self.names@[before.len() as int]@ == name@);
                assert forall|x: Seq<char>| self.view().contains(x) implies old(self).view().insert(
                    name@,
                ).contains(x) by {
                    let i = choose|i: int| 0 <= i < self.names@.len() && self.names@[i]@ == x;
                    if i < before.len() {
                        assert(before[i]@ == x);
                    }
                }
                assert forall|x: Seq<char>| old(self).view().insert(name@).contains(x) implies self.view().contains(x) by {
                    if x != name@ {
                        let i = choose|i: int| 0 <= i < before.len() && before[i]@ == x;
                        assert(self.names@[i]@ == x);
                    }
                }
            }
        } else {
            assert(old(self).view().insert(name@) =~= old(self).view());
        }
    }
}

/// Resolves a BTF type through typedef, const, volatile, etc. to the actual type.
pub fn resolve_btf_type(m: &BtfModel, id: u32) -> (r: u32)
    requires
        model_well_founded(*m),
        valid_id(*m, id as int),
    ensures
        r as int == resolve(*m, id as int),
    decreases model_rank(*m)(id as int),
{
    match &m.types[id as usize] {
        BtfTypeInfo::Reference { target } => {
            if (*target as usize) < m.types.len() {
                proof {
                    assert(model_ranked(*m, model_rank(*m)));
                    assert(match m.types@[id as int] {
                        BtfTypeInfo::Reference { target } => (target as int) < m.types@.len()
                            ==> model_rank(*m)(target as int) < model_rank(*m)(id as int),
                        _ => true,
                    });
                }
                resolve_btf_type(m, *target)
            } else {
                id
            }
        },
        _ => id,
    }
}

/// Gets the size in bytes of a resolved BTF type.
///
/// Handles Int, Struct, Union, Enum, and Array types. For arrays, recursively
/// calculates the size by multiplying the element size by the number of elements.
pub fn get_btf_type_size(m: &BtfModel, id: u32) -> (r: Result<usize, BpfError>)
    requires
        model_wf(*m),
        valid_id(*m, id as int),
    ensures
        match type_size(*m, id as int) {
            Some(s) => r == Ok::<usize, BpfError>(s as usize),
            None => r == Err::<usize, BpfError>(BpfError::LibBPFError { error: EINVAL }),
        },
    decreases model_rank(*m)(id as int),
{
    proof {
        lemma_type_size_nonneg(*m, id as int);
        assert(sizes_fit(*m));
        assert(match type_size(*m, id as int) {
            Some(s) => s <= usize::MAX,
            None => true,
        });
    }
    match &m.types[id as usize] {
        BtfTypeInfo::Int { size } => Ok(*size),
        BtfTypeInfo::Struct { size, .. } => Ok(*size),
        BtfTypeInfo::Union { size, .. } => Ok(*size),
        BtfTypeInfo::Enum { size } => Ok(*size),
        BtfTypeInfo::Array { elem, capacity } => {
            if (*elem as usize) >= m.types.len() {
                return Err(BpfError::LibBPFError { error: EINVAL });
            }
            proof {
                assert(model_ranked(*m, model_rank(*m)));
                assert(match m.types@[id as int] {
                    BtfTypeInfo::Array { elem, .. } => (elem as int) < m.types@.len() ==> model_rank(
                        *m,
                    )(elem as int) < model_rank(*m)(id as int),
                    _ => true,
                });
                lemma_resolve(*m, *elem as int);
            }
            let resolved_elem = resolve_btf_type(m, *elem);
            proof {
                lemma_type_size_nonneg(*m, resolved_elem as int);
                assert(match type_size(*m, resolved_elem as int) {
                    Some(s) => s <= usize::MAX,
                    None => true,
                });
            }
            let elem_size = match get_btf_type_size(m, resolved_elem) {
                Ok(s) => s,
                Err(e) => {
                    return Err(e);
                },
            };
            proof {
                assert(type_size(*m, resolved_elem as int) == Some(elem_size as int));
                assert(elem_size * *capacity <= usize::MAX);
            }
            Ok(elem_size * *capacity)
        },
        _ => Err(BpfError::LibBPFError { error: EINVAL }),
    }
}

/// The element type name inside a Rust type name, with array syntax such as
/// `[Foo; 32]` stripped to `Foo`, as characters.
pub fn base_type_chars(rust_type: &str) -> (r: Vec<char>)
    ensures
        r@ == base_rust_type(rust_type@),
{
    let v = chars_of(rust_type);
    let mut p: usize = 0;
    assert(v@.skip(0) == v@);
    while p < v.len() && v[p] == '['
        invariant
            p <= v@.len(),
            v@ == rust_type@,
            drop_leading(v@, '[') == drop_leading(v@.skip(p as int), '['),
        decreases v@.len() - p,
    {
        assert(v@.skip(p as int).drop_first() == v@.skip(p + 1));
        p = p + 1;
    }
    assert(drop_leading(v@, '[') == v@.skip(p as int));
    let end = match find_char_from(v.as_slice(), p, ';') {
        Some(i) => i,
        None => v.len(),
    };
    assert(before_char(v@.skip(p as int), ';') == v@.subrange(p as int, end as int));
    let (from, to) = trim_bounds(v.as_slice(), p, end);
    let mut r: Vec<char> = Vec::new();
    let mut i: usize = from;
    while i < to
        invariant
            from <= i <= to <= v@.len(),
            r@ == v@.subrange(from as int, i as int),
        decreases to - i,
    {
        r.push(v[i]);
        i = i + 1;
    }
    r
}

/// Whether `name` is one of the primitive Rust types.
pub fn chars_are_primitive_name(name: &[char]) -> (r: bool)
    ensures
        r == is_primitive_name(name@),
{
    let names: Vec<Vec<char>> = vec![
        vec!['u', '8'],
        vec!['u', '1', '6'],
        vec!['u', '3', '2'],
        vec!['u', '6', '4'],
        vec!['i', '8'],
        vec!['i', '1', '6'],
        vec!['i', '3', '2'],
        vec!['i', '6', '4'],
        vec!['u', 's', 'i', 'z', 'e'],
        vec!['i', 's', 'i', 'z', 'e'],
        vec!['b', 'o', 'o', 'l'],
        vec!['c', 'h', 'a', 'r'],
        vec!['f', '3', '2'],
        vec!['f', '6', '4'],
    ];
    assert(names@.len() == primitive_names().len());
    assert(forall|j: int| 0 <= j < names@.len() ==> #[trigger] names@[j]@ == primitive_names()[j]);
    let mut i: usize = 0;
    while i < names.len()
        invariant
            i <= names@.len(),
            names@.len() == primitive_names().len(),
            forall|j: int| 0 <= j < names@.len() ==> #[trigger] names@[j]@ == primitive_names()[j],
            forall|j: int| 0 <= j < i ==> primitive_names()[j] != name@,
        decreases names@.len() - i,
    {
        if chars_eq(names[i].as_slice(), name) {
            assert(primitive_names()[i as int] == name@);
            return true;
        }
        i = i + 1;
    }
    assert(!primitive_names().contains(name@));
    false
}

impl BtfRegistry {
    /// The index of the first layout named `name`.
    pub fn lookup(&self, name: &[char]) -> (r: Option<usize>)
        ensures
            match r {
                Some(j) => lookup_layout(*self, name@) == Some(j as int),
                None => lookup_layout(*self, name@) is None,
            },
    {
        proof {
            lemma_lookup_layout_from(*self, name@, 0);
        }
        let mut i: usize = 0;
        while i < self.layouts.len()
            invariant
                i <= self.layouts@.len(),
                forall|j: int| 0 <= j < i ==> self.layouts@[j].name@ != name@,
                match lookup_layout_from(*self, name@, 0) {
                    Some(j) => 0 <= j < self.layouts@.len() && self.layouts@[j].name@ == name@
                        && forall|k: int| 0 <= k < j ==> self.layouts@[k].name@ != name@,
                    None => forall|k: int|
                        0 <= k < self.layouts@.len() ==> self.layouts@[k].name@ != name@,
                },
            decreases self.layouts@.len() - i,
        {
            let n = chars_of(self.layouts[i].name);
            if chars_eq(n.as_slice(), name) {
                return Some(i);
            }
            i = i + 1;
        }
        None
    }
}

/// Finds the first member that stands for `field`.
fn find_member(members: &Vec<BtfMember>, is_union: bool, field: &ValidationField) -> (r: Option<
    usize,
>)
    ensures
        match r {
            Some(k) => find_member_from(members@, is_union, *field, 0) == Some(k as int),
            None => find_member_from(members@, is_union, *field, 0) is None,
        },
{
    proof {
        lemma_find_member_from(members@, is_union, *field, 0);
    }
    let is_anonymous = str_starts_with(field.name, ANONYMOUS_FIELD_PREFIX);
    let field_name = chars_of(field.name);
    let mut i: usize = 0;
    while i < members.len()
        invariant
            i <= members@.len(),
            is_anonymous == has_prefix(field.name@, ANONYMOUS_FIELD_PREFIX@),
            field_name@ == field.name@,
            forall|j: int| 0 <= j < i ==> !member_matches(is_union, *field, members@[j]),
            match find_member_from(members@, is_union, *field, 0) {
                Some(k) => 0 <= k < members@.len() && member_matches(is_union, *field, members@[k])
                    && forall|j: int| 0 <= j < k ==> !member_matches(is_union, *field, members@[j]),
                None => forall|j: int|
                    0 <= j < members@.len() ==> !member_matches(is_union, *field, members@[j]),
            },
        decreases members@.len() - i,
    {
        let member = &members[i];
        let matches = if is_anonymous {
            if is_union {
                member.name.is_none()
            } else {
                member.name.is_none() && (member.bit_offset / 8) as usize == field.offset
            }
        } else {
            match &member.name {
                Some(n) => {
                    let nc = chars_of(n.as_str());
                    chars_eq(nc.as_slice(), field_name.as_slice())
                },
                None => false,
            }
        };
        if matches {
            return Some(i);
        }
        i = i + 1;
    }
    None
}

/// The checks on one field before its nested validation; gives the
/// resolved type of the matching member.
fn check_one_field(m: &BtfModel, is_union: bool, members: &Vec<BtfMember>, field: &ValidationField) -> (r:
    Result<u32, BpfError>)
    requires
        model_wf(*m),
    ensures
        match check_field(*m, is_union, members@, *field) {
            Some(t) => r matches Ok(x) && x as int == t,
            None => r == Err::<u32, BpfError>(BpfError::LibBPFError { error: EINVAL }),
        },
{
    let k = match find_member(members, is_union, field) {
        Some(k) => k,
        None => {
            return Err(BpfError::LibBPFError { error: EINVAL });
        },
    };
    proof {
        lemma_find_member_from(members@, is_union, *field, 0);
    }
    let member = &members[k];
    if !is_union && (member.bit_offset / 8) as usize != field.offset {
        return Err(BpfError::LibBPFError { error: EINVAL });
    }
    if (member.ty as usize) >= m.types.len() {
        return Err(BpfError::LibBPFError { error: EINVAL });
    }
    proof {
        lemma_resolve(*m, member.ty as int);
    }
    let resolved = resolve_btf_type(m, member.ty);
    proof {
        lemma_type_size_nonneg(*m, resolved as int);
        assert(match type_size(*m, resolved as int) {
            Some(s) => s <= usize::MAX,
            None => true,
        });
    }
    let size = match get_btf_type_size(m, resolved) {
        Ok(s) => s,
        Err(e) => {
            return Err(e);
        },
    };
    if size != field.size {
        return Err(BpfError::LibBPFError { error: EINVAL });
    }
    proof {
        assert(members@[k as int] == *member);
        assert(check_field(*m, is_union, members@, *field) == Some(resolved as int));
    }
    Ok(resolved)
}

/// Validates the fields `k..` of layout `e` against the composite type `r`.
fn validate_fields(
    m: &BtfModel,
    reg: &BtfRegistry,
    e: usize,
    r: u32,
    k: usize,
    cache: &mut ValidatedTypes,
) -> (res: Result<(), BpfError>)
    requires
        model_wf(*m),
        registry_wf(*reg),
        e < reg.layouts@.len(),
        valid_id(*m, r as int),
        k <= reg.layouts@[e as int].fields@.len(),
    ensures
        ({
            let s = spec_validate_fields(*m, *reg, e as int, r as int, k as int, old(cache).view());
            &&& final(cache).view() == s.1
            &&& s.0 ==> res == Ok::<(), BpfError>(())
            &&& !s.0 ==> res == Err::<(), BpfError>(BpfError::LibBPFError { error: EINVAL })
        }),
    decreases layout_measure(*reg, e as int), 1int, reg.layouts@[e as int].fields@.len() - k,
{
    let layout = &reg.layouts[e];
    if k >= layout.fields.len() {
        return Ok(());
    }
    let field = &layout.fields[k];
    let members = match &m.types[r as usize] {
        BtfTypeInfo::Struct { members, .. } => members,
        BtfTypeInfo::Union { members, .. } => members,
        _ => {
            proof {
                assert(members_of(m.types@[r as int]) =~= Seq::<BtfMember>::empty());
                assert(find_member_from(members_of(m.types@[r as int]), layout.is_union, *field, 0) is None);
            }
            return Err(BpfError::LibBPFError { error: EINVAL });
        },
    };
    assert(members@ == members_of(m.types@[r as int]));
    let rt = match check_one_field(m, layout.is_union, members, field) {
        Ok(rt) => rt,
        Err(e) => {
            return Err(e);
        },
    };
    proof {
        assert(registry_ranked(*reg, registry_rank(*reg)));
        assert(match nested_layout(*reg, reg.layouts@[e as int].fields@[k as int]) {
            Some(j) => registry_rank(*reg)(j) < registry_rank(*reg)(e as int),
            None => true,
        });
        lemma_check_field_valid(*m, layout.is_union, members@, *field);
    }
    proof {
        assert(check_field(*m, layout.is_union, members_of(m.types@[r as int]), *field) == Some(rt as int));
        assert(reg.layouts@[e as int].fields@[k as int] == *field);
    }
    match validate_complex_type_by_name(m, reg, rt, field.rust_type, cache) {
        Ok(()) => {},
        Err(e) => {
            return Err(e);
        },
    }
    validate_fields(m, reg, e, r, k + 1, cache)
}

/// Validates this composite type against BTF: the BTF type `t` must resolve
/// to a struct (union, for a union layout) of the layout's size, and each of
/// the layout's fields must have a matching member of the same offset
/// (structs) and size, whose type validates in turn.
pub fn validate_btf_layout_from_type(
    m: &BtfModel,
    reg: &BtfRegistry,
    e: usize,
    t: u32,
    cache: &mut ValidatedTypes,
) -> (res: Result<(), BpfError>)
    requires
        model_wf(*m),
        registry_wf(*reg),
        e < reg.layouts@.len(),
        valid_id(*m, t as int),
    ensures
        ({
            let s = spec_validate_layout(*m, *reg, e as int, t as int, old(cache).view());
            &&& final(cache).view() == s.1
            &&& s.0 ==> res == Ok::<(), BpfError>(())
            &&& !s.0 ==> res == Err::<(), BpfError>(BpfError::LibBPFError { error: EINVAL })
        }),
    decreases layout_measure(*reg, e as int), 2int, 0int,
{
    proof {
        lemma_resolve(*m, t as int);
    }
    let r = resolve_btf_type(m, t);
    let layout = &reg.layouts[e];
    let size_ok = match &m.types[r as usize] {
        BtfTypeInfo::Struct { size, .. } => !layout.is_union && *size == layout.size,
        BtfTypeInfo::Union { size, .. } => layout.is_union && *size == layout.size,
        _ => false,
    };
    if !size_ok {
        return Err(BpfError::LibBPFError { error: EINVAL });
    }
    validate_fields(m, reg, e, r, 0, cache)
}

/// Validates a complex type by name, recursively validating nested types.
///
/// Names already in `cache` pass at once.  Otherwise array syntax is
/// stripped from `rust_type`; for an array type the element type is
/// validated; primitive and unregistered names need no validation; a
/// registered layout is validated against the type.  On success the name
/// is recorded in `cache`.
pub fn validate_complex_type_by_name(
    m: &BtfModel,
    reg: &BtfRegistry,
    t: u32,
    rust_type: &str,
    cache: &mut ValidatedTypes,
) -> (res: Result<(), BpfError>)
    requires
        model_wf(*m),
        registry_wf(*reg),
        valid_id(*m, t as int),
    ensures
        ({
            let s = spec_validate_rust_type(*m, *reg, t as int, rust_type@, old(cache).view());
            &&& final(cache).view() == s.1
            &&& s.0 ==> res == Ok::<(), BpfError>(())
            &&& !s.0 ==> res == Err::<(), BpfError>(BpfError::LibBPFError { error: EINVAL })
        }),
    decreases name_measure(*reg, rust_type@), 3int, 0int,
{
    if cache.contains(rust_type) {
        return Ok(());
    }
    let base = base_type_chars(rust_type);
    proof {
        lemma_resolve(*m, t as int);
    }
    let resolved = resolve_btf_type(m, t);
    let validation_type = match &m.types[resolved as usize] {
        BtfTypeInfo::Array { elem, .. } => {
            if (*elem as usize) < m.types.len() {
                *elem
            } else {
                return Err(BpfError::LibBPFError { error: EINVAL });
            }
        },
        _ => resolved,
    };
    if !chars_are_primitive_name(base.as_slice()) {
        match reg.lookup(base.as_slice()) {
            Some(j) => {
                proof {
                    lemma_lookup_layout_from(*reg, base@, 0);
                }
                match validate_btf_layout_from_type(m, reg, j, validation_type, cache) {
                    Ok(()) => {},
                    Err(e) => {
                        return Err(e);
                    },
                }
            },
            None => {},
        }
    }
    cache.insert(rust_type);
    Ok(())
}

} // verus!
