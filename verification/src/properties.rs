//! udev properties: parsing `NAME=VALUE` pairs, selecting the `HID_BPF_*`
//! entries of a device, and merging command line properties over the
//! device's own.
use vstd::prelude::*;
use vstd::string::*;
use crate::text::{
    chars_of, string_from_chars, find_char, first_index_of, lemma_first_index_of,
    chars_have_whitespace, has_whitespace, str_eq, str_starts_with, has_prefix,
};

verus! {

/// A udev property: a name and its value.
#[derive(Debug, Clone)]
pub struct HidUdevProperty {
    pub name: String,
    pub value: String,
}

/// The message of a malformed `NAME=VALUE` pair.
pub const INVALID_PROPERTY_FORMAT: &'static str = "Invalid property format";

/// The prefix of the udev properties that name BPF objects.
pub const HID_BPF_PROPERTY_PREFIX: &'static str = "HID_BPF_";

/// The property that `s` stands for: the text before the first `=` is the
/// name, the text after it the value; there is none if `s` has no `=` or
/// the name holds white space.
pub open spec fn parse_property(s: Seq<char>) -> Option<(Seq<char>, Seq<char>)> {
    match first_index_of(s, '=') {
        Some(i) => if has_whitespace(s.take(i)) {
            None
        } else {
            Some((s.take(i), s.skip(i + 1)))
        },
        None => None,
    }
}

impl HidUdevProperty {
    /// Parses a `NAME=VALUE` pair.  The name ends at the first `=`, so the
    /// value may contain further `=`; a name with white space, or a text
    /// without `=`, is refused with "Invalid property format".
    pub fn try_from(s: &str) -> (r: Result<Self, String>)
        ensures
            match parse_property(s@) {
                Some((name, value)) => r matches Ok(p) && p.name@ == name && p.value@ == value,
                None => r matches Err(e) && e@ == INVALID_PROPERTY_FORMAT@,
            },
    {
        let v = chars_of(s);
        match find_char(v.as_slice(), '=') {
            Some(i) => {
                proof {
                    lemma_first_index_of(v@, '=');
                }
                let name = string_from_chars(v.as_slice(), 0, i);
                let name_chars = chars_of(name.as_str());
                if chars_have_whitespace(name_chars.as_slice()) {
                    Err(String::from_str(INVALID_PROPERTY_FORMAT))
                } else {
                    assert(i < v.len());
                let value = string_from_chars(v.as_slice(), i + 1, v.len());
                    proof {
                        assert(v@.subrange(0, i as int) == v@.take(i as int));
                        assert(v@.subrange(i + 1, v@.len() as int) == v@.skip(i + 1));
                    }
                    Ok(HidUdevProperty { name, value })
                }
            },
            None => Err(String::from_str(INVALID_PROPERTY_FORMAT)),
        }
    }

    /// A copy of a property.
    pub fn from(p: &HidUdevProperty) -> (r: HidUdevProperty)
        ensures
            r.name@ == p.name@,
            r.value@ == p.value@,
    {
        HidUdevProperty { name: p.name.clone(), value: p.value.clone() }
    }
}

/// The value of the first property named `name`, if any.
pub open spec fn find_property(props: Seq<HidUdevProperty>, name: Seq<char>) -> Option<Seq<char>>
    decreases props.len(),
{
    if props.len() == 0 {
        None
    } else if props[0].name@ == name {
        Some(props[0].value@)
    } else {
        find_property(props.drop_first(), name)
    }
}

/// Whether some property in `props` is named `name`.
pub open spec fn has_property(props: Seq<HidUdevProperty>, name: Seq<char>) -> bool {
    exists|i: int| 0 <= i < props.len() && #[trigger] props[i].name@ == name
}

/// The device properties that no extra property overrides, in order.
pub open spec fn not_overridden(device: Seq<HidUdevProperty>, extra: Seq<HidUdevProperty>) -> Seq<
    HidUdevProperty,
>
    decreases device.len(),
{
    if device.len() == 0 {
        Seq::empty()
    } else if has_property(extra, device.last().name@) {
        not_overridden(device.drop_last(), extra)
    } else {
        not_overridden(device.drop_last(), extra).push(device.last())
    }
}

/// The device properties that no extra property overrides, followed by
/// the extra properties.
pub open spec fn merged_properties(
    device: Seq<HidUdevProperty>,
    extra: Seq<HidUdevProperty>,
) -> Seq<HidUdevProperty> {
    not_overridden(device, extra) + extra
}

/// Whether `name` is one of the names in `props`.
pub fn property_named(props: &Vec<HidUdevProperty>, name: &str) -> (r: bool)
    ensures
        r == has_property(props@, name@),
{
    let mut i: usize = 0;
    while i < props.len()
        invariant
            i <= props@.len(),
            forall|j: int| 0 <= j < i ==> props@[j].name@ != name@,
        decreases props@.len() - i,
    {
        if str_eq(props[i].name.as_str(), name) {
            return true;
        }
        i = i + 1;
    }
    false
}

/// The properties handed to a BPF program: the device's udev properties
/// without those that an extra property of the same name overrides,
/// followed by the extra properties.
pub fn merge_udev_properties(device: &Vec<HidUdevProperty>, extra: &Vec<HidUdevProperty>) -> (r: Vec<
    HidUdevProperty,
>)
    ensures
        r@.len() == merged_properties(device@, extra@).len(),
        forall|i: int|
            0 <= i < r@.len() ==> (#[trigger] r@[i]).name@ == merged_properties(device@, extra@)[i].name@
                && r@[i].value@ == merged_properties(device@, extra@)[i].value@,
{
    let mut out: Vec<HidUdevProperty> = Vec::new();
    let mut i: usize = 0;
    while i < device.len()
        invariant
            i <= device@.len(),
            out@.len() == not_overridden(device@.take(i as int), extra@).len(),
            forall|k: int|
                0 <= k < out@.len() ==> (#[trigger] out@[k]).name@ == not_overridden(
                    device@.take(i as int),
                    extra@,
                )[k].name@ && out@[k].value@ == not_overridden(device@.take(i as int), extra@)[k].value@,
        decreases device@.len() - i,
    {
        proof {
            assert(device@.take(i + 1).drop_last() =~= device@.take(i as int));
            assert(device@.take(i + 1).last() == device@[i as int]);
        }
        if !property_named(extra, device[i].name.as_str()) {
            out.push(HidUdevProperty::from(&device[i]));
        }
        i = i + 1;
    }
    assert(device@.take(device@.len() as int) =~= device@);
    let ghost kept = out@.len();
    let mut j: usize = 0;
    while j < extra.len()
        invariant
            j <= extra@.len(),
            kept == not_overridden(device@, extra@).len(),
            out@.len() == kept + j,
            forall|k: int|
                0 <= k < kept ==> (#[trigger] out@[k]).name@ == not_overridden(device@, extra@)[k].name@
                    && out@[k].value@ == not_overridden(device@, extra@)[k].value@,
            forall|k: int|
                kept <= k < out@.len() ==> (#[trigger] out@[k]).name@ == extra@[k - kept].name@
                    && out@[k].value@ == extra@[k - kept].value@,
        decreases extra@.len() - j,
    {
        out.push(HidUdevProperty::from(&extra[j]));
        j = j + 1;
    }
    out
}

/// Looking a name up in two lists one after the other finds it in the
/// first list if it is there.
proof fn lemma_find_property_concat(a: Seq<HidUdevProperty>, b: Seq<HidUdevProperty>, name: Seq<char>)
    ensures
        find_property(a + b, name) == if has_property(a, name) {
            find_property(a, name)
        } else {
            find_property(b, name)
        },
    decreases a.len(),
{
    if a.len() == 0 {
        assert(a + b =~= b);
    } else {
        assert((a + b).drop_first() =~= a.drop_first() + b);
        lemma_find_property_concat(a.drop_first(), b, name);
        lemma_has_property_drop_first(a, name);
    }
}

/// A name is in a non-empty list iff it is the first one's or in the rest.
proof fn lemma_has_property_drop_first(a: Seq<HidUdevProperty>, name: Seq<char>)
    requires
        a.len() > 0,
    ensures
        has_property(a, name) == (a[0].name@ == name || has_property(a.drop_first(), name)),
{
    if has_property(a.drop_first(), name) {
        let i = choose|i: int| 0 <= i < a.drop_first().len() && #[trigger] a.drop_first()[i].name@ == name;
        assert(a[i + 1].name@ == name);
    }
    if has_property(a, name) && a[0].name@ != name {
        let i = choose|i: int| 0 <= i < a.len() && #[trigger] a[i].name@ == name;
        assert(a.drop_first()[i - 1].name@ == name);
    }
}

/// `find_property` gives nothing exactly when the name is absent.
proof fn lemma_find_property_absent(props: Seq<HidUdevProperty>, name: Seq<char>)
    ensures
        (find_property(props, name) is None) == !has_property(props, name),
    decreases props.len(),
{
    if props.len() > 0 {
        lemma_find_property_absent(props.drop_first(), name);
        lemma_has_property_drop_first(props, name);
    }
}

/// A list is its front followed by its last element.
proof fn lemma_split_last(s: Seq<HidUdevProperty>)
    requires
        s.len() > 0,
    ensures
        s =~= s.drop_last() + seq![s.last()],
{
}

/// Without overriding names, the kept device properties find what the
/// device properties find; with them, they hold none of the overridden
/// names.
proof fn lemma_not_overridden(device: Seq<HidUdevProperty>, extra: Seq<HidUdevProperty>, name: Seq<char>)
    ensures
        has_property(extra, name) ==> !has_property(not_overridden(device, extra), name),
        !has_property(extra, name) ==> has_property(not_overridden(device, extra), name) == has_property(
            device,
            name,
        ) && find_property(not_overridden(device, extra), name) == find_property(device, name),
    decreases device.len(),
{
    if device.len() == 0 {
        assert(!has_property(Seq::<HidUdevProperty>::empty(), name));
    } else {
        let front = device.drop_last();
        let last = device.last();
        lemma_not_overridden(front, extra, name);
        let kept_front = not_overridden(front, extra);
        lemma_split_last(device);
        lemma_find_property_concat(front, seq![last], name);
        lemma_has_concat(front, seq![last], name);
        lemma_has_property_drop_first(seq![last], name);
        assert(seq![last].drop_first() =~= Seq::<HidUdevProperty>::empty());
        assert(find_property(Seq::<HidUdevProperty>::empty(), name) is None);
        assert(!has_property(Seq::<HidUdevProperty>::empty(), name));
        assert(find_property(seq![last], name) == if last.name@ == name {
            Some(last.value@)
        } else {
            None::<Seq<char>>
        });
        lemma_find_property_absent(front, name);
        lemma_find_property_absent(kept_front, name);
        if has_property(extra, last.name@) {
            assert(not_overridden(device, extra) == kept_front);
            if !has_property(extra, name) {
                assert(last.name@ != name);
            }
        } else {
            assert(not_overridden(device, extra) =~= kept_front + seq![last]);
            lemma_find_property_concat(kept_front, seq![last], name);
            lemma_has_concat(kept_front, seq![last], name);
        }
    }
}

/// A name is in two lists one after the other iff it is in one of them.
proof fn lemma_has_concat(a: Seq<HidUdevProperty>, b: Seq<HidUdevProperty>, name: Seq<char>)
    ensures
        has_property(a + b, name) == (has_property(a, name) || has_property(b, name)),
{
    if has_property(a + b, name) {
        let i = choose|i: int| 0 <= i < (a + b).len() && #[trigger] (a + b)[i].name@ == name;
        if i < a.len() {
            assert(a[i].name@ == name);
        } else {
            assert(b[i - a.len()].name@ == name);
        }
    }
    if has_property(a, name) {
        let i = choose|i: int| 0 <= i < a.len() && #[trigger] a[i].name@ == name;
        assert((a + b)[i].name@ == name);
    }
    if has_property(b, name) {
        let i = choose|i: int| 0 <= i < b.len() && #[trigger] b[i].name@ == name;
        assert((a + b)[a.len() + i].name@ == name);
    }
}

/// Looking a name up in the merged properties gives the first extra
/// property of that name if there is one, and otherwise the device's own
/// first property of that name: extra properties take precedence over
/// udev properties of the same name.
pub proof fn lemma_merged_property_precedence(
    device: Seq<HidUdevProperty>,
    extra: Seq<HidUdevProperty>,
    name: Seq<char>,
)
    ensures
        find_property(merged_properties(device, extra), name) == if has_property(extra, name) {
            find_property(extra, name)
        } else {
            find_property(device, name)
        },
{
    lemma_find_property_concat(not_overridden(device, extra), extra, name);
    lemma_not_overridden(device, extra, name);
    lemma_find_property_absent(device, name);
    lemma_find_property_absent(extra, name);
}

/// The values of the properties whose names start with `HID_BPF_`, in order.
pub open spec fn hid_bpf_values(props: Seq<HidUdevProperty>) -> Seq<Seq<char>>
    decreases props.len(),
{
    if props.len() == 0 {
        Seq::empty()
    } else if has_prefix(props.last().name@, HID_BPF_PROPERTY_PREFIX@) {
        hid_bpf_values(props.drop_last()).push(props.last().value@)
    } else {
        hid_bpf_values(props.drop_last())
    }
}

/// The values of a device's `HID_BPF_*` udev properties: the names or
/// paths of the BPF objects that udev assigned to the device.
pub fn hid_bpf_properties(props: &Vec<HidUdevProperty>) -> (r: Vec<String>)
    ensures
        r@.len() == hid_bpf_values(props@).len(),
        forall|i: int| 0 <= i < r@.len() ==> (#[trigger] r@[i])@ == hid_bpf_values(props@)[i],
{
    let mut out: Vec<String> = Vec::new();
    let mut i: usize = 0;
    while i < props.len()
        invariant
            i <= props@.len(),
            out@.len() == hid_bpf_values(props@.take(i as int)).len(),
            forall|k: int|
                0 <= k < out@.len() ==> (#[trigger] out@[k])@ == hid_bpf_values(props@.take(i as int))[k],
        decreases props@.len() - i,
    {
        assert(props@.take(i + 1).drop_last() =~= props@.take(i as int));
        if str_starts_with(props[i].name.as_str(), HID_BPF_PROPERTY_PREFIX) {
            out.push(props[i].value.clone());
        }
        i = i + 1;
    }
    assert(props@.take(props@.len() as int) =~= props@);
    out
}

} // verus!
