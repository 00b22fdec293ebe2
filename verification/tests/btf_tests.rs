use udev_hid_bpf::btf::{
    get_btf_type_size, resolve_btf_type, validate_btf_layout_from_type, validate_complex_type_by_name,
    BtfLayout, BtfMember, BtfModel, BtfRegistry, BtfTypeInfo, ValidatedTypes, ValidationField,
};
use udev_hid_bpf::errors::{BpfError, EINVAL};

fn member(name: &str, ty: u32, bit_offset: u32) -> BtfMember {
    BtfMember { name: Some(name.to_string()), ty, bit_offset }
}

/// void, u32, struct Pair { u32 a; u32 b; }, typedef Pair, Pair[4]
fn model() -> BtfModel {
    BtfModel {
        types: vec![
            BtfTypeInfo::Other,
            BtfTypeInfo::Int { size: 4 },
            BtfTypeInfo::Struct { size: 8, members: vec![member("a", 1, 0), member("b", 1, 32)] },
            BtfTypeInfo::Reference { target: 2 },
            BtfTypeInfo::Array { elem: 3, capacity: 4 },
        ],
    }
}

fn registry(size: usize, b_offset: usize) -> BtfRegistry {
    BtfRegistry {
        layouts: vec![BtfLayout {
            name: "Pair",
            is_union: false,
            size,
            fields: vec![
                ValidationField::new("a", 0, 4, "u32"),
                ValidationField::new("b", b_offset, 4, "u32"),
            ],
        }],
    }
}

#[test]
fn types_resolve_and_have_sizes() {
    let m = model();
    assert_eq!(resolve_btf_type(&m, 3), 2);
    assert_eq!(resolve_btf_type(&m, 1), 1);
    assert_eq!(get_btf_type_size(&m, 2), Ok(8));
    assert!(get_btf_type_size(&m, 3).is_err());
    assert_eq!(get_btf_type_size(&m, 4), Ok(32));
    assert!(get_btf_type_size(&m, 0).is_err());
}

#[test]
fn layouts_validate_against_btf() {
    let m = model();
    let mut cache = ValidatedTypes::new();
    assert_eq!(validate_btf_layout_from_type(&m, &registry(8, 4), 0, 3, &mut cache), Ok(()));
    assert_eq!(
        validate_btf_layout_from_type(&m, &registry(12, 4), 0, 3, &mut cache),
        Err(BpfError::LibBPFError { error: EINVAL })
    );
    assert_eq!(
        validate_btf_layout_from_type(&m, &registry(8, 2), 0, 3, &mut cache),
        Err(BpfError::LibBPFError { error: EINVAL })
    );
}

#[test]
fn named_types_are_validated_once() {
    let m = model();
    let reg = registry(8, 4);
    let mut cache = ValidatedTypes::new();
    assert!(!cache.contains("Pair"));
    assert_eq!(validate_complex_type_by_name(&m, &reg, 3, "Pair", &mut cache), Ok(()));
    assert!(cache.contains("Pair"));
    assert_eq!(validate_complex_type_by_name(&m, &reg, 4, "[Pair; 4]", &mut cache), Ok(()));
    assert!(cache.contains("[Pair; 4]"));
    let bad = registry(12, 4);
    let mut fresh = ValidatedTypes::new();
    assert_eq!(
        validate_complex_type_by_name(&m, &bad, 3, "Pair", &mut fresh),
        Err(BpfError::LibBPFError { error: EINVAL })
    );
    assert!(!fresh.contains("Pair"));
    assert_eq!(validate_complex_type_by_name(&m, &bad, 1, "u32", &mut fresh), Ok(()));
}

#[test]
fn validation_only_adds_validated_names() {
    let m = model();
    let mut cache = ValidatedTypes::new();
    cache.insert("Earlier");
    cache.insert("Earlier");
    assert_eq!(validate_btf_layout_from_type(&m, &registry(8, 4), 0, 3, &mut cache), Ok(()));
    assert!(cache.contains("Earlier"));
    assert!(cache.contains("u32"));
    assert_eq!(
        validate_btf_layout_from_type(&m, &registry(8, 2), 0, 3, &mut cache),
        Err(BpfError::LibBPFError { error: EINVAL })
    );
    assert!(cache.contains("Earlier"));
    assert!(cache.contains("u32"));
}
