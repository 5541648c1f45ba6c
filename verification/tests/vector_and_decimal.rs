//! Tests of the vector specialization's index-keyed access and
//! enumeration, and of the decimal index keys it builds on.

use avm2_objects::avm::Avm;
use avm2_objects::class::ClassDecl;
use avm2_objects::decimal::{format_index, parse_index};
use avm2_objects::names::Multiname;
use avm2_objects::object::{AllocKind, VectorStorage};
use avm2_objects::value::{Error, ReturnValue, Value};
use avm2_objects::vector::VectorObject;

fn num(x: f64) -> Value {
    Value::Number(x.to_bits())
}

fn dyn_mn(name: &str) -> Multiname {
    Multiname::dynamic_name(String::from(name))
}

fn expect_value(r: Result<ReturnValue, Error>) -> Value {
    match r {
        Ok(ReturnValue::Immediate(v)) => v,
        _ => panic!("expected an immediate value"),
    }
}

/// An arena with an element class whose default value is the number 0,
/// the generic vector class, and a vector of three elements.
fn vector_fixture() -> (Avm, usize, usize) {
    let mut avm = Avm::new();
    let elem = avm.define_class(ClassDecl {
        name: String::from("Elem"),
        sealed: true,
        superclass: None,
        instance_traits: Vec::new(),
        class_traits: Vec::new(),
        instance_scope: 0,
        class_scope: 0,
        interfaces: Vec::new(),
        generic: false,
        allocator: AllocKind::Script,
        default_value: num(0.0),
    });
    let generic = avm.define_class(ClassDecl {
        name: String::from("Vector"),
        sealed: false,
        superclass: None,
        instance_traits: Vec::new(),
        class_traits: Vec::new(),
        instance_scope: 0,
        class_scope: 0,
        interfaces: Vec::new(),
        generic: true,
        allocator: AllocKind::Vector,
        default_value: Value::Null,
    });
    avm.vector_class = Some(generic);
    let mut storage = VectorStorage::new(false, elem);
    for i in 0..3 {
        storage.storage.push(num(i as f64));
    }
    let v = VectorObject::from_vector(&mut avm, storage).unwrap().0;
    (avm, v, elem)
}

#[test]
fn vector_reads_are_bounds_forgiving() {
    let (mut avm, v, _) = vector_fixture();
    // Out of range reads Undefined, never an error.
    assert!(matches!(
        expect_value(avm.get_property(v, v, &dyn_mn("5"))),
        Value::Undefined
    ));
    // In range reads the element.
    assert!(matches!(
        expect_value(avm.get_property(v, v, &dyn_mn("2"))),
        Value::Number(b) if b == 2.0f64.to_bits()
    ));
}

#[test]
fn vector_writes_store_coerced_values() {
    let (mut avm, v, _) = vector_fixture();
    let x = num(7.5);
    avm.set_property(v, v, &dyn_mn("1"), x).unwrap();
    assert!(matches!(
        expect_value(avm.get_property(v, v, &dyn_mn("1"))),
        Value::Number(b) if b == 7.5f64.to_bits()
    ));
    // Undefined and Null both collapse to the element type's default.
    avm.set_property(v, v, &dyn_mn("1"), Value::Undefined).unwrap();
    assert!(matches!(
        expect_value(avm.get_property(v, v, &dyn_mn("1"))),
        Value::Number(b) if b == 0.0f64.to_bits()
    ));
    avm.set_property(v, v, &dyn_mn("2"), Value::Null).unwrap();
    assert!(matches!(
        expect_value(avm.get_property(v, v, &dyn_mn("2"))),
        Value::Number(b) if b == 0.0f64.to_bits()
    ));
}

#[test]
fn vector_grows_by_one_and_rejects_gaps() {
    let (mut avm, v, _) = vector_fixture();
    // Writing one past the end grows a non-fixed vector.
    avm.set_property(v, v, &dyn_mn("3"), num(3.0)).unwrap();
    assert!(matches!(
        expect_value(avm.get_property(v, v, &dyn_mn("3"))),
        Value::Number(b) if b == 3.0f64.to_bits()
    ));
    // Leaving a gap is rejected.
    assert!(matches!(
        avm.set_property(v, v, &dyn_mn("9"), num(9.0)),
        Err(Error::RangeError { index: 9 })
    ));
}

#[test]
fn vector_owns_exactly_its_index_space() {
    let (mut avm, v, _) = vector_fixture();
    assert!(avm.has_own_property(v, &avm2_objects::names::QName::dynamic_name(String::from("0"))));
    assert!(!avm.has_own_property(v, &avm2_objects::names::QName::dynamic_name(String::from("3"))));
    // Deleting an element index reports success without storing anything.
    assert_eq!(avm.delete_property(v, &dyn_mn("1")).unwrap(), true);
    assert!(matches!(
        expect_value(avm.get_property(v, v, &dyn_mn("1"))),
        Value::Number(b) if b == 1.0f64.to_bits()
    ));
}

#[test]
fn vector_enumerates_its_current_length() {
    let (avm, v, _) = vector_fixture();
    let mut idx = 0u32;
    let mut seen = Vec::new();
    while let Some(next) = avm.get_next_enumerant(v, idx) {
        seen.push(next);
        idx = next;
        assert!(seen.len() <= 3, "enumeration failed to terminate");
    }
    assert_eq!(seen, vec![1, 2, 3]);
    // Names are the decimal element indices.
    for i in seen {
        match avm.get_enumerant_name(v, i) {
            Value::String(s) => assert_eq!(s, format!("{}", i - 1)),
            _ => panic!("expected a digit-string name"),
        }
    }
    assert!(matches!(avm.get_enumerant_name(v, 0), Value::Undefined));
    match avm.get_enumerant_name(v, 9) {
        Value::String(s) => assert_eq!(s, ""),
        _ => panic!("expected the empty string"),
    }
}

#[test]
fn vector_enumerant_values_reenter_the_get_path() {
    let (mut avm, v, _) = vector_fixture();
    match avm.get_enumerant_value(v, 2).unwrap() {
        ReturnValue::Immediate(Value::Number(b)) => assert_eq!(b, 1.0f64.to_bits()),
        _ => panic!("expected the element value"),
    }
}

#[test]
fn from_vector_shares_the_applied_class() {
    let (mut avm, v, elem) = vector_fixture();
    let second = VectorObject::from_vector(&mut avm, VectorStorage::new(false, elem))
        .unwrap()
        .0;
    assert_eq!(avm.instance_of(v), avm.instance_of(second));
    // The vector coerces to itself under the string hook.
    assert!(matches!(avm.to_string(v), Value::Object(o) if o == v));
}

#[test]
fn parse_index_accepts_exactly_digit_strings() {
    assert_eq!(parse_index("0"), Some(0));
    assert_eq!(parse_index("42"), Some(42));
    assert_eq!(parse_index("007"), Some(7));
    assert_eq!(parse_index(""), None);
    assert_eq!(parse_index("x1"), None);
    assert_eq!(parse_index("1x"), None);
    assert_eq!(parse_index("-1"), None);
    assert_eq!(parse_index("1.5"), None);
    // A value past the machine limit is not an index.
    assert_eq!(parse_index("99999999999999999999999999"), None);
    assert_eq!(parse_index(&format!("{}", usize::MAX)), Some(usize::MAX));
}

#[test]
fn format_index_round_trips() {
    for n in [0usize, 1, 9, 10, 99, 100, 12345, usize::MAX] {
        let s = format_index(n);
        assert_eq!(parse_index(&s), Some(n));
    }
    assert_eq!(format_index(0), "0");
    assert_eq!(format_index(907), "907");
}
