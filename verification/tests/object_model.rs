//! Behavioural tests of the dispatch core: dynamic and sealed classes,
//! lazy method binding, trait installation, enumeration, construction
//! and generic application.

use avm2_objects::avm::Avm;
use avm2_objects::class::ClassDecl;
use avm2_objects::names::{Multiname, Namespace, QName};
use avm2_objects::object::{AllocKind, MethodInfo, TraitDecl, TraitKind};
use avm2_objects::value::{Error, ReturnValue, Value};

fn num(x: f64) -> Value {
    Value::Number(x.to_bits())
}

fn dyn_mn(name: &str) -> Multiname {
    Multiname::dynamic_name(String::from(name))
}

fn pub_qname(name: &str) -> QName {
    QName::dynamic_name(String::from(name))
}

fn plain_class(avm: &mut Avm, name: &str, sealed: bool, instance_traits: Vec<TraitDecl>) -> usize {
    avm.define_class(ClassDecl {
        name: String::from(name),
        sealed,
        superclass: None,
        instance_traits,
        class_traits: Vec::new(),
        instance_scope: 0,
        class_scope: 0,
        interfaces: Vec::new(),
        generic: false,
        allocator: AllocKind::Script,
        default_value: Value::Null,
    })
}

fn expect_value(r: Result<ReturnValue, Error>) -> Value {
    match r {
        Ok(ReturnValue::Immediate(v)) => v,
        other => panic!("expected an immediate value, got {:?}", discriminant_name(&other)),
    }
}

fn discriminant_name(r: &Result<ReturnValue, Error>) -> &'static str {
    match r {
        Ok(ReturnValue::Immediate(_)) => "immediate",
        Ok(ReturnValue::Deferred { .. }) => "deferred",
        Err(_) => "error",
    }
}

#[test]
fn dynamic_write_read_round_trip() {
    let mut avm = Avm::new();
    let obj = avm.alloc_script_object(None, None);
    let mn = dyn_mn("foo");
    avm.set_property(obj, obj, &mn, num(7.0)).unwrap();
    let got = expect_value(avm.get_property(obj, obj, &mn));
    assert!(matches!(got, Value::Number(b) if b == 7.0f64.to_bits()));
    // The name resolved to the public namespace.
    let resolved = avm.resolve_multiname(obj, &mn).unwrap();
    assert!(resolved.namespace().is_public());
    assert_eq!(resolved.local_name().as_str(), "foo");
}

#[test]
fn sealed_class_rejects_undeclared_names() {
    let mut avm = Avm::new();
    let class = plain_class(&mut avm, "Sealed", true, Vec::new());
    let inst = avm.construct(class).unwrap();
    let mn = dyn_mn("nope");
    match avm.get_property(inst, inst, &mn) {
        Err(Error::UndefinedPropertyRead { name }) => {
            assert_eq!(name.as_deref(), Some("nope"));
        }
        other => panic!("expected UndefinedPropertyRead, got {:?}", discriminant_name(&other)),
    }
    match avm.set_property(inst, inst, &mn, num(1.0)) {
        Err(Error::UndefinedPropertyWrite { name }) => {
            assert_eq!(name.as_deref(), Some("nope"));
        }
        _ => panic!("expected UndefinedPropertyWrite"),
    }
}

#[test]
fn dynamic_class_accepts_new_public_names() {
    let mut avm = Avm::new();
    let class = plain_class(&mut avm, "Open", false, Vec::new());
    let inst = avm.construct(class).unwrap();
    let mn = dyn_mn("later");
    avm.set_property(inst, inst, &mn, Value::Bool(true)).unwrap();
    assert!(matches!(expect_value(avm.get_property(inst, inst, &mn)), Value::Bool(true)));
}

fn class_with_method(avm: &mut Avm, sealed: bool) -> (usize, u32) {
    let method = avm.register_method(MethodInfo { needs_arguments_object: false });
    let traits = vec![TraitDecl {
        name: pub_qname("m"),
        kind: TraitKind::Method { disp_id: 1, method },
    }];
    (plain_class(avm, "C", sealed, traits), method)
}

#[test]
fn method_names_are_read_only_before_and_after_materialization() {
    let mut avm = Avm::new();
    let (class, _) = class_with_method(&mut avm, true);
    let inst = avm.construct(class).unwrap();
    let mn = dyn_mn("m");
    // Before any read: the unmaterialized method resists writes.
    match avm.set_property(inst, inst, &mn, num(1.0)) {
        Err(Error::ReadOnlyOverwrite { local }) => assert_eq!(local, "m"),
        _ => panic!("expected ReadOnlyOverwrite before materialization"),
    }
    // Materialize by reading, then try again.
    let first = expect_value(avm.get_property(inst, inst, &mn));
    assert!(matches!(first, Value::Object(_)));
    match avm.set_property(inst, inst, &mn, num(1.0)) {
        Err(Error::ReadOnlyOverwrite { local }) => assert_eq!(local, "m"),
        _ => panic!("expected ReadOnlyOverwrite after materialization"),
    }
    // Init and delete respect the same guard.
    assert!(matches!(
        avm.init_property(inst, inst, &mn, num(1.0)),
        Err(Error::ReadOnlyOverwrite { .. })
    ));
    assert_eq!(avm.delete_property(inst, &mn).unwrap(), false);
}

#[test]
fn lazy_bind_returns_same_callable_both_times() {
    let mut avm = Avm::new();
    let (class, _) = class_with_method(&mut avm, true);
    let inst = avm.construct(class).unwrap();
    let mn = dyn_mn("m");
    let first = expect_value(avm.get_property(inst, inst, &mn));
    let second = expect_value(avm.get_property(inst, inst, &mn));
    match (first, second) {
        (Value::Object(a), Value::Object(b)) => assert_eq!(a, b),
        _ => panic!("expected bound callables"),
    }
}

#[test]
fn call_method_materializes_and_caches_by_id() {
    let mut avm = Avm::new();
    let (class, _) = class_with_method(&mut avm, true);
    let inst = avm.construct(class).unwrap();
    let a = avm.call_method(inst, 1).unwrap();
    let b = avm.call_method(inst, 1).unwrap();
    assert_eq!(a, b);
    match avm.call_method(inst, 99) {
        Err(Error::UnknownMethodId { id }) => assert_eq!(id, 99),
        _ => panic!("expected UnknownMethodId"),
    }
}

#[test]
fn call_property_dispatches_declared_method_directly() {
    let mut avm = Avm::new();
    let (class, method) = class_with_method(&mut avm, true);
    let inst = avm.construct(class).unwrap();
    match avm.call_property(inst, &dyn_mn("m")).unwrap() {
        avm2_objects::calls::CallResolution::Direct { method: m, receiver, superclass, .. } => {
            assert_eq!(m, method);
            assert_eq!(receiver, inst);
            assert_eq!(superclass, class);
        }
        _ => panic!("expected direct dispatch"),
    }
    // A plain non-callable value is rejected.
    let obj = avm.alloc_script_object(None, None);
    let mn = dyn_mn("x");
    avm.set_property(obj, obj, &mn, num(3.0)).unwrap();
    assert!(matches!(avm.call_property(obj, &mn), Err(Error::NotCallable { .. })));
}

#[test]
fn enumeration_yields_each_binding_once_then_stops() {
    let mut avm = Avm::new();
    let obj = avm.alloc_script_object(None, None);
    for name in ["a", "b", "c"] {
        avm.set_property(obj, obj, &dyn_mn(name), Value::Bool(true)).unwrap();
    }
    let mut seen = Vec::new();
    let mut idx = 0u32;
    loop {
        match avm.get_next_enumerant(obj, idx) {
            Some(next) => {
                assert!(!seen.contains(&next), "index revisited");
                seen.push(next);
                idx = next;
            }
            None => break,
        }
        assert!(seen.len() <= 3, "enumeration failed to terminate");
    }
    assert_eq!(seen, vec![1, 2, 3]);
    let names: Vec<String> = seen
        .iter()
        .map(|i| match avm.get_enumerant_name(obj, *i) {
            Value::String(s) => s,
            _ => panic!("expected a name"),
        })
        .collect();
    assert_eq!(names, vec!["a", "b", "c"]);
    // Values come back through the named-get path.
    match avm.get_enumerant_value(obj, 1).unwrap() {
        ReturnValue::Immediate(Value::Bool(true)) => {}
        _ => panic!("expected the stored value"),
    }
}

#[test]
fn enumerability_follows_deletion_and_the_explicit_flag() {
    let mut avm = Avm::new();
    let obj = avm.alloc_script_object(None, None);
    avm.set_property(obj, obj, &dyn_mn("a"), num(1.0)).unwrap();
    assert!(avm.property_is_enumerable(obj, &pub_qname("a")));
    avm.set_local_property_is_enumerable(obj, &pub_qname("a"), false);
    assert!(!avm.property_is_enumerable(obj, &pub_qname("a")));
    avm.set_local_property_is_enumerable(obj, &pub_qname("a"), true);
    assert!(avm.property_is_enumerable(obj, &pub_qname("a")));
    assert!(avm.delete_property(obj, &dyn_mn("a")).unwrap());
    assert!(!avm.property_is_enumerable(obj, &pub_qname("a")));
    assert!(!avm.has_own_property(obj, &pub_qname("a")));
}

#[test]
fn generic_application_is_memoized() {
    let mut avm = Avm::new();
    let elem_a = plain_class(&mut avm, "A", true, Vec::new());
    let elem_b = plain_class(&mut avm, "B", true, Vec::new());
    let generic = avm.define_class(ClassDecl {
        name: String::from("Vector"),
        sealed: true,
        superclass: None,
        instance_traits: Vec::new(),
        class_traits: Vec::new(),
        instance_scope: 0,
        class_scope: 0,
        interfaces: Vec::new(),
        generic: true,
        allocator: AllocKind::Vector,
        default_value: Value::Null,
    });
    let first = avm.apply(generic, &Value::Object(elem_a)).unwrap();
    let second = avm.apply(generic, &Value::Object(elem_a)).unwrap();
    assert_eq!(first, second, "same parameter must give the identical class object");
    let other = avm.apply(generic, &Value::Object(elem_b)).unwrap();
    assert_ne!(first, other);
    let any = avm.apply(generic, &Value::Null).unwrap();
    assert_eq!(any, avm.apply(generic, &Value::Null).unwrap());
    // A non-generic class cannot be applied.
    assert!(matches!(
        avm.apply(elem_a, &Value::Object(elem_b)),
        Err(Error::NotParameterizedType)
    ));
}

#[test]
fn prototype_delegation_reads_through_the_chain() {
    let mut avm = Avm::new();
    let proto = avm.alloc_script_object(None, None);
    let mn = dyn_mn("x");
    avm.set_property(proto, proto, &mn, num(42.0)).unwrap();
    let child = avm.alloc_script_object(Some(proto), None);
    assert!(avm.has_property(child, &pub_qname("x")));
    assert!(!avm.has_own_property(child, &pub_qname("x")));
    let got = expect_value(avm.get_property(child, child, &mn));
    assert!(matches!(got, Value::Number(b) if b == 42.0f64.to_bits()));
    // Writes stay local: the prototype keeps its value.
    avm.set_property(child, child, &mn, num(1.0)).unwrap();
    let still = expect_value(avm.get_property(proto, proto, &mn));
    assert!(matches!(still, Value::Number(b) if b == 42.0f64.to_bits()));
    assert!(avm.has_own_property(child, &pub_qname("x")));
}

#[test]
fn slots_and_consts_follow_trait_semantics() {
    let mut avm = Avm::new();
    let traits = vec![
        TraitDecl {
            name: pub_qname("s"),
            kind: TraitKind::Slot { slot_id: 0, default: num(5.0) },
        },
        TraitDecl {
            name: pub_qname("k"),
            kind: TraitKind::Const { slot_id: 1, default: num(9.0) },
        },
    ];
    let class = plain_class(&mut avm, "Slotted", true, traits);
    let inst = avm.construct(class).unwrap();
    // Slot default installed, readable by name and id, writable by name.
    assert!(matches!(avm.get_slot(inst, 0), Ok(Value::Number(b)) if b == 5.0f64.to_bits()));
    avm.set_property(inst, inst, &dyn_mn("s"), num(6.0)).unwrap();
    assert!(matches!(avm.get_slot(inst, 0), Ok(Value::Number(b)) if b == 6.0f64.to_bits()));
    // Const: ordinary set rejected, init allowed.
    assert!(matches!(
        avm.set_property(inst, inst, &dyn_mn("k"), num(1.0)),
        Err(Error::ReadOnlyOverwrite { .. })
    ));
    avm.init_property(inst, inst, &dyn_mn("k"), num(2.0)).unwrap();
    assert!(matches!(avm.get_slot(inst, 1), Ok(Value::Number(b)) if b == 2.0f64.to_bits()));
    // A slot id with no slot fails.
    assert!(matches!(avm.get_slot(inst, 7), Err(Error::RangeError { index: 7 })));
}

#[test]
fn getters_and_setters_defer_to_their_callables() {
    let mut avm = Avm::new();
    let getter_m = avm.register_method(MethodInfo { needs_arguments_object: false });
    let setter_m = avm.register_method(MethodInfo { needs_arguments_object: false });
    let traits = vec![
        TraitDecl {
            name: pub_qname("v"),
            kind: TraitKind::Getter { disp_id: 1, method: getter_m },
        },
        TraitDecl {
            name: pub_qname("v"),
            kind: TraitKind::Setter { disp_id: 2, method: setter_m },
        },
    ];
    let class = plain_class(&mut avm, "Virt", true, traits);
    let inst = avm.construct(class).unwrap();
    let mn = dyn_mn("v");
    match avm.get_property(inst, inst, &mn).unwrap() {
        ReturnValue::Deferred { callee, args } => {
            assert!(args.is_empty());
            assert!(matches!(avm.call(callee), Ok(_)));
        }
        _ => panic!("expected a deferred getter call"),
    }
    match avm.set_property(inst, inst, &mn, num(3.0)).unwrap() {
        ReturnValue::Deferred { callee: _, args } => {
            assert_eq!(args.len(), 1);
            assert!(matches!(args[0], Value::Number(b) if b == 3.0f64.to_bits()));
        }
        _ => panic!("expected a deferred setter call"),
    }
}

#[test]
fn instance_tests_use_their_own_chains() {
    let mut avm = Avm::new();
    let base = plain_class(&mut avm, "Base", true, Vec::new());
    let derived = avm.define_class(ClassDecl {
        name: String::from("Derived"),
        sealed: true,
        superclass: Some(base),
        instance_traits: Vec::new(),
        class_traits: Vec::new(),
        instance_scope: 0,
        class_scope: 0,
        interfaces: Vec::new(),
        generic: false,
        allocator: AllocKind::Script,
        default_value: Value::Null,
    });
    let inst = avm.construct(derived).unwrap();
    // Prototype-chain test: the instance delegates to Derived's
    // prototype, which delegates to Base's.
    assert!(avm.is_instance_of(inst, derived).unwrap());
    assert!(avm.is_instance_of(inst, base).unwrap());
    // Class-chain test.
    assert!(avm.is_of_type(inst, derived));
    assert!(avm.is_of_type(inst, base));
    let unrelated = plain_class(&mut avm, "Other", true, Vec::new());
    assert!(!avm.is_of_type(inst, unrelated));
    assert!(!avm.is_instance_of(inst, unrelated).unwrap());
}

#[test]
fn string_coercions_report_the_class_name() {
    let mut avm = Avm::new();
    let class = plain_class(&mut avm, "Point", true, Vec::new());
    let inst = avm.construct(class).unwrap();
    match avm.to_string(inst) {
        Value::String(s) => assert_eq!(s, "[object Point]"),
        _ => panic!("expected a string"),
    }
    let bare = avm.alloc_script_object(None, None);
    match avm.to_locale_string(bare) {
        Value::String(s) => assert_eq!(s, "[object Object]"),
        _ => panic!("expected a string"),
    }
    assert!(matches!(avm.value_of(inst), Value::Object(o) if o == inst));
}

#[test]
fn construction_refuses_non_classes_and_calls_refuse_non_functions() {
    let mut avm = Avm::new();
    let obj = avm.alloc_script_object(None, None);
    assert!(matches!(avm.construct(obj), Err(Error::NotConstructable)));
    assert!(matches!(avm.call(obj), Err(Error::NotCallable { .. })));
}

#[test]
fn deleting_unresolved_names_depends_on_sealing() {
    let mut avm = Avm::new();
    let open = avm.alloc_script_object(None, None);
    assert_eq!(avm.delete_property(open, &dyn_mn("ghost")).unwrap(), true);
    let class = plain_class(&mut avm, "Shut", true, Vec::new());
    let inst = avm.construct(class).unwrap();
    assert_eq!(avm.delete_property(inst, &dyn_mn("ghost")).unwrap(), false);
}

#[test]
fn multiname_wildcard_takes_first_candidate() {
    let mut avm = Avm::new();
    let obj = avm.alloc_script_object(None, None);
    // Store under a named package, then resolve through the wildcard.
    let qn = QName::new(
        Namespace::Package(String::from("pkg")),
        String::from("hidden"),
    );
    avm.install_dynamic_property(obj, &qn, num(8.0));
    let any_mn = Multiname::new(Some(String::from("hidden")), vec![Namespace::Any]);
    let resolved = avm.resolve_multiname(obj, &any_mn).expect("wildcard should resolve");
    assert!(matches!(resolved.namespace(), Namespace::Package(p) if p == "pkg"));
    // A public-only multiname does not see the packaged name.
    assert!(avm.resolve_multiname(obj, &dyn_mn("hidden")).is_none());
}
