//! Finer points of the dispatch core: trait shadowing, the first-match
//! resolution policy, virtual properties, placeholders, derivation and
//! property construction.

use avm2_objects::avm::Avm;
use avm2_objects::calls::CallResolution;
use avm2_objects::class::ClassDecl;
use avm2_objects::names::{Multiname, Namespace, QName};
use avm2_objects::object::{AllocKind, MethodInfo, TraitDecl, TraitKind};
use avm2_objects::value::{Error, ReturnValue, Value};

fn num(x: f64) -> Value {
    Value::Number(x.to_bits())
}

fn dyn_mn(name: &str) -> Multiname {
    Multiname::dynamic_name(String::from(name))
}

fn pub_qname(name: &str) -> QName {
    QName::dynamic_name(String::from(name))
}

fn decl(name: &str, sealed: bool) -> ClassDecl {
    ClassDecl {
        name: String::from(name),
        sealed,
        superclass: None,
        instance_traits: Vec::new(),
        class_traits: Vec::new(),
        instance_scope: 0,
        class_scope: 0,
        interfaces: Vec::new(),
        generic: false,
        allocator: AllocKind::Script,
        default_value: Value::Null,
    }
}

#[test]
fn subclass_traits_shadow_inherited_ones() {
    let mut avm = Avm::new();
    let mut base_decl = decl("Base", true);
    base_decl.instance_traits = vec![TraitDecl {
        name: pub_qname("s"),
        kind: TraitKind::Slot { slot_id: 0, default: num(1.0) },
    }];
    let base = avm.define_class(base_decl);
    let mut derived_decl = decl("Derived", true);
    derived_decl.superclass = Some(base);
    derived_decl.instance_traits = vec![TraitDecl {
        name: pub_qname("s"),
        kind: TraitKind::Slot { slot_id: 0, default: num(2.0) },
    }];
    let derived = avm.define_class(derived_decl);
    let inst = avm.construct(derived).unwrap();
    // Superclass traits install first, the subclass's last, so the
    // subclass default wins.
    match avm.get_property(inst, inst, &dyn_mn("s")).unwrap() {
        ReturnValue::Immediate(Value::Number(b)) => assert_eq!(b, 2.0f64.to_bits()),
        _ => panic!("expected the shadowing default"),
    }
}

#[test]
fn resolution_takes_the_first_candidate_in_storage_order() {
    let mut avm = Avm::new();
    let obj = avm.alloc_script_object(None, None);
    let ns_a = Namespace::Package(String::from("a"));
    let ns_b = Namespace::Package(String::from("b"));
    avm.install_dynamic_property(obj, &QName::new(ns_a.clone(), String::from("n")), num(1.0));
    avm.install_dynamic_property(obj, &QName::new(ns_b.clone(), String::from("n")), num(2.0));
    // Both namespaces are in the set: the first stored candidate wins.
    let both = Multiname::new(Some(String::from("n")), vec![ns_b.clone(), ns_a.clone()]);
    let resolved = avm.resolve_multiname(obj, &both).unwrap();
    assert!(matches!(resolved.namespace(), Namespace::Package(p) if p == "a"));
    // The wildcard behaves the same way: first candidate outright.
    let any = Multiname::new(Some(String::from("n")), vec![Namespace::Any]);
    let resolved = avm.resolve_multiname(obj, &any).unwrap();
    assert!(matches!(resolved.namespace(), Namespace::Package(p) if p == "a"));
}

#[test]
fn containment_checks_look_one_prototype_deep() {
    let mut avm = Avm::new();
    let grandparent = avm.alloc_script_object(None, None);
    avm.set_property(grandparent, grandparent, &dyn_mn("deep"), num(1.0))
        .unwrap();
    let parent = avm.alloc_script_object(Some(grandparent), None);
    let child = avm.alloc_script_object(Some(parent), None);
    // `deep` is two hops away: the shallow check does not see it, though
    // the full read path does.
    assert!(!avm.has_property(child, &pub_qname("deep")));
    assert!(avm.has_property(parent, &pub_qname("deep")));
    assert_eq!(
        avm.has_property_via_in(child, &pub_qname("deep")),
        avm.has_property(child, &pub_qname("deep"))
    );
    match avm.get_property(child, child, &dyn_mn("deep")).unwrap() {
        ReturnValue::Immediate(Value::Number(b)) => assert_eq!(b, 1.0f64.to_bits()),
        _ => panic!("the full read path should still delegate"),
    }
}

#[test]
fn overwritability_follows_the_binding_kind() {
    let mut avm = Avm::new();
    let obj = avm.alloc_script_object(None, None);
    assert!(avm.is_property_overwritable(obj, &pub_qname("absent")));
    avm.set_property(obj, obj, &dyn_mn("stored"), num(1.0)).unwrap();
    assert!(avm.is_property_overwritable(obj, &pub_qname("stored")));
    avm.install_const(obj, &pub_qname("fixed"), 0, num(2.0));
    assert!(!avm.is_property_overwritable(obj, &pub_qname("fixed")));
}

#[test]
fn setter_only_names_read_as_absent() {
    let mut avm = Avm::new();
    let proto = avm.alloc_script_object(None, None);
    avm.set_property(proto, proto, &dyn_mn("v"), num(5.0)).unwrap();
    let obj = avm.alloc_script_object(Some(proto), None);
    let setter = avm.alloc_script_object(None, None);
    avm.install_setter(obj, &pub_qname("v"), setter);
    // Reads skip the setter-only binding and delegate to the prototype.
    match avm.get_property(obj, obj, &dyn_mn("v")).unwrap() {
        ReturnValue::Immediate(Value::Number(b)) => assert_eq!(b, 5.0f64.to_bits()),
        _ => panic!("expected the prototype's value"),
    }
    // Writes go to the setter.
    match avm.set_property(obj, obj, &dyn_mn("v"), num(6.0)).unwrap() {
        ReturnValue::Deferred { callee, args } => {
            assert_eq!(callee, setter);
            assert_eq!(args.len(), 1);
        }
        _ => panic!("expected the deferred setter call"),
    }
    // A getter-only binding rejects writes.
    let getter_only = avm.alloc_script_object(None, None);
    avm.install_getter(getter_only, &pub_qname("g"), setter);
    assert!(matches!(
        avm.set_property(getter_only, getter_only, &dyn_mn("g"), num(1.0)),
        Err(Error::ReadOnlyOverwrite { .. })
    ));
}

#[test]
fn class_and_function_traits_reserve_placeholder_slots() {
    let mut avm = Avm::new();
    let mut d = decl("Holder", true);
    d.instance_traits = vec![
        TraitDecl { name: pub_qname("Inner"), kind: TraitKind::Class { slot_id: 0 } },
        TraitDecl { name: pub_qname("helper"), kind: TraitKind::Function { slot_id: 1 } },
    ];
    let class = avm.define_class(d);
    let inst = avm.construct(class).unwrap();
    assert!(matches!(avm.get_slot(inst, 0), Ok(Value::Undefined)));
    assert!(matches!(avm.get_slot(inst, 1), Ok(Value::Undefined)));
    // The placeholders are write-once: ordinary sets are rejected, slot
    // initialization fills them later.
    assert!(matches!(
        avm.set_property(inst, inst, &dyn_mn("Inner"), num(1.0)),
        Err(Error::ReadOnlyOverwrite { .. })
    ));
    avm.init_slot(inst, 0, Value::Bool(true)).unwrap();
    assert!(matches!(avm.get_slot(inst, 0), Ok(Value::Bool(true))));
}

#[test]
fn derivation_builds_a_bare_delegate() {
    let mut avm = Avm::new();
    let obj = avm.alloc_script_object(None, None);
    avm.set_property(obj, obj, &dyn_mn("x"), num(3.0)).unwrap();
    let derived = avm.derive(obj);
    assert_eq!(avm.proto(derived), Some(obj));
    assert_eq!(avm.instance_of(derived), None);
    assert!(!avm.has_own_property(derived, &pub_qname("x")));
    match avm.get_property(derived, derived, &dyn_mn("x")).unwrap() {
        ReturnValue::Immediate(Value::Number(b)) => assert_eq!(b, 3.0f64.to_bits()),
        _ => panic!("expected delegation"),
    }
}

#[test]
fn construct_prop_builds_from_a_stored_class() {
    let mut avm = Avm::new();
    let class = avm.define_class(decl("Built", true));
    let holder = avm.alloc_script_object(None, None);
    avm.set_property(holder, holder, &dyn_mn("Ctor"), Value::Object(class))
        .unwrap();
    let inst = avm.construct_prop(holder, &dyn_mn("Ctor")).unwrap();
    assert_eq!(avm.instance_of(inst), Some(class));
    // A non-object property cannot be constructed.
    avm.set_property(holder, holder, &dyn_mn("seven"), num(7.0)).unwrap();
    assert!(matches!(
        avm.construct_prop(holder, &dyn_mn("seven")),
        Err(Error::NotAnObject)
    ));
}

#[test]
fn calling_a_getter_backed_property_defers_to_the_getter() {
    let mut avm = Avm::new();
    let obj = avm.alloc_script_object(None, None);
    let getter = avm.alloc_script_object(None, None);
    avm.install_getter(obj, &pub_qname("f"), getter);
    match avm.call_property(obj, &dyn_mn("f")).unwrap() {
        CallResolution::ViaGetter { getter: g, receiver } => {
            assert_eq!(g, getter);
            assert_eq!(receiver, obj);
        }
        _ => panic!("expected the getter-first resolution"),
    }
    // An unresolvable name is not callable.
    assert!(matches!(
        avm.call_property(obj, &dyn_mn("missing")),
        Err(Error::NotCallable { .. })
    ));
}

#[test]
fn methods_needing_arguments_fall_back_to_the_value_path() {
    let mut avm = Avm::new();
    let method = avm.register_method(MethodInfo { needs_arguments_object: true });
    let mut d = decl("Args", true);
    d.instance_traits = vec![TraitDecl {
        name: pub_qname("m"),
        kind: TraitKind::Method { disp_id: 1, method },
    }];
    let class = avm.define_class(d);
    let inst = avm.construct(class).unwrap();
    // No direct dispatch: the method is materialized and returned as a
    // callable value instead.
    match avm.call_property(inst, &dyn_mn("m")).unwrap() {
        CallResolution::Callable { callee, receiver } => {
            assert_eq!(receiver, inst);
            assert!(avm.call(callee).is_ok());
        }
        _ => panic!("expected the callable-value path"),
    }
}

#[test]
fn replacing_a_prototype_rewires_delegation() {
    let mut avm = Avm::new();
    let first = avm.alloc_script_object(None, None);
    avm.set_property(first, first, &dyn_mn("who"), num(1.0)).unwrap();
    let second = avm.alloc_script_object(None, None);
    avm.set_property(second, second, &dyn_mn("who"), num(2.0)).unwrap();
    let obj = avm.alloc_script_object(Some(first), None);
    avm.set_proto(obj, second);
    match avm.get_property(obj, obj, &dyn_mn("who")).unwrap() {
        ReturnValue::Immediate(Value::Number(b)) => assert_eq!(b, 2.0f64.to_bits()),
        _ => panic!("expected the replacement prototype's value"),
    }
}

#[test]
fn class_objects_bind_their_static_methods_lazily() {
    let mut avm = Avm::new();
    let method = avm.register_method(MethodInfo { needs_arguments_object: true });
    let mut d = decl("Stat", true);
    d.class_traits = vec![TraitDecl {
        name: pub_qname("create"),
        kind: TraitKind::Method { disp_id: 3, method },
    }];
    let class = avm.define_class(d);
    // Reading the static method on the class object materializes it.
    let first = match avm.get_property(class, class, &dyn_mn("create")).unwrap() {
        ReturnValue::Immediate(Value::Object(f)) => f,
        _ => panic!("expected a bound class method"),
    };
    let second = match avm.get_property(class, class, &dyn_mn("create")).unwrap() {
        ReturnValue::Immediate(Value::Object(f)) => f,
        _ => panic!("expected the cached callable"),
    };
    assert_eq!(first, second);
    assert_eq!(avm.call_method(class, 3).unwrap(), first);
}

#[test]
fn init_creates_dynamic_bindings_like_set() {
    let mut avm = Avm::new();
    let obj = avm.alloc_script_object(None, None);
    avm.init_property(obj, obj, &dyn_mn("fresh"), num(4.0)).unwrap();
    match avm.get_property(obj, obj, &dyn_mn("fresh")).unwrap() {
        ReturnValue::Immediate(Value::Number(b)) => assert_eq!(b, 4.0f64.to_bits()),
        _ => panic!("expected the initialized value"),
    }
}

#[test]
fn exact_multinames_resolve_their_own_namespace() {
    let mut avm = Avm::new();
    let obj = avm.alloc_script_object(None, None);
    let qn = QName::new(Namespace::Package(String::from("pkg")), String::from("n"));
    avm.install_dynamic_property(obj, &qn, num(1.0));
    let mn = Multiname::from_qname(qn.clone());
    let resolved = avm.resolve_multiname(obj, &mn).unwrap();
    assert!(resolved.equals(&qn));
    match avm.get_property(obj, obj, &mn).unwrap() {
        ReturnValue::Immediate(Value::Number(b)) => assert_eq!(b, 1.0f64.to_bits()),
        _ => panic!("expected the packaged value"),
    }
}

#[test]
fn locale_strings_use_the_plain_tag_everywhere() {
    let mut avm = Avm::new();
    let class = avm.define_class(decl("Thing", true));
    let inst = avm.construct(class).unwrap();
    match avm.to_locale_string(inst) {
        Value::String(s) => assert_eq!(s, "[object Thing]"),
        _ => panic!("expected a string"),
    }
    assert!(matches!(avm.default_hint(inst), avm2_objects::value::Hint::Number));
}

#[test]
fn init_overwrites_virtual_bindings_without_the_setter() {
    let mut avm = Avm::new();
    let obj = avm.alloc_script_object(None, None);
    let setter = avm.alloc_script_object(None, None);
    avm.install_setter(obj, &pub_qname("w"), setter);
    // Initialization bypasses setter semantics and stores directly.
    match avm.init_property(obj, obj, &dyn_mn("w"), num(4.0)).unwrap() {
        ReturnValue::Immediate(Value::Undefined) => {}
        _ => panic!("init must not defer to the setter"),
    }
    match avm.get_property(obj, obj, &dyn_mn("w")).unwrap() {
        ReturnValue::Immediate(Value::Number(b)) => assert_eq!(b, 4.0f64.to_bits()),
        _ => panic!("expected the directly stored value"),
    }
}

#[test]
fn wildcard_never_consults_the_prototype() {
    let mut avm = Avm::new();
    let proto = avm.alloc_script_object(None, None);
    avm.set_property(proto, proto, &dyn_mn("far"), num(1.0)).unwrap();
    let child = avm.alloc_script_object(Some(proto), None);
    // A wildcard set with no local candidates resolves nothing, even
    // though the prototype owns the name; the dynamic fallback answers.
    let any = Multiname::new(Some(String::from("far")), vec![Namespace::Any]);
    assert!(avm.resolve_multiname(child, &any).is_none());
    assert!(matches!(
        avm.get_property(child, child, &any).unwrap(),
        ReturnValue::Immediate(Value::Undefined)
    ));
    // The plain public multiname still delegates.
    assert!(matches!(
        avm.get_property(child, child, &dyn_mn("far")).unwrap(),
        ReturnValue::Immediate(Value::Number(_))
    ));
}
