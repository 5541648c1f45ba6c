//! The dispatch core: property get, with lazy method binding.
//!
//! Every name-based operation shares a shape: resolve the multiname to a
//! qualified name; if resolution fails, apply the per-kind "undefined
//! name" policy (dynamic classes synthesize public dynamic names, sealed
//! classes fail); if it succeeds, consult own storage, materialize lazily
//! bound inherited methods, and otherwise delegate to the prototype. The
//! read path may mutate own storage as a caching side effect: the first
//! read of an inherited method installs it as an own binding, and every
//! later read hands back that same bound callable.

use vstd::prelude::*;
use crate::ObjId;
use crate::avm::{Avm, class_structure_same, only_base_changed, same_avm};
use crate::decimal::{dec_value, is_index_str, parse_index};
use crate::names::{Multiname, ns_is_public, QName};
use crate::object::{Executable, FunctionObject, lemma_heap_wf_push, lemma_heap_wf_update, Object,
    obj_wf, TraitKind};
use crate::resolve::{chain_class_method_trait, chain_method_trait, has_own_property_spec,
    resolve_multiname_spec};
use crate::storage::{lookup, ObjectData, Property, set_only};
use crate::value::{Error, ReturnValue, Value};

verus! {

/// What a read settles to: a value, a getter still to be invoked, or a
/// failure.
#[derive(Debug)]
pub enum ReadOutcome {
    Value(Value),
    Getter(ObjId),
    Fail(Error),
}

/// Whether `r` reports the outcome `out`: a value as an immediate result,
/// a getter as a deferred call with no arguments, a failure as the error.
pub open spec fn outcome_result(out: ReadOutcome, r: Result<ReturnValue, Error>) -> bool {
    match out {
        ReadOutcome::Value(v) => r == Ok::<ReturnValue, Error>(ReturnValue::Immediate(v)),
        ReadOutcome::Getter(g) => r is Ok && r->Ok_0 is Deferred && r->Ok_0->Deferred_callee == g
            && r->Ok_0->Deferred_args@.len() == 0,
        ReadOutcome::Fail(e) => r == Err::<ReturnValue, Error>(e),
    }
}

/// Whether the object at `o` is an instance of a sealed class. Objects
/// with no class at all are dynamic.
pub open spec fn sealed_of(objects: Seq<Object>, o: int) -> bool {
    let b = objects[o].spec_base();
    b.instance_of is Some && (b.instance_of->0 as int) < objects.len() && objects[b.instance_of->0
        as int] is Class && objects[b.instance_of->0 as int]->Class_0.cls.sealed
}

/// What reading `name` from the storage base alone yields: a stored value
/// or slot directly, a bound method as its callable, a getter as a
/// deferred call, and `Undefined` for an absent binding or a setter with
/// no getter.
pub open spec fn base_read_outcome(data: ObjectData, name: QName) -> ReadOutcome {
    match lookup(data.values@, name) {
        Option::None => ReadOutcome::Value(Value::Undefined),
        Option::Some(p) => match p {
            Property::Stored { value } => ReadOutcome::Value(value),
            Property::Slot { slot_id } => match data.spec_slot(slot_id) {
                Option::Some(v) => ReadOutcome::Value(v),
                Option::None => ReadOutcome::Fail(Error::RangeError { index: slot_id as usize }),
            },
            Property::ConstSlot { slot_id } => match data.spec_slot(slot_id) {
                Option::Some(v) => ReadOutcome::Value(v),
                Option::None => ReadOutcome::Fail(Error::RangeError { index: slot_id as usize }),
            },
            Property::Method { disp_id } => match data.spec_method(disp_id) {
                Option::Some(m) => ReadOutcome::Value(Value::Object(m)),
                Option::None => ReadOutcome::Fail(Error::UnknownMethodId { id: disp_id }),
            },
            Property::Virtual { getter, setter } => match getter {
                Option::Some(g) => ReadOutcome::Getter(g),
                Option::None => ReadOutcome::Value(Value::Undefined),
            },
        },
    }
}

/// What reading `name` from the object at `o` alone yields. The vector
/// kind intercepts public element indices: in range reads the element,
/// out of range reads `Undefined`, never an error.
pub open spec fn local_read_outcome(objects: Seq<Object>, o: int, name: QName) -> ReadOutcome {
    match objects[o] {
        Object::Vector(v) => {
            if ns_is_public(name.ns) && is_index_str(name.local@) {
                if dec_value(name.local@) < v.vector.storage@.len() {
                    ReadOutcome::Value(v.vector.storage@[dec_value(name.local@) as int])
                } else {
                    ReadOutcome::Value(Value::Undefined)
                }
            } else {
                base_read_outcome(objects[o].spec_base(), name)
            }
        },
        _ => base_read_outcome(objects[o].spec_base(), name),
    }
}

/// Whether reading `name` on the object at `o` would materialize a lazily
/// bound method: no own binding is instantiated yet, and the class (or,
/// for a class object, its own static table) supplies a method there.
pub open spec fn lazy_applies(objects: Seq<Object>, o: int, name: QName) -> bool {
    let b = objects[o].spec_base();
    &&& lookup(b.values@, name) is None
    &&& {
        ||| (b.instance_of is Some && (b.instance_of->0 as int) < objects.len()
            && chain_method_trait(objects, b.instance_of->0 as int, name) is Some)
        ||| (objects[o] is Class && chain_class_method_trait(objects, o, name) is Some)
    }
}

/// The read-path outcome of the whole dispatch, when no lazy binding
/// fires anywhere along the chain: resolution failure applies the sealed
/// or dynamic policy; a resolved own readable binding is read locally; a
/// setter-only binding reads as absent; otherwise the prototype answers,
/// and a chain with no link left yields `Undefined`. `None` means a lazy
/// binding would fire, mutating storage.
pub open spec fn get_property_spec(objects: Seq<Object>, o: int, mn: Multiname) -> Option<
    ReadOutcome,
>
    decreases o,
{
    match resolve_multiname_spec(objects, o, mn) {
        Option::None => Some(
            if sealed_of(objects, o) {
                ReadOutcome::Fail(Error::UndefinedPropertyRead { name: mn.name })
            } else {
                ReadOutcome::Value(Value::Undefined)
            },
        ),
        Option::Some(qn) => {
            if lazy_applies(objects, o, qn) {
                None
            } else {
                let b = objects[o].spec_base();
                if has_own_property_spec(objects, o, qn) && !set_only(lookup(b.values@, qn)) {
                    Some(local_read_outcome(objects, o, qn))
                } else if b.proto is Some && (b.proto->0 as int) < o {
                    get_property_spec(objects, b.proto->0 as int, mn)
                } else {
                    Some(ReadOutcome::Value(Value::Undefined))
                }
            }
        },
    }
}

impl Avm {
    /// Whether the object at `obj` is an instance of a sealed class.
    pub fn is_sealed(&self, obj: ObjId) -> (r: bool)
        requires
            self.wf(),
            (obj as int) < self.objects@.len(),
        ensures
            r == sealed_of(self.objects@, obj as int),
    {
        proof {
            assert(obj_wf(self.objects@, obj as int));
        }
        match self.objects[obj].base().instance_of() {
            Option::Some(c) => match &self.objects[c] {
                Object::Class(co) => co.cls.sealed,
                _ => false,
            },
            Option::None => false,
        }
    }

    /// Allocate a bound-callable object for `executable`.
    fn alloc_function(&mut self, executable: Executable) -> (r: ObjId)
        requires
            old(self).wf(),
        ensures
            final(self).wf(),
            r as int == old(self).objects@.len(),
            final(self).objects@.len() == old(self).objects@.len() + 1,
            forall|j: int|
                0 <= j < old(self).objects@.len() ==> final(self).objects@[j] == old(
                    self,
                ).objects@[j],
            final(self).objects@[r as int] is Function,
            final(self).objects@[r as int]->Function_0.executable == executable,
            final(self).base_of(r).values@.len() == 0,
            final(self).base_of(r).proto is None,
            final(self).base_of(r).instance_of is None,
            final(self).method_infos == old(self).method_infos,
            final(self).object_class == old(self).object_class,
            final(self).vector_class == old(self).vector_class,
    {
        let id = self.objects.len();
        let o = Object::Function(
            FunctionObject { base: ObjectData::base_new(None, None), executable },
        );
        proof {
            lemma_heap_wf_push(self.objects@, o);
        }
        self.objects.push(o);
        id
    }

    /// Install a bound method on the object at `obj` under `name` at
    /// dispatch id `disp_id`.
    pub fn install_method(&mut self, obj: ObjId, name: &QName, disp_id: u32, function: ObjId)
        requires
            old(self).wf(),
            (obj as int) < old(self).objects@.len(),
            (function as int) < old(self).objects@.len(),
            !(name.ns is Any),
        ensures
            final(self).wf(),
            only_base_changed(old(self).objects@, final(self).objects@, obj as int),
            lookup(final(self).base_of(obj).values@, *name) == Some(
                Property::Method { disp_id },
            ),
            forall|n2: QName|
                !crate::names::qn_eq(n2, *name) ==> #[trigger] lookup(
                    final(self).base_of(obj).values@,
                    n2,
                ) == lookup(old(self).base_of(obj).values@, n2),
            final(self).base_of(obj).spec_method(disp_id) == Some(function),
            forall|k: u32|
                k != disp_id ==> #[trigger] final(self).base_of(obj).spec_method(k) == old(
                    self,
                ).base_of(obj).spec_method(k),
            final(self).base_of(obj).slots == old(self).base_of(obj).slots,
            final(self).base_of(obj).enumerants == old(self).base_of(obj).enumerants,
            final(self).base_of(obj).proto == old(self).base_of(obj).proto,
            final(self).base_of(obj).instance_of == old(self).base_of(obj).instance_of,
            final(self).method_infos == old(self).method_infos,
            final(self).object_class == old(self).object_class,
            final(self).vector_class == old(self).vector_class,
    {
        let ghost pre = self.objects@;
        proof {
            assert(obj_wf(pre, obj as int));
        }
        let o = &mut self.objects[obj];
        o.base_mut().install_method(name, disp_id, function);
        proof {
            lemma_heap_wf_update(pre, obj as int, self.objects@[obj as int]);
        }
    }

    /// Build the bound callable for the nearest instance method trait
    /// under `name` on the class object at `class`: the method closed
    /// over the class's instance scope, the receiver, and the defining
    /// class. Reports the fresh callable and the trait's dispatch id.
    pub fn bound_instance_method(&mut self, class: ObjId, receiver: ObjId, name: &QName) -> (r:
        Option<(ObjId, u32)>)
        requires
            old(self).wf(),
            (class as int) < old(self).objects@.len(),
            old(self).objects@[class as int] is Class,
        ensures
            final(self).wf(),
            (match chain_method_trait(old(self).objects@, class as int, *name) {
                Option::None => r is None && same_avm(*old(self), *final(self)),
                Option::Some(dt) => ({
                    let fid = old(self).objects@.len();
                    &&& dt.1.kind is Method
                    &&& r is Some
                    &&& ({
                        let p = r->0;
                        p.0 as int == fid && p.1 == dt.1.kind->Method_disp_id
                    })
                    &&& final(self).objects@.len() == fid + 1
                    &&& (forall|j: int|
                        0 <= j < old(self).objects@.len() ==> final(self).objects@[j] == old(
                            self,
                        ).objects@[j])
                    &&& final(self).objects@[fid as int] is Function
                    &&& final(self).objects@[fid as int]->Function_0.executable == (Executable {
                        method: dt.1.kind->Method_method,
                        scope: old(
                            self,
                        ).objects@[class as int]->Class_0.cls.instance_scope,
                        receiver: Some(receiver),
                        defining_class: Some(dt.0 as ObjId),
                    })
                    &&& final(self).base_of(fid as ObjId).values@.len() == 0
                }),
            }),
            final(self).method_infos == old(self).method_infos,
            final(self).object_class == old(self).object_class,
            final(self).vector_class == old(self).vector_class,
    {
        match self.instance_method_trait(class, name) {
            Option::None => None,
            Option::Some((defining, t)) => {
                let (disp_id, method) = match &t.kind {
                    TraitKind::Method { disp_id, method } => (*disp_id, *method),
                    _ => {
                        proof {
                            lemma_chain_method_trait_is_method(
                                self.objects@,
                                class as int,
                                *name,
                            );
                            assert(false);
                        }
                        (0, 0)
                    },
                };
                let scope = match &self.objects[class] {
                    Object::Class(co) => co.cls.instance_scope,
                    _ => 0,
                };
                let f = self.alloc_function(
                    Executable {
                        method,
                        scope,
                        receiver: Some(receiver),
                        defining_class: Some(defining),
                    },
                );
                Some((f, disp_id))
            },
        }
    }

    /// Build the bound callable for the nearest class (static) method
    /// trait under `name` on the class object at `class`: the method
    /// closed over the class scope, with the class object itself as
    /// receiver. Reports the fresh callable and the trait's dispatch id.
    pub fn bound_class_method(&mut self, class: ObjId, name: &QName) -> (r: Option<(ObjId, u32)>)
        requires
            old(self).wf(),
            (class as int) < old(self).objects@.len(),
            old(self).objects@[class as int] is Class,
        ensures
            final(self).wf(),
            (match chain_class_method_trait(old(self).objects@, class as int, *name) {
                Option::None => r is None && same_avm(*old(self), *final(self)),
                Option::Some(dt) => ({
                    let fid = old(self).objects@.len();
                    &&& dt.1.kind is Method
                    &&& r is Some
                    &&& ({
                        let p = r->0;
                        p.0 as int == fid && p.1 == dt.1.kind->Method_disp_id
                    })
                    &&& final(self).objects@.len() == fid + 1
                    &&& (forall|j: int|
                        0 <= j < old(self).objects@.len() ==> final(self).objects@[j] == old(
                            self,
                        ).objects@[j])
                    &&& final(self).objects@[fid as int] is Function
                    &&& final(self).objects@[fid as int]->Function_0.executable == (Executable {
                        method: dt.1.kind->Method_method,
                        scope: old(self).objects@[class as int]->Class_0.cls.class_scope,
                        receiver: Some(class),
                        defining_class: Some(dt.0 as ObjId),
                    })
                    &&& final(self).base_of(fid as ObjId).values@.len() == 0
                }),
            }),
            final(self).method_infos == old(self).method_infos,
            final(self).object_class == old(self).object_class,
            final(self).vector_class == old(self).vector_class,
    {
        match self.class_method_trait(class, name) {
            Option::None => None,
            Option::Some((defining, t)) => {
                let (disp_id, method) = match &t.kind {
                    TraitKind::Method { disp_id, method } => (*disp_id, *method),
                    _ => {
                        proof {
                            lemma_chain_class_method_trait_is_method(
                                self.objects@,
                                class as int,
                                *name,
                            );
                            assert(false);
                        }
                        (0, 0)
                    },
                };
                let scope = match &self.objects[class] {
                    Object::Class(co) => co.cls.class_scope,
                    _ => 0,
                };
                let f = self.alloc_function(
                    Executable {
                        method,
                        scope,
                        receiver: Some(class),
                        defining_class: Some(defining),
                    },
                );
                Some((f, disp_id))
            },
        }
    }

    /// Read the binding under the resolved `name` from the object at
    /// `obj` alone, per its kind: the vector's element space first, then
    /// the storage base.
    pub fn get_property_local(&self, obj: ObjId, name: &QName) -> (r: Result<ReturnValue, Error>)
        requires
            self.wf(),
            (obj as int) < self.objects@.len(),
        ensures
            outcome_result(local_read_outcome(self.objects@, obj as int, *name), r),
    {
        match &self.objects[obj] {
            Object::Vector(v) => {
                if name.namespace().is_public() {
                    match parse_index(name.local_name().as_str()) {
                        Option::Some(idx) => {
                            if idx < v.vector.storage.len() {
                                return Ok(ReturnValue::Immediate(v.vector.storage[idx].clone()));
                            } else {
                                return Ok(ReturnValue::Immediate(Value::Undefined));
                            }
                        },
                        Option::None => {},
                    }
                }
            },
            _ => {},
        }
        self.objects[obj].base().get_property_local(name)
    }

    /// Retrieve a property by multiname. Resolution failure applies the
    /// sealed or dynamic policy; the first read of an inherited method
    /// materializes it as an own binding (a caching side effect, the one
    /// mutation this read can make) and returns the fresh bound callable;
    /// an own readable binding is read locally; otherwise the prototype
    /// answers, and `Undefined` is the floor.
    pub fn get_property(&mut self, obj: ObjId, receiver: ObjId, mn: &Multiname) -> (r: Result<
        ReturnValue,
        Error,
    >)
        requires
            old(self).wf(),
            (obj as int) < old(self).objects@.len(),
            (receiver as int) < old(self).objects@.len(),
        ensures
            final(self).wf(),
            class_structure_same(old(self).objects@, final(self).objects@),
            old(self).objects@.len() <= final(self).objects@.len(),
            final(self).method_infos == old(self).method_infos,
            final(self).object_class == old(self).object_class,
            final(self).vector_class == old(self).vector_class,
            (match get_property_spec(old(self).objects@, obj as int, *mn) {
                Option::Some(out) => same_avm(*old(self), *final(self)) && outcome_result(out, r),
                Option::None => {
                    &&& r is Ok
                    &&& r->Ok_0 is Immediate
                    &&& r->Ok_0->Immediate_0 is Object
                    &&& r->Ok_0->Immediate_0->Object_0 as int == old(self).objects@.len()
                    &&& final(self).objects@.len() == old(self).objects@.len() + 1
                    &&& final(self).objects@[old(self).objects@.len() as int] is Function
                },
            }),
            ({
                let res = resolve_multiname_spec(old(self).objects@, obj as int, *mn);
                let pre = old(self).objects@;
                let post = final(self).objects@;
                let prebase = old(self).base_of(obj);
                let postbase = final(self).base_of(obj);
                if res is Some && lazy_applies(pre, obj as int, res->Some_0) {
                    let qn = res->Some_0;
                    let f = pre.len();
                    &&& (forall|j: int|
                        0 <= j < pre.len() && j != obj as int ==> post[j] == pre[j])
                    &&& ({
                        let b = lookup(postbase.values@, qn);
                        b is Some && b->Some_0 is Method && postbase.spec_method(
                            b->Some_0->Method_disp_id,
                        ) == Some(f as ObjId)
                    })
                    &&& (forall|n2: QName|
                        !crate::names::qn_eq(n2, qn) ==> #[trigger] lookup(postbase.values@, n2)
                            == lookup(prebase.values@, n2))
                    &&& postbase.enumerants == prebase.enumerants
                    &&& post[obj as int] == pre[obj as int].with_base(postbase)
                } else {
                    true
                }
            }),
        decreases obj,
    {
        proof {
            assert(obj_wf(self.objects@, obj as int));
        }
        let resolved = self.resolve_multiname(obj, mn);
        match resolved {
            Option::None => {
                if self.is_sealed(obj) {
                    let n = match mn.local_name() {
                        Option::Some(l) => Some(l.clone()),
                        Option::None => None,
                    };
                    Err(Error::UndefinedPropertyRead { name: n })
                } else {
                    Ok(ReturnValue::Immediate(Value::Undefined))
                }
            },
            Option::Some(qn) => {
                if !self.has_own_instantiated_property(obj, &qn) {
                    let iof = self.instance_of(obj);
                    match iof {
                        Option::Some(class) => {
                            proof {
                                assert((class as int) < self.objects@.len()
                                    && self.objects@[class as int] is Class);
                            }
                            match self.bound_instance_method(class, receiver, &qn) {
                                Option::Some((f, disp_id)) => {
                                    proof {
                                        assert(lazy_applies(old(self).objects@, obj as int, qn));
                                        assert(get_property_spec(
                                            old(self).objects@,
                                            obj as int,
                                            *mn,
                                        ) is None);
                                    }
                                    self.install_method(obj, &qn, disp_id, f);
                                    return Ok(ReturnValue::Immediate(Value::Object(f)));
                                },
                                Option::None => {},
                            }
                        },
                        Option::None => {},
                    }
                    let is_class = match &self.objects[obj] {
                        Object::Class(_) => true,
                        _ => false,
                    };
                    if is_class {
                        match self.bound_class_method(obj, &qn) {
                            Option::Some((f, disp_id)) => {
                                proof {
                                    assert(lazy_applies(old(self).objects@, obj as int, qn));
                                    assert(get_property_spec(
                                        old(self).objects@,
                                        obj as int,
                                        *mn,
                                    ) is None);
                                }
                                self.install_method(obj, &qn, disp_id, f);
                                return Ok(ReturnValue::Immediate(Value::Object(f)));
                            },
                            Option::None => {},
                        }
                    }
                }
                let is_set_only = self.objects[obj].base().has_own_virtual_set_only_property(&qn);
                if self.has_own_property(obj, &qn) && !is_set_only {
                    self.get_property_local(obj, &qn)
                } else {
                    match self.proto(obj) {
                        Option::Some(p) => self.get_property(p, receiver, mn),
                        Option::None => Ok(ReturnValue::Immediate(Value::Undefined)),
                    }
                }
            },
        }
    }
}

/// The qualified name a write settles on: the resolved name, or a fresh
/// public dynamic name on a dynamic (non-sealed) object; `None` when the
/// write must fail (a sealed class, or a multiname with no local name).
pub open spec fn write_name(objects: Seq<Object>, o: int, mn: Multiname) -> Option<QName> {
    match resolve_multiname_spec(objects, o, mn) {
        Option::Some(qn) => Some(qn),
        Option::None => {
            if !sealed_of(objects, o) && mn.name is Some {
                Some(QName { ns: crate::names::Namespace::Public, local: mn.name->0 })
            } else {
                None
            }
        },
    }
}

/// Whether a write to `name` on the object at `o` is rejected outright
/// because the name is a known instance or class method, whether or not
/// it has been materialized yet.
pub open spec fn method_guarded(objects: Seq<Object>, o: int, name: QName) -> bool {
    let b = objects[o].spec_base();
    ||| (b.instance_of is Some && (b.instance_of->0 as int) < objects.len() && chain_method_trait(
        objects,
        b.instance_of->0 as int,
        name,
    ) is Some)
    ||| (objects[o] is Class && chain_class_method_trait(objects, o, name) is Some)
}

/// What a write of `value` under `name` does to the storage base, and
/// what it reports: a fresh name becomes a stored enumerable binding; a
/// stored binding or a writable slot is overwritten; a setter defers; a
/// const slot, a method and a getter-only binding are read-only.
pub open spec fn base_write_post(
    preb: ObjectData,
    postb: ObjectData,
    name: QName,
    value: Value,
    r: Result<ReturnValue, Error>,
) -> bool {
    match lookup(preb.values@, name) {
        Option::None => {
            &&& r == Ok::<ReturnValue, Error>(ReturnValue::Immediate(Value::Undefined))
            &&& lookup(postb.values@, name) == Some(Property::Stored { value })
            &&& (forall|n2: QName|
                !crate::names::qn_eq(n2, name) ==> #[trigger] lookup(postb.values@, n2) == lookup(
                    preb.values@,
                    n2,
                ))
            &&& postb.enumerants@ == preb.enumerants@.push(name)
            &&& crate::storage::same_except_values_enumerants(preb, postb)
        },
        Option::Some(p) => match p {
            Property::Stored { .. } => {
                &&& r == Ok::<ReturnValue, Error>(ReturnValue::Immediate(Value::Undefined))
                &&& lookup(postb.values@, name) == Some(Property::Stored { value })
                &&& (forall|n2: QName|
                    !crate::names::qn_eq(n2, name) ==> #[trigger] lookup(postb.values@, n2)
                        == lookup(preb.values@, n2))
                &&& crate::storage::same_except_values(preb, postb)
            },
            Property::Slot { slot_id } => (match preb.spec_slot(slot_id) {
                Option::Some(_) => {
                    &&& r == Ok::<ReturnValue, Error>(ReturnValue::Immediate(Value::Undefined))
                    &&& postb.slots@ == preb.slots@.update(slot_id as int, Some(value))
                    &&& postb.values == preb.values
                    &&& crate::storage::same_except_values_slots(preb, postb)
                },
                Option::None => r == Err::<ReturnValue, Error>(
                    Error::RangeError { index: slot_id as usize },
                ) && postb == preb,
            }),
            Property::ConstSlot { .. } => r == Err::<ReturnValue, Error>(
                Error::ReadOnlyOverwrite { local: name.local },
            ) && postb == preb,
            Property::Method { .. } => r == Err::<ReturnValue, Error>(
                Error::ReadOnlyOverwrite { local: name.local },
            ) && postb == preb,
            Property::Virtual { getter, setter } => (match setter {
                Option::Some(st) => {
                    &&& r is Ok
                    &&& r->Ok_0 is Deferred
                    &&& r->Ok_0->Deferred_callee == st
                    &&& r->Ok_0->Deferred_args@ == seq![value]
                    &&& postb == preb
                },
                Option::None => r == Err::<ReturnValue, Error>(
                    Error::ReadOnlyOverwrite { local: name.local },
                ) && postb == preb,
            }),
        },
    }
}

/// As the write, except that a const slot accepts the value:
/// initialization is the one ordinary path that fills write-once slots.
pub open spec fn base_init_post(
    preb: ObjectData,
    postb: ObjectData,
    name: QName,
    value: Value,
    r: Result<ReturnValue, Error>,
) -> bool {
    match lookup(preb.values@, name) {
        Option::Some(Property::ConstSlot { slot_id }) => (match preb.spec_slot(slot_id) {
            Option::Some(_) => {
                &&& r == Ok::<ReturnValue, Error>(ReturnValue::Immediate(Value::Undefined))
                &&& postb.slots@ == preb.slots@.update(slot_id as int, Some(value))
                &&& postb.values == preb.values
                &&& crate::storage::same_except_values_slots(preb, postb)
            },
            Option::None => r == Err::<ReturnValue, Error>(
                Error::RangeError { index: slot_id as usize },
            ) && postb == preb,
        }),
        Option::Some(Property::Virtual { .. }) => {
            &&& r == Ok::<ReturnValue, Error>(ReturnValue::Immediate(Value::Undefined))
            &&& lookup(postb.values@, name) == Some(Property::Stored { value })
            &&& (forall|n2: QName|
                !crate::names::qn_eq(n2, name) ==> #[trigger] lookup(postb.values@, n2) == lookup(
                    preb.values@,
                    n2,
                ))
            &&& crate::storage::same_except_values(preb, postb)
        },
        _ => base_write_post(preb, postb, name, value, r),
    }
}

/// The value a vector element write stores: `Undefined` and `Null`
/// collapse to the element type's default value; everything else is
/// stored as handed in (further conversion is the interpreter's).
pub open spec fn coerce_for_vector(objects: Seq<Object>, vt: int, value: Value) -> Value {
    if value is Undefined || value is Null {
        objects[vt]->Class_0.cls.default_value
    } else {
        value
    }
}

/// What an element write does to a vector object: an in-range index is
/// overwritten; the index one past the end grows a non-fixed vector; any
/// other index is rejected. Only the element storage changes.
pub open spec fn vector_write_post(
    pre: Seq<Object>,
    post: Seq<Object>,
    o: int,
    idx: nat,
    value: Value,
    r: Result<ReturnValue, Error>,
) -> bool {
    let v = pre[o]->Vector_0.vector;
    let coerced = coerce_for_vector(pre, v.value_type as int, value);
    if idx < v.storage@.len() {
        &&& r == Ok::<ReturnValue, Error>(ReturnValue::Immediate(Value::Undefined))
        &&& post.len() == pre.len()
        &&& (forall|j: int| 0 <= j < pre.len() && j != o ==> post[j] == #[trigger] pre[j])
        &&& post[o] is Vector
        &&& post[o]->Vector_0.vector.storage@ == v.storage@.update(idx as int, coerced)
        &&& post[o]->Vector_0.vector.is_fixed == v.is_fixed
        &&& post[o]->Vector_0.vector.value_type == v.value_type
        &&& post[o].spec_base() == pre[o].spec_base()
    } else if idx == v.storage@.len() && !v.is_fixed {
        &&& r == Ok::<ReturnValue, Error>(ReturnValue::Immediate(Value::Undefined))
        &&& post.len() == pre.len()
        &&& (forall|j: int| 0 <= j < pre.len() && j != o ==> post[j] == #[trigger] pre[j])
        &&& post[o] is Vector
        &&& post[o]->Vector_0.vector.storage@ == v.storage@.push(coerced)
        &&& post[o]->Vector_0.vector.is_fixed == v.is_fixed
        &&& post[o]->Vector_0.vector.value_type == v.value_type
        &&& post[o].spec_base() == pre[o].spec_base()
    } else {
        r == Err::<ReturnValue, Error>(Error::RangeError { index: idx as usize }) && post == pre
    }
}

/// A trait `chain_method_trait` finds is always a method trait.
pub proof fn lemma_chain_method_trait_is_method(objects: Seq<Object>, c: int, name: QName)
    ensures
        chain_method_trait(objects, c, name) is Some ==> chain_method_trait(
            objects,
            c,
            name,
        )->Some_0.1.kind is Method,
    decreases c,
{
    if 0 <= c < objects.len() && objects[c] is Class {
        let cd = objects[c]->Class_0.cls;
        lemma_find_method_trait_is_method(cd.instance_traits@, name);
        if cd.superclass is Some && (cd.superclass->0 as int) < c {
            lemma_chain_method_trait_is_method(objects, cd.superclass->0 as int, name);
        }
    }
}

/// A trait `chain_class_method_trait` finds is always a method trait.
pub proof fn lemma_chain_class_method_trait_is_method(objects: Seq<Object>, c: int, name: QName)
    ensures
        chain_class_method_trait(objects, c, name) is Some ==> chain_class_method_trait(
            objects,
            c,
            name,
        )->Some_0.1.kind is Method,
    decreases c,
{
    if 0 <= c < objects.len() && objects[c] is Class {
        let cd = objects[c]->Class_0.cls;
        lemma_find_method_trait_is_method(cd.class_traits@, name);
        if cd.superclass is Some && (cd.superclass->0 as int) < c {
            lemma_chain_class_method_trait_is_method(objects, cd.superclass->0 as int, name);
        }
    }
}

/// A trait `find_method_trait` finds is always a method trait.
pub proof fn lemma_find_method_trait_is_method(traits: Seq<crate::object::TraitDecl>, name: QName)
    ensures
        crate::resolve::find_method_trait(traits, name) is Some
            ==> crate::resolve::find_method_trait(traits, name)->Some_0.kind is Method,
    decreases traits.len(),
{
    if traits.len() > 0 {
        lemma_find_method_trait_is_method(traits.drop_first(), name);
    }
}


impl Avm {
    /// Write a vector element: in range overwrites, one past the end
    /// grows a non-fixed vector, anything else is rejected. `Undefined`
    /// and `Null` store the element type's default value.
    fn vector_write(&mut self, obj: ObjId, idx: usize, value: Value) -> (r: Result<
        ReturnValue,
        Error,
    >)
        requires
            old(self).wf(),
            (obj as int) < old(self).objects@.len(),
            old(self).objects@[obj as int] is Vector,
        ensures
            final(self).wf(),
            vector_write_post(
                old(self).objects@,
                final(self).objects@,
                obj as int,
                idx as nat,
                value,
                r,
            ),
            class_structure_same(old(self).objects@, final(self).objects@),
            final(self).method_infos == old(self).method_infos,
            final(self).object_class == old(self).object_class,
            final(self).vector_class == old(self).vector_class,
    {
        proof {
            assert(obj_wf(self.objects@, obj as int));
        }
        let vt: ObjId = match &self.objects[obj] {
            Object::Vector(v) => v.vector.value_type,
            _ => 0,
        };
        let coerced: Value = match &value {
            Value::Undefined => self.class_default_value(vt),
            Value::Null => self.class_default_value(vt),
            _ => value,
        };
        let ghost pre = self.objects@;
        let o = &mut self.objects[obj];
        match o {
            Object::Vector(v) => {
                let n = v.vector.storage.len();
                if idx < n {
                    v.vector.storage[idx] = coerced;
                    proof {
                        lemma_heap_wf_update(pre, obj as int, self.objects@[obj as int]);
                    }
                    Ok(ReturnValue::Immediate(Value::Undefined))
                } else if idx == n && !v.vector.is_fixed {
                    v.vector.storage.push(coerced);
                    proof {
                        lemma_heap_wf_update(pre, obj as int, self.objects@[obj as int]);
                    }
                    Ok(ReturnValue::Immediate(Value::Undefined))
                } else {
                    proof {
                        assert(self.objects@ =~= pre);
                    }
                    Err(Error::RangeError { index: idx })
                }
            },
            _ => Err(Error::RangeError { index: idx }),
        }
    }

    /// The default value of the class at `class`: what a vector element
    /// of this type holds in place of `Undefined` or `Null`.
    fn class_default_value(&self, class: ObjId) -> (r: Value)
        requires
            (class as int) < self.objects@.len(),
            self.objects@[class as int] is Class,
        ensures
            r == self.objects@[class as int]->Class_0.cls.default_value,
    {
        match &self.objects[class] {
            Object::Class(co) => co.cls.default_value.clone(),
            _ => Value::Undefined,
        }
    }

    /// The write path shared by set and init: name the target, apply the
    /// method read-only guard, then write locally per the object's kind.
    /// `init` selects initialization semantics: const slots accept the
    /// value and virtual bindings are overwritten directly, with no
    /// setter call.
    fn write_property(&mut self, obj: ObjId, mn: &Multiname, value: Value, init: bool) -> (r:
        Result<ReturnValue, Error>)
        requires
            old(self).wf(),
            (obj as int) < old(self).objects@.len(),
        ensures
            final(self).wf(),
            class_structure_same(old(self).objects@, final(self).objects@),
            final(self).objects@.len() == old(self).objects@.len(),
            final(self).method_infos == old(self).method_infos,
            final(self).object_class == old(self).object_class,
            final(self).vector_class == old(self).vector_class,
            (match write_name(old(self).objects@, obj as int, *mn) {
                Option::None => r == Err::<ReturnValue, Error>(
                    Error::UndefinedPropertyWrite { name: mn.name },
                ) && same_avm(*old(self), *final(self)),
                Option::Some(qn) => {
                    if method_guarded(old(self).objects@, obj as int, qn) {
                        r == Err::<ReturnValue, Error>(
                            Error::ReadOnlyOverwrite { local: qn.local },
                        ) && same_avm(*old(self), *final(self))
                    } else if old(self).objects@[obj as int] is Vector && ns_is_public(qn.ns)
                        && is_index_str(qn.local@) {
                        vector_write_post(
                            old(self).objects@,
                            final(self).objects@,
                            obj as int,
                            dec_value(qn.local@),
                            value,
                            r,
                        )
                    } else {
                        &&& only_base_changed(
                            old(self).objects@,
                            final(self).objects@,
                            obj as int,
                        )
                        &&& (if init {
                            base_init_post(
                                old(self).base_of(obj),
                                final(self).base_of(obj),
                                qn,
                                value,
                                r,
                            )
                        } else {
                            base_write_post(
                                old(self).base_of(obj),
                                final(self).base_of(obj),
                                qn,
                                value,
                                r,
                            )
                        })
                    }
                },
            }),
    {
        proof {
            assert(obj_wf(self.objects@, obj as int));
        }
        let resolved = self.resolve_multiname(obj, mn);
        let qn: QName = match resolved {
            Option::Some(qn) => qn,
            Option::None => {
                if self.is_sealed(obj) {
                    let n = match mn.local_name() {
                        Option::Some(l) => Some(l.clone()),
                        Option::None => None,
                    };
                    return Err(Error::UndefinedPropertyWrite { name: n });
                }
                match mn.local_name() {
                    Option::Some(l) => QName::dynamic_name(l.clone()),
                    Option::None => {
                        return Err(Error::UndefinedPropertyWrite { name: None });
                    },
                }
            },
        };
        match self.instance_of(obj) {
            Option::Some(class) => {
                proof {
                    assert((class as int) < self.objects@.len() && self.objects@[class as int]
                        is Class);
                }
                if self.instance_method_trait(class, &qn).is_some() {
                    return Err(Error::ReadOnlyOverwrite { local: qn.local });
                }
            },
            Option::None => {},
        }
        let is_class = match &self.objects[obj] {
            Object::Class(_) => true,
            _ => false,
        };
        if is_class {
            if self.class_method_trait(obj, &qn).is_some() {
                return Err(Error::ReadOnlyOverwrite { local: qn.local });
            }
        }
        let is_vector = match &self.objects[obj] {
            Object::Vector(_) => true,
            _ => false,
        };
        if is_vector && qn.namespace().is_public() {
            match parse_index(qn.local_name().as_str()) {
                Option::Some(idx) => {
                    return self.vector_write(obj, idx, value);
                },
                Option::None => {},
            }
        }
        let ghost pre = self.objects@;
        let o = &mut self.objects[obj];
        let r = if init {
            o.base_mut().init_property_local(&qn, value)
        } else {
            o.base_mut().set_property_local(&qn, value)
        };
        proof {
            lemma_heap_wf_update(pre, obj as int, self.objects@[obj as int]);
        }
        r
    }

    /// Set a property by multiname. An unresolved name on a dynamic
    /// object becomes a fresh public dynamic binding; on a sealed class,
    /// or with no local name at all, the write fails. A name any class
    /// along the chain declares as an instance or class method is
    /// rejected as read-only, materialized or not. The write itself is
    /// local to the object: the prototype is never written through.
    pub fn set_property(&mut self, obj: ObjId, receiver: ObjId, mn: &Multiname, value: Value) -> (r:
        Result<ReturnValue, Error>)
        requires
            old(self).wf(),
            (obj as int) < old(self).objects@.len(),
            (receiver as int) < old(self).objects@.len(),
        ensures
            final(self).wf(),
            class_structure_same(old(self).objects@, final(self).objects@),
            final(self).objects@.len() == old(self).objects@.len(),
            final(self).method_infos == old(self).method_infos,
            final(self).object_class == old(self).object_class,
            final(self).vector_class == old(self).vector_class,
            (match write_name(old(self).objects@, obj as int, *mn) {
                Option::None => r == Err::<ReturnValue, Error>(
                    Error::UndefinedPropertyWrite { name: mn.name },
                ) && same_avm(*old(self), *final(self)),
                Option::Some(qn) => {
                    if method_guarded(old(self).objects@, obj as int, qn) {
                        r == Err::<ReturnValue, Error>(
                            Error::ReadOnlyOverwrite { local: qn.local },
                        ) && same_avm(*old(self), *final(self))
                    } else if old(self).objects@[obj as int] is Vector && ns_is_public(qn.ns)
                        && is_index_str(qn.local@) {
                        vector_write_post(
                            old(self).objects@,
                            final(self).objects@,
                            obj as int,
                            dec_value(qn.local@),
                            value,
                            r,
                        )
                    } else {
                        only_base_changed(
                            old(self).objects@,
                            final(self).objects@,
                            obj as int,
                        ) && base_write_post(
                            old(self).base_of(obj),
                            final(self).base_of(obj),
                            qn,
                            value,
                            r,
                        )
                    }
                },
            }),
    {
        let _ = receiver;
        self.write_property(obj, mn, value, false)
    }

    /// Initialize a property by multiname: as the set operation, except
    /// that initialization bypasses setter semantics — write-once const
    /// slots accept the value, and a virtual binding is overwritten with
    /// the stored value directly rather than deferring to its setter.
    pub fn init_property(&mut self, obj: ObjId, receiver: ObjId, mn: &Multiname, value: Value) -> (
        r: Result<ReturnValue, Error>)
        requires
            old(self).wf(),
            (obj as int) < old(self).objects@.len(),
            (receiver as int) < old(self).objects@.len(),
        ensures
            final(self).wf(),
            class_structure_same(old(self).objects@, final(self).objects@),
            final(self).objects@.len() == old(self).objects@.len(),
            final(self).method_infos == old(self).method_infos,
            final(self).object_class == old(self).object_class,
            final(self).vector_class == old(self).vector_class,
            (match write_name(old(self).objects@, obj as int, *mn) {
                Option::None => r == Err::<ReturnValue, Error>(
                    Error::UndefinedPropertyWrite { name: mn.name },
                ) && same_avm(*old(self), *final(self)),
                Option::Some(qn) => {
                    if method_guarded(old(self).objects@, obj as int, qn) {
                        r == Err::<ReturnValue, Error>(
                            Error::ReadOnlyOverwrite { local: qn.local },
                        ) && same_avm(*old(self), *final(self))
                    } else if old(self).objects@[obj as int] is Vector && ns_is_public(qn.ns)
                        && is_index_str(qn.local@) {
                        vector_write_post(
                            old(self).objects@,
                            final(self).objects@,
                            obj as int,
                            dec_value(qn.local@),
                            value,
                            r,
                        )
                    } else {
                        only_base_changed(
                            old(self).objects@,
                            final(self).objects@,
                            obj as int,
                        ) && base_init_post(
                            old(self).base_of(obj),
                            final(self).base_of(obj),
                            qn,
                            value,
                            r,
                        )
                    }
                },
            }),
    {
        let _ = receiver;
        self.write_property(obj, mn, value, true)
    }

    /// Delete a property by multiname. An unresolved name deletes
    /// "successfully" on a dynamic object and unsuccessfully on a sealed
    /// one; a not-yet-materialized inherited method resists deletion; a
    /// vector element index reports success without storing anything;
    /// otherwise only directly stored dynamic bindings can be removed.
    /// Deletion is deliberately narrower than bare own-binding removal:
    /// trait slots, const slots, materialized methods and virtual
    /// bindings all resist it and report failure, so a true result does
    /// not coincide with prior own-property existence. Prototype-chain
    /// bindings are never touched, so a chained lookup may still find
    /// the name afterwards.
    pub fn delete_property(&mut self, obj: ObjId, mn: &Multiname) -> (r: Result<bool, Error>)
        requires
            old(self).wf(),
            (obj as int) < old(self).objects@.len(),
        ensures
            final(self).wf(),
            class_structure_same(old(self).objects@, final(self).objects@),
            final(self).objects@.len() == old(self).objects@.len(),
            final(self).method_infos == old(self).method_infos,
            final(self).object_class == old(self).object_class,
            final(self).vector_class == old(self).vector_class,
            (match resolve_multiname_spec(old(self).objects@, obj as int, *mn) {
                Option::None => r == Ok::<bool, Error>(
                    !sealed_of(old(self).objects@, obj as int),
                ) && same_avm(*old(self), *final(self)),
                Option::Some(qn) => {
                    if lazy_applies(old(self).objects@, obj as int, qn) {
                        r == Ok::<bool, Error>(false) && same_avm(*old(self), *final(self))
                    } else if old(self).objects@[obj as int] is Vector && ns_is_public(qn.ns)
                        && is_index_str(qn.local@) {
                        r == Ok::<bool, Error>(true) && same_avm(*old(self), *final(self))
                    } else {
                        &&& only_base_changed(
                            old(self).objects@,
                            final(self).objects@,
                            obj as int,
                        )
                        &&& r == Ok::<bool, Error>(
                            lookup(old(self).base_of(obj).values@, qn) matches Some(
                                Property::Stored { .. },
                            ),
                        )
                        &&& (r == Ok::<bool, Error>(true) ==> lookup(
                            final(self).base_of(obj).values@,
                            qn,
                        ) is None && (forall|n2: QName|
                            !crate::names::qn_eq(n2, qn) ==> #[trigger] lookup(
                                final(self).base_of(obj).values@,
                                n2,
                            ) == lookup(old(self).base_of(obj).values@, n2)))
                        &&& (r == Ok::<bool, Error>(false) ==> same_avm(
                            *old(self),
                            *final(self),
                        ))
                    }
                },
            }),
    {
        proof {
            assert(obj_wf(self.objects@, obj as int));
        }
        let resolved = self.resolve_multiname(obj, mn);
        let qn: QName = match resolved {
            Option::Some(qn) => qn,
            Option::None => {
                let s = self.is_sealed(obj);
                return Ok(!s);
            },
        };
        if !self.has_own_instantiated_property(obj, &qn) {
            match self.instance_of(obj) {
                Option::Some(class) => {
                    proof {
                        assert((class as int) < self.objects@.len() && self.objects@[class as int]
                            is Class);
                    }
                    if self.instance_method_trait(class, &qn).is_some() {
                        return Ok(false);
                    }
                },
                Option::None => {},
            }
            let is_class = match &self.objects[obj] {
                Object::Class(_) => true,
                _ => false,
            };
            if is_class {
                if self.class_method_trait(obj, &qn).is_some() {
                    return Ok(false);
                }
            }
        }
        let is_vector = match &self.objects[obj] {
            Object::Vector(_) => true,
            _ => false,
        };
        if is_vector && qn.namespace().is_public() {
            if parse_index(qn.local_name().as_str()).is_some() {
                return Ok(true);
            }
        }
        let ghost pre = self.objects@;
        let o = &mut self.objects[obj];
        let deleted = o.base_mut().delete_property(&qn);
        proof {
            lemma_heap_wf_update(pre, obj as int, self.objects@[obj as int]);
            if !deleted {
                assert(self.objects@ =~= pre);
            }
        }
        Ok(deleted)
    }
}

} // verus!
