//! The vector-backed object kind: the worked storage specialization.
//!
//! Element indices are intercepted in the public namespace before the
//! name-keyed base is consulted: reads return `Undefined` out of range,
//! writes coerce `Undefined` and `Null` to the element type's default
//! value, and enumeration reflects the current element count rather than
//! the stored-binding table. This intercept-then-fall-back pattern is the
//! template every other specialized storage follows.
//!
//! Two modeling choices: conversion of a written value to the element
//! type belongs to the interpreter, so the model stores non-`Undefined`,
//! non-`Null` values as handed in and collapses only those two sentinels
//! to the type's default; and enumerant names are the decimal strings of
//! the element indices (the numeric payload being opaque here), which the
//! value lookup parses back.

use vstd::prelude::*;
use vstd::string::StringExecFns;
use crate::ObjId;
use crate::avm::{Avm, class_structure_same};
use crate::decimal::{dec_value, format_index, is_digit_seq, is_index_str};
use crate::names::{Multiname, QName};
use crate::object::{lemma_heap_wf_push, Object, obj_wf, VectorObjectData, VectorStorage};
use crate::storage::lookup;
use crate::storage::spec_next_enumerant;
use crate::value::{Error, ReturnValue, Value};

verus! {

impl VectorStorage {
    /// Fresh element storage of the given element type.
    pub fn new(is_fixed: bool, value_type: ObjId) -> (r: VectorStorage)
        ensures
            r.storage@.len() == 0,
            r.is_fixed == is_fixed,
            r.value_type == value_type,
    {
        VectorStorage { storage: Vec::new(), is_fixed, value_type }
    }

    /// The element at `pos`, if in range.
    pub fn get(&self, pos: usize) -> (r: Option<Value>)
        ensures
            (pos as int) < self.storage@.len() ==> r == Some(self.storage@[pos as int]),
            (pos as int) >= self.storage@.len() ==> r is None,
    {
        if pos < self.storage.len() {
            Some(self.storage[pos].clone())
        } else {
            None
        }
    }

    /// Whether `pos` is a live element index.
    pub fn is_in_range(&self, pos: usize) -> (r: bool)
        ensures
            r == ((pos as int) < self.storage@.len()),
    {
        pos < self.storage.len()
    }

    /// The current element count.
    pub fn length(&self) -> (r: usize)
        ensures
            r == self.storage@.len(),
    {
        self.storage.len()
    }
}

/// The instance allocator for the vector class: a vector object with no
/// elements, associated with the class's explicit prototype. The element
/// type is the class's applied parameter; an unapplied (or any-typed)
/// vector class falls back to the baseline object class, so prototypes of
/// the unspecialized class can still be built.
pub fn vector_allocator(avm: &mut Avm, class: ObjId, proto: ObjId) -> (r: Result<ObjId, Error>)
    requires
        old(avm).wf(),
        (class as int) < old(avm).objects@.len(),
        old(avm).objects@[class as int] is Class,
        (proto as int) < old(avm).objects@.len(),
    ensures
        final(avm).wf(),
        r is Ok,
        r->Ok_0 as int == old(avm).objects@.len(),
        final(avm).objects@.len() == old(avm).objects@.len() + 1,
        forall|j: int|
            0 <= j < old(avm).objects@.len() ==> final(avm).objects@[j] == old(avm).objects@[j],
        final(avm).objects@[r->Ok_0 as int] is Vector,
        final(avm).objects@[r->Ok_0 as int]->Vector_0.vector.storage@.len() == 0,
        !final(avm).objects@[r->Ok_0 as int]->Vector_0.vector.is_fixed,
        final(avm).base_of(r->Ok_0).values@.len() == 0,
        final(avm).base_of(r->Ok_0).slots@.len() == 0,
        final(avm).base_of(r->Ok_0).bound_methods@.len() == 0,
        final(avm).base_of(r->Ok_0).enumerants@.len() == 0,
        final(avm).objects@[r->Ok_0 as int]->Vector_0.vector.value_type == ({
            let param = old(avm).objects@[class as int]->Class_0.cls.param;
            if param is Some && param->0 is Some {
                param->0->0
            } else if old(avm).object_class is Some {
                old(avm).object_class->0
            } else {
                class
            }
        }),
        final(avm).base_of(r->Ok_0).proto == Some(proto),
        final(avm).base_of(r->Ok_0).instance_of == Some(class),
        final(avm).method_infos == old(avm).method_infos,
        final(avm).object_class == old(avm).object_class,
        final(avm).vector_class == old(avm).vector_class,
{
    proof {
        assert(obj_wf(avm.objects@, class as int));
    }
    let param: Option<Option<ObjId>> = match &avm.objects[class] {
        Object::Class(co) => co.cls.param,
        _ => None,
    };
    let value_type: ObjId = match param {
        Option::Some(Option::Some(p)) => p,
        _ => match avm.object_class {
            Option::Some(oc) => oc,
            Option::None => class,
        },
    };
    let id = avm.objects.len();
    let o = Object::Vector(
        VectorObjectData {
            base: crate::storage::ObjectData::base_new(Some(proto), Some(class)),
            vector: VectorStorage::new(false, value_type),
        },
    );
    proof {
        lemma_heap_wf_push(avm.objects@, o);
    }
    avm.objects.push(o);
    Ok(id)
}

/// A typed handle naming a vector-kind object.
pub struct VectorObject(pub ObjId);

impl VectorObject {
    /// Wrap existing element storage in a fresh vector object: apply the
    /// generic vector class to the storage's element type (memoized, so
    /// repeated wrapping shares one applied class), associate the object
    /// with the applied class and its prototype, and install the
    /// instance traits. On a first parameterization the wrap always
    /// succeeds and the result holds exactly the given storage; on a
    /// memoized one it succeeds as long as the cached class still
    /// publishes its prototype (mutations since could have reshaped it).
    pub fn from_vector(avm: &mut Avm, vector: VectorStorage) -> (r: Result<VectorObject, Error>)
        requires
            old(avm).wf(),
            (vector.value_type as int) < old(avm).objects@.len(),
            old(avm).objects@[vector.value_type as int] is Class,
            old(avm).vector_class is Some,
        ensures
            final(avm).wf(),
            class_structure_same(old(avm).objects@, final(avm).objects@),
            r is Ok ==> ({
                let fobjs = final(avm).objects@;
                (r->Ok_0.0 as int) < fobjs.len() && fobjs[r->Ok_0.0 as int] is Vector
            }),
            ({
                let vc = old(avm).vector_class->0;
                let pre = old(avm).objects@;
                ((vc as int) < pre.len() && pre[vc as int] is Class
                    && pre[vc as int]->Class_0.cls.generic && crate::class::find_application(
                    pre[vc as int]->Class_0.cls.applications@,
                    Some(vector.value_type),
                ) is None) ==> ({
                    let applied = (pre.len() + 1) as ObjId;
                    &&& r is Ok
                    &&& r->Ok_0.0 as int == pre.len() + 2
                    &&& final(avm).objects@[pre.len() as int + 2] is Vector
                    &&& final(avm).objects@[pre.len() as int + 2]->Vector_0.vector.storage@
                        == vector.storage@
                    &&& final(avm).objects@[pre.len() as int + 2]->Vector_0.vector.is_fixed
                        == vector.is_fixed
                    &&& final(avm).objects@[pre.len() as int + 2]->Vector_0.vector.value_type
                        == vector.value_type
                    &&& final(avm).base_of(r->Ok_0.0).instance_of == Some(applied)
                    &&& final(avm).base_of(r->Ok_0.0).proto == Some((pre.len()) as ObjId)
                    &&& crate::class::find_application(
                        final(avm).objects@[vc as int]->Class_0.cls.applications@,
                        Some(vector.value_type),
                    ) == Some(applied)
                })
            }),
            final(avm).method_infos == old(avm).method_infos,
            final(avm).object_class == old(avm).object_class,
            final(avm).vector_class == old(avm).vector_class,
    {
        let vc = match avm.vector_class {
            Option::Some(vc) => vc,
            Option::None => {
                return Err(Error::NotParameterizedType);
            },
        };
        let applied = match avm.apply(vc, &Value::Object(vector.value_type)) {
            Result::Ok(a) => a,
            Result::Err(e) => {
                return Err(e);
            },
        };
        if !(applied < avm.objects.len()) {
            return Err(Error::NotAnObject);
        }
        let mn = Multiname::dynamic_name(String::from_str("prototype"));
        proof {
            let qnm = QName { ns: mn.ns_set@[0], local: mn.name->0 };
            assert(crate::class::is_prototype_name(qnm));
            if avm.objects@[applied as int] is Class && (lookup(
                avm.base_of(applied).values@,
                qnm,
            ) matches Option::Some(crate::storage::Property::Stored { .. })) {
                crate::laws::lemma_get_reads_own_binding(avm.objects@, applied as int, mn);
            }
        }
        let got = match avm.get_property(applied, applied, &mn) {
            Result::Ok(v) => v,
            Result::Err(e) => {
                return Err(e);
            },
        };
        let proto = match got {
            ReturnValue::Immediate(Value::Object(p)) => p,
            _ => {
                return Err(Error::NotAnObject);
            },
        };
        if !(proto < avm.objects.len()) {
            return Err(Error::NotAnObject);
        }
        let is_class = match &avm.objects[applied] {
            Object::Class(_) => true,
            _ => false,
        };
        if !is_class {
            return Err(Error::NotAnObject);
        }
        let id = avm.objects.len();
        let o = Object::Vector(
            VectorObjectData {
                base: crate::storage::ObjectData::base_new(Some(proto), Some(applied)),
                vector,
            },
        );
        proof {
            lemma_heap_wf_push(avm.objects@, o);
        }
        avm.objects.push(o);
        avm.install_instance_traits(id, applied);
        Ok(VectorObject(id))
    }
}

/// Whether `qn` is the public name with the given local-name text.
pub open spec fn named_public(qn: QName, local: Seq<char>) -> bool {
    qn.ns is Public && qn.local@ == local
}

/// The next enumeration index the object at `o` reports from
/// `last_index`. A vector enumerates its current element count; every
/// other kind walks its enumeration order.
pub open spec fn next_enumerant_spec(objects: Seq<Object>, o: int, last_index: u32) -> Option<u32> {
    match objects[o] {
        Object::Vector(v) => {
            if (last_index as int) < v.vector.storage@.len() && last_index < u32::MAX {
                Some((last_index + 1) as u32)
            } else {
                None
            }
        },
        _ => spec_next_enumerant(objects[o].spec_base(), last_index),
    }
}

impl Avm {
    /// The next enumeration index after `last_index` on the object at
    /// `obj`, with 0 meaning "start" and `None` meaning exhausted.
    /// Repeatedly feeding results back in walks every enumerant exactly
    /// once.
    pub fn get_next_enumerant(&self, obj: ObjId, last_index: u32) -> (r: Option<u32>)
        requires
            (obj as int) < self.objects@.len(),
        ensures
            r == next_enumerant_spec(self.objects@, obj as int, last_index),
    {
        match &self.objects[obj] {
            Object::Vector(v) => {
                if (last_index as usize) < v.vector.storage.len() && last_index < u32::MAX {
                    Some(last_index + 1)
                } else {
                    None
                }
            },
            _ => self.objects[obj].base().get_next_enumerant(last_index),
        }
    }

    /// The name at enumeration index `index` on the object at `obj`. A
    /// vector names its elements by their decimal index; other kinds
    /// report the stored name. Index 0 is the start sentinel and names
    /// nothing; past the end a vector reports the empty string and other
    /// kinds report `Undefined`.
    pub fn get_enumerant_name(&self, obj: ObjId, index: u32) -> (r: Value)
        requires
            (obj as int) < self.objects@.len(),
        ensures
            (match self.objects@[obj as int] {
                Object::Vector(v) => {
                    if index as int <= v.vector.storage@.len() {
                        if index == 0 {
                            r == Value::Undefined
                        } else {
                            r is String && is_digit_seq(r->String_0@) && dec_value(r->String_0@)
                                == index - 1 && is_index_str(r->String_0@)
                        }
                    } else {
                        r is String && r->String_0@.len() == 0
                    }
                },
                _ => {
                    let b = self.objects@[obj as int].spec_base();
                    if 1 <= index && index as int <= b.enumerants@.len() {
                        r is String && r->String_0@ == b.enumerants@[index as int - 1].local@
                    } else {
                        r == Value::Undefined
                    }
                },
            }),
    {
        match &self.objects[obj] {
            Object::Vector(v) => {
                if (index as usize) <= v.vector.storage.len() {
                    if index == 0 {
                        Value::Undefined
                    } else {
                        Value::String(format_index((index - 1) as usize))
                    }
                } else {
                    Value::String(String::new())
                }
            },
            _ => match self.objects[obj].base().get_enumerant_name(index) {
                Option::Some(v) => v,
                Option::None => Value::Undefined,
            },
        }
    }

    /// The value at enumeration index `index` on the object at `obj`:
    /// the enumerant's name re-enters the ordinary named-get path in the
    /// public namespace, so kinds only need to specialize names and
    /// cursor movement, not value retrieval. In particular, on a
    /// name-keyed object whose own storage directly binds the enumerant
    /// name in the public namespace, the stored value comes back.
    pub fn get_enumerant_value(&mut self, obj: ObjId, index: u32) -> (r: Result<
        ReturnValue,
        Error,
    >)
        requires
            old(self).wf(),
            (obj as int) < old(self).objects@.len(),
        ensures
            final(self).wf(),
            class_structure_same(old(self).objects@, final(self).objects@),
            final(self).method_infos == old(self).method_infos,
            final(self).object_class == old(self).object_class,
            final(self).vector_class == old(self).vector_class,
            ({
                let b = old(self).base_of(obj);
                !(old(self).objects@[obj as int] is Vector) && 1 <= index && index as int
                    <= b.enumerants@.len() ==> (forall|qn: QName|
                    #[trigger] named_public(qn, b.enumerants@[index as int - 1].local@) ==> (
                    match lookup(b.values@, qn) {
                        Option::Some(crate::storage::Property::Stored { value }) => r == Ok::<
                            ReturnValue,
                            Error,
                        >(ReturnValue::Immediate(value)) && crate::avm::same_avm(
                            *old(self),
                            *final(self),
                        ),
                        _ => true,
                    }))
            }),
    {
        let name = self.get_enumerant_name(obj, index);
        let local: String = match name {
            Value::String(s) => s,
            _ => String::from_str("undefined"),
        };
        let mn = Multiname::dynamic_name(local);
        proof {
            let b = self.base_of(obj);
            if !(self.objects@[obj as int] is Vector) && 1 <= index && index as int
                <= b.enumerants@.len() {
                let target = b.enumerants@[index as int - 1].local@;
                assert(mn.name->0@ == target);
                let qnm = QName { ns: mn.ns_set@[0], local: mn.name->0 };
                assert forall|qn: QName| #[trigger] named_public(qn, target) && lookup(
                    b.values@,
                    qn,
                ) is Some implies lookup(b.values@, qnm) == lookup(b.values@, qn) by {
                    crate::laws::lemma_lookup_respects_qn_eq(b.values@, qnm, qn);
                }
                if lookup(b.values@, qnm) matches Option::Some(
                    crate::storage::Property::Stored { .. },
                ) {
                    crate::laws::lemma_get_reads_own_binding(self.objects@, obj as int, mn);
                }
            }
        }
        self.get_property(obj, obj, &mn)
    }
}

} // verus!
