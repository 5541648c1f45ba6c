//! The arena and the directly forwarded capability operations.
//!
//! Every operation of the capability interface is a method on `Avm`, the
//! arena owning all objects, and takes the object it works on as a handle.
//! Holding the arena exclusively (`&mut`) is the mutation capability: a
//! write can only happen through it, and shared reads can never observe a
//! write in progress. The operations in this file forward to the storage
//! base without per-kind dispatch; resolution, the dispatch core, traits,
//! enumeration and the class and vector operations build on them in the
//! neighbouring modules.

use vstd::prelude::*;
use crate::ObjId;
use crate::names::QName;
use crate::object::{heap_wf, lemma_heap_wf_push, lemma_heap_wf_update, MethodInfo, Object,
    ScriptObject};
use crate::storage::{lookup, names_contain, ObjectData};
use crate::value::{Error, Value};

verus! {

/// The arena: every object of one virtual-machine instance, the method
/// descriptors the interpreter registered, and the built-in class
/// identities the object model needs (the baseline `Object` class and the
/// generic vector class).
pub struct Avm {
    pub objects: Vec<Object>,
    pub method_infos: Vec<MethodInfo>,
    pub object_class: Option<ObjId>,
    pub vector_class: Option<ObjId>,
}

/// The objects at indices below `a.len()` keep their variant, their class
/// declaration (everything but the generic-application memo, which may
/// grow), and their class and prototype links in `b`. Reads that only
/// consult class structure give the same answer on both arenas.
pub open spec fn class_structure_same(a: Seq<Object>, b: Seq<Object>) -> bool {
    &&& a.len() <= b.len()
    &&& forall|j: int|
        0 <= j < a.len() ==> {
            &&& ((#[trigger] b[j]) is Class <==> a[j] is Class)
            &&& (a[j] is Class ==> class_decl_same(a[j]->Class_0.cls, b[j]->Class_0.cls))
            &&& b[j].spec_base().instance_of == a[j].spec_base().instance_of
            &&& b[j].spec_base().proto == a[j].spec_base().proto
        }
}

/// The two class payloads declare the same class: every field but the
/// generic-application memo agrees.
pub open spec fn class_decl_same(ca: crate::object::ClassData, cb: crate::object::ClassData) -> bool {
    &&& cb.name == ca.name
    &&& cb.sealed == ca.sealed
    &&& cb.superclass == ca.superclass
    &&& cb.instance_traits == ca.instance_traits
    &&& cb.class_traits == ca.class_traits
    &&& cb.proto == ca.proto
    &&& cb.instance_scope == ca.instance_scope
    &&& cb.class_scope == ca.class_scope
    &&& cb.interfaces == ca.interfaces
    &&& cb.param == ca.param
    &&& cb.generic == ca.generic
    &&& cb.allocator == ca.allocator
    &&& cb.default_value == ca.default_value
}

/// The two arenas hold the same objects, methods and built-in class
/// identities.
pub open spec fn same_avm(a: Avm, b: Avm) -> bool {
    &&& a.objects@ == b.objects@
    &&& a.method_infos@ == b.method_infos@
    &&& a.object_class == b.object_class
    &&& a.vector_class == b.vector_class
}

/// Exactly the storage base of the object at `o` differs between the two
/// arenas; its variant payload and every other object are untouched.
pub open spec fn only_base_changed(a: Seq<Object>, b: Seq<Object>, o: int) -> bool {
    &&& b.len() == a.len()
    &&& forall|j: int| 0 <= j < a.len() && j != o ==> a[j] == #[trigger] b[j]
    &&& b[o] == a[o].with_base(b[o].spec_base())
}

impl Avm {
    /// Arena-wide well-formedness: every object is well-formed and the
    /// registered built-in classes are classes.
    pub open spec fn wf(self) -> bool {
        &&& heap_wf(self.objects@)
        &&& (self.object_class is Some ==> (self.object_class->0 as int) < self.objects@.len()
            && self.objects@[self.object_class->0 as int] is Class)
        &&& (self.vector_class is Some ==> (self.vector_class->0 as int) < self.objects@.len()
            && self.objects@[self.vector_class->0 as int] is Class)
    }

    /// The storage base of the object at `o`.
    pub open spec fn base_of(self, o: ObjId) -> ObjectData {
        self.objects@[o as int].spec_base()
    }

    /// A fresh, empty arena.
    pub fn new() -> (r: Avm)
        ensures
            r.wf(),
            r.objects@.len() == 0,
            r.method_infos@.len() == 0,
            r.object_class is None,
            r.vector_class is None,
    {
        Avm { objects: Vec::new(), method_infos: Vec::new(), object_class: None, vector_class: None }
    }

    /// Register a method descriptor and hand back its id.
    pub fn register_method(&mut self, info: MethodInfo) -> (r: u32)
        requires
            old(self).method_infos@.len() < u32::MAX,
        ensures
            final(self).objects == old(self).objects,
            final(self).object_class == old(self).object_class,
            final(self).vector_class == old(self).vector_class,
            final(self).method_infos@ == old(self).method_infos@.push(info),
            r as int == old(self).method_infos@.len(),
            old(self).wf() ==> final(self).wf(),
    {
        let id = self.method_infos.len() as u32;
        self.method_infos.push(info);
        id
    }

    /// Allocate a bare script object with the given prototype and class
    /// links, handing back its handle.
    pub fn alloc_script_object(&mut self, proto: Option<ObjId>, instance_of: Option<ObjId>) -> (r:
        ObjId)
        requires
            old(self).wf(),
            proto is Some ==> (proto->0 as int) < old(self).objects@.len(),
            instance_of is Some ==> (instance_of->0 as int) < old(self).objects@.len() && old(
                self,
            ).objects@[instance_of->0 as int] is Class,
        ensures
            final(self).wf(),
            r as int == old(self).objects@.len(),
            final(self).objects@.len() == old(self).objects@.len() + 1,
            forall|j: int|
                0 <= j < old(self).objects@.len() ==> final(self).objects@[j] == old(
                    self,
                ).objects@[j],
            final(self).objects@[r as int] is Script,
            final(self).base_of(r).values@.len() == 0,
            final(self).base_of(r).slots@.len() == 0,
            final(self).base_of(r).bound_methods@.len() == 0,
            final(self).base_of(r).enumerants@.len() == 0,
            final(self).base_of(r).proto == proto,
            final(self).base_of(r).instance_of == instance_of,
            final(self).method_infos == old(self).method_infos,
            final(self).object_class == old(self).object_class,
            final(self).vector_class == old(self).vector_class,
    {
        let id = self.objects.len();
        let o = Object::Script(ScriptObject { base: ObjectData::base_new(proto, instance_of) });
        proof {
            lemma_heap_wf_push(self.objects@, o);
        }
        self.objects.push(o);
        id
    }

    /// The prototype link of the object at `obj`.
    pub fn proto(&self, obj: ObjId) -> (r: Option<ObjId>)
        requires
            (obj as int) < self.objects@.len(),
        ensures
            r == self.base_of(obj).proto,
    {
        self.objects[obj].base().proto()
    }

    /// Replace the prototype link of the object at `obj`. The new
    /// prototype must be an earlier-allocated object: that ordering is
    /// what keeps prototype chains acyclic and chain walks finite. This
    /// exists so a global scope can be built before its superclasses; use
    /// it sparingly.
    pub fn set_proto(&mut self, obj: ObjId, proto: ObjId)
        requires
            old(self).wf(),
            (obj as int) < old(self).objects@.len(),
            (proto as int) < (obj as int),
        ensures
            final(self).wf(),
            only_base_changed(old(self).objects@, final(self).objects@, obj as int),
            final(self).base_of(obj) == (ObjectData {
                proto: Some(proto),
                ..old(self).base_of(obj)
            }),
            final(self).method_infos == old(self).method_infos,
            final(self).object_class == old(self).object_class,
            final(self).vector_class == old(self).vector_class,
    {
        let ghost pre = self.objects@;
        proof {
            assert(crate::object::obj_wf(pre, obj as int));
        }
        let o = &mut self.objects[obj];
        o.base_mut().set_proto(proto);
        proof {
            lemma_heap_wf_update(pre, obj as int, self.objects@[obj as int]);
        }
    }

    /// The class link of the object at `obj`.
    pub fn instance_of(&self, obj: ObjId) -> (r: Option<ObjId>)
        requires
            (obj as int) < self.objects@.len(),
        ensures
            r == self.base_of(obj).instance_of,
    {
        self.objects[obj].base().instance_of()
    }

    /// Set the class link of the object at `obj`.
    pub fn set_instance_of(&mut self, obj: ObjId, class: ObjId)
        requires
            old(self).wf(),
            (obj as int) < old(self).objects@.len(),
            (class as int) < old(self).objects@.len(),
            old(self).objects@[class as int] is Class,
        ensures
            final(self).wf(),
            only_base_changed(old(self).objects@, final(self).objects@, obj as int),
            final(self).base_of(obj) == (ObjectData {
                instance_of: Some(class),
                ..old(self).base_of(obj)
            }),
            final(self).method_infos == old(self).method_infos,
            final(self).object_class == old(self).object_class,
            final(self).vector_class == old(self).vector_class,
    {
        let ghost pre = self.objects@;
        proof {
            assert(crate::object::obj_wf(pre, obj as int));
        }
        let o = &mut self.objects[obj];
        o.base_mut().set_instance_of(class);
        proof {
            lemma_heap_wf_update(pre, obj as int, self.objects@[obj as int]);
        }
    }

    /// Read a slot of the object at `obj` by id, bypassing name
    /// resolution; fails when no slot exists at that id.
    pub fn get_slot(&self, obj: ObjId, id: u32) -> (r: Result<Value, Error>)
        requires
            (obj as int) < self.objects@.len(),
        ensures
            self.base_of(obj).spec_slot(id) is Some ==> r == Ok::<Value, Error>(
                self.base_of(obj).spec_slot(id)->Some_0,
            ),
            self.base_of(obj).spec_slot(id) is None ==> r == Err::<Value, Error>(
                Error::RangeError { index: id as usize },
            ),
    {
        self.objects[obj].base().get_slot(id)
    }

    /// Write a slot of the object at `obj` by id; fails when no slot
    /// exists at that id.
    pub fn set_slot(&mut self, obj: ObjId, id: u32, value: Value) -> (r: Result<(), Error>)
        requires
            old(self).wf(),
            (obj as int) < old(self).objects@.len(),
        ensures
            final(self).wf(),
            old(self).base_of(obj).spec_slot(id) is Some ==> {
                &&& r is Ok
                &&& only_base_changed(old(self).objects@, final(self).objects@, obj as int)
                &&& final(self).base_of(obj).slots@ == old(self).base_of(obj).slots@.update(
                    id as int,
                    Some(value),
                )
                &&& final(self).base_of(obj) == (ObjectData {
                    slots: final(self).base_of(obj).slots,
                    ..old(self).base_of(obj)
                })
            },
            old(self).base_of(obj).spec_slot(id) is None ==> r == Err::<(), Error>(
                Error::RangeError { index: id as usize },
            ) && same_avm(*old(self), *final(self)),
            final(self).method_infos == old(self).method_infos,
            final(self).object_class == old(self).object_class,
            final(self).vector_class == old(self).vector_class,
    {
        let ghost pre = self.objects@;
        proof {
            assert(crate::object::obj_wf(pre, obj as int));
        }
        let o = &mut self.objects[obj];
        let r = o.base_mut().set_slot(id, value);
        proof {
            lemma_heap_wf_update(pre, obj as int, self.objects@[obj as int]);
            if r is Err {
                assert(self.objects@ =~= pre);
            }
        }
        r
    }

    /// Initialize a slot of the object at `obj` by id; as the slot write.
    pub fn init_slot(&mut self, obj: ObjId, id: u32, value: Value) -> (r: Result<(), Error>)
        requires
            old(self).wf(),
            (obj as int) < old(self).objects@.len(),
        ensures
            final(self).wf(),
            old(self).base_of(obj).spec_slot(id) is Some ==> {
                &&& r is Ok
                &&& only_base_changed(old(self).objects@, final(self).objects@, obj as int)
                &&& final(self).base_of(obj).slots@ == old(self).base_of(obj).slots@.update(
                    id as int,
                    Some(value),
                )
                &&& final(self).base_of(obj) == (ObjectData {
                    slots: final(self).base_of(obj).slots,
                    ..old(self).base_of(obj)
                })
            },
            old(self).base_of(obj).spec_slot(id) is None ==> r == Err::<(), Error>(
                Error::RangeError { index: id as usize },
            ) && same_avm(*old(self), *final(self)),
            final(self).method_infos == old(self).method_infos,
            final(self).object_class == old(self).object_class,
            final(self).vector_class == old(self).vector_class,
    {
        self.set_slot(obj, id, value)
    }

    /// Whether the object at `obj` has an own instantiated binding under
    /// `name`: a declared but unmaterialized trait does not count here.
    pub fn has_own_instantiated_property(&self, obj: ObjId, name: &QName) -> (r: bool)
        requires
            (obj as int) < self.objects@.len(),
        ensures
            r == (lookup(self.base_of(obj).values@, *name) is Some),
    {
        self.objects[obj].base().has_own_instantiated_property(name)
    }

    /// Whether `name` is currently enumerable on the object at `obj`.
    /// Properties that do not exist are not enumerable. A vector's
    /// enumerable names are the indices its current element count
    /// admits, whatever namespace they are asked under.
    pub fn property_is_enumerable(&self, obj: ObjId, name: &QName) -> (r: bool)
        requires
            (obj as int) < self.objects@.len(),
        ensures
            (match self.objects@[obj as int] {
                Object::Vector(v) => r == (crate::decimal::is_index_str(name.local@)
                    && crate::decimal::dec_value(name.local@) <= v.vector.storage@.len()),
                _ => r == names_contain(self.base_of(obj).enumerants@, *name),
            }),
    {
        match &self.objects[obj] {
            Object::Vector(v) => {
                match crate::decimal::parse_index(name.local_name().as_str()) {
                    Option::Some(idx) => idx <= v.vector.storage.len(),
                    Option::None => false,
                }
            },
            _ => self.objects[obj].base().property_is_enumerable(name),
        }
    }

    /// Whether an ordinary write may replace the binding the object at
    /// `obj` stores under `name`.
    pub fn is_property_overwritable(&self, obj: ObjId, name: &QName) -> (r: bool)
        requires
            (obj as int) < self.objects@.len(),
        ensures
            r == crate::storage::overwritable(lookup(self.base_of(obj).values@, *name)),
    {
        self.objects[obj].base().is_property_overwritable(name)
    }

    /// Mark a dynamic property of the object at `obj` as enumerable or
    /// not.
    pub fn set_local_property_is_enumerable(&mut self, obj: ObjId, name: &QName, is_enumerable:
        bool)
        requires
            old(self).wf(),
            (obj as int) < old(self).objects@.len(),
        ensures
            final(self).wf(),
            only_base_changed(old(self).objects@, final(self).objects@, obj as int),
            final(self).base_of(obj).values == old(self).base_of(obj).values,
            crate::storage::same_except_values_enumerants(
                old(self).base_of(obj),
                final(self).base_of(obj),
            ),
            ({
                let was = old(self).base_of(obj);
                let now = final(self).base_of(obj);
                &&& (is_enumerable && lookup(was.values@, *name) is Some && !names_contain(
                    was.enumerants@,
                    *name,
                ) ==> now.enumerants@ == was.enumerants@.push(*name))
                &&& (is_enumerable && !(lookup(was.values@, *name) is Some && !names_contain(
                    was.enumerants@,
                    *name,
                )) ==> now.enumerants@ == was.enumerants@)
            }),
            final(self).method_infos == old(self).method_infos,
            final(self).object_class == old(self).object_class,
            final(self).vector_class == old(self).vector_class,
    {
        let ghost pre = self.objects@;
        proof {
            assert(crate::object::obj_wf(pre, obj as int));
        }
        let o = &mut self.objects[obj];
        o.base_mut().set_local_property_is_enumerable(name, is_enumerable);
        proof {
            lemma_heap_wf_update(pre, obj as int, self.objects@[obj as int]);
        }
    }
}

} // verus!
