//! The object variant set and the arena that owns every object.
//!
//! The object kinds form a closed, explicitly enumerated set: the plain
//! script object, the bound callable, the class object, and the
//! vector-backed object (the worked storage specialization). Every kind
//! pairs the shared storage base with its specialized data. Objects live in
//! one arena and refer to each other by handle; handles are indices handed
//! out in allocation order, so a prototype or superclass handle is always
//! smaller than the handle of the object that points at it, which is what
//! keeps every chain walk finite.

use vstd::prelude::*;
use crate::ObjId;
use crate::storage::ObjectData;
use crate::names::QName;
use crate::value::Value;

verus! {

/// What the object model knows of a method descriptor: whether the method
/// needs a reified arguments object (which rules out the direct-dispatch
/// fast path of the call operation). The descriptor's body belongs to the
/// interpreter.
#[derive(Debug)]
pub struct MethodInfo {
    pub needs_arguments_object: bool,
}

/// A bound callable: a method descriptor closed over a scope chain, a
/// bound receiver and the class that defined it (for superclass
/// resolution). Executing it is the interpreter's job; the object model
/// only creates, stores and hands out these records.
#[derive(Clone, Copy, Debug)]
pub struct Executable {
    /// The method descriptor id, owned by the interpreter.
    pub method: u32,
    /// The scope chain id, owned by the scope subsystem.
    pub scope: u32,
    /// The receiver the callable is bound to, if any.
    pub receiver: Option<ObjId>,
    /// The class whose trait supplied the method, if any.
    pub defining_class: Option<ObjId>,
}

/// Which per-variant allocator a class uses to build its instances.
#[derive(Clone, Copy, Debug)]
pub enum AllocKind {
    Script,
    Vector,
}

/// A static trait declaration on a class: a kind, a name, a dispatch or
/// slot id, and a default value or method reference. Produced by class
/// loading, consumed by trait installation.
#[derive(Debug)]
pub enum TraitKind {
    Slot { slot_id: u32, default: Value },
    Method { disp_id: u32, method: u32 },
    Getter { disp_id: u32, method: u32 },
    Setter { disp_id: u32, method: u32 },
    Class { slot_id: u32 },
    Function { slot_id: u32 },
    Const { slot_id: u32, default: Value },
}

/// A trait declaration: its storage name and its kind.
#[derive(Debug)]
pub struct TraitDecl {
    pub name: QName,
    pub kind: TraitKind,
}

impl Clone for TraitKind {
    fn clone(&self) -> (r: Self)
        ensures
            r == *self,
    {
        match self {
            TraitKind::Slot { slot_id, default } => TraitKind::Slot {
                slot_id: *slot_id,
                default: default.clone(),
            },
            TraitKind::Method { disp_id, method } => TraitKind::Method {
                disp_id: *disp_id,
                method: *method,
            },
            TraitKind::Getter { disp_id, method } => TraitKind::Getter {
                disp_id: *disp_id,
                method: *method,
            },
            TraitKind::Setter { disp_id, method } => TraitKind::Setter {
                disp_id: *disp_id,
                method: *method,
            },
            TraitKind::Class { slot_id } => TraitKind::Class { slot_id: *slot_id },
            TraitKind::Function { slot_id } => TraitKind::Function { slot_id: *slot_id },
            TraitKind::Const { slot_id, default } => TraitKind::Const {
                slot_id: *slot_id,
                default: default.clone(),
            },
        }
    }
}

impl Clone for TraitDecl {
    fn clone(&self) -> (r: Self)
        ensures
            r == *self,
    {
        TraitDecl { name: self.name.clone(), kind: self.kind.clone() }
    }
}

/// One memoized application of a generic class: the element-type parameter
/// (`None` meaning the any-type) and the class object it produced.
#[derive(Clone, Copy, Debug)]
pub struct AppEntry {
    pub param: Option<ObjId>,
    pub class: ObjId,
}

/// The class-object payload: the class definition (name, sealed flag,
/// traits), the superclass chain link, the explicit prototype, the scope
/// ids used when binding callables, and the generic-application state.
pub struct ClassData {
    /// The class's local name, used by the default string coercion.
    pub name: String,
    /// Sealed classes reject new own properties outside declared traits;
    /// dynamic (non-sealed) ones accept arbitrary public-namespace writes.
    pub sealed: bool,
    /// The superclass's class object, if any.
    pub superclass: Option<ObjId>,
    /// Traits installed on every instance.
    pub instance_traits: Vec<TraitDecl>,
    /// Traits of the class object itself.
    pub class_traits: Vec<TraitDecl>,
    /// The explicit prototype instances delegate to.
    pub proto: ObjId,
    /// Scope chain id for binding instance methods.
    pub instance_scope: u32,
    /// Scope chain id for binding class methods.
    pub class_scope: u32,
    /// Interfaces the class implements, as class objects.
    pub interfaces: Vec<ObjId>,
    /// For an applied generic: the element-type parameter it was applied
    /// with (`None` inside meaning the any-type).
    pub param: Option<Option<ObjId>>,
    /// Memoized applications of this generic class.
    pub applications: Vec<AppEntry>,
    /// Whether this class is a parameterizable generic.
    pub generic: bool,
    /// The allocator its instances use.
    pub allocator: AllocKind,
    /// The zero value an element of this type collapses to when a vector
    /// stores `Undefined` or `Null` into it.
    pub default_value: Value,
}

/// Typed element storage for a vector-backed object.
pub struct VectorStorage {
    /// The elements, in index order.
    pub storage: Vec<Value>,
    /// A fixed-length vector rejects writes past its end.
    pub is_fixed: bool,
    /// The declared element type, as a class object.
    pub value_type: ObjId,
}

/// A plain script object: nothing but the storage base.
pub struct ScriptObject {
    pub base: ObjectData,
}

/// A bound callable object.
pub struct FunctionObject {
    pub base: ObjectData,
    pub executable: Executable,
}

/// A class object.
pub struct ClassObject {
    pub base: ObjectData,
    pub cls: ClassData,
}

/// An object which stores typed properties in vector storage.
pub struct VectorObjectData {
    pub base: ObjectData,
    pub vector: VectorStorage,
}

/// One object: the closed variant set, exhaustively matched wherever
/// dispatch occurs.
pub enum Object {
    Script(ScriptObject),
    Function(FunctionObject),
    Class(ClassObject),
    Vector(VectorObjectData),
}

/// The opaque pointee behind an object handle: a marker carrying no
/// object data. Handles are compared with `Object::ptr_eq`, never
/// dereferenced outside the arena.
pub enum ObjectPtr {
    Opaque,
}

impl Object {
    /// Whether two handles name the same object: handle identity is
    /// object identity, since the arena never reuses a handle.
    pub fn ptr_eq(a: ObjId, b: ObjId) -> (r: bool)
        ensures
            r == (a == b),
    {
        a == b
    }

    /// The storage base of any variant.
    pub open spec fn spec_base(self) -> ObjectData {
        match self {
            Object::Script(s) => s.base,
            Object::Function(f) => f.base,
            Object::Class(c) => c.base,
            Object::Vector(v) => v.base,
        }
    }

    /// This object with its storage base replaced, the variant data kept.
    pub open spec fn with_base(self, b: ObjectData) -> Object {
        match self {
            Object::Script(_) => Object::Script(ScriptObject { base: b }),
            Object::Function(f) => Object::Function(FunctionObject { base: b, executable: f.executable }),
            Object::Class(c) => Object::Class(ClassObject { base: b, cls: c.cls }),
            Object::Vector(v) => Object::Vector(VectorObjectData { base: b, vector: v.vector }),
        }
    }

    /// The storage base; every capability operation a variant does not
    /// override forwards here.
    pub fn base(&self) -> (r: &ObjectData)
        ensures
            *r == self.spec_base(),
    {
        match self {
            Object::Script(s) => &s.base,
            Object::Function(f) => &f.base,
            Object::Class(c) => &c.base,
            Object::Vector(v) => &v.base,
        }
    }

    /// The storage base, for writing.
    pub fn base_mut(&mut self) -> (r: &mut ObjectData)
        ensures
            *r == old(self).spec_base(),
            *final(self) == old(self).with_base(*final(r)),
    {
        match self {
            Object::Script(s) => &mut s.base,
            Object::Function(f) => &mut f.base,
            Object::Class(c) => &mut c.base,
            Object::Vector(v) => &mut v.base,
        }
    }

    /// The class data, if this is a class object.
    pub fn as_class(&self) -> (r: Option<&ClassData>)
        ensures
            *self is Class ==> r == Some(&(*self)->Class_0.cls),
            !(*self is Class) ==> r is None,
    {
        match self {
            Object::Class(c) => Some(&c.cls),
            _ => None,
        }
    }
}

/// Whether no trait in the list is declared under the wildcard
/// namespace: the wildcard matches during resolution but never names a
/// declared member.
pub open spec fn no_wildcard_traits(traits: Seq<TraitDecl>) -> bool {
    forall|k: int| 0 <= k < traits.len() ==> !((#[trigger] traits[k]).name.ns is Any)
}

/// Per-object well-formedness of the class payload at index `i`: the
/// superclass was allocated earlier and is a class, the explicit prototype
/// exists, every memoized application names a class, and no trait is
/// declared under the wildcard namespace.
pub open spec fn class_wf(objects: Seq<Object>, i: int, cd: ClassData) -> bool {
    &&& (cd.superclass is Some ==> (cd.superclass->0 as int) < i && objects[cd.superclass->0 as int]
        is Class)
    &&& (cd.proto as int) < objects.len()
    &&& (forall|k: int|
        0 <= k < cd.applications@.len() ==> (#[trigger] cd.applications@[k].class as int)
            < objects.len() && objects[cd.applications@[k].class as int] is Class)
    &&& (forall|k: int|
        0 <= k < cd.interfaces@.len() ==> (#[trigger] cd.interfaces@[k] as int) < objects.len())
    &&& (cd.param is Some && cd.param->0 is Some ==> (cd.param->0->0 as int) < objects.len()
        && objects[cd.param->0->0 as int] is Class)
    &&& no_wildcard_traits(cd.instance_traits@)
    &&& no_wildcard_traits(cd.class_traits@)
}

/// Per-object well-formedness of the variant payload at index `i`.
pub open spec fn kind_wf(objects: Seq<Object>, i: int, o: Object) -> bool {
    match o {
        Object::Class(c) => class_wf(objects, i, c.cls),
        Object::Vector(v) => (v.vector.value_type as int) < objects.len()
            && objects[v.vector.value_type as int] is Class,
        _ => true,
    }
}

/// Per-object well-formedness at index `i`: the storage base is
/// well-formed, the prototype was allocated earlier (which keeps prototype
/// chains acyclic and every chain walk finite), the class link names a
/// class object, bound methods name objects, and the variant payload is
/// well-formed.
pub open spec fn obj_wf(objects: Seq<Object>, i: int) -> bool {
    let b = objects[i].spec_base();
    &&& b.wf()
    &&& (b.proto is Some ==> (b.proto->0 as int) < i)
    &&& (b.instance_of is Some ==> (b.instance_of->0 as int) < objects.len()
        && objects[b.instance_of->0 as int] is Class)
    &&& (forall|k: int|
        0 <= k < b.bound_methods@.len() && (#[trigger] b.bound_methods@[k]) is Some ==> (
        b.bound_methods@[k]->0 as int) < objects.len())
    &&& kind_wf(objects, i, objects[i])
}

/// Arena-wide well-formedness.
pub open spec fn heap_wf(objects: Seq<Object>) -> bool {
    forall|i: int| 0 <= i < objects.len() ==> #[trigger] obj_wf(objects, i)
}

/// Replacing the object at `i` with one of the same variant, whose base
/// keeps the old prototype and class links, whose bound methods still name
/// objects and whose variant payload is still well-formed, keeps the whole
/// arena well-formed.
pub proof fn lemma_heap_wf_update(objects: Seq<Object>, i: int, o2: Object)
    requires
        heap_wf(objects),
        0 <= i < objects.len(),
        o2 is Class <==> objects[i] is Class,
        o2.spec_base().wf(),
        o2.spec_base().proto is Some ==> (o2.spec_base().proto->0 as int) < i,
        o2.spec_base().instance_of is Some ==> (o2.spec_base().instance_of->0 as int)
            < objects.len() && objects[o2.spec_base().instance_of->0 as int] is Class,
        forall|k: int|
            0 <= k < o2.spec_base().bound_methods@.len() && (
            #[trigger] o2.spec_base().bound_methods@[k]) is Some ==> (
            o2.spec_base().bound_methods@[k]->0 as int) < objects.len(),
        kind_wf(objects.update(i, o2), i, o2),
    ensures
        heap_wf(objects.update(i, o2)),
{
    let up = objects.update(i, o2);
    assert forall|j: int| 0 <= j < up.len() implies #[trigger] obj_wf(up, j) by {
        assert(obj_wf(objects, j));
        if j == i {
            assert(obj_wf(objects, i));
        } else {
            assert(up[j] == objects[j]);
            match up[j] {
                Object::Class(c) => {
                    assert(class_wf(objects, j, c.cls));
                },
                _ => {},
            }
        }
    }
}

/// Appending a new object whose links all point at existing objects keeps
/// the whole arena well-formed.
pub proof fn lemma_heap_wf_push(objects: Seq<Object>, o: Object)
    requires
        heap_wf(objects),
        o.spec_base().wf(),
        o.spec_base().proto is Some ==> (o.spec_base().proto->0 as int) < objects.len(),
        o.spec_base().instance_of is Some ==> (o.spec_base().instance_of->0 as int)
            < objects.len() && objects[o.spec_base().instance_of->0 as int] is Class,
        forall|k: int|
            0 <= k < o.spec_base().bound_methods@.len() && (
            #[trigger] o.spec_base().bound_methods@[k]) is Some ==> (
            o.spec_base().bound_methods@[k]->0 as int) < objects.len(),
        kind_wf(objects.push(o), objects.len() as int, o),
    ensures
        heap_wf(objects.push(o)),
{
    let up = objects.push(o);
    assert forall|j: int| 0 <= j < up.len() implies #[trigger] obj_wf(up, j) by {
        if j < objects.len() {
            assert(obj_wf(objects, j));
            assert(up[j] == objects[j]);
            match up[j] {
                Object::Class(c) => {
                    assert(class_wf(objects, j, c.cls));
                },
                _ => {},
            }
        } else {
            assert(up[j] == o);
        }
    }
}

/// Replacing an object's base with its own base changes nothing.
pub proof fn lemma_with_base_self(o: Object)
    ensures
        o.with_base(o.spec_base()) == o,
{
    match o {
        Object::Script(s) => {
            assert(o.with_base(o.spec_base()) == Object::Script(ScriptObject { base: s.base }));
        },
        Object::Function(f) => {},
        Object::Class(c) => {},
        Object::Vector(v) => {},
    }
}

/// At most the storage base of the object at `o` changed among the old
/// objects; new objects may have been appended after them.
pub open spec fn only_base_and_new(a: Seq<Object>, b: Seq<Object>, o: int) -> bool {
    &&& a.len() <= b.len()
    &&& (forall|j: int| 0 <= j < a.len() && j != o ==> a[j] == #[trigger] b[j])
    &&& b[o] == a[o].with_base(b[o].spec_base())
}

/// The base-and-append frame composes across successive mutations.
pub proof fn lemma_only_base_and_new_trans(a: Seq<Object>, b: Seq<Object>, c: Seq<Object>, o: int)
    requires
        0 <= o < a.len(),
        only_base_and_new(a, b, o),
        only_base_and_new(b, c, o),
    ensures
        only_base_and_new(a, c, o),
{
    assert(c[o] == a[o].with_base(b[o].spec_base()).with_base(c[o].spec_base()));
    match a[o] {
        Object::Script(s) => {},
        Object::Function(f) => {},
        Object::Class(cc) => {},
        Object::Vector(v) => {},
    }
}

} // verus!
