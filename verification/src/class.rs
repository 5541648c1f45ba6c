//! Construction, typing and coercion: defining classes, building
//! instances, parameterizing the generic vector type, the two deliberately
//! different instance tests (prototype-chain and class-chain), and the
//! default string and primitive coercion hooks.

use vstd::prelude::*;
use vstd::string::StringExecFns;
use crate::ObjId;
use crate::avm::{Avm, class_structure_same, same_avm};
use crate::names::{Multiname, QName, qn_eq};
use crate::object::{AllocKind, AppEntry, ClassData, ClassObject, Executable, lemma_heap_wf_push,
    lemma_heap_wf_update, Object, obj_wf, TraitDecl, VectorObjectData, VectorStorage};
use crate::storage::{lookup, ObjectData, Property};
use crate::value::{Error, Hint, ReturnValue, Value};

verus! {

/// Everything class loading supplies to declare one class.
pub struct ClassDecl {
    pub name: String,
    pub sealed: bool,
    pub superclass: Option<ObjId>,
    pub instance_traits: Vec<TraitDecl>,
    pub class_traits: Vec<TraitDecl>,
    pub instance_scope: u32,
    pub class_scope: u32,
    pub interfaces: Vec<ObjId>,
    pub generic: bool,
    pub allocator: AllocKind,
    pub default_value: Value,
}

/// The class object a generic's memo table holds for the element-type
/// key `key`, if that parameterization was made before.
pub open spec fn find_application(apps: Seq<AppEntry>, key: Option<ObjId>) -> Option<ObjId>
    decreases apps.len(),
{
    if apps.len() == 0 {
        None
    } else if apps[0].param == key {
        Some(apps[0].class)
    } else {
        find_application(apps.drop_first(), key)
    }
}

/// `find_application` finds the entry at the first matching index.
pub proof fn lemma_find_application_at(apps: Seq<AppEntry>, key: Option<ObjId>, i: int)
    requires
        0 <= i < apps.len(),
        forall|j: int| 0 <= j < i ==> (#[trigger] apps[j]).param != key,
        apps[i].param == key,
    ensures
        find_application(apps, key) == Some(apps[i].class),
    decreases i,
{
    if i > 0 {
        lemma_find_application_at(apps.drop_first(), key, i - 1);
    }
}

/// `find_application` finds nothing when no entry matches.
pub proof fn lemma_find_application_none(apps: Seq<AppEntry>, key: Option<ObjId>)
    requires
        forall|j: int| 0 <= j < apps.len() ==> (#[trigger] apps[j]).param != key,
    ensures
        find_application(apps, key) is None,
    decreases apps.len(),
{
    if apps.len() > 0 {
        lemma_find_application_none(apps.drop_first(), key);
    }
}

/// Appending a memo entry under a fresh key makes that key found and
/// leaves every other key alone.
pub proof fn lemma_find_application_push(apps: Seq<AppEntry>, e: AppEntry, key: Option<ObjId>)
    ensures
        find_application(apps, key) is Some ==> find_application(apps.push(e), key)
            == find_application(apps, key),
        find_application(apps, key) is None && e.param == key ==> find_application(
            apps.push(e),
            key,
        ) == Some(e.class),
        find_application(apps, key) is None && e.param != key ==> find_application(
            apps.push(e),
            key,
        ) is None,
    decreases apps.len(),
{
    if apps.len() == 0 {
        assert(apps.push(e)[0] == e);
        assert(apps.push(e).drop_first() =~= apps);
    } else {
        assert(apps.push(e)[0] == apps[0]);
        assert(apps.push(e).drop_first() =~= apps.drop_first().push(e));
        lemma_find_application_push(apps.drop_first(), e, key);
    }
}

/// Whether `target` stands somewhere in the prototype chain above `o`.
pub open spec fn proto_chain_contains(objects: Seq<Object>, o: int, target: ObjId) -> bool
    decreases o,
{
    let b = objects[o].spec_base();
    b.proto is Some && (b.proto->0 as int) < o && (b.proto->0 == target || proto_chain_contains(
        objects,
        b.proto->0 as int,
        target,
    ))
}

/// Whether `target` is the class at `c`, one of its declared interfaces,
/// or so on up the superclass chain.
pub open spec fn class_chain_contains(objects: Seq<Object>, c: int, target: ObjId) -> bool
    decreases c,
{
    if 0 <= c < objects.len() && objects[c] is Class {
        let cd = objects[c]->Class_0.cls;
        ||| c == target as int
        ||| (exists|k: int| 0 <= k < cd.interfaces@.len() && cd.interfaces@[k] == target)
        ||| (cd.superclass is Some && (cd.superclass->0 as int) < c && class_chain_contains(
            objects,
            cd.superclass->0 as int,
            target,
        ))
    } else {
        false
    }
}

/// Whether `qn` is the public `prototype` name under which a class
/// object publishes its explicit prototype.
pub open spec fn is_prototype_name(qn: QName) -> bool {
    qn.ns is Public && qn.local@ == "prototype"@
}

/// The local name of the class the object at `o` is an instance of, or
/// the baseline name when it has none.
pub open spec fn class_name_of(objects: Seq<Object>, o: int) -> Seq<char> {
    let b = objects[o].spec_base();
    if b.instance_of is Some && (b.instance_of->0 as int) < objects.len() && objects[b.instance_of
        ->0 as int] is Class {
        objects[b.instance_of->0 as int]->Class_0.cls.name@
    } else {
        "Object"@
    }
}

impl Avm {
    /// Copy a trait list.
    pub(crate) fn clone_traits(&self, v: &Vec<TraitDecl>) -> (r: Vec<TraitDecl>)
        ensures
            r@ == v@,
    {
        let mut out: Vec<TraitDecl> = Vec::new();
        let mut i: usize = 0;
        while i < v.len()
            invariant
                0 <= i <= v@.len(),
                out@ == v@.subrange(0, i as int),
            decreases v@.len() - i,
        {
            out.push(v[i].clone());
            proof {
                assert(out@ =~= v@.subrange(0, i + 1));
            }
            i = i + 1;
        }
        proof {
            assert(out@ =~= v@);
        }
        out
    }

    /// Declare a class: allocate its explicit prototype (delegating to
    /// the superclass's prototype), allocate the class object, publish
    /// the prototype under the class object's public `prototype` name,
    /// and install the class's own (static) traits on it. Returns the
    /// class object's handle; its prototype sits at the handle just
    /// below.
    pub fn define_class(&mut self, decl: ClassDecl) -> (r: ObjId)
        requires
            old(self).wf(),
            crate::object::no_wildcard_traits(decl.instance_traits@),
            crate::object::no_wildcard_traits(decl.class_traits@),
            decl.superclass is Some ==> (decl.superclass->0 as int) < old(self).objects@.len()
                && old(self).objects@[decl.superclass->0 as int] is Class,
            forall|k: int|
                0 <= k < decl.interfaces@.len() ==> (#[trigger] decl.interfaces@[k] as int) < old(
                    self,
                ).objects@.len(),
        ensures
            final(self).wf(),
            r as int == old(self).objects@.len() + 1,
            final(self).objects@.len() >= old(self).objects@.len() + 2,
            forall|j: int|
                0 <= j < old(self).objects@.len() ==> final(self).objects@[j] == old(
                    self,
                ).objects@[j],
            final(self).objects@[r as int] is Class,
            ({
                let cd = final(self).objects@[r as int]->Class_0.cls;
                &&& cd.name@ == decl.name@
                &&& cd.sealed == decl.sealed
                &&& cd.superclass == decl.superclass
                &&& cd.instance_traits@ == decl.instance_traits@
                &&& cd.class_traits@ == decl.class_traits@
                &&& cd.instance_scope == decl.instance_scope
                &&& cd.class_scope == decl.class_scope
                &&& cd.interfaces@ == decl.interfaces@
                &&& cd.generic == decl.generic
                &&& cd.allocator == decl.allocator
                &&& cd.default_value == decl.default_value
                &&& cd.param is None
                &&& cd.proto as int == old(self).objects@.len()
            }),
            final(self).objects@[old(self).objects@.len() as int] is Script,
            forall|qn: QName|
                #[trigger] is_prototype_name(qn) && crate::resolve::find_trait(
                    decl.class_traits@,
                    qn,
                ) is None ==> lookup(final(self).base_of((old(self).objects@.len() + 1) as ObjId).values@, qn)
                    == Some(
                    Property::Stored { value: Value::Object((old(self).objects@.len()) as ObjId) },
                ),
            forall|n: QName|
                !is_prototype_name(n) ==> #[trigger] crate::traits::shape_of(
                    lookup(final(self).base_of((old(self).objects@.len() + 1) as ObjId).values@, n),
                ) == crate::traits::fold_shape(
                    crate::traits::BindShape::Absent,
                    decl.class_traits@,
                    n,
                ),
            forall|k: u32|
                #[trigger] final(self).base_of((old(self).objects@.len() + 1) as ObjId).spec_slot(k)
                    == crate::traits::fold_slot(None::<Value>, decl.class_traits@, k),
            final(self).method_infos == old(self).method_infos,
            final(self).object_class == old(self).object_class,
            final(self).vector_class == old(self).vector_class,
    {
        let super_proto: Option<ObjId> = match decl.superclass {
            Option::Some(sc) => {
                proof {
                    assert(obj_wf(self.objects@, sc as int));
                }
                match &self.objects[sc] {
                    Object::Class(co) => Some(co.cls.proto),
                    _ => None,
                }
            },
            Option::None => None,
        };
        let proto_obj = self.alloc_script_object(super_proto, None);
        let class_traits_copy = self.clone_traits(&decl.class_traits);
        let cd = ClassData {
            name: decl.name,
            sealed: decl.sealed,
            superclass: decl.superclass,
            instance_traits: decl.instance_traits,
            class_traits: decl.class_traits,
            proto: proto_obj,
            instance_scope: decl.instance_scope,
            class_scope: decl.class_scope,
            interfaces: decl.interfaces,
            param: None,
            applications: Vec::new(),
            generic: decl.generic,
            allocator: decl.allocator,
            default_value: decl.default_value,
        };
        let class_id = self.objects.len();
        let o = Object::Class(ClassObject { base: ObjectData::base_new(None, None), cls: cd });
        proof {
            lemma_heap_wf_push(self.objects@, o);
        }
        self.objects.push(o);
        let proto_name = QName::dynamic_name(String::from_str("prototype"));
        self.install_dynamic_property(class_id, &proto_name, Value::Object(proto_obj));
        let ghost midb = self.base_of(class_id);
        let class_scope = match &self.objects[class_id] {
            Object::Class(co) => co.cls.class_scope,
            _ => 0,
        };
        self.install_traits(class_id, &class_traits_copy, class_scope, Some(class_id));
        proof {
            assert forall|qn: QName|
                #[trigger] is_prototype_name(qn) && crate::resolve::find_trait(
                    decl.class_traits@,
                    qn,
                ) is None implies lookup(self.base_of(class_id).values@, qn) == Some(
                Property::Stored { value: Value::Object(proto_obj) },
            ) by {
                assert(qn_eq(proto_name, qn));
                crate::laws::lemma_lookup_respects_qn_eq(midb.values@, proto_name, qn);
                crate::resolve::lemma_find_trait_none_no_match(decl.class_traits@, qn);
            }
        }
        class_id
    }

    /// Build an instance of the class at `class_obj`: allocate it with
    /// the class's per-variant allocator, associate it with the class's
    /// explicit prototype, and install the instance traits. Running the
    /// constructor body with the fresh object as receiver is the
    /// interpreter's step; its return value is discarded either way.
    /// Only class objects construct; every other kind reports failure.
    pub fn construct(&mut self, class_obj: ObjId) -> (r: Result<ObjId, Error>)
        requires
            old(self).wf(),
            (class_obj as int) < old(self).objects@.len(),
        ensures
            final(self).wf(),
            class_structure_same(old(self).objects@, final(self).objects@),
            final(self).method_infos == old(self).method_infos,
            final(self).object_class == old(self).object_class,
            final(self).vector_class == old(self).vector_class,
            !(old(self).objects@[class_obj as int] is Class) ==> r == Err::<ObjId, Error>(
                Error::NotConstructable,
            ) && same_avm(*old(self), *final(self)),
            old(self).objects@[class_obj as int] is Class ==> {
                let cd = old(self).objects@[class_obj as int]->Class_0.cls;
                &&& r is Ok
                &&& r->Ok_0 as int == old(self).objects@.len()
                &&& final(self).objects@.len() > old(self).objects@.len()
                &&& final(self).base_of(r->Ok_0).proto == Some(cd.proto)
                &&& final(self).base_of(r->Ok_0).instance_of == Some(class_obj)
                &&& (cd.allocator is Script ==> final(self).objects@[r->Ok_0 as int] is Script)
                &&& (cd.allocator is Vector ==> final(self).objects@[r->Ok_0 as int] is Vector
                    && final(self).objects@[r->Ok_0 as int]->Vector_0.vector.storage@.len() == 0)
                &&& (forall|n: QName|
                    #[trigger] crate::traits::shape_of(
                        lookup(final(self).base_of(r->Ok_0).values@, n),
                    ) == crate::traits::fold_shape(
                        crate::traits::BindShape::Absent,
                        crate::traits::chain_instance_traits(old(self).objects@, class_obj as int),
                        n,
                    ))
                &&& (forall|k: u32|
                    #[trigger] final(self).base_of(r->Ok_0).spec_slot(k)
                        == crate::traits::fold_slot(
                        None::<Value>,
                        crate::traits::chain_instance_traits(old(self).objects@, class_obj as int),
                        k,
                    ))
            },
    {
        proof {
            assert(obj_wf(self.objects@, class_obj as int));
        }
        let alloc: AllocKind;
        let cproto: ObjId;
        match &self.objects[class_obj] {
            Object::Class(co) => {
                alloc = co.cls.allocator;
                cproto = co.cls.proto;
            },
            _ => {
                return Err(Error::NotConstructable);
            },
        }
        let inst: ObjId = match alloc {
            AllocKind::Script => self.alloc_script_object(Some(cproto), Some(class_obj)),
            AllocKind::Vector => {
                match crate::vector::vector_allocator(self, class_obj, cproto) {
                    Result::Ok(v) => v,
                    Result::Err(e) => {
                        return Err(e);
                    },
                }
            },
        };
        let ghost chain_old = crate::traits::chain_instance_traits(
            old(self).objects@,
            class_obj as int,
        );
        let ghost midb = self.base_of(inst);
        proof {
            assert(class_structure_same(old(self).objects@, self.objects@));
            crate::traits::lemma_chain_instance_traits_stable(
                old(self).objects@,
                self.objects@,
                class_obj as int,
            );
        }
        self.install_instance_traits(inst, class_obj);
        proof {
            assert forall|n: QName| #[trigger] crate::traits::shape_of(
                lookup(self.base_of(inst).values@, n),
            ) == crate::traits::fold_shape(
                crate::traits::BindShape::Absent,
                chain_old,
                n,
            ) by {
                assert(lookup(midb.values@, n) is None);
            }
            assert forall|k: u32| #[trigger] self.base_of(inst).spec_slot(k)
                == crate::traits::fold_slot(None::<Value>, chain_old, k) by {
                assert(midb.spec_slot(k) is None);
            }
        }
        Ok(inst)
    }

    /// Construct the value of a named property: read the constructor
    /// through the ordinary get path, then construct it per the
    /// construction contract. A value that is not an object (or a
    /// constructor still owed to a getter the interpreter must run
    /// first) cannot be constructed.
    pub fn construct_prop(&mut self, obj: ObjId, mn: &Multiname) -> (r: Result<ObjId, Error>)
        requires
            old(self).wf(),
            (obj as int) < old(self).objects@.len(),
        ensures
            final(self).wf(),
            class_structure_same(old(self).objects@, final(self).objects@),
            final(self).method_infos == old(self).method_infos,
            final(self).object_class == old(self).object_class,
            final(self).vector_class == old(self).vector_class,
            (match crate::props::get_property_spec(old(self).objects@, obj as int, *mn) {
                Option::Some(out) => (match out {
                    crate::props::ReadOutcome::Value(Value::Object(c)) => {
                        if (c as int) < old(self).objects@.len() && old(self).objects@[c as int]
                            is Class {
                            let cd = old(self).objects@[c as int]->Class_0.cls;
                            &&& r is Ok
                            &&& r->Ok_0 as int == old(self).objects@.len()
                            &&& final(self).objects@.len() > old(self).objects@.len()
                            &&& final(self).base_of(r->Ok_0).proto == Some(cd.proto)
                            &&& final(self).base_of(r->Ok_0).instance_of == Some(c)
                        } else {
                            r == Err::<ObjId, Error>(Error::NotConstructable) && same_avm(
                                *old(self),
                                *final(self),
                            )
                        }
                    },
                    crate::props::ReadOutcome::Value(_) => r == Err::<ObjId, Error>(
                        Error::NotAnObject,
                    ) && same_avm(*old(self), *final(self)),
                    crate::props::ReadOutcome::Getter(_) => r == Err::<ObjId, Error>(
                        Error::NotAnObject,
                    ) && same_avm(*old(self), *final(self)),
                    crate::props::ReadOutcome::Fail(e) => r == Err::<ObjId, Error>(e) && same_avm(
                        *old(self),
                        *final(self),
                    ),
                }),
                Option::None => ({
                    let post = final(self).objects@;
                    r == Err::<ObjId, Error>(Error::NotConstructable) && post.len() == old(
                        self,
                    ).objects@.len() + 1
                }),
            }),
    {
        let got = match self.get_property(obj, obj, mn) {
            Result::Ok(v) => v,
            Result::Err(e) => {
                return Err(e);
            },
        };
        match got {
            ReturnValue::Immediate(Value::Object(ctor)) => {
                if ctor < self.objects.len() {
                    self.construct(ctor)
                } else {
                    Err(Error::NotConstructable)
                }
            },
            _ => Err(Error::NotAnObject),
        }
    }

    /// The callable record of the object at `obj`; only bound-callable
    /// objects can be called, every other kind reports failure. Running
    /// the record is the interpreter's job.
    pub fn call(&self, obj: ObjId) -> (r: Result<Executable, Error>)
        requires
            (obj as int) < self.objects@.len(),
        ensures
            self.objects@[obj as int] is Function ==> r == Ok::<Executable, Error>(
                self.objects@[obj as int]->Function_0.executable,
            ),
            !(self.objects@[obj as int] is Function) ==> r == Err::<Executable, Error>(
                Error::NotCallable { name: None },
            ),
    {
        match &self.objects[obj] {
            Object::Function(f) => Ok(f.executable),
            _ => Err(Error::NotCallable { name: None }),
        }
    }

    /// Parameterize a generic type. Only a generic class object can be
    /// applied; the parameter must be a class object or `Null` (the
    /// any-type). Repeated application with the same parameter returns
    /// the identical class object, memoized on the generic: each
    /// application owns a distinct prototype that must stay stable
    /// across uses.
    pub fn apply(&mut self, obj: ObjId, param: &Value) -> (r: Result<ObjId, Error>)
        requires
            old(self).wf(),
            (obj as int) < old(self).objects@.len(),
        ensures
            final(self).wf(),
            class_structure_same(old(self).objects@, final(self).objects@),
            final(self).method_infos == old(self).method_infos,
            final(self).object_class == old(self).object_class,
            final(self).vector_class == old(self).vector_class,
            !(old(self).objects@[obj as int] is Class && old(
                self,
            ).objects@[obj as int]->Class_0.cls.generic) ==> r == Err::<ObjId, Error>(
                Error::NotParameterizedType,
            ) && same_avm(*old(self), *final(self)),
            (old(self).objects@[obj as int] is Class && old(
                self,
            ).objects@[obj as int]->Class_0.cls.generic) ==> (match apply_key(
                old(self).objects@,
                *param,
            ) {
                Option::None => r == Err::<ObjId, Error>(Error::NotAnObject) && same_avm(
                    *old(self),
                    *final(self),
                ),
                Option::Some(key) => {
                    let apps = old(self).objects@[obj as int]->Class_0.cls.applications@;
                    match find_application(apps, key) {
                        Option::Some(c) => r == Ok::<ObjId, Error>(c) && same_avm(
                            *old(self),
                            *final(self),
                        ),
                        Option::None => {
                            &&& r is Ok
                            &&& r->Ok_0 as int == old(self).objects@.len() + 1
                            &&& final(self).objects@.len() == old(self).objects@.len() + 2
                            &&& final(self).objects@[r->Ok_0 as int] is Class
                            &&& final(self).objects@[r->Ok_0 as int]->Class_0.cls.param == Some(
                                key,
                            )
                            &&& final(self).objects@[r->Ok_0 as int]->Class_0.cls.proto as int
                                == old(self).objects@.len()
                            &&& (forall|qn: QName|
                                #[trigger] is_prototype_name(qn) ==> lookup(
                                    final(self).base_of(r->Ok_0).values@,
                                    qn,
                                ) == Some(
                                    Property::Stored {
                                        value: Value::Object(
                                            (old(self).objects@.len()) as ObjId,
                                        ),
                                    },
                                ))
                            &&& find_application(
                                final(self).objects@[obj as int]->Class_0.cls.applications@,
                                key,
                            ) == Some(r->Ok_0)
                            &&& (forall|k2: Option<ObjId>|
                                k2 != key ==> #[trigger] find_application(
                                    final(self).objects@[obj as int]->Class_0.cls.applications@,
                                    k2,
                                ) == find_application(apps, k2))
                        },
                    }
                },
            }),
    {
        proof {
            assert(obj_wf(self.objects@, obj as int));
        }
        let generic = match &self.objects[obj] {
            Object::Class(co) => co.cls.generic,
            _ => false,
        };
        if !generic {
            return Err(Error::NotParameterizedType);
        }
        let key: Option<ObjId> = match param {
            Value::Null => None,
            Value::Object(c) => {
                let cc = *c;
                if cc < self.objects.len() {
                    let is_class = match &self.objects[cc] {
                        Object::Class(_) => true,
                        _ => false,
                    };
                    if is_class {
                        Some(cc)
                    } else {
                        return Err(Error::NotAnObject);
                    }
                } else {
                    return Err(Error::NotAnObject);
                }
            },
            _ => {
                return Err(Error::NotAnObject);
            },
        };
        // Memo scan: a prior application with this key is returned as is.
        match &self.objects[obj] {
            Object::Class(co) => {
                let apps = &co.cls.applications;
                let mut i: usize = 0;
                while i < apps.len()
                    invariant
                        0 <= i <= apps@.len(),
                        forall|j: int| 0 <= j < i ==> (#[trigger] apps@[j]).param != key,
                        apps@ == self.objects@[obj as int]->Class_0.cls.applications@,
                        (obj as int) < self.objects@.len(),
                        self.objects@[obj as int] is Class,
                        *self == *old(self),
                        self.wf(),
                        old(self).objects@[obj as int]->Class_0.cls.generic,
                        apply_key(old(self).objects@, *param) == Some(key),
                    decreases apps@.len() - i,
                {
                    if apps[i].param == key {
                        proof {
                            lemma_find_application_at(apps@, key, i as int);
                        }
                        return Ok(apps[i].class);
                    }
                    i = i + 1;
                }
                proof {
                    lemma_find_application_none(apps@, key);
                }
            },
            _ => {},
        }
        // Fresh parameterization: its own prototype, then the applied
        // class, then the memo entry on the generic.
        let base_proto: ObjId;
        let decl_name: String;
        let sealed: bool;
        let superclass: Option<ObjId>;
        let instance_traits: Vec<TraitDecl>;
        let class_traits: Vec<TraitDecl>;
        let instance_scope: u32;
        let class_scope: u32;
        let interfaces: Vec<ObjId>;
        let allocator: AllocKind;
        let default_value: Value;
        match &self.objects[obj] {
            Object::Class(co) => {
                base_proto = co.cls.proto;
                decl_name = co.cls.name.clone();
                sealed = co.cls.sealed;
                superclass = co.cls.superclass;
                instance_traits = self.clone_traits(&co.cls.instance_traits);
                class_traits = self.clone_traits(&co.cls.class_traits);
                instance_scope = co.cls.instance_scope;
                class_scope = co.cls.class_scope;
                interfaces = co.cls.interfaces.clone();
                allocator = co.cls.allocator;
                default_value = co.cls.default_value.clone();
            },
            _ => {
                return Err(Error::NotParameterizedType);
            },
        }
        let proto2 = self.alloc_script_object(Some(base_proto), None);
        let applied = ClassData {
            name: decl_name,
            sealed,
            superclass,
            instance_traits,
            class_traits,
            proto: proto2,
            instance_scope,
            class_scope,
            interfaces,
            param: Some(key),
            applications: Vec::new(),
            generic: false,
            allocator,
            default_value,
        };
        let applied_id = self.objects.len();
        let o = Object::Class(ClassObject { base: ObjectData::base_new(None, None), cls: applied });
        proof {
            lemma_heap_wf_push(self.objects@, o);
        }
        self.objects.push(o);
        let proto_name = QName::dynamic_name(String::from_str("prototype"));
        self.install_dynamic_property(applied_id, &proto_name, Value::Object(proto2));
        let ghost appliedb = self.base_of(applied_id);
        let ghost pre = self.objects@;
        let ghost apps_pre = self.objects@[obj as int]->Class_0.cls.applications@;
        let entry = AppEntry { param: key, class: applied_id };
        let og = &mut self.objects[obj];
        match og {
            Object::Class(co) => {
                co.cls.applications.push(entry);
            },
            _ => {},
        }
        proof {
            lemma_heap_wf_update(pre, obj as int, self.objects@[obj as int]);
            lemma_find_application_push(apps_pre, entry, key);
            assert forall|k2: Option<ObjId>| k2 != key implies #[trigger] find_application(
                self.objects@[obj as int]->Class_0.cls.applications@,
                k2,
            ) == find_application(apps_pre, k2) by {
                lemma_find_application_push(apps_pre, entry, k2);
            }
            assert forall|qn: QName| #[trigger] is_prototype_name(qn) implies lookup(
                self.base_of(applied_id).values@,
                qn,
            ) == Some(Property::Stored { value: Value::Object(proto2) }) by {
                assert(qn_eq(proto_name, qn));
                crate::laws::lemma_lookup_respects_qn_eq(appliedb.values@, proto_name, qn);
                assert(self.base_of(applied_id) == appliedb);
            }
        }
        Ok(applied_id)
    }

    /// Whether the object at `obj` is an instance of the type whose class
    /// object is `class_obj`, by the prototype-chain rule: the class's
    /// explicit `prototype` is read through the ordinary property path,
    /// and the object's prototype chain is searched for it. A `prototype`
    /// value that is not an object (or one still owed to a getter) fails.
    pub fn is_instance_of(&mut self, obj: ObjId, class_obj: ObjId) -> (r: Result<bool, Error>)
        requires
            old(self).wf(),
            (obj as int) < old(self).objects@.len(),
            (class_obj as int) < old(self).objects@.len(),
        ensures
            final(self).wf(),
            class_structure_same(old(self).objects@, final(self).objects@),
            final(self).method_infos == old(self).method_infos,
            final(self).object_class == old(self).object_class,
            final(self).vector_class == old(self).vector_class,
            forall|qn: QName|
                #[trigger] is_prototype_name(qn) && !(old(self).objects@[class_obj as int]
                    is Vector) ==> (match lookup(old(self).base_of(class_obj).values@, qn) {
                    Option::Some(Property::Stored { value }) => (match value {
                        Value::Object(p) => r == Ok::<bool, Error>(
                            proto_chain_contains(old(self).objects@, obj as int, p),
                        ) && same_avm(*old(self), *final(self)),
                        _ => r == Err::<bool, Error>(Error::NotAnObject) && same_avm(
                            *old(self),
                            *final(self),
                        ),
                    }),
                    _ => true,
                }),
    {
        let mn = Multiname::dynamic_name(String::from_str("prototype"));
        proof {
            let objects = self.objects@;
            if !(objects[class_obj as int] is Vector) {
                assert forall|qn: QName| #[trigger] is_prototype_name(qn) && lookup(
                    self.base_of(class_obj).values@,
                    qn,
                ) is Some implies ({
                    let qnm = QName { ns: mn.ns_set@[0], local: mn.name->0 };
                    qn_eq(qnm, qn) && lookup(self.base_of(class_obj).values@, qnm) == lookup(
                        self.base_of(class_obj).values@,
                        qn,
                    )
                }) by {
                    let qnm = QName { ns: mn.ns_set@[0], local: mn.name->0 };
                    crate::laws::lemma_lookup_respects_qn_eq(
                        self.base_of(class_obj).values@,
                        qnm,
                        qn,
                    );
                }
                let qnm = QName { ns: mn.ns_set@[0], local: mn.name->0 };
                if lookup(self.base_of(class_obj).values@, qnm) matches Some(
                    Property::Stored { .. },
                ) {
                    crate::laws::lemma_get_reads_own_binding(objects, class_obj as int, mn);
                }
            }
        }
        let got = match self.get_property(class_obj, class_obj, &mn) {
            Result::Ok(v) => v,
            Result::Err(e) => {
                return Err(e);
            },
        };
        match got {
            ReturnValue::Immediate(Value::Object(p)) => Ok(self.has_prototype_in_chain(obj, p)),
            _ => Err(Error::NotAnObject),
        }
    }

    /// Whether `target` stands in the prototype chain above the object
    /// at `obj`.
    pub fn has_prototype_in_chain(&self, obj: ObjId, target: ObjId) -> (r: bool)
        requires
            self.wf(),
            (obj as int) < self.objects@.len(),
        ensures
            r == proto_chain_contains(self.objects@, obj as int, target),
        decreases obj,
    {
        proof {
            assert(obj_wf(self.objects@, obj as int));
        }
        match self.objects[obj].base().proto() {
            Option::Some(p) => {
                if p == target {
                    true
                } else {
                    self.has_prototype_in_chain(p, target)
                }
            },
            Option::None => false,
        }
    }

    /// Whether the object at `obj` is of the type whose class object is
    /// `test_class`, by the class-chain rule: the object's class, its
    /// interfaces, and so on up the superclass chain. A classless object
    /// is still of the baseline object type.
    pub fn is_of_type(&self, obj: ObjId, test_class: ObjId) -> (r: bool)
        requires
            self.wf(),
            (obj as int) < self.objects@.len(),
        ensures
            ({
                let b = self.objects@[obj as int].spec_base();
                match b.instance_of {
                    Option::Some(mc) => r == class_chain_contains(
                        self.objects@,
                        mc as int,
                        test_class,
                    ),
                    Option::None => r == (self.object_class == Some(test_class)),
                }
            }),
    {
        proof {
            assert(obj_wf(self.objects@, obj as int));
        }
        match self.objects[obj].base().instance_of() {
            Option::Some(mc) => self.has_class_in_chain(mc, test_class),
            Option::None => match self.object_class {
                Option::Some(oc) => oc == test_class,
                Option::None => false,
            },
        }
    }

    /// Whether `target` is the class at `c`, one of its interfaces, or
    /// so on up the superclass chain.
    pub fn has_class_in_chain(&self, c: ObjId, target: ObjId) -> (r: bool)
        requires
            self.wf(),
            (c as int) < self.objects@.len(),
            self.objects@[c as int] is Class,
        ensures
            r == class_chain_contains(self.objects@, c as int, target),
        decreases c,
    {
        proof {
            assert(obj_wf(self.objects@, c as int));
        }
        if c == target {
            return true;
        }
        let sup: Option<ObjId>;
        match &self.objects[c] {
            Object::Class(co) => {
                let mut i: usize = 0;
                while i < co.cls.interfaces.len()
                    invariant
                        0 <= i <= co.cls.interfaces@.len(),
                        forall|j: int| 0 <= j < i ==> co.cls.interfaces@[j] != target,
                        (c as int) < self.objects@.len(),
                        self.objects@[c as int] is Class,
                        *co == self.objects@[c as int]->Class_0,
                    decreases co.cls.interfaces@.len() - i,
                {
                    if co.cls.interfaces[i] == target {
                        return true;
                    }
                    i = i + 1;
                }
                sup = co.cls.superclass;
            },
            _ => {
                return false;
            },
        }
        match sup {
            Option::Some(s) => self.has_class_in_chain(s, target),
            Option::None => false,
        }
    }

    /// The class data of the class the object at `obj` is an instance
    /// of, if it has one.
    pub fn instance_of_class_definition(&self, obj: ObjId) -> (r: Option<&ClassData>)
        requires
            self.wf(),
            (obj as int) < self.objects@.len(),
        ensures
            (match self.objects@[obj as int].spec_base().instance_of {
                Option::Some(c) => r is Some && *r->0 == self.objects@[c as int]->Class_0.cls,
                Option::None => r is None,
            }),
    {
        proof {
            assert(obj_wf(self.objects@, obj as int));
        }
        match self.objects[obj].base().instance_of() {
            Option::Some(c) => match &self.objects[c] {
                Object::Class(co) => Some(&co.cls),
                _ => None,
            },
            Option::None => None,
        }
    }

    /// The class data of the object at `obj` itself, if it is a class
    /// object.
    pub fn as_class_object(&self, obj: ObjId) -> (r: Option<&ClassData>)
        requires
            (obj as int) < self.objects@.len(),
        ensures
            self.objects@[obj as int] is Class ==> r == Some(
                &self.objects@[obj as int]->Class_0.cls,
            ),
            !(self.objects@[obj as int] is Class) ==> r is None,
    {
        match &self.objects[obj] {
            Object::Class(co) => Some(&co.cls),
            _ => None,
        }
    }

    /// The element storage of the object at `obj`, if it is a vector.
    pub fn as_vector_storage(&self, obj: ObjId) -> (r: Option<&VectorStorage>)
        requires
            (obj as int) < self.objects@.len(),
        ensures
            self.objects@[obj as int] is Vector ==> r == Some(
                &self.objects@[obj as int]->Vector_0.vector,
            ),
            !(self.objects@[obj as int] is Vector) ==> r is None,
    {
        match &self.objects[obj] {
            Object::Vector(v) => Some(&v.vector),
            _ => None,
        }
    }

    /// The primitive-coercion preference of the object at `obj` when
    /// nothing else decides: numeric, as for every native kind here (a
    /// date-like kind would be the one to prefer strings).
    pub fn default_hint(&self, obj: ObjId) -> (r: Hint)
        ensures
            r is Number,
    {
        let _ = obj;
        Hint::Number
    }

    /// The default string coercion: a vector coerces to itself (its
    /// element text is the interpreter's job); everything else reports
    /// `[object Name]` for its class's name.
    pub fn to_string(&self, obj: ObjId) -> (r: Value)
        requires
            self.wf(),
            (obj as int) < self.objects@.len(),
        ensures
            self.objects@[obj as int] is Vector ==> r == Value::Object(obj),
            !(self.objects@[obj as int] is Vector) ==> r is String && r->String_0@ == "[object "@
                + class_name_of(self.objects@, obj as int) + "]"@,
    {
        match &self.objects[obj] {
            Object::Vector(_) => Value::Object(obj),
            _ => self.tag_string(obj),
        }
    }

    /// The default locale-dependent string coercion: the same
    /// `[object Name]` tag for every kind.
    pub fn to_locale_string(&self, obj: ObjId) -> (r: Value)
        requires
            self.wf(),
            (obj as int) < self.objects@.len(),
        ensures
            r is String,
            r->String_0@ == "[object "@ + class_name_of(self.objects@, obj as int) + "]"@,
    {
        self.tag_string(obj)
    }

    /// Build the `[object Name]` tag for the object at `obj`.
    fn tag_string(&self, obj: ObjId) -> (r: Value)
        requires
            self.wf(),
            (obj as int) < self.objects@.len(),
        ensures
            r is String,
            r->String_0@ == "[object "@ + class_name_of(self.objects@, obj as int) + "]"@,
    {
        proof {
            assert(obj_wf(self.objects@, obj as int));
        }
        let mut s = String::from_str("[object ");
        match self.objects[obj].base().instance_of() {
            Option::Some(c) => match &self.objects[c] {
                Object::Class(co) => {
                    s.append(co.cls.name.as_str());
                },
                _ => {
                    s.append("Object");
                },
            },
            Option::None => {
                s.append("Object");
            },
        }
        s.append("]");
        Value::String(s)
    }

    /// The default primitive coercion: every kind here coerces to
    /// itself (boxed primitives are outside this variant set).
    pub fn value_of(&self, obj: ObjId) -> (r: Value)
        ensures
            r == Value::Object(obj),
    {
        Value::Object(obj)
    }

    /// Build a bare delegate object whose prototype is the object at
    /// `obj`: the old-style instance derivation. A vector derives a
    /// vector with empty element storage keyed by the source's own
    /// element type (a deliberate choice: the source carries the type,
    /// so no baseline-class fallback is needed); every other kind
    /// derives a plain script object. The derived object has no
    /// properties and no class.
    pub fn derive(&mut self, obj: ObjId) -> (r: ObjId)
        requires
            old(self).wf(),
            (obj as int) < old(self).objects@.len(),
        ensures
            final(self).wf(),
            r as int == old(self).objects@.len(),
            final(self).objects@.len() == old(self).objects@.len() + 1,
            forall|j: int|
                0 <= j < old(self).objects@.len() ==> final(self).objects@[j] == old(
                    self,
                ).objects@[j],
            final(self).base_of(r).proto == Some(obj),
            final(self).base_of(r).instance_of is None,
            final(self).base_of(r).values@.len() == 0,
            old(self).objects@[obj as int] is Vector ==> final(self).objects@[r as int] is Vector
                && final(self).objects@[r as int]->Vector_0.vector.storage@.len() == 0
                && final(self).objects@[r as int]->Vector_0.vector.value_type == old(
                self,
            ).objects@[obj as int]->Vector_0.vector.value_type,
            !(old(self).objects@[obj as int] is Vector) ==> final(self).objects@[r as int]
                is Script,
            final(self).method_infos == old(self).method_infos,
            final(self).object_class == old(self).object_class,
            final(self).vector_class == old(self).vector_class,
    {
        proof {
            assert(obj_wf(self.objects@, obj as int));
        }
        let is_vec: Option<ObjId> = match &self.objects[obj] {
            Object::Vector(v) => Some(v.vector.value_type),
            _ => None,
        };
        match is_vec {
            Option::Some(vt) => {
                let id = self.objects.len();
                let o = Object::Vector(
                    VectorObjectData {
                        base: ObjectData::base_new(Some(obj), None),
                        vector: VectorStorage {
                            storage: Vec::new(),
                            is_fixed: false,
                            value_type: vt,
                        },
                    },
                );
                proof {
                    lemma_heap_wf_push(self.objects@, o);
                }
                self.objects.push(o);
                id
            },
            Option::None => self.alloc_script_object(Some(obj), None),
        }
    }
}

/// The memo key a parameter value denotes: `Null` is the any-type key,
/// a class object is itself; anything else is no key at all.
pub open spec fn apply_key(objects: Seq<Object>, param: Value) -> Option<Option<ObjId>> {
    match param {
        Value::Null => Some(None),
        Value::Object(c) => {
            if (c as int) < objects.len() && objects[c as int] is Class {
                Some(Some(c))
            } else {
                None
            }
        },
        _ => None,
    }
}

} // verus!
