//! The call operations: calling a named property and calling a method by
//! dispatch id.
//!
//! The object model decides *what* runs — a trait method dispatched
//! directly, a callable value read from the property, or a getter whose
//! result is then called — and the interpreter executes it. A named call
//! prefers direct dispatch of a declared method (unless the method needs a
//! reified arguments object); a call by id materializes the lazily bound
//! method first, exactly as a named read would, then hands back the cached
//! callable.

use vstd::prelude::*;
use crate::ObjId;
use crate::avm::{Avm, class_structure_same, same_avm};
use crate::names::{Multiname, QName};
use crate::object::{MethodInfo, Object, obj_wf, TraitKind};
use crate::props::{get_property_spec, ReadOutcome};
use crate::resolve::{chain_class_method_trait, chain_method_trait, chain_class_method_trait_by_id,
    chain_method_trait_by_id, resolve_multiname_spec};
use crate::value::{Error, ReturnValue, Value};

verus! {

/// What a named call resolves to: a declared method dispatched directly
/// with its scope, receiver and defining class; a callable value to
/// invoke; or a getter the interpreter must run first, calling whatever
/// it yields.
#[derive(Debug)]
pub enum CallResolution {
    Direct { method: u32, scope: u32, receiver: ObjId, superclass: ObjId },
    Callable { callee: ObjId, receiver: ObjId },
    ViaGetter { getter: ObjId, receiver: ObjId },
}

/// Whether the method descriptor `m` needs a reified arguments object,
/// which rules out direct dispatch.
pub open spec fn needs_args(infos: Seq<MethodInfo>, m: u32) -> bool {
    (m as int) < infos.len() && infos[m as int].needs_arguments_object
}

impl Avm {
    /// Whether the method descriptor `m` needs a reified arguments
    /// object.
    fn method_needs_args(&self, m: u32) -> (r: bool)
        ensures
            r == needs_args(self.method_infos@, m),
    {
        if (m as usize) < self.method_infos.len() {
            self.method_infos[m as usize].needs_arguments_object
        } else {
            false
        }
    }

    /// Build the bound callable for the nearest instance method trait
    /// with dispatch id `disp_id` on the class at `class`, reporting the
    /// callable and the trait's storage name.
    fn bound_instance_method_by_id(&mut self, class: ObjId, receiver: ObjId, disp_id: u32) -> (r:
        Option<(ObjId, QName)>)
        requires
            old(self).wf(),
            (class as int) < old(self).objects@.len(),
            old(self).objects@[class as int] is Class,
        ensures
            final(self).wf(),
            (match chain_method_trait_by_id(old(self).objects@, class as int, disp_id) {
                Option::None => r is None && same_avm(*old(self), *final(self)),
                Option::Some(dt) => ({
                    let fid = old(self).objects@.len();
                    &&& r is Some
                    &&& ({
                        let p = r->0;
                        p.0 as int == fid && p.1 == dt.1.name
                    })
                    &&& final(self).objects@.len() == fid + 1
                    &&& (forall|j: int|
                        0 <= j < old(self).objects@.len() ==> final(self).objects@[j] == old(
                            self,
                        ).objects@[j])
                    &&& final(self).objects@[fid as int] is Function
                    &&& final(self).base_of(fid as ObjId).values@.len() == 0
                }),
            }),
            final(self).method_infos == old(self).method_infos,
            final(self).object_class == old(self).object_class,
            final(self).vector_class == old(self).vector_class,
    {
        match self.instance_method_trait_by_id(class, disp_id) {
            Option::None => None,
            Option::Some((defining, t)) => {
                let method = match &t.kind {
                    TraitKind::Method { disp_id: _, method } => *method,
                    _ => 0,
                };
                let scope = match &self.objects[class] {
                    Object::Class(co) => co.cls.instance_scope,
                    _ => 0,
                };
                let f = self.alloc_plain_function(method, scope, Some(receiver), Some(defining));
                Some((f, t.name))
            },
        }
    }

    /// Build the bound callable for the nearest class method trait with
    /// dispatch id `disp_id` on the class at `class`, reporting the
    /// callable and the trait's storage name.
    fn bound_class_method_by_id(&mut self, class: ObjId, disp_id: u32) -> (r: Option<
        (ObjId, QName),
    >)
        requires
            old(self).wf(),
            (class as int) < old(self).objects@.len(),
            old(self).objects@[class as int] is Class,
        ensures
            final(self).wf(),
            (match chain_class_method_trait_by_id(old(self).objects@, class as int, disp_id) {
                Option::None => r is None && same_avm(*old(self), *final(self)),
                Option::Some(dt) => ({
                    let fid = old(self).objects@.len();
                    &&& r is Some
                    &&& ({
                        let p = r->0;
                        p.0 as int == fid && p.1 == dt.1.name
                    })
                    &&& final(self).objects@.len() == fid + 1
                    &&& (forall|j: int|
                        0 <= j < old(self).objects@.len() ==> final(self).objects@[j] == old(
                            self,
                        ).objects@[j])
                    &&& final(self).objects@[fid as int] is Function
                    &&& final(self).base_of(fid as ObjId).values@.len() == 0
                }),
            }),
            final(self).method_infos == old(self).method_infos,
            final(self).object_class == old(self).object_class,
            final(self).vector_class == old(self).vector_class,
    {
        match self.class_method_trait_by_id(class, disp_id) {
            Option::None => None,
            Option::Some((defining, t)) => {
                let method = match &t.kind {
                    TraitKind::Method { disp_id: _, method } => *method,
                    _ => 0,
                };
                let scope = match &self.objects[class] {
                    Object::Class(co) => co.cls.class_scope,
                    _ => 0,
                };
                let f = self.alloc_plain_function(method, scope, Some(class), Some(defining));
                Some((f, t.name))
            },
        }
    }

    /// Allocate a bound-callable object.
    fn alloc_plain_function(&mut self, method: u32, scope: u32, receiver: Option<ObjId>,
        defining_class: Option<ObjId>) -> (r: ObjId)
        requires
            old(self).wf(),
        ensures
            final(self).wf(),
            r as int == old(self).objects@.len(),
            final(self).objects@.len() == old(self).objects@.len() + 1,
            forall|j: int|
                0 <= j < old(self).objects@.len() ==> final(self).objects@[j] == old(
                    self,
                ).objects@[j],
            final(self).objects@[r as int] is Function,
            final(self).base_of(r).values@.len() == 0,
            final(self).method_infos == old(self).method_infos,
            final(self).object_class == old(self).object_class,
            final(self).vector_class == old(self).vector_class,
    {
        let id = self.objects.len();
        let o = Object::Function(
            crate::object::FunctionObject {
                base: crate::storage::ObjectData::base_new(None, None),
                executable: crate::object::Executable { method, scope, receiver, defining_class },
            },
        );
        proof {
            crate::object::lemma_heap_wf_push(self.objects@, o);
        }
        self.objects.push(o);
        id
    }

    /// Call a method by dispatch id: hand back the bound callable the
    /// interpreter must run. A missing binding is materialized from the
    /// instance class (then, for a class object, from its own static
    /// table) exactly as a named read would; an id that resolves to
    /// nothing even then is unknown.
    pub fn call_method(&mut self, obj: ObjId, id: u32) -> (r: Result<ObjId, Error>)
        requires
            old(self).wf(),
            (obj as int) < old(self).objects@.len(),
        ensures
            final(self).wf(),
            class_structure_same(old(self).objects@, final(self).objects@),
            final(self).method_infos == old(self).method_infos,
            final(self).object_class == old(self).object_class,
            final(self).vector_class == old(self).vector_class,
            (match old(self).base_of(obj).spec_method(id) {
                Option::Some(m) => r == Ok::<ObjId, Error>(m) && same_avm(*old(self), *final(self)),
                Option::None => ({
                    let b = old(self).base_of(obj);
                    let ihit = b.instance_of is Some && chain_method_trait_by_id(
                        old(self).objects@,
                        b.instance_of->0 as int,
                        id,
                    ) is Some;
                    let chit = old(self).objects@[obj as int] is Class
                        && chain_class_method_trait_by_id(old(self).objects@, obj as int, id)
                        is Some;
                    if !ihit && !chit {
                        r == Err::<ObjId, Error>(Error::UnknownMethodId { id }) && same_avm(
                            *old(self),
                            *final(self),
                        )
                    } else {
                        &&& r is Ok
                        &&& final(self).base_of(obj).spec_method(id) == Some(r->Ok_0)
                        &&& (r->Ok_0 as int) < final(self).objects@.len()
                        &&& final(self).objects@[r->Ok_0 as int] is Function
                    }
                }),
            }),
    {
        proof {
            assert(obj_wf(self.objects@, obj as int));
        }
        let existing = self.objects[obj].base().get_method(id);
        match existing {
            Option::Some(m) => Ok(m),
            Option::None => {
                match self.instance_of(obj) {
                    Option::Some(class) => {
                        proof {
                            assert((class as int) < self.objects@.len()
                                && self.objects@[class as int] is Class);
                        }
                        proof {
                            crate::resolve::lemma_chain_method_trait_by_id_no_wildcard(
                                self.objects@,
                                class as int,
                                id,
                            );
                        }
                        match self.bound_instance_method_by_id(class, obj, id) {
                            Option::Some((f, name)) => {
                                self.install_method(obj, &name, id, f);
                            },
                            Option::None => {},
                        }
                    },
                    Option::None => {},
                }
                let is_class = match &self.objects[obj] {
                    Object::Class(_) => true,
                    _ => false,
                };
                if is_class {
                    proof {
                        crate::resolve::lemma_chain_class_method_trait_by_id_no_wildcard(
                            self.objects@,
                            obj as int,
                            id,
                        );
                    }
                    match self.bound_class_method_by_id(obj, id) {
                        Option::Some((f, name)) => {
                            self.install_method(obj, &name, id, f);
                        },
                        Option::None => {},
                    }
                }
                match self.objects[obj].base().get_method(id) {
                    Option::Some(m) => Ok(m),
                    Option::None => Err(Error::UnknownMethodId { id }),
                }
            },
        }
    }

    /// Call a named property: decide what the interpreter must run, in
    /// the fixed precedence order. A declared instance method (then, on
    /// a class object, a declared class method) dispatches directly
    /// without materialization, unless it needs a reified arguments
    /// object; otherwise the property is read through the ordinary get
    /// path and its value is the callee — an unresolvable name, and a
    /// value that is not an object, cannot be called.
    pub fn call_property(&mut self, obj: ObjId, mn: &Multiname) -> (r: Result<
        CallResolution,
        Error,
    >)
        requires
            old(self).wf(),
            (obj as int) < old(self).objects@.len(),
        ensures
            final(self).wf(),
            class_structure_same(old(self).objects@, final(self).objects@),
            final(self).method_infos == old(self).method_infos,
            final(self).object_class == old(self).object_class,
            final(self).vector_class == old(self).vector_class,
            (match resolve_multiname_spec(old(self).objects@, obj as int, *mn) {
                Option::None => r == Err::<CallResolution, Error>(
                    Error::NotCallable { name: mn.name },
                ) && same_avm(*old(self), *final(self)),
                Option::Some(qn) => ({
                    let pre = old(self).objects@;
                    let b = old(self).base_of(obj);
                    let imeth = if b.instance_of is Some {
                        chain_method_trait(pre, b.instance_of->0 as int, qn)
                    } else {
                        None
                    };
                    let cmeth = if pre[obj as int] is Class {
                        chain_class_method_trait(pre, obj as int, qn)
                    } else {
                        None
                    };
                    if imeth is Some && !needs_args(
                        old(self).method_infos@,
                        imeth->Some_0.1.kind->Method_method,
                    ) {
                        &&& same_avm(*old(self), *final(self))
                        &&& r == Ok::<CallResolution, Error>(
                            CallResolution::Direct {
                                method: imeth->Some_0.1.kind->Method_method,
                                scope: pre[b.instance_of->0 as int]->Class_0.cls.instance_scope,
                                receiver: obj,
                                superclass: (imeth->Some_0.0 as ObjId),
                            },
                        )
                    } else if cmeth is Some && !needs_args(
                        old(self).method_infos@,
                        cmeth->Some_0.1.kind->Method_method,
                    ) {
                        &&& same_avm(*old(self), *final(self))
                        &&& r == Ok::<CallResolution, Error>(
                            CallResolution::Direct {
                                method: cmeth->Some_0.1.kind->Method_method,
                                scope: pre[obj as int]->Class_0.cls.class_scope,
                                receiver: obj,
                                superclass: (cmeth->Some_0.0 as ObjId),
                            },
                        )
                    } else {
                        match get_property_spec(pre, obj as int, *mn) {
                            Option::Some(out) => (match out {
                                ReadOutcome::Value(Value::Object(f)) => r == Ok::<
                                    CallResolution,
                                    Error,
                                >(CallResolution::Callable { callee: f, receiver: obj })
                                    && same_avm(*old(self), *final(self)),
                                ReadOutcome::Value(_) => r == Err::<CallResolution, Error>(
                                    Error::NotCallable { name: mn.name },
                                ) && same_avm(*old(self), *final(self)),
                                ReadOutcome::Getter(g) => r == Ok::<CallResolution, Error>(
                                    CallResolution::ViaGetter { getter: g, receiver: obj },
                                ) && same_avm(*old(self), *final(self)),
                                ReadOutcome::Fail(e) => r == Err::<CallResolution, Error>(e),
                            }),
                            Option::None => {
                                &&& r is Ok
                                &&& r->Ok_0 is Callable
                                &&& r->Ok_0->Callable_callee as int == pre.len()
                                &&& final(self).objects@.len() == pre.len() + 1
                            },
                        }
                    }
                }),
            }),
    {
        proof {
            assert(obj_wf(self.objects@, obj as int));
        }
        let resolved = self.resolve_multiname(obj, mn);
        let qn: QName = match resolved {
            Option::Some(qn) => qn,
            Option::None => {
                let n = match mn.local_name() {
                    Option::Some(l) => Some(l.clone()),
                    Option::None => None,
                };
                return Err(Error::NotCallable { name: n });
            },
        };
        match self.instance_of(obj) {
            Option::Some(class) => {
                proof {
                    assert((class as int) < self.objects@.len() && self.objects@[class as int]
                        is Class);
                    crate::props::lemma_chain_method_trait_is_method(
                        self.objects@,
                        class as int,
                        qn,
                    );
                }
                match self.instance_method_trait(class, &qn) {
                    Option::Some((defining, t)) => {
                        let method = match &t.kind {
                            TraitKind::Method { disp_id: _, method } => *method,
                            _ => 0,
                        };
                        if !self.method_needs_args(method) {
                            let scope = match &self.objects[class] {
                                Object::Class(co) => co.cls.instance_scope,
                                _ => 0,
                            };
                            return Ok(
                                CallResolution::Direct {
                                    method,
                                    scope,
                                    receiver: obj,
                                    superclass: defining,
                                },
                            );
                        }
                    },
                    Option::None => {},
                }
            },
            Option::None => {},
        }
        let is_class = match &self.objects[obj] {
            Object::Class(_) => true,
            _ => false,
        };
        if is_class {
            proof {
                crate::props::lemma_chain_class_method_trait_is_method(
                    self.objects@,
                    obj as int,
                    qn,
                );
            }
            match self.class_method_trait(obj, &qn) {
                Option::Some((defining, t)) => {
                    let method = match &t.kind {
                        TraitKind::Method { disp_id: _, method } => *method,
                        _ => 0,
                    };
                    if !self.method_needs_args(method) {
                        let scope = match &self.objects[obj] {
                            Object::Class(co) => co.cls.class_scope,
                            _ => 0,
                        };
                        return Ok(
                            CallResolution::Direct {
                                method,
                                scope,
                                receiver: obj,
                                superclass: defining,
                            },
                        );
                    }
                },
                Option::None => {},
            }
        }
        let got = match self.get_property(obj, obj, mn) {
            Result::Ok(v) => v,
            Result::Err(e) => {
                return Err(e);
            },
        };
        match got {
            ReturnValue::Immediate(Value::Object(f)) => Ok(
                CallResolution::Callable { callee: f, receiver: obj },
            ),
            ReturnValue::Immediate(_) => {
                let n = match mn.local_name() {
                    Option::Some(l) => Some(l.clone()),
                    Option::None => None,
                };
                Err(Error::NotCallable { name: n })
            },
            ReturnValue::Deferred { callee, args: _ } => Ok(
                CallResolution::ViaGetter { getter: callee, receiver: obj },
            ),
        }
    }
}

} // verus!
