//! The trait-installation pipeline.
//!
//! Classes carry static trait declarations; installing them onto an object
//! immediately after allocation gives it its declared shape before any
//! constructor runs. Slot and const traits install their literal default
//! at a fixed slot id; getter and setter traits eagerly synthesize a bound
//! callable closed over the supplied scope, the object as receiver and the
//! defining class; class and function traits only reserve their slot with
//! an `Undefined` placeholder (their objects are materialized later by
//! class loading); method traits install nothing here — they stay lazily
//! bound. Installation is not idempotent by design: reinstalling a trait
//! clobbers whatever binding now lives under its name, so it must happen
//! once per object per trait.

use vstd::prelude::*;
use crate::ObjId;
use crate::avm::{Avm, class_structure_same, only_base_changed, same_avm};
use crate::names::{QName, qn_eq};
use crate::object::{Executable, lemma_heap_wf_update, lemma_only_base_and_new_trans,
    lemma_with_base_self, Object, obj_wf, only_base_and_new, TraitDecl, TraitKind};
use crate::storage::{lookup, Property};
use crate::value::Value;

verus! {

/// The shape of one binding, with the concrete callables and values
/// abstracted away: what kind of binding stands under a name, at which
/// slot or dispatch id, and which accessor halves a virtual binding has.
pub enum BindShape {
    Absent,
    StoredVal,
    SlotAt(u32),
    ConstAt(u32),
    MethodAt(u32),
    Accessors(bool, bool),
}

/// The shape of a looked-up binding.
pub open spec fn shape_of(p: Option<Property>) -> BindShape {
    match p {
        Option::None => BindShape::Absent,
        Option::Some(Property::Stored { .. }) => BindShape::StoredVal,
        Option::Some(Property::Slot { slot_id }) => BindShape::SlotAt(slot_id),
        Option::Some(Property::ConstSlot { slot_id }) => BindShape::ConstAt(slot_id),
        Option::Some(Property::Method { disp_id }) => BindShape::MethodAt(disp_id),
        Option::Some(Property::Virtual { getter, setter }) => BindShape::Accessors(
            getter is Some,
            setter is Some,
        ),
    }
}

/// What installing one trait does to the binding under the trait's own
/// name: slot and const kinds rebind it to their slot; getter and setter
/// kinds build a virtual binding, keeping the other accessor half only
/// when the prior binding was virtual; a method trait installs nothing.
pub open spec fn shape_step(prior: BindShape, t: TraitDecl) -> BindShape {
    match t.kind {
        TraitKind::Slot { slot_id, .. } => BindShape::SlotAt(slot_id),
        TraitKind::Method { .. } => prior,
        TraitKind::Getter { .. } => BindShape::Accessors(
            true,
            (prior matches BindShape::Accessors(_, st) && st),
        ),
        TraitKind::Setter { .. } => BindShape::Accessors(
            (prior matches BindShape::Accessors(g, _) && g),
            true,
        ),
        TraitKind::Class { slot_id } => BindShape::ConstAt(slot_id),
        TraitKind::Function { slot_id } => BindShape::ConstAt(slot_id),
        TraitKind::Const { slot_id, .. } => BindShape::ConstAt(slot_id),
    }
}

/// The binding shape under `name` after installing a trait list left to
/// right, starting from `prior`: traits under other names are skipped,
/// and later traits shadow earlier ones.
pub open spec fn fold_shape(prior: BindShape, traits: Seq<TraitDecl>, name: QName) -> BindShape
    decreases traits.len(),
{
    if traits.len() == 0 {
        prior
    } else {
        let next = if qn_eq(traits[0].name, name) {
            shape_step(prior, traits[0])
        } else {
            prior
        };
        fold_shape(next, traits.drop_first(), name)
    }
}

/// What installing one trait does to the slot at `id`: slot, const,
/// class and function kinds at that id store their default (`Undefined`
/// for the class and function placeholders); every other trait leaves it.
pub open spec fn slot_step(prior: Option<Value>, t: TraitDecl, id: u32) -> Option<Value> {
    match t.kind {
        TraitKind::Slot { slot_id, default } => if slot_id == id {
            Some(default)
        } else {
            prior
        },
        TraitKind::Class { slot_id } => if slot_id == id {
            Some(Value::Undefined)
        } else {
            prior
        },
        TraitKind::Function { slot_id } => if slot_id == id {
            Some(Value::Undefined)
        } else {
            prior
        },
        TraitKind::Const { slot_id, default } => if slot_id == id {
            Some(default)
        } else {
            prior
        },
        _ => prior,
    }
}

/// The value of the slot at `id` after installing a trait list left to
/// right, starting from `prior`.
pub open spec fn fold_slot(prior: Option<Value>, traits: Seq<TraitDecl>, id: u32) -> Option<Value>
    decreases traits.len(),
{
    if traits.len() == 0 {
        prior
    } else {
        fold_slot(slot_step(prior, traits[0], id), traits.drop_first(), id)
    }
}

/// One more trait at the end of the list folds as one more step.
pub proof fn lemma_fold_shape_push(prior: BindShape, traits: Seq<TraitDecl>, t: TraitDecl, name: QName)
    ensures
        fold_shape(prior, traits.push(t), name) == (if qn_eq(t.name, name) {
            shape_step(fold_shape(prior, traits, name), t)
        } else {
            fold_shape(prior, traits, name)
        }),
    decreases traits.len(),
{
    if traits.len() == 0 {
        assert(traits.push(t)[0] == t);
        assert(traits.push(t).drop_first() =~= traits);
        assert(fold_shape(shape_step(prior, t), traits, name) == shape_step(prior, t));
        assert(fold_shape(prior, traits, name) == prior);
    } else {
        assert(traits.push(t)[0] == traits[0]);
        assert(traits.push(t).drop_first() =~= traits.drop_first().push(t));
        let next = if qn_eq(traits[0].name, name) {
            shape_step(prior, traits[0])
        } else {
            prior
        };
        lemma_fold_shape_push(next, traits.drop_first(), t, name);
    }
}

/// One more trait at the end of the list folds as one more slot step.
pub proof fn lemma_fold_slot_push(prior: Option<Value>, traits: Seq<TraitDecl>, t: TraitDecl, id: u32)
    ensures
        fold_slot(prior, traits.push(t), id) == slot_step(fold_slot(prior, traits, id), t, id),
    decreases traits.len(),
{
    if traits.len() == 0 {
        assert(traits.push(t)[0] == t);
        assert(traits.push(t).drop_first() =~= traits);
        assert(fold_slot(slot_step(prior, t, id), traits, id) == slot_step(prior, t, id));
        assert(fold_slot(prior, traits, id) == prior);
    } else {
        assert(traits.push(t)[0] == traits[0]);
        assert(traits.push(t).drop_first() =~= traits.drop_first().push(t));
        lemma_fold_slot_push(slot_step(prior, traits[0], id), traits.drop_first(), t, id);
    }
}

/// Folding a concatenation folds the first list, then the second.
pub proof fn lemma_fold_shape_concat(prior: BindShape, a: Seq<TraitDecl>, b: Seq<TraitDecl>, name: QName)
    ensures
        fold_shape(prior, a + b, name) == fold_shape(fold_shape(prior, a, name), b, name),
    decreases a.len(),
{
    if a.len() == 0 {
        assert(a + b =~= b);
    } else {
        assert((a + b)[0] == a[0]);
        assert((a + b).drop_first() =~= a.drop_first() + b);
        let next = if qn_eq(a[0].name, name) {
            shape_step(prior, a[0])
        } else {
            prior
        };
        lemma_fold_shape_concat(next, a.drop_first(), b, name);
    }
}

/// Folding a concatenation folds the first list, then the second.
pub proof fn lemma_fold_slot_concat(prior: Option<Value>, a: Seq<TraitDecl>, b: Seq<TraitDecl>, id: u32)
    ensures
        fold_slot(prior, a + b, id) == fold_slot(fold_slot(prior, a, id), b, id),
    decreases a.len(),
{
    if a.len() == 0 {
        assert(a + b =~= b);
    } else {
        assert((a + b)[0] == a[0]);
        assert((a + b).drop_first() =~= a.drop_first() + b);
        lemma_fold_slot_concat(slot_step(prior, a[0], id), a.drop_first(), b, id);
    }
}

/// The two bases agree on every binding shape and every slot: the
/// identity the empty fold leaves behind.
pub open spec fn fold_shape_id_holds(a: crate::storage::ObjectData, b: crate::storage::ObjectData) -> bool {
    &&& (forall|n: QName|
        #[trigger] shape_of(lookup(b.values@, n)) == shape_of(lookup(a.values@, n)))
    &&& (forall|k: u32| #[trigger] b.spec_slot(k) == a.spec_slot(k))
}

/// The instance traits a class provides, root class first: the
/// superclass chain's lists, then the class's own, so the most-derived
/// declarations are applied last and shadow inherited ones.
pub open spec fn chain_instance_traits(objects: Seq<Object>, c: int) -> Seq<TraitDecl>
    decreases c,
{
    if 0 <= c < objects.len() && objects[c] is Class {
        let cd = objects[c]->Class_0.cls;
        (if cd.superclass is Some && (cd.superclass->0 as int) < c {
            chain_instance_traits(objects, cd.superclass->0 as int)
        } else {
            Seq::<TraitDecl>::empty()
        }) + cd.instance_traits@
    } else {
        Seq::<TraitDecl>::empty()
    }
}

/// The provided instance traits survive any mutation that keeps class
/// structure.
pub proof fn lemma_chain_instance_traits_stable(a: Seq<Object>, b: Seq<Object>, c: int)
    requires
        class_structure_same(a, b),
        c < a.len(),
    ensures
        chain_instance_traits(b, c) == chain_instance_traits(a, c),
    decreases c,
{
    if 0 <= c < a.len() && a[c] is Class {
        let cd = a[c]->Class_0.cls;
        assert(crate::avm::class_decl_same(cd, b[c]->Class_0.cls));
        if cd.superclass is Some && (cd.superclass->0 as int) < c {
            lemma_chain_instance_traits_stable(a, b, cd.superclass->0 as int);
        }
    }
}


impl Avm {
    /// Install a trait slot holding `value` at slot id `id` under `name`
    /// on the object at `obj`.
    pub fn install_slot(&mut self, obj: ObjId, name: &QName, id: u32, value: Value)
        requires
            old(self).wf(),
            (obj as int) < old(self).objects@.len(),
            !(name.ns is Any),
        ensures
            final(self).wf(),
            only_base_changed(old(self).objects@, final(self).objects@, obj as int),
            class_structure_same(old(self).objects@, final(self).objects@),
            lookup(final(self).base_of(obj).values@, *name) == Some(
                Property::Slot { slot_id: id },
            ),
            forall|n2: QName|
                !qn_eq(n2, *name) ==> #[trigger] lookup(final(self).base_of(obj).values@, n2)
                    == lookup(old(self).base_of(obj).values@, n2),
            final(self).base_of(obj).spec_slot(id) == Some(value),
            forall|k: u32|
                k != id ==> #[trigger] final(self).base_of(obj).spec_slot(k) == old(self).base_of(
                    obj,
                ).spec_slot(k),
            final(self).base_of(obj).enumerants == old(self).base_of(obj).enumerants,
            final(self).method_infos == old(self).method_infos,
            final(self).object_class == old(self).object_class,
            final(self).vector_class == old(self).vector_class,
    {
        let ghost pre = self.objects@;
        proof {
            assert(obj_wf(pre, obj as int));
        }
        let o = &mut self.objects[obj];
        o.base_mut().install_slot(name, id, value);
        proof {
            lemma_heap_wf_update(pre, obj as int, self.objects@[obj as int]);
        }
    }

    /// Install a write-once const slot holding `value` at slot id `id`
    /// under `name` on the object at `obj`.
    pub fn install_const(&mut self, obj: ObjId, name: &QName, id: u32, value: Value)
        requires
            old(self).wf(),
            (obj as int) < old(self).objects@.len(),
            !(name.ns is Any),
        ensures
            final(self).wf(),
            only_base_changed(old(self).objects@, final(self).objects@, obj as int),
            class_structure_same(old(self).objects@, final(self).objects@),
            lookup(final(self).base_of(obj).values@, *name) == Some(
                Property::ConstSlot { slot_id: id },
            ),
            forall|n2: QName|
                !qn_eq(n2, *name) ==> #[trigger] lookup(final(self).base_of(obj).values@, n2)
                    == lookup(old(self).base_of(obj).values@, n2),
            final(self).base_of(obj).spec_slot(id) == Some(value),
            forall|k: u32|
                k != id ==> #[trigger] final(self).base_of(obj).spec_slot(k) == old(self).base_of(
                    obj,
                ).spec_slot(k),
            final(self).base_of(obj).enumerants == old(self).base_of(obj).enumerants,
            final(self).method_infos == old(self).method_infos,
            final(self).object_class == old(self).object_class,
            final(self).vector_class == old(self).vector_class,
    {
        let ghost pre = self.objects@;
        proof {
            assert(obj_wf(pre, obj as int));
        }
        let o = &mut self.objects[obj];
        o.base_mut().install_const(name, id, value);
        proof {
            lemma_heap_wf_update(pre, obj as int, self.objects@[obj as int]);
        }
    }

    /// Install a directly stored value under `name` on the object at
    /// `obj`, without touching the enumeration order.
    pub fn install_dynamic_property(&mut self, obj: ObjId, name: &QName, value: Value)
        requires
            old(self).wf(),
            (obj as int) < old(self).objects@.len(),
            !(name.ns is Any),
        ensures
            final(self).wf(),
            only_base_changed(old(self).objects@, final(self).objects@, obj as int),
            class_structure_same(old(self).objects@, final(self).objects@),
            lookup(final(self).base_of(obj).values@, *name) == Some(Property::Stored { value }),
            forall|n2: QName|
                !qn_eq(n2, *name) ==> #[trigger] lookup(final(self).base_of(obj).values@, n2)
                    == lookup(old(self).base_of(obj).values@, n2),
            crate::storage::same_except_values(old(self).base_of(obj), final(self).base_of(obj)),
            final(self).method_infos == old(self).method_infos,
            final(self).object_class == old(self).object_class,
            final(self).vector_class == old(self).vector_class,
    {
        let ghost pre = self.objects@;
        proof {
            assert(obj_wf(pre, obj as int));
        }
        let o = &mut self.objects[obj];
        o.base_mut().install_dynamic_property(name, value);
        proof {
            lemma_heap_wf_update(pre, obj as int, self.objects@[obj as int]);
        }
    }

    /// Install a getter callable under `name` on the object at `obj`,
    /// keeping a setter already bound there.
    pub fn install_getter(&mut self, obj: ObjId, name: &QName, function: ObjId)
        requires
            old(self).wf(),
            (obj as int) < old(self).objects@.len(),
            !(name.ns is Any),
        ensures
            final(self).wf(),
            only_base_changed(old(self).objects@, final(self).objects@, obj as int),
            class_structure_same(old(self).objects@, final(self).objects@),
            ({
                let prior = lookup(old(self).base_of(obj).values@, *name);
                let kept = match prior {
                    Option::Some(Property::Virtual { getter: _, setter }) => setter,
                    _ => None,
                };
                lookup(final(self).base_of(obj).values@, *name) == Some(
                    Property::Virtual { getter: Some(function), setter: kept },
                )
            }),
            forall|n2: QName|
                !qn_eq(n2, *name) ==> #[trigger] lookup(final(self).base_of(obj).values@, n2)
                    == lookup(old(self).base_of(obj).values@, n2),
            crate::storage::same_except_values(old(self).base_of(obj), final(self).base_of(obj)),
            final(self).method_infos == old(self).method_infos,
            final(self).object_class == old(self).object_class,
            final(self).vector_class == old(self).vector_class,
    {
        let ghost pre = self.objects@;
        proof {
            assert(obj_wf(pre, obj as int));
        }
        let o = &mut self.objects[obj];
        o.base_mut().install_getter(name, function);
        proof {
            lemma_heap_wf_update(pre, obj as int, self.objects@[obj as int]);
        }
    }

    /// Install a setter callable under `name` on the object at `obj`,
    /// keeping a getter already bound there.
    pub fn install_setter(&mut self, obj: ObjId, name: &QName, function: ObjId)
        requires
            old(self).wf(),
            (obj as int) < old(self).objects@.len(),
            !(name.ns is Any),
        ensures
            final(self).wf(),
            only_base_changed(old(self).objects@, final(self).objects@, obj as int),
            class_structure_same(old(self).objects@, final(self).objects@),
            ({
                let prior = lookup(old(self).base_of(obj).values@, *name);
                let kept = match prior {
                    Option::Some(Property::Virtual { getter, setter: _ }) => getter,
                    _ => None,
                };
                lookup(final(self).base_of(obj).values@, *name) == Some(
                    Property::Virtual { getter: kept, setter: Some(function) },
                )
            }),
            forall|n2: QName|
                !qn_eq(n2, *name) ==> #[trigger] lookup(final(self).base_of(obj).values@, n2)
                    == lookup(old(self).base_of(obj).values@, n2),
            crate::storage::same_except_values(old(self).base_of(obj), final(self).base_of(obj)),
            final(self).method_infos == old(self).method_infos,
            final(self).object_class == old(self).object_class,
            final(self).vector_class == old(self).vector_class,
    {
        let ghost pre = self.objects@;
        proof {
            assert(obj_wf(pre, obj as int));
        }
        let o = &mut self.objects[obj];
        o.base_mut().install_setter(name, function);
        proof {
            lemma_heap_wf_update(pre, obj as int, self.objects@[obj as int]);
        }
    }

    /// Install one trait on the object at `obj`, dispatching on its kind:
    /// slot and const traits install their default value at their slot
    /// id; getter and setter traits synthesize a bound callable over
    /// `scope`, the object and `defining_class`, and install it; class
    /// and function traits reserve their slot with `Undefined`; method
    /// traits install nothing (they bind lazily on first read). Returns
    /// the installed value, or `Undefined` where only a placeholder (or
    /// nothing) was installed.
    pub fn install_trait(&mut self, obj: ObjId, trait_entry: &TraitDecl, scope: u32, defining_class:
        Option<ObjId>) -> (r: Value)
        requires
            old(self).wf(),
            (obj as int) < old(self).objects@.len(),
            !(trait_entry.name.ns is Any),
        ensures
            final(self).wf(),
            class_structure_same(old(self).objects@, final(self).objects@),
            only_base_and_new(old(self).objects@, final(self).objects@, obj as int),
            old(self).objects@.len() <= final(self).objects@.len(),
            final(self).method_infos == old(self).method_infos,
            final(self).object_class == old(self).object_class,
            final(self).vector_class == old(self).vector_class,
            forall|n2: QName|
                !qn_eq(n2, trait_entry.name) ==> #[trigger] lookup(
                    final(self).base_of(obj).values@,
                    n2,
                ) == lookup(old(self).base_of(obj).values@, n2),
            shape_of(lookup(final(self).base_of(obj).values@, trait_entry.name)) == shape_step(
                shape_of(lookup(old(self).base_of(obj).values@, trait_entry.name)),
                *trait_entry,
            ),
            forall|k: u32|
                #[trigger] final(self).base_of(obj).spec_slot(k) == slot_step(
                    old(self).base_of(obj).spec_slot(k),
                    *trait_entry,
                    k,
                ),
            final(self).base_of(obj).enumerants == old(self).base_of(obj).enumerants,
            (match trait_entry.kind {
                TraitKind::Slot { slot_id, default } => {
                    &&& r == default
                    &&& only_base_changed(old(self).objects@, final(self).objects@, obj as int)
                    &&& lookup(final(self).base_of(obj).values@, trait_entry.name) == Some(
                        Property::Slot { slot_id },
                    )
                    &&& final(self).base_of(obj).spec_slot(slot_id) == Some(default)
                },
                TraitKind::Method { .. } => r == Value::Undefined && same_avm(
                    *old(self),
                    *final(self),
                ),
                TraitKind::Getter { disp_id: _, method } => ({
                    let f = old(self).objects@.len();
                    &&& r == Value::Object(f as ObjId)
                    &&& final(self).objects@.len() == f + 1
                    &&& final(self).objects@[f as int] is Function
                    &&& final(self).objects@[f as int]->Function_0.executable == (Executable {
                        method,
                        scope,
                        receiver: Some(obj),
                        defining_class,
                    })
                    &&& (forall|j: int|
                        0 <= j < old(self).objects@.len() && j != obj as int
                            ==> final(self).objects@[j] == old(self).objects@[j])
                    &&& ({
                        let prior = lookup(old(self).base_of(obj).values@, trait_entry.name);
                        let kept = match prior {
                            Option::Some(Property::Virtual { getter: _, setter }) => setter,
                            _ => None,
                        };
                        lookup(final(self).base_of(obj).values@, trait_entry.name) == Some(
                            Property::Virtual { getter: Some((f as ObjId)), setter: kept },
                        )
                    })
                }),
                TraitKind::Setter { disp_id: _, method } => ({
                    let f = old(self).objects@.len();
                    &&& r == Value::Object(f as ObjId)
                    &&& final(self).objects@.len() == f + 1
                    &&& final(self).objects@[f as int] is Function
                    &&& final(self).objects@[f as int]->Function_0.executable == (Executable {
                        method,
                        scope,
                        receiver: Some(obj),
                        defining_class,
                    })
                    &&& (forall|j: int|
                        0 <= j < old(self).objects@.len() && j != obj as int
                            ==> final(self).objects@[j] == old(self).objects@[j])
                    &&& ({
                        let prior = lookup(old(self).base_of(obj).values@, trait_entry.name);
                        let kept = match prior {
                            Option::Some(Property::Virtual { getter, setter: _ }) => getter,
                            _ => None,
                        };
                        lookup(final(self).base_of(obj).values@, trait_entry.name) == Some(
                            Property::Virtual { getter: kept, setter: Some((f as ObjId)) },
                        )
                    })
                }),
                TraitKind::Class { slot_id } => {
                    &&& r == Value::Undefined
                    &&& only_base_changed(old(self).objects@, final(self).objects@, obj as int)
                    &&& lookup(final(self).base_of(obj).values@, trait_entry.name) == Some(
                        Property::ConstSlot { slot_id },
                    )
                    &&& final(self).base_of(obj).spec_slot(slot_id) == Some(Value::Undefined)
                },
                TraitKind::Function { slot_id } => {
                    &&& r == Value::Undefined
                    &&& only_base_changed(old(self).objects@, final(self).objects@, obj as int)
                    &&& lookup(final(self).base_of(obj).values@, trait_entry.name) == Some(
                        Property::ConstSlot { slot_id },
                    )
                    &&& final(self).base_of(obj).spec_slot(slot_id) == Some(Value::Undefined)
                },
                TraitKind::Const { slot_id, default } => {
                    &&& r == default
                    &&& only_base_changed(old(self).objects@, final(self).objects@, obj as int)
                    &&& lookup(final(self).base_of(obj).values@, trait_entry.name) == Some(
                        Property::ConstSlot { slot_id },
                    )
                    &&& final(self).base_of(obj).spec_slot(slot_id) == Some(default)
                },
            }),
    {
        let name = trait_entry.name.clone();
        match &trait_entry.kind {
            TraitKind::Slot { slot_id, default } => {
                let v = default.clone();
                self.install_slot(obj, &name, *slot_id, v);
                default.clone()
            },
            TraitKind::Method { .. } => {
                proof {
                    lemma_with_base_self(self.objects@[obj as int]);
                }
                Value::Undefined
            },
            TraitKind::Getter { disp_id: _, method } => {
                let f = self.alloc_trait_function(*method, scope, obj, defining_class);
                self.install_getter(obj, &name, f);
                Value::Object(f)
            },
            TraitKind::Setter { disp_id: _, method } => {
                let f = self.alloc_trait_function(*method, scope, obj, defining_class);
                self.install_setter(obj, &name, f);
                Value::Object(f)
            },
            TraitKind::Class { slot_id } => {
                self.install_const(obj, &name, *slot_id, Value::Undefined);
                Value::Undefined
            },
            TraitKind::Function { slot_id } => {
                self.install_const(obj, &name, *slot_id, Value::Undefined);
                Value::Undefined
            },
            TraitKind::Const { slot_id, default } => {
                let v = default.clone();
                self.install_const(obj, &name, *slot_id, v);
                default.clone()
            },
        }
    }

    /// Allocate the bound callable a getter or setter trait installs.
    fn alloc_trait_function(&mut self, method: u32, scope: u32, receiver: ObjId, defining_class:
        Option<ObjId>) -> (r: ObjId)
        requires
            old(self).wf(),
        ensures
            final(self).wf(),
            r as int == old(self).objects@.len(),
            final(self).objects@.len() == old(self).objects@.len() + 1,
            forall|j: int|
                0 <= j < old(self).objects@.len() ==> final(self).objects@[j] == old(
                    self,
                ).objects@[j],
            final(self).objects@[r as int] is Function,
            final(self).objects@[r as int]->Function_0.executable == (Executable {
                method,
                scope,
                receiver: Some(receiver),
                defining_class,
            }),
            final(self).method_infos == old(self).method_infos,
            final(self).object_class == old(self).object_class,
            final(self).vector_class == old(self).vector_class,
    {
        let id = self.objects.len();
        let o = Object::Function(
            crate::object::FunctionObject {
                base: crate::storage::ObjectData::base_new(None, None),
                executable: Executable { method, scope, receiver: Some(receiver), defining_class },
            },
        );
        proof {
            crate::object::lemma_heap_wf_push(self.objects@, o);
        }
        self.objects.push(o);
        id
    }

    /// Install a list of traits on the object at `obj`, in order: each
    /// trait's individual effect (the install-one contract) applied left
    /// to right, so a later trait under a name shadows an earlier one
    /// and names no trait carries keep their bindings. Call this
    /// immediately after allocation, before any constructor runs.
    pub fn install_traits(&mut self, obj: ObjId, traits: &Vec<TraitDecl>, scope: u32,
        defining_class: Option<ObjId>)
        requires
            old(self).wf(),
            (obj as int) < old(self).objects@.len(),
            crate::object::no_wildcard_traits(traits@),
        ensures
            final(self).wf(),
            class_structure_same(old(self).objects@, final(self).objects@),
            only_base_and_new(old(self).objects@, final(self).objects@, obj as int),
            old(self).objects@.len() <= final(self).objects@.len(),
            final(self).method_infos == old(self).method_infos,
            final(self).object_class == old(self).object_class,
            final(self).vector_class == old(self).vector_class,
            forall|n: QName|
                #[trigger] shape_of(lookup(final(self).base_of(obj).values@, n)) == fold_shape(
                    shape_of(lookup(old(self).base_of(obj).values@, n)),
                    traits@,
                    n,
                ),
            forall|k: u32|
                #[trigger] final(self).base_of(obj).spec_slot(k) == fold_slot(
                    old(self).base_of(obj).spec_slot(k),
                    traits@,
                    k,
                ),
            forall|n: QName|
                (forall|j: int| 0 <= j < traits@.len() ==> !qn_eq((#[trigger] traits@[j]).name, n))
                    ==> #[trigger] lookup(final(self).base_of(obj).values@, n) == lookup(
                    old(self).base_of(obj).values@,
                    n,
                ),
            final(self).base_of(obj).enumerants == old(self).base_of(obj).enumerants,
    {
        proof {
            lemma_with_base_self(self.objects@[obj as int]);
            assert(traits@.subrange(0, 0) =~= Seq::<TraitDecl>::empty());
        }
        let mut i: usize = 0;
        while i < traits.len()
            invariant
                self.wf(),
                (obj as int) < old(self).objects@.len(),
                0 <= i <= traits@.len(),
                crate::object::no_wildcard_traits(traits@),
                class_structure_same(old(self).objects@, self.objects@),
                only_base_and_new(old(self).objects@, self.objects@, obj as int),
                old(self).objects@.len() <= self.objects@.len(),
                self.method_infos == old(self).method_infos,
                self.object_class == old(self).object_class,
                self.vector_class == old(self).vector_class,
                forall|n: QName|
                    #[trigger] shape_of(lookup(self.base_of(obj).values@, n)) == fold_shape(
                        shape_of(lookup(old(self).base_of(obj).values@, n)),
                        traits@.subrange(0, i as int),
                        n,
                    ),
                forall|k: u32|
                    #[trigger] self.base_of(obj).spec_slot(k) == fold_slot(
                        old(self).base_of(obj).spec_slot(k),
                        traits@.subrange(0, i as int),
                        k,
                    ),
                forall|n: QName|
                    (forall|j: int| 0 <= j < i ==> !qn_eq((#[trigger] traits@[j]).name, n))
                        ==> #[trigger] lookup(self.base_of(obj).values@, n) == lookup(
                        old(self).base_of(obj).values@,
                        n,
                    ),
                self.base_of(obj).enumerants == old(self).base_of(obj).enumerants,
            decreases traits@.len() - i,
        {
            let ghost mid = self.objects@;
            let ghost midb = self.base_of(obj);
            self.install_trait(obj, &traits[i], scope, defining_class);
            proof {
                lemma_only_base_and_new_trans(old(self).objects@, mid, self.objects@, obj as int);
                let t = traits@[i as int];
                assert(traits@.subrange(0, i + 1) =~= traits@.subrange(0, i as int).push(t));
                let preb = old(self).base_of(obj);
                let postb = self.base_of(obj);
                assert forall|n: QName| #[trigger] shape_of(lookup(postb.values@, n)) == fold_shape(
                    shape_of(lookup(preb.values@, n)),
                    traits@.subrange(0, i + 1),
                    n,
                ) by {
                    lemma_fold_shape_push(
                        shape_of(lookup(preb.values@, n)),
                        traits@.subrange(0, i as int),
                        t,
                        n,
                    );
                    if qn_eq(t.name, n) {
                        crate::laws::lemma_lookup_respects_qn_eq(midb.values@, t.name, n);
                        crate::laws::lemma_lookup_respects_qn_eq(postb.values@, t.name, n);
                    } else {
                        crate::storage::lemma_qn_eq_equiv(n, t.name, t.name);
                        crate::storage::lemma_qn_eq_equiv(t.name, n, n);
                    }
                }
                assert forall|k: u32| #[trigger] postb.spec_slot(k) == fold_slot(
                    preb.spec_slot(k),
                    traits@.subrange(0, i + 1),
                    k,
                ) by {
                    lemma_fold_slot_push(preb.spec_slot(k), traits@.subrange(0, i as int), t, k);
                }
                assert forall|n: QName|
                    (forall|j: int| 0 <= j < i + 1 ==> !qn_eq((#[trigger] traits@[j]).name, n))
                        implies #[trigger] lookup(postb.values@, n) == lookup(
                    preb.values@,
                    n,
                ) by {
                    assert(!qn_eq(t.name, n)) by {
                        assert(!qn_eq(traits@[i as int].name, n));
                    }
                    crate::storage::lemma_qn_eq_equiv(n, t.name, t.name);
                    crate::storage::lemma_qn_eq_equiv(t.name, n, n);
                }
            }
            i = i + 1;
        }
        proof {
            assert(traits@.subrange(0, traits@.len() as int) =~= traits@);
        }
    }

    /// Install every instance trait the class at `from_class` provides:
    /// the superclass's instance traits first (root to leaf), then the
    /// class's own, so subclass traits are applied last and shadow
    /// inherited bindings — the whole chain folded over the object's
    /// bindings in that order.
    pub fn install_instance_traits(&mut self, obj: ObjId, from_class: ObjId)
        requires
            old(self).wf(),
            (obj as int) < old(self).objects@.len(),
            (from_class as int) < old(self).objects@.len(),
            old(self).objects@[from_class as int] is Class,
        ensures
            final(self).wf(),
            class_structure_same(old(self).objects@, final(self).objects@),
            only_base_and_new(old(self).objects@, final(self).objects@, obj as int),
            old(self).objects@.len() <= final(self).objects@.len(),
            final(self).method_infos == old(self).method_infos,
            final(self).object_class == old(self).object_class,
            final(self).vector_class == old(self).vector_class,
            forall|n: QName|
                #[trigger] shape_of(lookup(final(self).base_of(obj).values@, n)) == fold_shape(
                    shape_of(lookup(old(self).base_of(obj).values@, n)),
                    chain_instance_traits(old(self).objects@, from_class as int),
                    n,
                ),
            forall|k: u32|
                #[trigger] final(self).base_of(obj).spec_slot(k) == fold_slot(
                    old(self).base_of(obj).spec_slot(k),
                    chain_instance_traits(old(self).objects@, from_class as int),
                    k,
                ),
            final(self).base_of(obj).enumerants == old(self).base_of(obj).enumerants,
        decreases from_class,
    {
        proof {
            assert(obj_wf(self.objects@, from_class as int));
            lemma_with_base_self(self.objects@[obj as int]);
        }
        let ghost chain = chain_instance_traits(self.objects@, from_class as int);
        let sup: Option<ObjId>;
        let traits: Vec<TraitDecl>;
        let scope: u32;
        match &self.objects[from_class] {
            Object::Class(co) => {
                sup = co.cls.superclass;
                traits = self.clone_traits(&co.cls.instance_traits);
                scope = co.cls.instance_scope;
            },
            _ => {
                return ;
            },
        }
        let ghost sup_chain = match sup {
            Option::Some(s) => chain_instance_traits(old(self).objects@, s as int),
            Option::None => Seq::<TraitDecl>::empty(),
        };
        proof {
            assert(chain == sup_chain + traits@);
        }
        match sup {
            Option::Some(s) => {
                let ghost pre = self.objects@;
                self.install_instance_traits(obj, s);
                proof {
                    lemma_only_base_and_new_trans(pre, pre, self.objects@, obj as int);
                }
            },
            Option::None => {
                proof {
                    assert(fold_shape_id_holds(old(self).base_of(obj), self.base_of(obj)));
                }
            },
        }
        let ghost mid = self.objects@;
        self.install_traits(obj, &traits, scope, Some(from_class));
        proof {
            lemma_only_base_and_new_trans(old(self).objects@, mid, self.objects@, obj as int);
            let preb = old(self).base_of(obj);
            let postb = final(self).base_of(obj);
            assert forall|n: QName| #[trigger] shape_of(lookup(postb.values@, n)) == fold_shape(
                shape_of(lookup(preb.values@, n)),
                chain,
                n,
            ) by {
                lemma_fold_shape_concat(shape_of(lookup(preb.values@, n)), sup_chain, traits@, n);
            }
            assert forall|k: u32| #[trigger] postb.spec_slot(k) == fold_slot(
                preb.spec_slot(k),
                chain,
                k,
            ) by {
                lemma_fold_slot_concat(preb.spec_slot(k), sup_chain, traits@, k);
            }
        }
    }
}

} // verus!
