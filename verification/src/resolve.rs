//! Multiname resolution.
//!
//! A multiname is resolved against a live object: every namespace that has
//! some own-or-trait binding under the multiname's local name is a
//! candidate (`resolve_ns`); the first candidate the multiname's namespace
//! set admits wins; a wildcard in the set admits the first candidate
//! outright; and when nothing matches here, resolution recurses into the
//! prototype. The vector kind extends the candidate list with the public
//! namespace whenever the local name reads as an in-range element index,
//! even though no stored binding exists for it.

use vstd::prelude::*;
use crate::ObjId;
use crate::avm::Avm;
use crate::decimal::{dec_value, is_index_str, parse_index};
use crate::names::{mn_contains_ns, mn_has_any, Multiname, Namespace, ns_is_public, QName, qn_eq};
use crate::nslist::{ns_list_model, NsList};
use crate::object::{no_wildcard_traits, obj_wf, Object, TraitDecl, TraitKind};
use crate::storage::{lookup, no_wildcard_names, PropEntry};

verus! {

/// The first trait declared under `name`, if any.
pub open spec fn find_trait(traits: Seq<TraitDecl>, name: QName) -> Option<TraitDecl>
    decreases traits.len(),
{
    if traits.len() == 0 {
        None
    } else if qn_eq(traits[0].name, name) {
        Some(traits[0])
    } else {
        find_trait(traits.drop_first(), name)
    }
}

/// Whether a trait declaration is a method trait.
pub open spec fn is_method_trait(t: TraitDecl) -> bool {
    t.kind is Method
}

/// The first method trait declared under `name`, if any.
pub open spec fn find_method_trait(traits: Seq<TraitDecl>, name: QName) -> Option<TraitDecl>
    decreases traits.len(),
{
    if traits.len() == 0 {
        None
    } else if is_method_trait(traits[0]) && qn_eq(traits[0].name, name) {
        Some(traits[0])
    } else {
        find_method_trait(traits.drop_first(), name)
    }
}

/// The first method trait declared with dispatch id `disp_id`, if any.
pub open spec fn find_method_trait_by_id(traits: Seq<TraitDecl>, disp_id: u32) -> Option<TraitDecl>
    decreases traits.len(),
{
    if traits.len() == 0 {
        None
    } else if traits[0].kind matches TraitKind::Method { disp_id: d, .. } && d == disp_id {
        Some(traits[0])
    } else {
        find_method_trait_by_id(traits.drop_first(), disp_id)
    }
}

/// Whether some class along the superclass chain of the class object at
/// `c` declares an instance trait under `name`.
pub open spec fn chain_has_trait(objects: Seq<Object>, c: int, name: QName) -> bool
    decreases c,
{
    if 0 <= c < objects.len() && objects[c] is Class {
        let cd = objects[c]->Class_0.cls;
        if find_trait(cd.instance_traits@, name) is Some {
            true
        } else if cd.superclass is Some && (cd.superclass->0 as int) < c {
            chain_has_trait(objects, cd.superclass->0 as int, name)
        } else {
            false
        }
    } else {
        false
    }
}

/// The nearest instance method trait under `name` along the superclass
/// chain of the class object at `c`, with the class that declares it.
/// Subclass declarations shadow superclass ones.
pub open spec fn chain_method_trait(objects: Seq<Object>, c: int, name: QName) -> Option<
    (int, TraitDecl),
>
    decreases c,
{
    if 0 <= c < objects.len() && objects[c] is Class {
        let cd = objects[c]->Class_0.cls;
        match find_method_trait(cd.instance_traits@, name) {
            Some(t) => Some((c, t)),
            None => {
                if cd.superclass is Some && (cd.superclass->0 as int) < c {
                    chain_method_trait(objects, cd.superclass->0 as int, name)
                } else {
                    None
                }
            },
        }
    } else {
        None
    }
}

/// The nearest instance method trait with dispatch id `disp_id` along the
/// superclass chain of the class object at `c`, with its declaring class.
pub open spec fn chain_method_trait_by_id(objects: Seq<Object>, c: int, disp_id: u32) -> Option<
    (int, TraitDecl),
>
    decreases c,
{
    if 0 <= c < objects.len() && objects[c] is Class {
        let cd = objects[c]->Class_0.cls;
        match find_method_trait_by_id(cd.instance_traits@, disp_id) {
            Some(t) => Some((c, t)),
            None => {
                if cd.superclass is Some && (cd.superclass->0 as int) < c {
                    chain_method_trait_by_id(objects, cd.superclass->0 as int, disp_id)
                } else {
                    None
                }
            },
        }
    } else {
        None
    }
}

/// The nearest class method trait under `name` along the superclass chain
/// of the class object at `c` (searching the class traits, not the
/// instance traits), with its declaring class.
pub open spec fn chain_class_method_trait(objects: Seq<Object>, c: int, name: QName) -> Option<
    (int, TraitDecl),
>
    decreases c,
{
    if 0 <= c < objects.len() && objects[c] is Class {
        let cd = objects[c]->Class_0.cls;
        match find_method_trait(cd.class_traits@, name) {
            Some(t) => Some((c, t)),
            None => {
                if cd.superclass is Some && (cd.superclass->0 as int) < c {
                    chain_class_method_trait(objects, cd.superclass->0 as int, name)
                } else {
                    None
                }
            },
        }
    } else {
        None
    }
}

/// The nearest class method trait with dispatch id `disp_id` along the
/// superclass chain of the class object at `c`, with its declaring class.
pub open spec fn chain_class_method_trait_by_id(objects: Seq<Object>, c: int, disp_id: u32)
    -> Option<(int, TraitDecl)>
    decreases c,
{
    if 0 <= c < objects.len() && objects[c] is Class {
        let cd = objects[c]->Class_0.cls;
        match find_method_trait_by_id(cd.class_traits@, disp_id) {
            Some(t) => Some((c, t)),
            None => {
                if cd.superclass is Some && (cd.superclass->0 as int) < c {
                    chain_class_method_trait_by_id(objects, cd.superclass->0 as int, disp_id)
                } else {
                    None
                }
            },
        }
    } else {
        None
    }
}

/// `find_trait` finds the trait at the first matching index.
pub proof fn lemma_find_trait_at(traits: Seq<TraitDecl>, name: QName, i: int)
    requires
        0 <= i < traits.len(),
        forall|j: int| 0 <= j < i ==> !qn_eq(traits[j].name, name),
        qn_eq(traits[i].name, name),
    ensures
        find_trait(traits, name) == Some(traits[i]),
    decreases i,
{
    if i > 0 {
        lemma_find_trait_at(traits.drop_first(), name, i - 1);
    }
}

/// A trait `find_trait` cannot find matches no declaration.
pub proof fn lemma_find_trait_none_no_match(traits: Seq<TraitDecl>, name: QName)
    requires
        find_trait(traits, name) is None,
    ensures
        forall|j: int| 0 <= j < traits.len() ==> !qn_eq((#[trigger] traits[j]).name, name),
    decreases traits.len(),
{
    if traits.len() > 0 {
        lemma_find_trait_none_no_match(traits.drop_first(), name);
        assert forall|j: int| 0 <= j < traits.len() implies !qn_eq(
            (#[trigger] traits[j]).name,
            name,
        ) by {
            if j > 0 {
                assert(traits.drop_first()[j - 1] == traits[j]);
            }
        }
    }
}

/// `find_trait` finds nothing when no index matches.
pub proof fn lemma_find_trait_none(traits: Seq<TraitDecl>, name: QName)
    requires
        forall|j: int| 0 <= j < traits.len() ==> !qn_eq(traits[j].name, name),
    ensures
        find_trait(traits, name) is None,
    decreases traits.len(),
{
    if traits.len() > 0 {
        lemma_find_trait_none(traits.drop_first(), name);
    }
}

/// `find_method_trait` finds the trait at the first matching index.
pub proof fn lemma_find_method_trait_at(traits: Seq<TraitDecl>, name: QName, i: int)
    requires
        0 <= i < traits.len(),
        forall|j: int|
            0 <= j < i ==> !(is_method_trait(#[trigger] traits[j]) && qn_eq(traits[j].name, name)),
        is_method_trait(traits[i]),
        qn_eq(traits[i].name, name),
    ensures
        find_method_trait(traits, name) == Some(traits[i]),
    decreases i,
{
    if i > 0 {
        lemma_find_method_trait_at(traits.drop_first(), name, i - 1);
    }
}

/// `find_method_trait` finds nothing when no index matches.
pub proof fn lemma_find_method_trait_none(traits: Seq<TraitDecl>, name: QName)
    requires
        forall|j: int|
            0 <= j < traits.len() ==> !(is_method_trait(#[trigger] traits[j]) && qn_eq(
                traits[j].name,
                name,
            )),
    ensures
        find_method_trait(traits, name) is None,
    decreases traits.len(),
{
    if traits.len() > 0 {
        lemma_find_method_trait_none(traits.drop_first(), name);
    }
}

/// `find_method_trait_by_id` finds the trait at the first matching index.
pub proof fn lemma_find_method_trait_by_id_at(traits: Seq<TraitDecl>, disp_id: u32, i: int)
    requires
        0 <= i < traits.len(),
        forall|j: int|
            0 <= j < i ==> !((#[trigger] traits[j]).kind matches TraitKind::Method {
                disp_id: d,
                ..
            } && d == disp_id),
        traits[i].kind matches TraitKind::Method { disp_id: d, .. } && d == disp_id,
    ensures
        find_method_trait_by_id(traits, disp_id) == Some(traits[i]),
    decreases i,
{
    if i > 0 {
        lemma_find_method_trait_by_id_at(traits.drop_first(), disp_id, i - 1);
    }
}

/// `find_method_trait_by_id` finds nothing when no index matches.
pub proof fn lemma_find_method_trait_by_id_none(traits: Seq<TraitDecl>, disp_id: u32)
    requires
        forall|j: int|
            0 <= j < traits.len() ==> !((#[trigger] traits[j]).kind matches TraitKind::Method {
                disp_id: d,
                ..
            } && d == disp_id),
    ensures
        find_method_trait_by_id(traits, disp_id) is None,
    decreases traits.len(),
{
    if traits.len() > 0 {
        lemma_find_method_trait_by_id_none(traits.drop_first(), disp_id);
    }
}

/// The namespaces of the own bindings stored under the local name, in
/// storage order.
pub open spec fn own_ns(entries: Seq<PropEntry>, local: Seq<char>) -> Seq<Namespace>
    decreases entries.len(),
{
    if entries.len() == 0 {
        Seq::<Namespace>::empty()
    } else {
        (if entries[0].name.local@ == local {
            seq![entries[0].name.ns]
        } else {
            Seq::<Namespace>::empty()
        }) + own_ns(entries.drop_first(), local)
    }
}

/// The namespaces of the traits declared under the local name, in
/// declaration order.
pub open spec fn trait_ns(traits: Seq<TraitDecl>, local: Seq<char>) -> Seq<Namespace>
    decreases traits.len(),
{
    if traits.len() == 0 {
        Seq::<Namespace>::empty()
    } else {
        (if traits[0].name.local@ == local {
            seq![traits[0].name.ns]
        } else {
            Seq::<Namespace>::empty()
        }) + trait_ns(traits.drop_first(), local)
    }
}

/// Appending an entry appends its namespace to the own-namespace list
/// exactly when the local name matches.
pub proof fn lemma_own_ns_push(entries: Seq<PropEntry>, e: PropEntry, local: Seq<char>)
    ensures
        own_ns(entries.push(e), local) == own_ns(entries, local) + (if e.name.local@ == local {
            seq![e.name.ns]
        } else {
            Seq::<Namespace>::empty()
        }),
    decreases entries.len(),
{
    if entries.len() == 0 {
        assert(entries.push(e)[0] == e);
        assert(entries.push(e).drop_first() =~= entries);
        assert(own_ns(entries, local) == Seq::<Namespace>::empty());
        if e.name.local@ == local {
            assert(own_ns(entries.push(e), local) =~= own_ns(entries, local) + seq![e.name.ns]);
        } else {
            assert(own_ns(entries.push(e), local) =~= own_ns(entries, local)
                + Seq::<Namespace>::empty());
        }
    } else {
        assert(entries.push(e)[0] == entries[0]);
        assert(entries.push(e).drop_first() =~= entries.drop_first().push(e));
        lemma_own_ns_push(entries.drop_first(), e, local);
        assert(own_ns(entries.push(e), local) =~= own_ns(entries, local) + (if e.name.local@
            == local {
            seq![e.name.ns]
        } else {
            Seq::<Namespace>::empty()
        }));
    }
}

/// Appending a trait appends its namespace to the trait-namespace list
/// exactly when the local name matches.
pub proof fn lemma_trait_ns_push(traits: Seq<TraitDecl>, t: TraitDecl, local: Seq<char>)
    ensures
        trait_ns(traits.push(t), local) == trait_ns(traits, local) + (if t.name.local@ == local {
            seq![t.name.ns]
        } else {
            Seq::<Namespace>::empty()
        }),
    decreases traits.len(),
{
    if traits.len() == 0 {
        assert(traits.push(t)[0] == t);
        assert(traits.push(t).drop_first() =~= traits);
        assert(trait_ns(traits, local) == Seq::<Namespace>::empty());
        if t.name.local@ == local {
            assert(trait_ns(traits.push(t), local) =~= trait_ns(traits, local) + seq![t.name.ns]);
        } else {
            assert(trait_ns(traits.push(t), local) =~= trait_ns(traits, local)
                + Seq::<Namespace>::empty());
        }
    } else {
        assert(traits.push(t)[0] == traits[0]);
        assert(traits.push(t).drop_first() =~= traits.drop_first().push(t));
        lemma_trait_ns_push(traits.drop_first(), t, local);
        assert(trait_ns(traits.push(t), local) =~= trait_ns(traits, local) + (if t.name.local@
            == local {
            seq![t.name.ns]
        } else {
            Seq::<Namespace>::empty()
        }));
    }
}

/// The trait namespaces under the local name along the superclass chain
/// of the class object at `c`, own class first.
pub open spec fn chain_trait_ns(objects: Seq<Object>, c: int, local: Seq<char>) -> Seq<Namespace>
    decreases c,
{
    if 0 <= c < objects.len() && objects[c] is Class {
        let cd = objects[c]->Class_0.cls;
        trait_ns(cd.instance_traits@, local) + (if cd.superclass is Some && (cd.superclass->0
            as int) < c {
            chain_trait_ns(objects, cd.superclass->0 as int, local)
        } else {
            Seq::<Namespace>::empty()
        })
    } else {
        Seq::<Namespace>::empty()
    }
}

/// The static (class) trait namespaces under the local name along the
/// superclass chain of the class object at `c`, own class first.
pub open spec fn chain_class_trait_ns(objects: Seq<Object>, c: int, local: Seq<char>) -> Seq<
    Namespace,
>
    decreases c,
{
    if 0 <= c < objects.len() && objects[c] is Class {
        let cd = objects[c]->Class_0.cls;
        trait_ns(cd.class_traits@, local) + (if cd.superclass is Some && (cd.superclass->0
            as int) < c {
            chain_class_trait_ns(objects, cd.superclass->0 as int, local)
        } else {
            Seq::<Namespace>::empty()
        })
    } else {
        Seq::<Namespace>::empty()
    }
}

/// The candidate namespaces the shared storage base reports for a local
/// name: namespaces of own bindings first, then of the class's instance
/// traits along the superclass chain.
pub open spec fn base_resolve_ns(objects: Seq<Object>, o: int, local: Seq<char>) -> Seq<Namespace> {
    let b = objects[o].spec_base();
    own_ns(b.values@, local) + (if b.instance_of is Some && (b.instance_of->0 as int)
        < objects.len() {
        chain_trait_ns(objects, b.instance_of->0 as int, local)
    } else {
        Seq::<Namespace>::empty()
    })
}

/// Whether the list holds the public namespace.
pub open spec fn contains_public(s: Seq<Namespace>) -> bool {
    exists|i: int| 0 <= i < s.len() && ns_is_public(#[trigger] s[i])
}

/// The candidate namespaces the object at `o` reports for a local name.
/// A class object also reports its static trait names along the
/// superclass chain; the vector kind adds the public namespace when the
/// local name reads as an in-range element index and public is not
/// already reported.
pub open spec fn resolve_ns_spec(objects: Seq<Object>, o: int, local: Seq<char>) -> Seq<Namespace> {
    let b = base_resolve_ns(objects, o, local);
    match objects[o] {
        Object::Vector(v) => {
            if !contains_public(b) && is_index_str(local) && dec_value(local)
                < v.vector.storage@.len() {
                b.push(Namespace::Public)
            } else {
                b
            }
        },
        Object::Class(c) => b + chain_class_trait_ns(objects, o, local),
        _ => b,
    }
}

/// The first candidate whose namespace the multiname's set admits.
pub open spec fn first_match_ns(cands: Seq<Namespace>, mn: Multiname) -> Option<Namespace>
    decreases cands.len(),
{
    if cands.len() == 0 {
        None
    } else if mn_contains_ns(mn, cands[0]) {
        Some(cands[0])
    } else {
        first_match_ns(cands.drop_first(), mn)
    }
}

/// `first_match_ns` finds the candidate at the first matching index.
pub proof fn lemma_first_match_ns_at(cands: Seq<Namespace>, mn: Multiname, i: int)
    requires
        0 <= i < cands.len(),
        forall|j: int| 0 <= j < i ==> !mn_contains_ns(mn, #[trigger] cands[j]),
        mn_contains_ns(mn, cands[i]),
    ensures
        first_match_ns(cands, mn) == Some(cands[i]),
    decreases i,
{
    if i > 0 {
        lemma_first_match_ns_at(cands.drop_first(), mn, i - 1);
    }
}

/// `first_match_ns` finds nothing when the set admits no candidate.
pub proof fn lemma_first_match_ns_none(cands: Seq<Namespace>, mn: Multiname)
    requires
        forall|j: int| 0 <= j < cands.len() ==> !mn_contains_ns(mn, #[trigger] cands[j]),
    ensures
        first_match_ns(cands, mn) is None,
    decreases cands.len(),
{
    if cands.len() > 0 {
        lemma_first_match_ns_none(cands.drop_first(), mn);
    }
}

/// Where a multiname resolves on the object at `o`: the first candidate
/// namespace the multiname's set admits; failing that, a set holding the
/// wildcard takes the first candidate outright — or nothing at all, the
/// wildcard never consulting the prototype; failing that, the
/// prototype's resolution; and `None` when no link is left.
pub open spec fn resolve_multiname_spec(objects: Seq<Object>, o: int, mn: Multiname) -> Option<
    QName,
>
    decreases o,
{
    let cands = if mn.name is Some {
        resolve_ns_spec(objects, o, mn.name->0@)
    } else {
        Seq::<Namespace>::empty()
    };
    match first_match_ns(cands, mn) {
        Some(ns) => Some(QName { ns, local: mn.name->0 }),
        None => {
            if mn_has_any(mn) {
                if cands.len() > 0 {
                    Some(QName { ns: cands[0], local: mn.name->0 })
                } else {
                    None
                }
            } else {
                let b = objects[o].spec_base();
                if b.proto is Some && (b.proto->0 as int) < o {
                    resolve_multiname_spec(objects, b.proto->0 as int, mn)
                } else {
                    None
                }
            }
        },
    }
}

/// Whether the object at `o` has `name` as an own property or own trait,
/// prototype chain not consulted. The vector kind also owns every
/// in-range element index in the public namespace.
pub open spec fn has_own_property_spec(objects: Seq<Object>, o: int, name: QName) -> bool {
    let b = objects[o].spec_base();
    let base_has = lookup(b.values@, name) is Some || (b.instance_of is Some && (b.instance_of->0
        as int) < objects.len() && chain_has_trait(objects, b.instance_of->0 as int, name));
    match objects[o] {
        Object::Vector(v) => {
            if ns_is_public(name.ns) && is_index_str(name.local@) {
                dec_value(name.local@) < v.vector.storage@.len()
            } else {
                base_has
            }
        },
        _ => base_has,
    }
}

/// Own candidates inherit the storage invariant: none is the wildcard.
pub proof fn lemma_own_ns_no_wildcard(entries: Seq<PropEntry>, local: Seq<char>)
    requires
        no_wildcard_names(entries),
    ensures
        forall|k: int|
            0 <= k < own_ns(entries, local).len() ==> !((#[trigger] own_ns(entries, local)[k])
                is Any),
    decreases entries.len(),
{
    if entries.len() > 0 {
        assert(no_wildcard_names(entries.drop_first())) by {
            assert forall|j: int| 0 <= j < entries.drop_first().len() implies !((
            #[trigger] entries.drop_first()[j]).name.ns is Any) by {
                assert(entries.drop_first()[j] == entries[j + 1]);
            }
        }
        lemma_own_ns_no_wildcard(entries.drop_first(), local);
        let head = if entries[0].name.local@ == local {
            seq![entries[0].name.ns]
        } else {
            Seq::<Namespace>::empty()
        };
        assert forall|k: int| 0 <= k < own_ns(entries, local).len() implies !((#[trigger] own_ns(
            entries,
            local,
        )[k]) is Any) by {
            if k < head.len() {
                assert(own_ns(entries, local)[k] == entries[0].name.ns);
            } else {
                assert(own_ns(entries, local)[k] == own_ns(entries.drop_first(), local)[k
                    - head.len()]);
            }
        }
    }
}

/// Trait candidates inherit the declaration invariant: none is the
/// wildcard.
pub proof fn lemma_trait_ns_no_wildcard(traits: Seq<TraitDecl>, local: Seq<char>)
    requires
        no_wildcard_traits(traits),
    ensures
        forall|k: int|
            0 <= k < trait_ns(traits, local).len() ==> !((#[trigger] trait_ns(traits, local)[k])
                is Any),
    decreases traits.len(),
{
    if traits.len() > 0 {
        assert(no_wildcard_traits(traits.drop_first())) by {
            assert forall|j: int| 0 <= j < traits.drop_first().len() implies !((
            #[trigger] traits.drop_first()[j]).name.ns is Any) by {
                assert(traits.drop_first()[j] == traits[j + 1]);
            }
        }
        lemma_trait_ns_no_wildcard(traits.drop_first(), local);
        let head = if traits[0].name.local@ == local {
            seq![traits[0].name.ns]
        } else {
            Seq::<Namespace>::empty()
        };
        assert forall|k: int| 0 <= k < trait_ns(traits, local).len() implies !((#[trigger] trait_ns(
            traits,
            local,
        )[k]) is Any) by {
            if k < head.len() {
                assert(trait_ns(traits, local)[k] == traits[0].name.ns);
            } else {
                assert(trait_ns(traits, local)[k] == trait_ns(traits.drop_first(), local)[k
                    - head.len()]);
            }
        }
    }
}

/// Instance-trait chain candidates are never the wildcard.
pub proof fn lemma_chain_trait_ns_no_wildcard(objects: Seq<Object>, c: int, local: Seq<char>)
    requires
        crate::object::heap_wf(objects),
    ensures
        forall|k: int|
            0 <= k < chain_trait_ns(objects, c, local).len() ==> !((#[trigger] chain_trait_ns(
                objects,
                c,
                local,
            )[k]) is Any),
    decreases c,
{
    if 0 <= c < objects.len() && objects[c] is Class {
        assert(obj_wf(objects, c));
        let cd = objects[c]->Class_0.cls;
        lemma_trait_ns_no_wildcard(cd.instance_traits@, local);
        let own = trait_ns(cd.instance_traits@, local);
        let rest = if cd.superclass is Some && (cd.superclass->0 as int) < c {
            chain_trait_ns(objects, cd.superclass->0 as int, local)
        } else {
            Seq::<Namespace>::empty()
        };
        if cd.superclass is Some && (cd.superclass->0 as int) < c {
            lemma_chain_trait_ns_no_wildcard(objects, cd.superclass->0 as int, local);
        }
        assert forall|k: int| 0 <= k < chain_trait_ns(objects, c, local).len() implies !((
        #[trigger] chain_trait_ns(objects, c, local)[k]) is Any) by {
            if k < own.len() {
                assert(chain_trait_ns(objects, c, local)[k] == own[k]);
            } else {
                assert(chain_trait_ns(objects, c, local)[k] == rest[k - own.len()]);
            }
        }
    }
}

/// Class-trait chain candidates are never the wildcard.
pub proof fn lemma_chain_class_trait_ns_no_wildcard(objects: Seq<Object>, c: int, local: Seq<char>)
    requires
        crate::object::heap_wf(objects),
    ensures
        forall|k: int|
            0 <= k < chain_class_trait_ns(objects, c, local).len() ==> !((
            #[trigger] chain_class_trait_ns(objects, c, local)[k]) is Any),
    decreases c,
{
    if 0 <= c < objects.len() && objects[c] is Class {
        assert(obj_wf(objects, c));
        let cd = objects[c]->Class_0.cls;
        lemma_trait_ns_no_wildcard(cd.class_traits@, local);
        let own = trait_ns(cd.class_traits@, local);
        let rest = if cd.superclass is Some && (cd.superclass->0 as int) < c {
            chain_class_trait_ns(objects, cd.superclass->0 as int, local)
        } else {
            Seq::<Namespace>::empty()
        };
        if cd.superclass is Some && (cd.superclass->0 as int) < c {
            lemma_chain_class_trait_ns_no_wildcard(objects, cd.superclass->0 as int, local);
        }
        assert forall|k: int| 0 <= k < chain_class_trait_ns(objects, c, local).len() implies !((
        #[trigger] chain_class_trait_ns(objects, c, local)[k]) is Any) by {
            if k < own.len() {
                assert(chain_class_trait_ns(objects, c, local)[k] == own[k]);
            } else {
                assert(chain_class_trait_ns(objects, c, local)[k] == rest[k - own.len()]);
            }
        }
    }
}

/// No reported candidate namespace is ever the wildcard: stored names
/// and trait declarations exclude it by invariant, and the vector's
/// added candidate is the public namespace.
pub proof fn lemma_resolve_ns_no_wildcard(objects: Seq<Object>, o: int, local: Seq<char>)
    requires
        crate::object::heap_wf(objects),
        0 <= o < objects.len(),
    ensures
        forall|k: int|
            0 <= k < resolve_ns_spec(objects, o, local).len() ==> !((#[trigger] resolve_ns_spec(
                objects,
                o,
                local,
            )[k]) is Any),
{
    assert(obj_wf(objects, o));
    let b = objects[o].spec_base();
    lemma_own_ns_no_wildcard(b.values@, local);
    let own = own_ns(b.values@, local);
    let traits_part = if b.instance_of is Some && (b.instance_of->0 as int) < objects.len() {
        chain_trait_ns(objects, b.instance_of->0 as int, local)
    } else {
        Seq::<Namespace>::empty()
    };
    if b.instance_of is Some && (b.instance_of->0 as int) < objects.len() {
        lemma_chain_trait_ns_no_wildcard(objects, b.instance_of->0 as int, local);
    }
    let base = base_resolve_ns(objects, o, local);
    assert forall|k: int| 0 <= k < base.len() implies !((#[trigger] base[k]) is Any) by {
        if k < own.len() {
            assert(base[k] == own[k]);
        } else {
            assert(base[k] == traits_part[k - own.len()]);
        }
    }
    match objects[o] {
        Object::Vector(v) => {
            assert forall|k: int| 0 <= k < resolve_ns_spec(objects, o, local).len() implies !((
            #[trigger] resolve_ns_spec(objects, o, local)[k]) is Any) by {
                if k < base.len() {
                    assert(resolve_ns_spec(objects, o, local)[k] == base[k]);
                }
            }
        },
        Object::Class(c) => {
            lemma_chain_class_trait_ns_no_wildcard(objects, o, local);
            let cpart = chain_class_trait_ns(objects, o, local);
            assert forall|k: int| 0 <= k < resolve_ns_spec(objects, o, local).len() implies !((
            #[trigger] resolve_ns_spec(objects, o, local)[k]) is Any) by {
                if k < base.len() {
                    assert(resolve_ns_spec(objects, o, local)[k] == base[k]);
                } else {
                    assert(resolve_ns_spec(objects, o, local)[k] == cpart[k - base.len()]);
                }
            }
        },
        _ => {},
    }
}

/// The first match comes from the candidate list.
pub proof fn lemma_first_match_ns_in_cands(cands: Seq<Namespace>, mn: Multiname)
    requires
        first_match_ns(cands, mn) is Some,
    ensures
        exists|k: int|
            0 <= k < cands.len() && #[trigger] cands[k] == first_match_ns(cands, mn)->Some_0,
    decreases cands.len(),
{
    if cands.len() > 0 {
        if mn_contains_ns(mn, cands[0]) {
            assert(cands[0] == first_match_ns(cands, mn)->Some_0);
        } else {
            lemma_first_match_ns_in_cands(cands.drop_first(), mn);
            let k = choose|k: int|
                0 <= k < cands.drop_first().len() && #[trigger] cands.drop_first()[k]
                    == first_match_ns(cands.drop_first(), mn)->Some_0;
            assert(cands[k + 1] == cands.drop_first()[k]);
        }
    }
}

/// A trait found by dispatch id is an element of the searched list.
pub proof fn lemma_find_method_trait_by_id_element(traits: Seq<TraitDecl>, disp_id: u32)
    requires
        find_method_trait_by_id(traits, disp_id) is Some,
    ensures
        exists|k: int|
            0 <= k < traits.len() && #[trigger] traits[k] == find_method_trait_by_id(
                traits,
                disp_id,
            )->Some_0,
    decreases traits.len(),
{
    if traits.len() > 0 {
        if traits[0].kind matches TraitKind::Method { disp_id: d, .. } && d == disp_id {
            assert(traits[0] == find_method_trait_by_id(traits, disp_id)->Some_0);
        } else {
            lemma_find_method_trait_by_id_element(traits.drop_first(), disp_id);
            let k = choose|k: int|
                0 <= k < traits.drop_first().len() && #[trigger] traits.drop_first()[k]
                    == find_method_trait_by_id(traits.drop_first(), disp_id)->Some_0;
            assert(traits[k + 1] == traits.drop_first()[k]);
        }
    }
}

/// A method trait found by id along the instance chain is never declared
/// under the wildcard namespace.
pub proof fn lemma_chain_method_trait_by_id_no_wildcard(objects: Seq<Object>, c: int, disp_id: u32)
    requires
        crate::object::heap_wf(objects),
    ensures
        chain_method_trait_by_id(objects, c, disp_id) is Some ==> !(chain_method_trait_by_id(
            objects,
            c,
            disp_id,
        )->Some_0.1.name.ns is Any),
    decreases c,
{
    if 0 <= c < objects.len() && objects[c] is Class {
        assert(obj_wf(objects, c));
        let cd = objects[c]->Class_0.cls;
        if find_method_trait_by_id(cd.instance_traits@, disp_id) is Some {
            lemma_find_method_trait_by_id_element(cd.instance_traits@, disp_id);
        } else if cd.superclass is Some && (cd.superclass->0 as int) < c {
            lemma_chain_method_trait_by_id_no_wildcard(objects, cd.superclass->0 as int, disp_id);
        }
    }
}

/// A method trait found by id along the class (static) chain is never
/// declared under the wildcard namespace.
pub proof fn lemma_chain_class_method_trait_by_id_no_wildcard(
    objects: Seq<Object>,
    c: int,
    disp_id: u32,
)
    requires
        crate::object::heap_wf(objects),
    ensures
        chain_class_method_trait_by_id(objects, c, disp_id) is Some ==> !(
        chain_class_method_trait_by_id(objects, c, disp_id)->Some_0.1.name.ns is Any),
    decreases c,
{
    if 0 <= c < objects.len() && objects[c] is Class {
        assert(obj_wf(objects, c));
        let cd = objects[c]->Class_0.cls;
        if find_method_trait_by_id(cd.class_traits@, disp_id) is Some {
            lemma_find_method_trait_by_id_element(cd.class_traits@, disp_id);
        } else if cd.superclass is Some && (cd.superclass->0 as int) < c {
            lemma_chain_class_method_trait_by_id_no_wildcard(
                objects,
                cd.superclass->0 as int,
                disp_id,
            );
        }
    }
}

/// A resolved name is always a concrete storage key: its local name is
/// the multiname's, its namespace is never the wildcard, and the
/// multiname's set either holds that namespace or holds the wildcard.
pub proof fn lemma_resolved_name_is_storage_key(objects: Seq<Object>, o: int, mn: Multiname)
    requires
        crate::object::heap_wf(objects),
        0 <= o < objects.len(),
    ensures
        (match resolve_multiname_spec(objects, o, mn) {
            Option::None => true,
            Option::Some(qn) => {
                &&& mn.name is Some
                &&& qn.local == mn.name->0
                &&& !(qn.ns is Any)
                &&& (mn_contains_ns(mn, qn.ns) || mn_has_any(mn))
            },
        }),
    decreases o,
{
    let cands = if mn.name is Some {
        resolve_ns_spec(objects, o, mn.name->0@)
    } else {
        Seq::<Namespace>::empty()
    };
    if mn.name is Some {
        lemma_resolve_ns_no_wildcard(objects, o, mn.name->0@);
    }
    match first_match_ns(cands, mn) {
        Option::Some(ns) => {
            crate::laws::lemma_first_match_ns_admitted(cands, mn);
            lemma_first_match_ns_in_cands(cands, mn);
        },
        Option::None => {
            if mn_has_any(mn) {
            } else {
                let b = objects[o].spec_base();
                if b.proto is Some && (b.proto->0 as int) < o {
                    lemma_resolved_name_is_storage_key(objects, b.proto->0 as int, mn);
                }
            }
        },
    }
}

/// Own properties or the first prototype link also hold `name`: the
/// shallow containment the `in`-style check uses, which also happens to
/// cover the whole chain when applied recursively along it.
pub open spec fn has_property_spec(objects: Seq<Object>, o: int, name: QName) -> bool {
    has_own_property_spec(objects, o, name) || {
        let b = objects[o].spec_base();
        b.proto is Some && (b.proto->0 as int) < objects.len() && has_own_property_spec(
            objects,
            b.proto->0 as int,
            name,
        )
    }
}

impl Avm {
    /// The candidate namespaces the storage base reports for `local`:
    /// namespaces of own bindings in storage order, then of the class's
    /// instance traits along the superclass chain.
    fn resolve_ns_base(&self, obj: ObjId, local: &String) -> (r: NsList)
        requires
            self.wf(),
            (obj as int) < self.objects@.len(),
        ensures
            ns_list_model(r) == base_resolve_ns(self.objects@, obj as int, local@),
    {
        proof {
            assert(obj_wf(self.objects@, obj as int));
        }
        let mut out = NsList::new();
        let b = self.objects[obj].base();
        let mut i: usize = 0;
        while i < b.values.len()
            invariant
                0 <= i <= b.values@.len(),
                *b == self.objects@[obj as int].spec_base(),
                ns_list_model(out) == own_ns(b.values@.subrange(0, i as int), local@),
            decreases b.values@.len() - i,
        {
            proof {
                assert(b.values@.subrange(0, i + 1).drop_last() =~= b.values@.subrange(0, i as int));
                assert(b.values@.subrange(0, i + 1) =~= b.values@.subrange(0, i as int).push(
                    b.values@[i as int],
                ));
                lemma_own_ns_push(b.values@.subrange(0, i as int), b.values@[i as int], local@);
            }
            let e = &b.values[i];
            if e.name.local == *local {
                out.push(e.name.ns.clone());
                proof {
                    assert(ns_list_model(out) =~= own_ns(b.values@.subrange(0, i + 1), local@));
                }
            } else {
                proof {
                    assert(ns_list_model(out) =~= own_ns(b.values@.subrange(0, i + 1), local@));
                }
            }
            i = i + 1;
        }
        proof {
            assert(b.values@.subrange(0, b.values@.len() as int) =~= b.values@);
        }
        match b.instance_of() {
            Option::Some(c) => {
                self.push_chain_trait_ns(c, local, &mut out);
            },
            Option::None => {
                proof {
                    assert(ns_list_model(out) =~= base_resolve_ns(
                        self.objects@,
                        obj as int,
                        local@,
                    ));
                }
            },
        }
        out
    }

    /// Append the trait namespaces for `local` along the superclass chain
    /// of the class object at `c`.
    fn push_chain_trait_ns(&self, c: ObjId, local: &String, out: &mut NsList)
        requires
            self.wf(),
            (c as int) < self.objects@.len(),
            self.objects@[c as int] is Class,
        ensures
            ns_list_model(*final(out)) == ns_list_model(*old(out)) + chain_trait_ns(
                self.objects@,
                c as int,
                local@,
            ),
        decreases c,
    {
        proof {
            assert(obj_wf(self.objects@, c as int));
        }
        let sup: Option<ObjId>;
        match &self.objects[c] {
            Object::Class(co) => {
                let cd = &co.cls;
                let mut i: usize = 0;
                while i < cd.instance_traits.len()
                    invariant
                        0 <= i <= cd.instance_traits@.len(),
                        (c as int) < self.objects@.len(),
                        self.objects@[c as int] is Class,
                        *cd == self.objects@[c as int]->Class_0.cls,
                        ns_list_model(*out) == ns_list_model(*old(out)) + trait_ns(
                            cd.instance_traits@.subrange(0, i as int),
                            local@,
                        ),
                    decreases cd.instance_traits@.len() - i,
                {
                    proof {
                        assert(cd.instance_traits@.subrange(0, i + 1) =~= cd.instance_traits@
                            .subrange(0, i as int).push(cd.instance_traits@[i as int]));
                        lemma_trait_ns_push(
                            cd.instance_traits@.subrange(0, i as int),
                            cd.instance_traits@[i as int],
                            local@,
                        );
                    }
                    let t = &cd.instance_traits[i];
                    if t.name.local == *local {
                        out.push(t.name.ns.clone());
                        proof {
                            assert(ns_list_model(*out) =~= ns_list_model(*old(out)) + trait_ns(
                                cd.instance_traits@.subrange(0, i + 1),
                                local@,
                            ));
                        }
                    } else {
                        proof {
                            assert(ns_list_model(*out) =~= ns_list_model(*old(out)) + trait_ns(
                                cd.instance_traits@.subrange(0, i + 1),
                                local@,
                            ));
                        }
                    }
                    i = i + 1;
                }
                proof {
                    assert(cd.instance_traits@.subrange(0, cd.instance_traits@.len() as int)
                        =~= cd.instance_traits@);
                }
                sup = cd.superclass;
            },
            _ => {
                return ;
            },
        }
        match sup {
            Option::Some(sc) => {
                self.push_chain_trait_ns(sc, local, out);
                proof {
                    assert(ns_list_model(*out) =~= ns_list_model(*old(out)) + chain_trait_ns(
                        self.objects@,
                        c as int,
                        local@,
                    ));
                }
            },
            Option::None => {
                proof {
                    assert(ns_list_model(*out) =~= ns_list_model(*old(out)) + chain_trait_ns(
                        self.objects@,
                        c as int,
                        local@,
                    ));
                }
            },
        }
    }

    /// Append the static trait namespaces for `local` along the
    /// superclass chain of the class object at `c`.
    fn push_chain_class_trait_ns(&self, c: ObjId, local: &String, out: &mut NsList)
        requires
            self.wf(),
            (c as int) < self.objects@.len(),
            self.objects@[c as int] is Class,
        ensures
            ns_list_model(*final(out)) == ns_list_model(*old(out)) + chain_class_trait_ns(
                self.objects@,
                c as int,
                local@,
            ),
        decreases c,
    {
        proof {
            assert(obj_wf(self.objects@, c as int));
        }
        let sup: Option<ObjId>;
        match &self.objects[c] {
            Object::Class(co) => {
                let cd = &co.cls;
                let mut i: usize = 0;
                while i < cd.class_traits.len()
                    invariant
                        0 <= i <= cd.class_traits@.len(),
                        (c as int) < self.objects@.len(),
                        self.objects@[c as int] is Class,
                        *cd == self.objects@[c as int]->Class_0.cls,
                        ns_list_model(*out) == ns_list_model(*old(out)) + trait_ns(
                            cd.class_traits@.subrange(0, i as int),
                            local@,
                        ),
                    decreases cd.class_traits@.len() - i,
                {
                    proof {
                        assert(cd.class_traits@.subrange(0, i + 1) =~= cd.class_traits@.subrange(
                            0,
                            i as int,
                        ).push(cd.class_traits@[i as int]));
                        lemma_trait_ns_push(
                            cd.class_traits@.subrange(0, i as int),
                            cd.class_traits@[i as int],
                            local@,
                        );
                    }
                    let t = &cd.class_traits[i];
                    if t.name.local == *local {
                        out.push(t.name.ns.clone());
                        proof {
                            assert(ns_list_model(*out) =~= ns_list_model(*old(out)) + trait_ns(
                                cd.class_traits@.subrange(0, i + 1),
                                local@,
                            ));
                        }
                    } else {
                        proof {
                            assert(ns_list_model(*out) =~= ns_list_model(*old(out)) + trait_ns(
                                cd.class_traits@.subrange(0, i + 1),
                                local@,
                            ));
                        }
                    }
                    i = i + 1;
                }
                proof {
                    assert(cd.class_traits@.subrange(0, cd.class_traits@.len() as int)
                        =~= cd.class_traits@);
                }
                sup = cd.superclass;
            },
            _ => {
                return ;
            },
        }
        match sup {
            Option::Some(sc) => {
                self.push_chain_class_trait_ns(sc, local, out);
                proof {
                    assert(ns_list_model(*out) =~= ns_list_model(*old(out))
                        + chain_class_trait_ns(self.objects@, c as int, local@));
                }
            },
            Option::None => {
                proof {
                    assert(ns_list_model(*out) =~= ns_list_model(*old(out))
                        + chain_class_trait_ns(self.objects@, c as int, local@));
                }
            },
        }
    }

    /// List every namespace that has an own-or-trait binding under the
    /// local name. The wildcard is never among them. A class object also
    /// lists its static trait names; the vector kind adds the public
    /// namespace whenever the local name reads as an in-range element
    /// index and public is not already listed.
    pub fn resolve_ns(&self, obj: ObjId, local: &String) -> (r: NsList)
        requires
            self.wf(),
            (obj as int) < self.objects@.len(),
        ensures
            ns_list_model(r) == resolve_ns_spec(self.objects@, obj as int, local@),
            forall|k: int|
                0 <= k < ns_list_model(r).len() ==> !((#[trigger] ns_list_model(r)[k]) is Any),
    {
        proof {
            lemma_resolve_ns_no_wildcard(self.objects@, obj as int, local@);
        }
        let mut out = self.resolve_ns_base(obj, local);
        let is_class = match &self.objects[obj] {
            Object::Class(_) => true,
            _ => false,
        };
        if is_class {
            self.push_chain_class_trait_ns(obj, local, &mut out);
            return out;
        }
        match &self.objects[obj] {
            Object::Vector(v) => {
                let mut has_public = false;
                let n = out.len();
                let mut i: usize = 0;
                while i < n
                    invariant
                        0 <= i <= n,
                        n == ns_list_model(out).len(),
                        !has_public ==> forall|j: int|
                            0 <= j < i ==> !ns_is_public(#[trigger] ns_list_model(out)[j]),
                        has_public ==> contains_public(ns_list_model(out)),
                    decreases n - i,
                {
                    if out.get(i).is_public() {
                        has_public = true;
                    }
                    i = i + 1;
                }
                if !has_public {
                    match parse_index(local.as_str()) {
                        Option::Some(idx) => {
                            if idx < v.vector.storage.len() {
                                out.push(Namespace::Public);
                            }
                        },
                        Option::None => {},
                    }
                }
                out
            },
            _ => out,
        }
    }

    /// Whether the object at `obj` has `name` as an own property or own
    /// trait, prototype chain not consulted. A vector also owns every
    /// in-range element index in the public namespace.
    pub fn has_own_property(&self, obj: ObjId, name: &QName) -> (r: bool)
        requires
            self.wf(),
            (obj as int) < self.objects@.len(),
        ensures
            r == has_own_property_spec(self.objects@, obj as int, *name),
    {
        match &self.objects[obj] {
            Object::Vector(v) => {
                if name.namespace().is_public() {
                    match parse_index(name.local_name().as_str()) {
                        Option::Some(idx) => {
                            return idx < v.vector.storage.len();
                        },
                        Option::None => {},
                    }
                }
            },
            _ => {},
        }
        if self.objects[obj].base().has_own_instantiated_property(name) {
            true
        } else {
            self.has_trait(obj, name)
        }
    }

    /// Whether `name` exists on the object at `obj` or as an own property
    /// of its immediate prototype.
    pub fn has_property(&self, obj: ObjId, name: &QName) -> (r: bool)
        requires
            self.wf(),
            (obj as int) < self.objects@.len(),
        ensures
            r == has_property_spec(self.objects@, obj as int, *name),
    {
        proof {
            assert(obj_wf(self.objects@, obj as int));
        }
        if self.has_own_property(obj, name) {
            true
        } else {
            match self.objects[obj].base().proto() {
                Option::Some(p) => self.has_own_property(p, name),
                Option::None => false,
            }
        }
    }

    /// The `in`-operator containment check; by default exactly
    /// `has_property`, an override point for other object kinds.
    pub fn has_property_via_in(&self, obj: ObjId, name: &QName) -> (r: bool)
        requires
            self.wf(),
            (obj as int) < self.objects@.len(),
        ensures
            r == has_property_spec(self.objects@, obj as int, *name),
    {
        self.has_property(obj, name)
    }

    /// Resolve a multiname to the single qualified name it denotes on the
    /// object at `obj`, searching the prototype chain when nothing
    /// matches locally.
    #[verifier::loop_isolation(false)]
    pub fn resolve_multiname(&self, obj: ObjId, mn: &Multiname) -> (r: Option<QName>)
        requires
            self.wf(),
            (obj as int) < self.objects@.len(),
        ensures
            r == resolve_multiname_spec(self.objects@, obj as int, *mn),
            r is Some ==> {
                &&& mn.name is Some
                &&& r->Some_0.local == mn.name->0
                &&& !(r->Some_0.ns is Any)
                &&& (mn_contains_ns(*mn, r->Some_0.ns) || mn_has_any(*mn))
            },
        decreases obj,
    {
        proof {
            assert(obj_wf(self.objects@, obj as int));
            lemma_resolved_name_is_storage_key(self.objects@, obj as int, *mn);
        }
        let ghost cands_spec = if mn.name is Some {
            resolve_ns_spec(self.objects@, obj as int, mn.name->0@)
        } else {
            Seq::<Namespace>::empty()
        };
        let cands: NsList;
        match mn.local_name() {
            Option::Some(local) => {
                cands = self.resolve_ns(obj, local);
            },
            Option::None => {
                cands = NsList::new();
            },
        }
        proof {
            if !(mn.name is Some) {
                assert(ns_list_model(cands) =~= cands_spec);
            }
        }
        let n = cands.len();
        let mut i: usize = 0;
        while i < n
            invariant
                0 <= i <= n,
                n == cands_spec.len(),
                ns_list_model(cands) == cands_spec,
                cands_spec == (if mn.name is Some {
                    resolve_ns_spec(self.objects@, obj as int, mn.name->0@)
                } else {
                    Seq::<Namespace>::empty()
                }),
                (obj as int) < self.objects@.len(),
                forall|j: int| 0 <= j < i ==> !mn_contains_ns(*mn, #[trigger] cands_spec[j]),
            decreases n - i,
        {
            if mn.contains_ns(cands.get(i)) {
                proof {
                    lemma_first_match_ns_at(cands_spec, *mn, i as int);
                }
                let local = match mn.local_name() {
                    Option::Some(l) => l.clone(),
                    Option::None => {
                        proof {
                            assert(false);
                        }
                        String::new()
                    },
                };
                return Some(QName::new(cands.get(i).clone(), local));
            }
            i = i + 1;
        }
        proof {
            lemma_first_match_ns_none(cands_spec, *mn);
        }
        if mn.contains_any() {
            if cands.len() > 0 {
                let local = match mn.local_name() {
                    Option::Some(l) => l.clone(),
                    Option::None => {
                        proof {
                            assert(false);
                        }
                        String::new()
                    },
                };
                return Some(QName::new(cands.get(0).clone(), local));
            }
            return None;
        }
        match self.objects[obj].base().proto() {
            Option::Some(p) => self.resolve_multiname(p, mn),
            Option::None => None,
        }
    }

    /// The nearest instance method trait under `name` along the
    /// superclass chain of the class object at `c`, with the class object
    /// that declares it.
    pub fn instance_method_trait(&self, c: ObjId, name: &QName) -> (r: Option<(ObjId, TraitDecl)>)
        requires
            self.wf(),
            (c as int) < self.objects@.len(),
            self.objects@[c as int] is Class,
        ensures
            (match chain_method_trait(self.objects@, c as int, *name) {
                Option::None => r is None,
                Option::Some(dt) => r == Some(((dt.0 as ObjId), dt.1)),
            }),
        decreases c,
    {
        proof {
            assert(obj_wf(self.objects@, c as int));
        }
        let sup: Option<ObjId>;
        match &self.objects[c] {
            Object::Class(co) => {
                let cd = &co.cls;
                let mut i: usize = 0;
                while i < cd.instance_traits.len()
                    invariant
                        0 <= i <= cd.instance_traits@.len(),
                        (c as int) < self.objects@.len(),
                        self.objects@[c as int] is Class,
                        *cd == self.objects@[c as int]->Class_0.cls,
                        forall|j: int|
                            0 <= j < i ==> !(is_method_trait(#[trigger] cd.instance_traits@[j])
                                && qn_eq(cd.instance_traits@[j].name, *name)),
                    decreases cd.instance_traits@.len() - i,
                {
                    let t = &cd.instance_traits[i];
                    let is_m = match &t.kind {
                        TraitKind::Method { .. } => true,
                        _ => false,
                    };
                    if is_m && t.name.equals(name) {
                        proof {
                            lemma_find_method_trait_at(cd.instance_traits@, *name, i as int);
                        }
                        return Some((c, t.clone()));
                    }
                    i = i + 1;
                }
                proof {
                    lemma_find_method_trait_none(cd.instance_traits@, *name);
                }
                sup = cd.superclass;
            },
            _ => {
                return None;
            },
        }
        match sup {
            Option::Some(sc) => self.instance_method_trait(sc, name),
            Option::None => None,
        }
    }

    /// The nearest instance method trait with dispatch id `disp_id` along
    /// the superclass chain of the class object at `c`, with its
    /// declaring class object.
    pub fn instance_method_trait_by_id(&self, c: ObjId, disp_id: u32) -> (r: Option<
        (ObjId, TraitDecl),
    >)
        requires
            self.wf(),
            (c as int) < self.objects@.len(),
            self.objects@[c as int] is Class,
        ensures
            (match chain_method_trait_by_id(self.objects@, c as int, disp_id) {
                Option::None => r is None,
                Option::Some(dt) => r == Some(((dt.0 as ObjId), dt.1)),
            }),
        decreases c,
    {
        proof {
            assert(obj_wf(self.objects@, c as int));
        }
        let sup: Option<ObjId>;
        match &self.objects[c] {
            Object::Class(co) => {
                let cd = &co.cls;
                let mut i: usize = 0;
                while i < cd.instance_traits.len()
                    invariant
                        0 <= i <= cd.instance_traits@.len(),
                        (c as int) < self.objects@.len(),
                        self.objects@[c as int] is Class,
                        *cd == self.objects@[c as int]->Class_0.cls,
                        forall|j: int|
                            0 <= j < i ==> !((#[trigger] cd.instance_traits@[j]).kind
                                matches TraitKind::Method { disp_id: d, .. } && d == disp_id),
                    decreases cd.instance_traits@.len() - i,
                {
                    let t = &cd.instance_traits[i];
                    let matched = match &t.kind {
                        TraitKind::Method { disp_id: d, .. } => *d == disp_id,
                        _ => false,
                    };
                    if matched {
                        proof {
                            lemma_find_method_trait_by_id_at(cd.instance_traits@, disp_id, i as int);
                        }
                        return Some((c, t.clone()));
                    }
                    i = i + 1;
                }
                proof {
                    lemma_find_method_trait_by_id_none(cd.instance_traits@, disp_id);
                }
                sup = cd.superclass;
            },
            _ => {
                return None;
            },
        }
        match sup {
            Option::Some(sc) => self.instance_method_trait_by_id(sc, disp_id),
            Option::None => None,
        }
    }

    /// The nearest class method trait under `name` along the superclass
    /// chain of the class object at `c` (its static methods), with its
    /// declaring class object.
    pub fn class_method_trait(&self, c: ObjId, name: &QName) -> (r: Option<(ObjId, TraitDecl)>)
        requires
            self.wf(),
            (c as int) < self.objects@.len(),
            self.objects@[c as int] is Class,
        ensures
            (match chain_class_method_trait(self.objects@, c as int, *name) {
                Option::None => r is None,
                Option::Some(dt) => r == Some(((dt.0 as ObjId), dt.1)),
            }),
        decreases c,
    {
        proof {
            assert(obj_wf(self.objects@, c as int));
        }
        let sup: Option<ObjId>;
        match &self.objects[c] {
            Object::Class(co) => {
                let cd = &co.cls;
                let mut i: usize = 0;
                while i < cd.class_traits.len()
                    invariant
                        0 <= i <= cd.class_traits@.len(),
                        (c as int) < self.objects@.len(),
                        self.objects@[c as int] is Class,
                        *cd == self.objects@[c as int]->Class_0.cls,
                        forall|j: int|
                            0 <= j < i ==> !(is_method_trait(#[trigger] cd.class_traits@[j])
                                && qn_eq(cd.class_traits@[j].name, *name)),
                    decreases cd.class_traits@.len() - i,
                {
                    let t = &cd.class_traits[i];
                    let is_m = match &t.kind {
                        TraitKind::Method { .. } => true,
                        _ => false,
                    };
                    if is_m && t.name.equals(name) {
                        proof {
                            lemma_find_method_trait_at(cd.class_traits@, *name, i as int);
                        }
                        return Some((c, t.clone()));
                    }
                    i = i + 1;
                }
                proof {
                    lemma_find_method_trait_none(cd.class_traits@, *name);
                }
                sup = cd.superclass;
            },
            _ => {
                return None;
            },
        }
        match sup {
            Option::Some(sc) => self.class_method_trait(sc, name),
            Option::None => None,
        }
    }

    /// The nearest class method trait with dispatch id `disp_id` along
    /// the superclass chain of the class object at `c`, with its
    /// declaring class object.
    pub fn class_method_trait_by_id(&self, c: ObjId, disp_id: u32) -> (r: Option<
        (ObjId, TraitDecl),
    >)
        requires
            self.wf(),
            (c as int) < self.objects@.len(),
            self.objects@[c as int] is Class,
        ensures
            (match chain_class_method_trait_by_id(self.objects@, c as int, disp_id) {
                Option::None => r is None,
                Option::Some(dt) => r == Some(((dt.0 as ObjId), dt.1)),
            }),
        decreases c,
    {
        proof {
            assert(obj_wf(self.objects@, c as int));
        }
        let sup: Option<ObjId>;
        match &self.objects[c] {
            Object::Class(co) => {
                let cd = &co.cls;
                let mut i: usize = 0;
                while i < cd.class_traits.len()
                    invariant
                        0 <= i <= cd.class_traits@.len(),
                        (c as int) < self.objects@.len(),
                        self.objects@[c as int] is Class,
                        *cd == self.objects@[c as int]->Class_0.cls,
                        forall|j: int|
                            0 <= j < i ==> !((#[trigger] cd.class_traits@[j]).kind
                                matches TraitKind::Method { disp_id: d, .. } && d == disp_id),
                    decreases cd.class_traits@.len() - i,
                {
                    let t = &cd.class_traits[i];
                    let matched = match &t.kind {
                        TraitKind::Method { disp_id: d, .. } => *d == disp_id,
                        _ => false,
                    };
                    if matched {
                        proof {
                            lemma_find_method_trait_by_id_at(cd.class_traits@, disp_id, i as int);
                        }
                        return Some((c, t.clone()));
                    }
                    i = i + 1;
                }
                proof {
                    lemma_find_method_trait_by_id_none(cd.class_traits@, disp_id);
                }
                sup = cd.superclass;
            },
            _ => {
                return None;
            },
        }
        match sup {
            Option::Some(sc) => self.class_method_trait_by_id(sc, disp_id),
            Option::None => None,
        }
    }
}

impl Avm {
    /// Whether the object at `obj` declares one or more instance traits of
    /// the given name through its class.
    pub fn has_trait(&self, obj: ObjId, name: &QName) -> (r: bool)
        requires
            self.wf(),
            (obj as int) < self.objects@.len(),
        ensures
            r == (self.base_of(obj).instance_of is Some && chain_has_trait(
                self.objects@,
                self.base_of(obj).instance_of->0 as int,
                *name,
            )),
    {
        proof {
            assert(obj_wf(self.objects@, obj as int));
        }
        match self.objects[obj].base().instance_of() {
            Option::Some(c) => self.class_has_instance_trait(c, name),
            Option::None => false,
        }
    }

    /// Whether some class along the superclass chain of the class object
    /// at `c` declares an instance trait under `name`.
    fn class_has_instance_trait(&self, c: ObjId, name: &QName) -> (r: bool)
        requires
            self.wf(),
            (c as int) < self.objects@.len(),
            self.objects@[c as int] is Class,
        ensures
            r == chain_has_trait(self.objects@, c as int, *name),
        decreases c,
    {
        proof {
            assert(obj_wf(self.objects@, c as int));
        }
        let sup: Option<ObjId>;
        match &self.objects[c] {
            Object::Class(co) => {
                let cd = &co.cls;
                let mut i: usize = 0;
                while i < cd.instance_traits.len()
                    invariant
                        0 <= i <= cd.instance_traits@.len(),
                        forall|j: int| 0 <= j < i ==> !qn_eq(cd.instance_traits@[j].name, *name),
                        (c as int) < self.objects@.len(),
                        self.objects@[c as int] is Class,
                        *cd == self.objects@[c as int]->Class_0.cls,
                    decreases cd.instance_traits@.len() - i,
                {
                    if cd.instance_traits[i].name.equals(name) {
                        proof {
                            lemma_find_trait_at(cd.instance_traits@, *name, i as int);
                        }
                        return true;
                    }
                    i = i + 1;
                }
                proof {
                    lemma_find_trait_none(cd.instance_traits@, *name);
                }
                sup = cd.superclass;
            },
            _ => {
                return false;
            },
        }
        match sup {
            Option::Some(s) => self.class_has_instance_trait(s, name),
            Option::None => false,
        }
    }
}

} // verus!
