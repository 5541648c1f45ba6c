//! Laws of the dispatch core, proved over the read-path and write-path
//! specifications: the dynamic write/read round trip, the stability of
//! cached lazily-bound methods, prototype delegation, sealed rejection,
//! the vector element read-back, the method read-only guard's
//! indifference to materialization, and the bounded, non-revisiting
//! enumeration walk.

use vstd::prelude::*;
use crate::ObjId;
use crate::names::{mn_contains_ns, Multiname, Namespace, ns_eq, QName, qn_eq};
use crate::object::{heap_wf, Object};
use crate::props::{base_read_outcome, get_property_spec, lazy_applies, local_read_outcome,
    method_guarded, ReadOutcome};
use crate::avm::{class_structure_same, class_decl_same};
use crate::resolve::{base_resolve_ns, chain_method_trait, chain_class_method_trait,
    contains_public, find_method_trait, first_match_ns, has_own_property_spec, own_ns,
    resolve_multiname_spec, resolve_ns_spec};
use crate::storage::{lookup, Property, PropEntry, set_only};
use crate::value::Value;
use crate::vector::{named_public, next_enumerant_spec};

verus! {

/// Equal names are bound alike: `lookup` cannot tell two structurally
/// equal keys apart.
pub proof fn lemma_lookup_respects_qn_eq(entries: Seq<PropEntry>, a: QName, b: QName)
    requires
        qn_eq(a, b),
    ensures
        lookup(entries, a) == lookup(entries, b),
    decreases entries.len(),
{
    if entries.len() > 0 {
        crate::storage::lemma_qn_eq_equiv(entries[0].name, a, b);
        crate::storage::lemma_qn_eq_equiv(a, b, entries[0].name);
        crate::storage::lemma_qn_eq_equiv(b, a, entries[0].name);
        if qn_eq(entries[0].name, a) {
            crate::storage::lemma_qn_eq_equiv(entries[0].name, a, b);
        } else {
            lemma_lookup_respects_qn_eq(entries.drop_first(), a, b);
        }
    }
}

/// An entry whose local name matches contributes its namespace to the
/// own-namespace candidates.
pub proof fn lemma_own_ns_member(entries: Seq<PropEntry>, local: Seq<char>, i: int)
    requires
        0 <= i < entries.len(),
        entries[i].name.local@ == local,
    ensures
        exists|k: int|
            0 <= k < own_ns(entries, local).len() && #[trigger] own_ns(entries, local)[k]
                == entries[i].name.ns,
    decreases i,
{
    if i == 0 {
        assert(own_ns(entries, local)[0] == entries[0].name.ns);
    } else {
        lemma_own_ns_member(entries.drop_first(), local, i - 1);
        let k = choose|k: int|
            0 <= k < own_ns(entries.drop_first(), local).len() && #[trigger] own_ns(
                entries.drop_first(),
                local,
            )[k] == entries.drop_first()[i - 1].name.ns;
        let head = if entries[0].name.local@ == local {
            seq![entries[0].name.ns]
        } else {
            Seq::<Namespace>::empty()
        };
        assert(own_ns(entries, local) == head + own_ns(entries.drop_first(), local));
        assert(own_ns(entries, local)[head.len() + k] == entries[i].name.ns);
    }
}

/// A candidate list that holds some admitted namespace has a first match.
pub proof fn lemma_first_match_ns_exists(cands: Seq<Namespace>, mn: Multiname)
    requires
        exists|k: int| 0 <= k < cands.len() && mn_contains_ns(mn, #[trigger] cands[k]),
    ensures
        first_match_ns(cands, mn) is Some,
    decreases cands.len(),
{
    if !mn_contains_ns(mn, cands[0]) {
        let k = choose|k: int| 0 <= k < cands.len() && mn_contains_ns(mn, #[trigger] cands[k]);
        assert(cands.drop_first()[k - 1] == cands[k]);
        lemma_first_match_ns_exists(cands.drop_first(), mn);
    }
}

/// Whatever the first match is, the multiname's set admits it.
pub proof fn lemma_first_match_ns_admitted(cands: Seq<Namespace>, mn: Multiname)
    requires
        first_match_ns(cands, mn) is Some,
    ensures
        mn_contains_ns(mn, first_match_ns(cands, mn)->Some_0),
    decreases cands.len(),
{
    if cands.len() > 0 && !mn_contains_ns(mn, cands[0]) {
        lemma_first_match_ns_admitted(cands.drop_first(), mn);
    }
}

/// Reading through a multiname that names exactly one (non-wildcard)
/// namespace, on a name-keyed object whose own storage binds the
/// qualified name readably, yields exactly that binding's local read —
/// the heart of the round-trip and caching laws.
pub proof fn lemma_get_reads_own_binding(objects: Seq<Object>, o: int, mn: Multiname)
    requires
        heap_wf(objects),
        0 <= o < objects.len(),
        !(objects[o] is Vector),
        mn.name is Some,
        mn.ns_set@.len() == 1,
        !(mn.ns_set@[0] is Any),
        ({
            let qn = QName { ns: mn.ns_set@[0], local: mn.name->0 };
            lookup(objects[o].spec_base().values@, qn) is Some && !set_only(
                lookup(objects[o].spec_base().values@, qn),
            ) && !(lookup(objects[o].spec_base().values@, qn)->Some_0 is Method
                && objects[o].spec_base().spec_method(
                lookup(objects[o].spec_base().values@, qn)->Some_0->Method_disp_id,
            ) is None)
        }),
    ensures
        ({
            let qn = QName { ns: mn.ns_set@[0], local: mn.name->0 };
            get_property_spec(objects, o, mn) == Some(
                base_read_outcome(objects[o].spec_base(), qn),
            )
        }),
{
    let qn = QName { ns: mn.ns_set@[0], local: mn.name->0 };
    let b = objects[o].spec_base();
    let local = mn.name->0@;
    // The stored entry contributes its namespace to the candidates, and
    // the multiname admits it.
    crate::storage::lemma_lookup_index_exists(b.values@, qn);
    let i = choose|i: int|
        0 <= i < b.values@.len() && #[trigger] qn_eq(b.values@[i].name, qn) && lookup(
            b.values@,
            qn,
        ) == Some(b.values@[i].prop);
    lemma_own_ns_member(b.values@, local, i);
    let cands = resolve_ns_spec(objects, o, local);
    let base_cands = base_resolve_ns(objects, o, local);
    // The object's candidates extend the base candidates: equal for the
    // plain kinds, the static trait names appended for a class object.
    assert(cands.len() >= base_cands.len() && forall|jj: int|
        0 <= jj < base_cands.len() ==> #[trigger] cands[jj] == base_cands[jj]) by {
        match objects[o] {
            Object::Class(_) => {
                assert forall|jj: int| 0 <= jj < base_cands.len() implies #[trigger] cands[jj]
                    == base_cands[jj] by {
                    assert(cands[jj] == (base_cands + crate::resolve::chain_class_trait_ns(
                        objects,
                        o,
                        local,
                    ))[jj]);
                }
            },
            _ => {},
        }
    }
    let k = choose|k: int|
        0 <= k < own_ns(b.values@, local).len() && #[trigger] own_ns(b.values@, local)[k]
            == b.values@[i].name.ns;
    assert(base_cands[k] == own_ns(b.values@, local)[k]);
    assert(ns_eq(mn.ns_set@[0], b.values@[i].name.ns));
    assert(mn_contains_ns(mn, cands[k]));
    lemma_first_match_ns_exists(cands, mn);
    lemma_first_match_ns_admitted(cands, mn);
    let won = first_match_ns(cands, mn)->Some_0;
    // A single-namespace multiname only ever admits namespaces equal to
    // its one namespace, so the resolved name equals the qualified name.
    let qn2 = resolve_multiname_spec(objects, o, mn)->Some_0;
    assert(qn2 == QName { ns: won, local: mn.name->0 });
    assert(ns_eq(mn.ns_set@[0], won));
    assert(qn_eq(qn2, qn)) by {
        crate::storage::lemma_qn_eq_equiv(qn2, qn, qn);
    }
    lemma_lookup_respects_qn_eq(b.values@, qn2, qn);
    assert(!lazy_applies(objects, o, qn2));
    assert(has_own_property_spec(objects, o, qn2));
    assert(local_read_outcome(objects, o, qn2) == base_read_outcome(b, qn2));
    assert(base_read_outcome(b, qn2) == base_read_outcome(b, qn));
}

/// Dynamic write/read round trip: once a write has left a stored value
/// under a public dynamic name on a name-keyed object, reading that name
/// through its public multiname returns exactly that value, with no
/// mutation left to perform.
pub proof fn lemma_dynamic_round_trip(objects: Seq<Object>, o: int, mn: Multiname, value: Value)
    requires
        heap_wf(objects),
        0 <= o < objects.len(),
        !(objects[o] is Vector),
        !(objects[o] is Class),
        mn.name is Some,
        mn.ns_set@.len() == 1,
        mn.ns_set@[0] is Public,
        lookup(
            objects[o].spec_base().values@,
            QName { ns: Namespace::Public, local: mn.name->0 },
        ) == Some(Property::Stored { value }),
    ensures
        get_property_spec(objects, o, mn) == Some(ReadOutcome::Value(value)),
{
    lemma_get_reads_own_binding(objects, o, mn);
}

/// Lazy-bind idempotence, the cached half: once an inherited method has
/// been materialized as an own method binding with its callable in the
/// bound-method table, reading its name yields that same callable — and
/// the read is a pure one, so reading twice returns the identical
/// bound-callable and leaves the object untouched both times.
pub proof fn lemma_lazy_bound_method_cached(
    objects: Seq<Object>,
    o: int,
    mn: Multiname,
    d: u32,
    f: ObjId,
)
    requires
        heap_wf(objects),
        0 <= o < objects.len(),
        !(objects[o] is Vector),
        !(objects[o] is Class),
        mn.name is Some,
        mn.ns_set@.len() == 1,
        !(mn.ns_set@[0] is Any),
        lookup(
            objects[o].spec_base().values@,
            QName { ns: mn.ns_set@[0], local: mn.name->0 },
        ) == Some(Property::Method { disp_id: d }),
        objects[o].spec_base().spec_method(d) == Some(f),
    ensures
        get_property_spec(objects, o, mn) == Some(ReadOutcome::Value(Value::Object(f))),
{
    lemma_get_reads_own_binding(objects, o, mn);
}

/// Prototype delegation: an object with no own or trait binding under a
/// local name, but whose prototype stores the public name readably,
/// reads the prototype's value; and the shallow containment check
/// reports the name present.
pub proof fn lemma_prototype_delegation(objects: Seq<Object>, o: int, mn: Multiname, value: Value)
    requires
        heap_wf(objects),
        0 <= o < objects.len(),
        !(objects[o] is Vector),
        !(objects[o] is Class),
        objects[o].spec_base().instance_of is None,
        mn.name is Some,
        mn.ns_set@.len() == 1,
        mn.ns_set@[0] is Public,
        forall|j: int|
            0 <= j < objects[o].spec_base().values@.len() ==> (
            #[trigger] objects[o].spec_base().values@[j]).name.local@ != mn.name->0@,
        objects[o].spec_base().proto is Some,
        ({
            let p = objects[o].spec_base().proto->0 as int;
            &&& !(objects[p] is Vector)
            &&& !(objects[p] is Class)
            &&& objects[p].spec_base().instance_of is None
            &&& lookup(
                objects[p].spec_base().values@,
                QName { ns: Namespace::Public, local: mn.name->0 },
            ) == Some(Property::Stored { value })
        }),
    ensures
        get_property_spec(objects, o, mn) == Some(ReadOutcome::Value(value)),
        has_own_property_spec(objects, o, QName { ns: Namespace::Public, local: mn.name->0 })
            == false,
        crate::resolve::has_property_spec(
            objects,
            o,
            QName { ns: Namespace::Public, local: mn.name->0 },
        ),
{
    let qn = QName { ns: Namespace::Public, local: mn.name->0 };
    let b = objects[o].spec_base();
    let p = b.proto->0 as int;
    let local = mn.name->0@;
    assert(crate::object::obj_wf(objects, o));
    assert(p < o);
    assert(!crate::names::mn_has_any(mn));
    // Nothing resolves at the object itself: no own entry matches the
    // local name, and it has no class to contribute trait namespaces.
    lemma_own_ns_all_miss(b.values@, local);
    assert(resolve_ns_spec(objects, o, local) == base_resolve_ns(objects, o, local));
    assert(base_resolve_ns(objects, o, local).len() == 0);
    crate::resolve::lemma_first_match_ns_none(resolve_ns_spec(objects, o, local), mn);
    assert(resolve_multiname_spec(objects, o, mn) == resolve_multiname_spec(objects, p, mn));
    // The prototype stores the public name readably, so resolution lands
    // there and reading delegates to it.
    let bp = objects[p].spec_base();
    crate::storage::lemma_lookup_index_exists(bp.values@, qn);
    let i = choose|i: int|
        0 <= i < bp.values@.len() && #[trigger] qn_eq(bp.values@[i].name, qn) && lookup(
            bp.values@,
            qn,
        ) == Some(bp.values@[i].prop);
    lemma_own_ns_member(bp.values@, local, i);
    let candsp = resolve_ns_spec(objects, p, local);
    assert(candsp == base_resolve_ns(objects, p, local));
    let k = choose|k: int|
        0 <= k < own_ns(bp.values@, local).len() && #[trigger] own_ns(bp.values@, local)[k]
            == bp.values@[i].name.ns;
    assert(candsp[k] == own_ns(bp.values@, local)[k]);
    assert(mn_contains_ns(mn, candsp[k]));
    lemma_first_match_ns_exists(candsp, mn);
    lemma_first_match_ns_admitted(candsp, mn);
    let qn2 = resolve_multiname_spec(objects, o, mn)->Some_0;
    assert(qn_eq(qn2, qn));
    // At the object itself the resolved name has no binding and no class
    // supplies a method, so the read falls to the prototype.
    lemma_no_local_no_lookup(b.values@, qn2);
    assert(!lazy_applies(objects, o, qn2));
    assert(!has_own_property_spec(objects, o, qn2));
    assert(get_property_spec(objects, o, mn) == get_property_spec(objects, p, mn));
    lemma_get_reads_own_binding(objects, p, mn);
    let qnp = QName { ns: mn.ns_set@[0], local: mn.name->0 };
    assert(qn_eq(qnp, qn));
    lemma_lookup_respects_qn_eq(bp.values@, qnp, qn);
    lemma_no_local_no_lookup(b.values@, qn);
    assert(has_own_property_spec(objects, p, qn));
}

/// A storage with no entry under the local name binds nothing under any
/// name with that local.
pub proof fn lemma_no_local_no_lookup(entries: Seq<PropEntry>, name: QName)
    requires
        forall|j: int|
            0 <= j < entries.len() ==> (#[trigger] entries[j]).name.local@ != name.local@,
    ensures
        lookup(entries, name) is None,
    decreases entries.len(),
{
    if entries.len() > 0 {
        lemma_no_local_no_lookup(entries.drop_first(), name);
    }
}

/// A storage with no entry under the local name contributes no own
/// candidate namespaces for it.
pub proof fn lemma_own_ns_all_miss(entries: Seq<PropEntry>, local: Seq<char>)
    requires
        forall|j: int| 0 <= j < entries.len() ==> (#[trigger] entries[j]).name.local@ != local,
    ensures
        own_ns(entries, local).len() == 0,
    decreases entries.len(),
{
    if entries.len() > 0 {
        lemma_own_ns_all_miss(entries.drop_first(), local);
    }
}

/// The method read-only guard is indifferent to materialization: any
/// mutation that keeps class structure (as every read and write here
/// does, including the lazy-binding one) keeps exactly the same names
/// method-guarded, so a write rejected before a method was materialized
/// is rejected after it too.
pub proof fn lemma_method_guard_stable(a: Seq<Object>, b: Seq<Object>, o: int, name: QName)
    requires
        class_structure_same(a, b),
        0 <= o < a.len(),
        heap_wf(a),
    ensures
        method_guarded(b, o, name) == method_guarded(a, o, name),
{
    assert(crate::object::obj_wf(a, o));
    let ba = a[o].spec_base();
    if ba.instance_of is Some {
        lemma_chain_method_trait_stable(a, b, ba.instance_of->0 as int, name);
    }
    if a[o] is Class {
        lemma_chain_class_method_trait_stable(a, b, o, name);
    }
}

/// Instance method tables survive class-structure-preserving mutation.
pub proof fn lemma_chain_method_trait_stable(a: Seq<Object>, b: Seq<Object>, c: int, name: QName)
    requires
        class_structure_same(a, b),
        0 <= c < a.len(),
    ensures
        chain_method_trait(b, c, name) == chain_method_trait(a, c, name),
    decreases c,
{
    if a[c] is Class {
        let ca = a[c]->Class_0.cls;
        let cb = b[c]->Class_0.cls;
        assert(class_decl_same(ca, cb));
        if find_method_trait(ca.instance_traits@, name) is None && ca.superclass is Some && (
        ca.superclass->0 as int) < c {
            lemma_chain_method_trait_stable(a, b, ca.superclass->0 as int, name);
        }
    }
}

/// Class (static) method tables survive class-structure-preserving
/// mutation.
pub proof fn lemma_chain_class_method_trait_stable(
    a: Seq<Object>,
    b: Seq<Object>,
    c: int,
    name: QName,
)
    requires
        class_structure_same(a, b),
        0 <= c < a.len(),
    ensures
        chain_class_method_trait(b, c, name) == chain_class_method_trait(a, c, name),
    decreases c,
{
    if a[c] is Class {
        let ca = a[c]->Class_0.cls;
        let cb = b[c]->Class_0.cls;
        assert(class_decl_same(ca, cb));
        if find_method_trait(ca.class_traits@, name) is None && ca.superclass is Some && (
        ca.superclass->0 as int) < c {
            lemma_chain_class_method_trait_stable(a, b, ca.superclass->0 as int, name);
        }
    }
}

/// Vector element read: on a vector, reading an in-range element index
/// through its public multiname yields exactly the stored element —
/// in particular, the (coerced) value an element write just stored —
/// provided no class along the chain shadows the index name with a
/// method and the index name has no getter-only own binding.
pub proof fn lemma_vector_element_read(objects: Seq<Object>, o: int, mn: Multiname)
    requires
        heap_wf(objects),
        0 <= o < objects.len(),
        objects[o] is Vector,
        mn.name is Some,
        mn.ns_set@.len() == 1,
        mn.ns_set@[0] is Public,
        crate::decimal::is_index_str(mn.name->0@),
        crate::decimal::dec_value(mn.name->0@) < objects[o]->Vector_0.vector.storage@.len(),
        forall|qn: QName|
            #[trigger] named_public(qn, mn.name->0@) ==> !lazy_applies(objects, o, qn) && !set_only(
                lookup(objects[o].spec_base().values@, qn),
            ),
    ensures
        get_property_spec(objects, o, mn) == Some(
            ReadOutcome::Value(
                objects[o]->Vector_0.vector.storage@[crate::decimal::dec_value(
                    mn.name->0@,
                ) as int],
            ),
        ),
{
    let local = mn.name->0@;
    let base_cands = base_resolve_ns(objects, o, local);
    let cands = resolve_ns_spec(objects, o, local);
    // The in-range index always contributes a public candidate: either
    // the base already reports one, or the vector appends it.
    assert(exists|k: int| 0 <= k < cands.len() && (#[trigger] cands[k]) is Public) by {
        if contains_public(base_cands) {
            let k = choose|k: int|
                0 <= k < base_cands.len() && crate::names::ns_is_public(#[trigger] base_cands[k]);
            assert(cands[k] is Public);
        } else {
            assert(cands == base_cands.push(Namespace::Public));
            assert(cands[base_cands.len() as int] is Public);
        }
    }
    let k = choose|k: int| 0 <= k < cands.len() && (#[trigger] cands[k]) is Public;
    assert(mn_contains_ns(mn, cands[k]));
    lemma_first_match_ns_exists(cands, mn);
    lemma_first_match_ns_admitted(cands, mn);
    let won = first_match_ns(cands, mn)->Some_0;
    assert(ns_eq(mn.ns_set@[0], won));
    let qn2 = resolve_multiname_spec(objects, o, mn)->Some_0;
    assert(qn2 == QName { ns: won, local: mn.name->0 });
    assert(named_public(qn2, local));
    assert(!lazy_applies(objects, o, qn2));
    assert(has_own_property_spec(objects, o, qn2));
    assert(local_read_outcome(objects, o, qn2) == ReadOutcome::Value(
        objects[o]->Vector_0.vector.storage@[crate::decimal::dec_value(local) as int],
    ));
}

/// Sealed rejection: on an instance of a sealed class, a name that
/// resolves nowhere reads as the undefined-property-read failure, and
/// names a write no qualified name at all, so the write operation
/// reports the undefined-property-write failure.
pub proof fn lemma_sealed_rejection(objects: Seq<Object>, o: int, mn: Multiname)
    requires
        0 <= o < objects.len(),
        resolve_multiname_spec(objects, o, mn) is None,
        crate::props::sealed_of(objects, o),
    ensures
        get_property_spec(objects, o, mn) == Some(
            ReadOutcome::Fail(
                crate::value::Error::UndefinedPropertyRead { name: mn.name },
            ),
        ),
        crate::props::write_name(objects, o, mn) is None,
{
}

/// Enumeration terminates without revisiting: from any index below the
/// object's enumerant count the next index is exactly one higher, and
/// from the count onward there is none. Starting from the 0 sentinel the
/// walk therefore visits exactly the indices 1 through the count, each
/// once, and then stops.
pub proof fn lemma_enumeration_terminates(objects: Seq<Object>, o: int, i: u32)
    requires
        0 <= o < objects.len(),
    ensures
        ({
            let count: int = match objects[o] {
                Object::Vector(v) => v.vector.storage@.len() as int,
                _ => objects[o].spec_base().enumerants@.len() as int,
            };
            &&& ((i as int) < count && i < u32::MAX ==> next_enumerant_spec(objects, o, i)
                == Some((i + 1) as u32))
            &&& ((i as int) >= count || i == u32::MAX ==> next_enumerant_spec(objects, o, i)
                is None)
        }),
{
}

} // verus!
