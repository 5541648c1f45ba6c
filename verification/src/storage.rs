//! The shared object-storage base.
//!
//! Every object kind owns one `ObjectData`: an insertion-ordered mapping
//! from qualified names to property bindings, slot and bound-method tables
//! indexed by integer ids, the enumeration order, a non-owning prototype
//! link and an optional class link. Qualified names are unique within one
//! object's storage; `lookup` finds the binding under a name, comparing
//! names structurally.

use vstd::prelude::*;
use crate::ObjId;
use crate::names::{QName, qn_eq};
use crate::value::{Error, ReturnValue, Value};

verus! {

/// One property binding. A slot, const slot or method binding is singular
/// under its name; a getter and a setter may coexist in one virtual
/// binding.
#[derive(Debug)]
pub enum Property {
    /// A directly stored (dynamic or built-in) value.
    Stored { value: Value },
    /// A trait slot, holding its value in the slot table.
    Slot { slot_id: u32 },
    /// A write-once trait slot: installed and initialized by traits,
    /// rejected as an ordinary write target.
    ConstSlot { slot_id: u32 },
    /// A bound method, holding its callable in the bound-method table.
    Method { disp_id: u32 },
    /// A virtual property: a getter and/or a setter callable.
    Virtual { getter: Option<ObjId>, setter: Option<ObjId> },
}

/// One entry of the ordered name-to-binding mapping.
#[derive(Debug)]
pub struct PropEntry {
    pub name: QName,
    pub prop: Property,
}

/// The first binding stored under `name`, by structural name equality.
pub open spec fn lookup(entries: Seq<PropEntry>, name: QName) -> Option<Property>
    decreases entries.len(),
{
    if entries.len() == 0 {
        None
    } else if qn_eq(entries[0].name, name) {
        Some(entries[0].prop)
    } else {
        lookup(entries.drop_first(), name)
    }
}

/// Whether the stored names are pairwise distinct. The storage operations
/// preserve this; it makes `lookup` the mapping's full story.
pub open spec fn unique_names(entries: Seq<PropEntry>) -> bool {
    forall|i: int, j: int|
        0 <= i < j < entries.len() ==> !qn_eq(entries[i].name, entries[j].name)
}

/// Whether no stored name carries the wildcard namespace. The wildcard
/// matches every namespace during resolution but never appears as a
/// namespace a property is actually stored under; the storage operations
/// preserve this.
pub open spec fn no_wildcard_names(entries: Seq<PropEntry>) -> bool {
    forall|i: int| 0 <= i < entries.len() ==> !((#[trigger] entries[i]).name.ns is Any)
}

/// `lookup` finds the entry at the first matching index.
pub proof fn lemma_lookup_at_index(entries: Seq<PropEntry>, name: QName, i: int)
    requires
        0 <= i < entries.len(),
        forall|j: int| 0 <= j < i ==> !qn_eq(entries[j].name, name),
        qn_eq(entries[i].name, name),
    ensures
        lookup(entries, name) == Some(entries[i].prop),
    decreases i,
{
    if i > 0 {
        lemma_lookup_at_index(entries.drop_first(), name, i - 1);
    }
}

/// `lookup` finds nothing when no index matches.
pub proof fn lemma_lookup_none(entries: Seq<PropEntry>, name: QName)
    requires
        forall|j: int| 0 <= j < entries.len() ==> !qn_eq(entries[j].name, name),
    ensures
        lookup(entries, name) is None,
    decreases entries.len(),
{
    if entries.len() > 0 {
        lemma_lookup_none(entries.drop_first(), name);
    }
}

/// A found binding has a first matching index.
pub proof fn lemma_lookup_index_exists(entries: Seq<PropEntry>, name: QName)
    requires
        lookup(entries, name) is Some,
    ensures
        exists|i: int|
            0 <= i < entries.len() && #[trigger] qn_eq(entries[i].name, name) && lookup(
                entries,
                name,
            ) == Some(entries[i].prop),
    decreases entries.len(),
{
    if entries.len() > 0 {
        if qn_eq(entries[0].name, name) {
            assert(qn_eq(entries[0].name, name) && lookup(entries, name) == Some(entries[0].prop));
        } else {
            lemma_lookup_index_exists(entries.drop_first(), name);
            let i = choose|i: int|
                0 <= i < entries.drop_first().len() && #[trigger] qn_eq(
                    entries.drop_first()[i].name,
                    name,
                ) && lookup(entries.drop_first(), name) == Some(entries.drop_first()[i].prop);
            assert(entries[i + 1] == entries.drop_first()[i]);
            assert(qn_eq(entries[i + 1].name, name) && lookup(entries, name) == Some(
                entries[i + 1].prop,
            ));
        }
    }
}

/// Name equality is symmetric and transitive.
pub proof fn lemma_qn_eq_equiv(a: QName, b: QName, c: QName)
    ensures
        qn_eq(a, b) ==> qn_eq(b, a),
        qn_eq(a, b) && qn_eq(b, c) ==> qn_eq(a, c),
{
}

/// A name equal to `name` differs from every name `name` differs from.
pub proof fn lemma_qn_eq_not(a: QName, name: QName, n2: QName)
    requires
        qn_eq(a, name),
        !qn_eq(n2, name),
    ensures
        !qn_eq(a, n2),
{
}

/// Appending an entry with a fresh name leaves every other lookup alone
/// and makes the new name found.
pub proof fn lemma_lookup_push(entries: Seq<PropEntry>, e: PropEntry, name: QName)
    ensures
        qn_eq(e.name, name) && lookup(entries, name) is None ==> lookup(entries.push(e), name)
            == Some(e.prop),
        lookup(entries, name) is Some ==> lookup(entries.push(e), name) == lookup(entries, name),
        !qn_eq(e.name, name) && lookup(entries, name) is None ==> lookup(entries.push(e), name)
            is None,
    decreases entries.len(),
{
    if entries.len() == 0 {
        assert(entries.push(e)[0] == e);
        assert(entries.push(e).drop_first() =~= Seq::<PropEntry>::empty());
        assert(lookup(entries.push(e).drop_first(), name) is None);
    } else {
        assert(entries.push(e)[0] == entries[0]);
        assert(entries.push(e).drop_first() =~= entries.drop_first().push(e));
        lemma_lookup_push(entries.drop_first(), e, name);
        assert(lookup(entries.push(e).drop_first(), name) == lookup(
            entries.drop_first().push(e),
            name,
        ));
    }
}

/// Replacing the binding at the first index matching `name`, with the
/// stored name kept equal, rebinds `name` and leaves every other lookup
/// alone.
pub proof fn lemma_lookup_update(entries: Seq<PropEntry>, i: int, e: PropEntry, name: QName)
    requires
        0 <= i < entries.len(),
        forall|j: int| 0 <= j < i ==> !qn_eq(entries[j].name, name),
        qn_eq(entries[i].name, name),
        qn_eq(e.name, name),
    ensures
        lookup(entries.update(i, e), name) == Some(e.prop),
        forall|n2: QName|
            !qn_eq(n2, name) ==> #[trigger] lookup(entries.update(i, e), n2) == lookup(entries, n2),
    decreases i,
{
    let up = entries.update(i, e);
    if i == 0 {
        assert(up[0] == e);
        assert(up.drop_first() =~= entries.drop_first());
        assert forall|n2: QName| !qn_eq(n2, name) implies #[trigger] lookup(up, n2) == lookup(
            entries,
            n2,
        ) by {
            lemma_qn_eq_not(e.name, name, n2);
            lemma_qn_eq_not(entries[0].name, name, n2);
            assert(lookup(up, n2) == lookup(up.drop_first(), n2));
            assert(lookup(entries, n2) == lookup(entries.drop_first(), n2));
        }
    } else {
        assert(up[0] == entries[0]);
        assert(up.drop_first() =~= entries.drop_first().update(i - 1, e));
        lemma_lookup_update(entries.drop_first(), i - 1, e, name);
        assert(lookup(up, name) == lookup(entries.drop_first().update(i - 1, e), name));
        assert forall|n2: QName| !qn_eq(n2, name) implies #[trigger] lookup(up, n2) == lookup(
            entries,
            n2,
        ) by {
            assert(lookup(entries.drop_first().update(i - 1, e), n2) == lookup(
                entries.drop_first(),
                n2,
            ));
            if !qn_eq(up[0].name, n2) {
                assert(lookup(up, n2) == lookup(up.drop_first(), n2));
                assert(lookup(entries, n2) == lookup(entries.drop_first(), n2));
            }
        }
    }
}

/// Removing the entry at the first index matching `name` unbinds `name`,
/// when names are unique, and leaves every other lookup alone.
pub proof fn lemma_lookup_remove(entries: Seq<PropEntry>, i: int, name: QName)
    requires
        unique_names(entries),
        0 <= i < entries.len(),
        forall|j: int| 0 <= j < i ==> !qn_eq(entries[j].name, name),
        qn_eq(entries[i].name, name),
    ensures
        lookup(entries.remove(i), name) is None,
        forall|n2: QName|
            !qn_eq(n2, name) ==> #[trigger] lookup(entries.remove(i), n2) == lookup(entries, n2),
    decreases i,
{
    let rm = entries.remove(i);
    if i == 0 {
        assert(rm =~= entries.drop_first());
        assert forall|j: int| 0 <= j < entries.drop_first().len() implies ! #[trigger] qn_eq(
            entries.drop_first()[j].name,
            name,
        ) by {
            assert(entries.drop_first()[j] == entries[j + 1]);
            assert(!qn_eq(entries[0].name, entries[j + 1].name));
            if qn_eq(entries[j + 1].name, name) {
                lemma_qn_eq_equiv(entries[0].name, name, entries[j + 1].name);
                lemma_qn_eq_equiv(name, entries[j + 1].name, entries[0].name);
                lemma_qn_eq_equiv(entries[0].name, entries[j + 1].name, name);
            }
        }
        lemma_lookup_none(entries.drop_first(), name);
        assert forall|n2: QName| !qn_eq(n2, name) implies #[trigger] lookup(rm, n2) == lookup(
            entries,
            n2,
        ) by {
            lemma_qn_eq_not(entries[0].name, name, n2);
            assert(lookup(entries, n2) == lookup(entries.drop_first(), n2));
        }
    } else {
        assert(rm[0] == entries[0]);
        assert(rm.drop_first() =~= entries.drop_first().remove(i - 1));
        lemma_lookup_remove(entries.drop_first(), i - 1, name);
        assert(lookup(rm, name) == lookup(entries.drop_first().remove(i - 1), name));
        assert forall|n2: QName| !qn_eq(n2, name) implies #[trigger] lookup(rm, n2) == lookup(
            entries,
            n2,
        ) by {
            assert(lookup(entries.drop_first().remove(i - 1), n2) == lookup(
                entries.drop_first(),
                n2,
            ));
            if !qn_eq(rm[0].name, n2) {
                assert(lookup(rm, n2) == lookup(rm.drop_first(), n2));
                assert(lookup(entries, n2) == lookup(entries.drop_first(), n2));
            }
        }
    }
}

/// A name that `lookup` cannot find matches no stored entry.
pub proof fn lemma_lookup_none_no_match(entries: Seq<PropEntry>, name: QName)
    requires
        lookup(entries, name) is None,
    ensures
        forall|j: int| 0 <= j < entries.len() ==> !qn_eq(entries[j].name, name),
    decreases entries.len(),
{
    if entries.len() > 0 {
        lemma_lookup_none_no_match(entries.drop_first(), name);
        assert forall|j: int| 0 <= j < entries.len() implies !qn_eq(entries[j].name, name) by {
            if j > 0 {
                assert(entries.drop_first()[j - 1] == entries[j]);
            }
        }
    }
}

/// Appending an entry under a fresh name keeps the stored names distinct.
pub proof fn lemma_unique_push(entries: Seq<PropEntry>, e: PropEntry)
    requires
        unique_names(entries),
        lookup(entries, e.name) is None,
    ensures
        unique_names(entries.push(e)),
{
    lemma_lookup_none_no_match(entries, e.name);
    assert forall|i: int, j: int|
        0 <= i < j < entries.push(e).len() implies !qn_eq(
        entries.push(e)[i].name,
        entries.push(e)[j].name,
    ) by {
        if j == entries.len() {
            assert(entries.push(e)[j] == e);
            assert(entries.push(e)[i] == entries[i]);
            lemma_qn_eq_equiv(entries[i].name, e.name, e.name);
        } else {
            assert(entries.push(e)[i] == entries[i]);
            assert(entries.push(e)[j] == entries[j]);
        }
    }
}

/// Replacing an entry with one under an equal name keeps the stored names
/// distinct.
pub proof fn lemma_unique_update(entries: Seq<PropEntry>, i: int, e: PropEntry)
    requires
        unique_names(entries),
        0 <= i < entries.len(),
        qn_eq(entries[i].name, e.name),
    ensures
        unique_names(entries.update(i, e)),
{
    let up = entries.update(i, e);
    assert forall|a: int, b: int| 0 <= a < b < up.len() implies !qn_eq(up[a].name, up[b].name) by {
        assert(!qn_eq(entries[a].name, entries[b].name));
        if a == i {
            lemma_qn_eq_equiv(entries[i].name, e.name, entries[b].name);
            lemma_qn_eq_equiv(e.name, entries[i].name, entries[b].name);
            if qn_eq(e.name, entries[b].name) {
                lemma_qn_eq_equiv(entries[i].name, e.name, entries[b].name);
            }
        } else if b == i {
            if qn_eq(entries[a].name, e.name) {
                lemma_qn_eq_equiv(e.name, entries[i].name, entries[a].name);
                lemma_qn_eq_equiv(entries[a].name, e.name, entries[i].name);
            }
        }
    }
}

/// Removing an entry keeps the stored names distinct.
pub proof fn lemma_unique_remove(entries: Seq<PropEntry>, i: int)
    requires
        unique_names(entries),
        0 <= i < entries.len(),
    ensures
        unique_names(entries.remove(i)),
{
    let rm = entries.remove(i);
    assert forall|a: int, b: int| 0 <= a < b < rm.len() implies !qn_eq(rm[a].name, rm[b].name) by {
        let a0: int = if a < i { a } else { a + 1 };
        let b0: int = if b < i { b } else { b + 1 };
        assert(rm[a] == entries[a0]);
        assert(rm[b] == entries[b0]);
        assert(!qn_eq(entries[a0].name, entries[b0].name));
    }
}

/// Whether `names` holds a name equal to `name`.
pub open spec fn names_contain(names: Seq<QName>, name: QName) -> bool {
    exists|i: int| 0 <= i < names.len() && #[trigger] qn_eq(names[i], name)
}

/// The shared storage base: the ordered name-to-binding mapping, the slot
/// and bound-method tables, the enumeration order, and the prototype and
/// class links. The prototype link is non-owning: it is only followed for
/// lookup, never to control the prototype's lifetime.
pub struct ObjectData {
    pub values: Vec<PropEntry>,
    pub slots: Vec<Option<Value>>,
    pub bound_methods: Vec<Option<ObjId>>,
    pub enumerants: Vec<QName>,
    pub proto: Option<ObjId>,
    pub instance_of: Option<ObjId>,
}

/// The index of the first name equal to `name`, or the length when none
/// matches.
pub open spec fn first_name_match(names: Seq<QName>, name: QName) -> int
    decreases names.len(),
{
    if names.len() == 0 {
        0
    } else if qn_eq(names[0], name) {
        0
    } else {
        1 + first_name_match(names.drop_first(), name)
    }
}

/// `first_name_match` is the first matching index, and the length when no
/// index matches.
pub proof fn lemma_first_name_match_at(names: Seq<QName>, name: QName, i: int)
    requires
        0 <= i <= names.len(),
        forall|j: int| 0 <= j < i ==> !qn_eq(names[j], name),
        i < names.len() ==> qn_eq(names[i], name),
    ensures
        first_name_match(names, name) == i,
    decreases i,
{
    if names.len() > 0 && i > 0 {
        assert forall|j: int| 0 <= j < i - 1 implies !qn_eq(names.drop_first()[j], name) by {
            assert(names.drop_first()[j] == names[j + 1]);
        }
        if i - 1 < names.drop_first().len() {
            assert(names.drop_first()[i - 1] == names[i]);
        }
        lemma_first_name_match_at(names.drop_first(), name, i - 1);
    }
}

/// Fields other than the name-to-binding mapping are unchanged.
pub open spec fn same_except_values(a: ObjectData, b: ObjectData) -> bool {
    a.slots == b.slots && a.bound_methods == b.bound_methods && a.enumerants == b.enumerants
        && a.proto == b.proto && a.instance_of == b.instance_of
}

/// Fields other than the mapping and the enumeration order are unchanged.
pub open spec fn same_except_values_enumerants(a: ObjectData, b: ObjectData) -> bool {
    a.slots == b.slots && a.bound_methods == b.bound_methods && a.proto == b.proto && a.instance_of
        == b.instance_of
}

/// Fields other than the mapping and the slot table are unchanged.
pub open spec fn same_except_values_slots(a: ObjectData, b: ObjectData) -> bool {
    a.bound_methods == b.bound_methods && a.enumerants == b.enumerants && a.proto == b.proto
        && a.instance_of == b.instance_of
}

/// Fields other than the mapping and the bound-method table are unchanged.
pub open spec fn same_except_values_methods(a: ObjectData, b: ObjectData) -> bool {
    a.slots == b.slots && a.enumerants == b.enumerants && a.proto == b.proto && a.instance_of
        == b.instance_of
}

impl ObjectData {
    /// Well-formed storage: stored names are pairwise distinct and none
    /// of them carries the wildcard namespace.
    pub open spec fn wf(self) -> bool {
        unique_names(self.values@) && no_wildcard_names(self.values@)
    }

    /// The value a slot id denotes, if that slot exists.
    pub open spec fn spec_slot(self, id: u32) -> Option<Value> {
        if id < self.slots@.len() {
            self.slots@[id as int]
        } else {
            None
        }
    }

    /// The bound method a dispatch id denotes, if one is installed.
    pub open spec fn spec_method(self, id: u32) -> Option<ObjId> {
        if id < self.bound_methods@.len() {
            self.bound_methods@[id as int]
        } else {
            None
        }
    }

    /// Fresh storage for a newly allocated object.
    pub fn base_new(proto: Option<ObjId>, instance_of: Option<ObjId>) -> (r: ObjectData)
        ensures
            r.wf(),
            r.values@.len() == 0,
            r.slots@.len() == 0,
            r.bound_methods@.len() == 0,
            r.enumerants@.len() == 0,
            r.proto == proto,
            r.instance_of == instance_of,
    {
        ObjectData {
            values: Vec::new(),
            slots: Vec::new(),
            bound_methods: Vec::new(),
            enumerants: Vec::new(),
            proto,
            instance_of,
        }
    }

    /// The first index whose entry is stored under `name`, if any.
    fn find_entry(&self, name: &QName) -> (r: Option<usize>)
        ensures
            r is Some ==> {
                &&& r->0 < self.values@.len()
                &&& qn_eq(self.values@[r->0 as int].name, *name)
                &&& forall|j: int| 0 <= j < r->0 ==> !qn_eq(self.values@[j].name, *name)
                &&& lookup(self.values@, *name) == Some(self.values@[r->0 as int].prop)
            },
            r is None ==> lookup(self.values@, *name) is None,
    {
        let mut i: usize = 0;
        while i < self.values.len()
            invariant
                0 <= i <= self.values@.len(),
                forall|j: int| 0 <= j < i ==> !qn_eq(self.values@[j].name, *name),
            decreases self.values@.len() - i,
        {
            if self.values[i].name.equals(name) {
                proof {
                    lemma_lookup_at_index(self.values@, *name, i as int);
                }
                return Some(i);
            }
            i = i + 1;
        }
        proof {
            lemma_lookup_none(self.values@, *name);
        }
        None
    }

    /// Whether an own binding is stored under `name`. Declared-but-not-yet
    /// materialized traits are not own bindings; the heap-level check adds
    /// them.
    pub fn has_own_instantiated_property(&self, name: &QName) -> (r: bool)
        ensures
            r == (lookup(self.values@, *name) is Some),
    {
        self.find_entry(name).is_some()
    }

    /// Whether `name` denotes a virtual binding with a setter but no
    /// getter: writable, but absent for reads.
    pub fn has_own_virtual_set_only_property(&self, name: &QName) -> (r: bool)
        ensures
            r == set_only(lookup(self.values@, *name)),
    {
        match self.find_entry(name) {
            Some(i) => match &self.values[i].prop {
                Property::Virtual { getter: Option::None, setter: Option::Some(_) } => true,
                _ => false,
            },
            None => false,
        }
    }

    /// Read a slot by id; fails when no slot exists there.
    pub fn get_slot(&self, id: u32) -> (r: Result<Value, Error>)
        ensures
            self.spec_slot(id) is Some ==> r == Ok::<Value, Error>(self.spec_slot(id)->Some_0),
            self.spec_slot(id) is None ==> r == Err::<Value, Error>(
                Error::RangeError { index: id as usize },
            ),
    {
        if (id as usize) < self.slots.len() {
            match &self.slots[id as usize] {
                Option::Some(v) => Ok(v.clone()),
                Option::None => Err(Error::RangeError { index: id as usize }),
            }
        } else {
            Err(Error::RangeError { index: id as usize })
        }
    }

    /// Write a slot by id; fails when no slot exists there.
    pub fn set_slot(&mut self, id: u32, value: Value) -> (r: Result<(), Error>)
        ensures
            old(self).spec_slot(id) is Some ==> {
                &&& r is Ok
                &&& final(self).slots@ == old(self).slots@.update(id as int, Some(value))
                &&& *final(self) == (ObjectData { slots: final(self).slots, ..*old(self) })
            },
            old(self).spec_slot(id) is None ==> r == Err::<(), Error>(
                Error::RangeError { index: id as usize },
            ) && *final(self) == *old(self),
    {
        if (id as usize) < self.slots.len() {
            let present = self.slots[id as usize].is_some();
            if present {
                self.slots[id as usize] = Some(value);
                return Ok(());
            }
        }
        Err(Error::RangeError { index: id as usize })
    }

    /// The bound method installed at a dispatch id, if any.
    pub fn get_method(&self, id: u32) -> (r: Option<ObjId>)
        ensures
            r == self.spec_method(id),
    {
        if (id as usize) < self.bound_methods.len() {
            self.bound_methods[id as usize]
        } else {
            None
        }
    }

    /// The prototype link.
    pub fn proto(&self) -> (r: Option<ObjId>)
        ensures
            r == self.proto,
    {
        self.proto
    }

    /// Replace the prototype link.
    pub fn set_proto(&mut self, proto: ObjId)
        ensures
            *final(self) == (ObjectData { proto: Some(proto), ..*old(self) }),
    {
        self.proto = Some(proto);
    }

    /// The class link.
    pub fn instance_of(&self) -> (r: Option<ObjId>)
        ensures
            r == self.instance_of,
    {
        self.instance_of
    }

    /// Set the class link.
    pub fn set_instance_of(&mut self, class: ObjId)
        ensures
            *final(self) == (ObjectData { instance_of: Some(class), ..*old(self) }),
    {
        self.instance_of = Some(class);
    }

    /// Bind `name` to `p`, replacing an existing binding or appending a new
    /// one. Reports whether the name was already bound.
    fn upsert(&mut self, name: &QName, p: Property) -> (existed: bool)
        requires
            old(self).wf(),
            !(name.ns is Any),
        ensures
            final(self).wf(),
            same_except_values(*old(self), *final(self)),
            lookup(final(self).values@, *name) == Some(p),
            forall|n2: QName|
                !qn_eq(n2, *name) ==> #[trigger] lookup(final(self).values@, n2) == lookup(
                    old(self).values@,
                    n2,
                ),
            existed == (lookup(old(self).values@, *name) is Some),
            existed ==> final(self).values@.len() == old(self).values@.len(),
            !existed ==> final(self).values@.len() == old(self).values@.len() + 1,
    {
        let ghost pre = self.values@;
        match self.find_entry(name) {
            Option::Some(i) => {
                let e = PropEntry { name: name.clone(), prop: p };
                proof {
                    lemma_lookup_update(pre, i as int, e, *name);
                    lemma_unique_update(pre, i as int, e);
                }
                self.values[i] = e;
                true
            },
            Option::None => {
                let e = PropEntry { name: name.clone(), prop: p };
                proof {
                    lemma_lookup_push(pre, e, *name);
                    lemma_unique_push(pre, e);
                }
                self.values.push(e);
                assert forall|n2: QName| !qn_eq(n2, *name) implies #[trigger] lookup(
                    self.values@,
                    n2,
                ) == lookup(pre, n2) by {
                    lemma_lookup_push(pre, e, n2);
                    lemma_qn_eq_not(e.name, *name, n2);
                }
                false
            },
        }
    }

    /// Read the binding under `name` from own storage alone: a stored value
    /// or slot directly, a bound method as its callable, a getter as a
    /// deferred call. An absent binding, and a setter with no getter, read
    /// as `Undefined`.
    pub fn get_property_local(&self, name: &QName) -> (r: Result<ReturnValue, Error>)
        ensures
            (match lookup(self.values@, *name) {
                Option::None => r == Ok::<ReturnValue, Error>(
                    ReturnValue::Immediate(Value::Undefined),
                ),
                Option::Some(p) => match p {
                    Property::Stored { value } => r == Ok::<ReturnValue, Error>(
                        ReturnValue::Immediate(value),
                    ),
                    Property::Slot { slot_id } => (match self.spec_slot(slot_id) {
                        Option::Some(v) => r == Ok::<ReturnValue, Error>(
                            ReturnValue::Immediate(v),
                        ),
                        Option::None => r == Err::<ReturnValue, Error>(
                            Error::RangeError { index: slot_id as usize },
                        ),
                    }),
                    Property::ConstSlot { slot_id } => (match self.spec_slot(slot_id) {
                        Option::Some(v) => r == Ok::<ReturnValue, Error>(
                            ReturnValue::Immediate(v),
                        ),
                        Option::None => r == Err::<ReturnValue, Error>(
                            Error::RangeError { index: slot_id as usize },
                        ),
                    }),
                    Property::Method { disp_id } => (match self.spec_method(disp_id) {
                        Option::Some(m) => r == Ok::<ReturnValue, Error>(
                            ReturnValue::Immediate(Value::Object(m)),
                        ),
                        Option::None => r == Err::<ReturnValue, Error>(
                            Error::UnknownMethodId { id: disp_id },
                        ),
                    }),
                    Property::Virtual { getter, setter } => (match getter {
                        Option::Some(g) => r is Ok && r->Ok_0 is Deferred
                            && r->Ok_0->Deferred_callee == g && r->Ok_0->Deferred_args@.len() == 0,
                        Option::None => r == Ok::<ReturnValue, Error>(
                            ReturnValue::Immediate(Value::Undefined),
                        ),
                    }),
                },
            }),
    {
        match self.find_entry(name) {
            Option::None => Ok(ReturnValue::Immediate(Value::Undefined)),
            Option::Some(i) => match &self.values[i].prop {
                Property::Stored { value } => Ok(ReturnValue::Immediate(value.clone())),
                Property::Slot { slot_id } => match self.get_slot(*slot_id) {
                    Result::Ok(v) => Ok(ReturnValue::Immediate(v)),
                    Result::Err(e) => Err(e),
                },
                Property::ConstSlot { slot_id } => match self.get_slot(*slot_id) {
                    Result::Ok(v) => Ok(ReturnValue::Immediate(v)),
                    Result::Err(e) => Err(e),
                },
                Property::Method { disp_id } => match self.get_method(*disp_id) {
                    Option::Some(m) => Ok(ReturnValue::Immediate(Value::Object(m))),
                    Option::None => Err(Error::UnknownMethodId { id: *disp_id }),
                },
                Property::Virtual { getter, setter: _ } => match getter {
                    Option::Some(g) => Ok(ReturnValue::Deferred { callee: *g, args: Vec::new() }),
                    Option::None => Ok(ReturnValue::Immediate(Value::Undefined)),
                },
            },
        }
    }

    /// Write `value` under `name` in own storage alone. A fresh name
    /// becomes a stored, enumerable dynamic binding; a stored binding or a
    /// trait slot is overwritten; a setter becomes a deferred call carrying
    /// the value; a const slot, a method binding and a getter-only virtual
    /// binding are rejected as read-only.
    pub fn set_property_local(&mut self, name: &QName, value: Value) -> (r: Result<
        ReturnValue,
        Error,
    >)
        requires
            old(self).wf(),
            !(name.ns is Any),
        ensures
            final(self).wf(),
            (match lookup(old(self).values@, *name) {
                Option::None => {
                    &&& r == Ok::<ReturnValue, Error>(ReturnValue::Immediate(Value::Undefined))
                    &&& lookup(final(self).values@, *name) == Some(Property::Stored { value })
                    &&& forall|n2: QName|
                        !qn_eq(n2, *name) ==> #[trigger] lookup(final(self).values@, n2) == lookup(
                            old(self).values@,
                            n2,
                        )
                    &&& final(self).enumerants@ == old(self).enumerants@.push(*name)
                    &&& same_except_values_enumerants(*old(self), *final(self))
                },
                Option::Some(p) => match p {
                    Property::Stored { value: _ } => {
                        &&& r == Ok::<ReturnValue, Error>(ReturnValue::Immediate(Value::Undefined))
                        &&& lookup(final(self).values@, *name) == Some(Property::Stored { value })
                        &&& forall|n2: QName|
                            !qn_eq(n2, *name) ==> #[trigger] lookup(final(self).values@, n2)
                                == lookup(old(self).values@, n2)
                        &&& same_except_values(*old(self), *final(self))
                    },
                    Property::Slot { slot_id } => (match old(self).spec_slot(slot_id) {
                        Option::Some(_) => {
                            &&& r == Ok::<ReturnValue, Error>(
                                ReturnValue::Immediate(Value::Undefined),
                            )
                            &&& final(self).slots@ == old(self).slots@.update(
                                slot_id as int,
                                Some(value),
                            )
                            &&& final(self).values == old(self).values
                            &&& same_except_values_slots(*old(self), *final(self))
                        },
                        Option::None => r == Err::<ReturnValue, Error>(
                            Error::RangeError { index: slot_id as usize },
                        ) && *final(self) == *old(self),
                    }),
                    Property::ConstSlot { slot_id: _ } => r == Err::<ReturnValue, Error>(
                        Error::ReadOnlyOverwrite { local: name.local },
                    ) && *final(self) == *old(self),
                    Property::Method { disp_id: _ } => r == Err::<ReturnValue, Error>(
                        Error::ReadOnlyOverwrite { local: name.local },
                    ) && *final(self) == *old(self),
                    Property::Virtual { getter: _, setter } => (match setter {
                        Option::Some(st) => {
                            &&& r is Ok
                            &&& r->Ok_0 is Deferred
                            &&& r->Ok_0->Deferred_callee == st
                            &&& r->Ok_0->Deferred_args@ == seq![value]
                            &&& *final(self) == *old(self)
                        },
                        Option::None => r == Err::<ReturnValue, Error>(
                            Error::ReadOnlyOverwrite { local: name.local },
                        ) && *final(self) == *old(self),
                    }),
                },
            }),
    {
        let i = match self.find_entry(name) {
            Option::None => {
                let ghost pre = self.values@;
                let e = PropEntry { name: name.clone(), prop: Property::Stored { value } };
                proof {
                    lemma_lookup_push(pre, e, *name);
                    lemma_unique_push(pre, e);
                }
                self.values.push(e);
                assert forall|n2: QName| !qn_eq(n2, *name) implies #[trigger] lookup(
                    self.values@,
                    n2,
                ) == lookup(pre, n2) by {
                    lemma_lookup_push(pre, e, n2);
                    lemma_qn_eq_not(e.name, *name, n2);
                }
                self.enumerants.push(name.clone());
                return Ok(ReturnValue::Immediate(Value::Undefined));
            },
            Option::Some(i) => i,
        };
        match &self.values[i].prop {
            Property::Stored { value: _ } => {
                let ghost pre = self.values@;
                let e = PropEntry { name: name.clone(), prop: Property::Stored { value } };
                proof {
                    lemma_lookup_update(pre, i as int, e, *name);
                    lemma_unique_update(pre, i as int, e);
                }
                self.values[i] = e;
                Ok(ReturnValue::Immediate(Value::Undefined))
            },
            Property::Slot { slot_id } => {
                let id = *slot_id;
                match self.set_slot(id, value) {
                    Result::Ok(_) => Ok(ReturnValue::Immediate(Value::Undefined)),
                    Result::Err(e) => Err(e),
                }
            },
            Property::ConstSlot { slot_id: _ } => Err(
                Error::ReadOnlyOverwrite { local: name.local.clone() },
            ),
            Property::Method { disp_id: _ } => Err(
                Error::ReadOnlyOverwrite { local: name.local.clone() },
            ),
            Property::Virtual { getter: _, setter } => match setter {
                Option::Some(st) => {
                    let callee = *st;
                    let mut args: Vec<Value> = Vec::new();
                    args.push(value);
                    Ok(ReturnValue::Deferred { callee, args })
                },
                Option::None => Err(Error::ReadOnlyOverwrite { local: name.local.clone() }),
            },
        }
    }

    /// Initialize `value` under `name` in own storage alone. As the write
    /// path, except that initialization bypasses setter semantics: a
    /// const slot is written (the one ordinary path that may fill a
    /// write-once slot), and a virtual binding is overwritten with the
    /// directly stored value instead of deferring to its setter.
    pub fn init_property_local(&mut self, name: &QName, value: Value) -> (r: Result<
        ReturnValue,
        Error,
    >)
        requires
            old(self).wf(),
            !(name.ns is Any),
        ensures
            final(self).wf(),
            (match lookup(old(self).values@, *name) {
                Option::None => {
                    &&& r == Ok::<ReturnValue, Error>(ReturnValue::Immediate(Value::Undefined))
                    &&& lookup(final(self).values@, *name) == Some(Property::Stored { value })
                    &&& forall|n2: QName|
                        !qn_eq(n2, *name) ==> #[trigger] lookup(final(self).values@, n2) == lookup(
                            old(self).values@,
                            n2,
                        )
                    &&& final(self).enumerants@ == old(self).enumerants@.push(*name)
                    &&& same_except_values_enumerants(*old(self), *final(self))
                },
                Option::Some(p) => match p {
                    Property::Stored { value: _ } => {
                        &&& r == Ok::<ReturnValue, Error>(ReturnValue::Immediate(Value::Undefined))
                        &&& lookup(final(self).values@, *name) == Some(Property::Stored { value })
                        &&& forall|n2: QName|
                            !qn_eq(n2, *name) ==> #[trigger] lookup(final(self).values@, n2)
                                == lookup(old(self).values@, n2)
                        &&& same_except_values(*old(self), *final(self))
                    },
                    Property::Slot { slot_id } => (match old(self).spec_slot(slot_id) {
                        Option::Some(_) => {
                            &&& r == Ok::<ReturnValue, Error>(
                                ReturnValue::Immediate(Value::Undefined),
                            )
                            &&& final(self).slots@ == old(self).slots@.update(
                                slot_id as int,
                                Some(value),
                            )
                            &&& final(self).values == old(self).values
                            &&& same_except_values_slots(*old(self), *final(self))
                        },
                        Option::None => r == Err::<ReturnValue, Error>(
                            Error::RangeError { index: slot_id as usize },
                        ) && *final(self) == *old(self),
                    }),
                    Property::ConstSlot { slot_id } => (match old(self).spec_slot(slot_id) {
                        Option::Some(_) => {
                            &&& r == Ok::<ReturnValue, Error>(
                                ReturnValue::Immediate(Value::Undefined),
                            )
                            &&& final(self).slots@ == old(self).slots@.update(
                                slot_id as int,
                                Some(value),
                            )
                            &&& final(self).values == old(self).values
                            &&& same_except_values_slots(*old(self), *final(self))
                        },
                        Option::None => r == Err::<ReturnValue, Error>(
                            Error::RangeError { index: slot_id as usize },
                        ) && *final(self) == *old(self),
                    }),
                    Property::Method { disp_id: _ } => r == Err::<ReturnValue, Error>(
                        Error::ReadOnlyOverwrite { local: name.local },
                    ) && *final(self) == *old(self),
                    Property::Virtual { getter: _, setter: _ } => {
                        &&& r == Ok::<ReturnValue, Error>(ReturnValue::Immediate(Value::Undefined))
                        &&& lookup(final(self).values@, *name) == Some(Property::Stored { value })
                        &&& (forall|n2: QName|
                            !qn_eq(n2, *name) ==> #[trigger] lookup(final(self).values@, n2)
                                == lookup(old(self).values@, n2))
                        &&& same_except_values(*old(self), *final(self))
                    },
                },
            }),
    {
        let i = match self.find_entry(name) {
            Option::None => {
                let ghost pre = self.values@;
                let e = PropEntry { name: name.clone(), prop: Property::Stored { value } };
                proof {
                    lemma_lookup_push(pre, e, *name);
                    lemma_unique_push(pre, e);
                }
                self.values.push(e);
                assert forall|n2: QName| !qn_eq(n2, *name) implies #[trigger] lookup(
                    self.values@,
                    n2,
                ) == lookup(pre, n2) by {
                    lemma_lookup_push(pre, e, n2);
                    lemma_qn_eq_not(e.name, *name, n2);
                }
                self.enumerants.push(name.clone());
                return Ok(ReturnValue::Immediate(Value::Undefined));
            },
            Option::Some(i) => i,
        };
        match &self.values[i].prop {
            Property::Stored { value: _ } => {
                let ghost pre = self.values@;
                let e = PropEntry { name: name.clone(), prop: Property::Stored { value } };
                proof {
                    lemma_lookup_update(pre, i as int, e, *name);
                    lemma_unique_update(pre, i as int, e);
                }
                self.values[i] = e;
                Ok(ReturnValue::Immediate(Value::Undefined))
            },
            Property::Slot { slot_id } => {
                let id = *slot_id;
                match self.set_slot(id, value) {
                    Result::Ok(_) => Ok(ReturnValue::Immediate(Value::Undefined)),
                    Result::Err(e) => Err(e),
                }
            },
            Property::ConstSlot { slot_id } => {
                let id = *slot_id;
                match self.set_slot(id, value) {
                    Result::Ok(_) => Ok(ReturnValue::Immediate(Value::Undefined)),
                    Result::Err(e) => Err(e),
                }
            },
            Property::Method { disp_id: _ } => Err(
                Error::ReadOnlyOverwrite { local: name.local.clone() },
            ),
            Property::Virtual { getter: _, setter: _ } => {
                let ghost pre = self.values@;
                let e = PropEntry { name: name.clone(), prop: Property::Stored { value } };
                proof {
                    lemma_lookup_update(pre, i as int, e, *name);
                    lemma_unique_update(pre, i as int, e);
                }
                self.values[i] = e;
                Ok(ReturnValue::Immediate(Value::Undefined))
            },
        }
    }

    /// Remove the first enumeration entry equal to `name`, if any.
    fn remove_enumerant(&mut self, name: &QName)
        ensures
            final(self).values == old(self).values,
            same_except_values_enumerants(*old(self), *final(self)),
            ({
                let k = first_name_match(old(self).enumerants@, *name);
                if k < old(self).enumerants@.len() {
                    final(self).enumerants@ == old(self).enumerants@.remove(k)
                } else {
                    final(self).enumerants@ == old(self).enumerants@
                }
            }),
    {
        let mut i: usize = 0;
        while i < self.enumerants.len()
            invariant
                0 <= i <= self.enumerants@.len(),
                forall|j: int| 0 <= j < i ==> !qn_eq(self.enumerants@[j], *name),
                *self == *old(self),
            decreases self.enumerants@.len() - i,
        {
            if self.enumerants[i].equals(name) {
                proof {
                    lemma_first_name_match_at(self.enumerants@, *name, i as int);
                }
                self.enumerants.remove(i);
                return ;
            }
            i = i + 1;
        }
        proof {
            lemma_first_name_match_at(self.enumerants@, *name, self.enumerants@.len() as int);
        }
    }

    /// Delete the binding under `name`, reporting whether a binding was
    /// removed. Only directly stored (dynamic) bindings can be deleted;
    /// trait slots, methods and virtual bindings resist deletion.
    pub fn delete_property(&mut self, name: &QName) -> (r: bool)
        requires
            old(self).wf(),
        ensures
            final(self).wf(),
            r == (lookup(old(self).values@, *name) matches Some(Property::Stored { .. })),
            r ==> {
                &&& lookup(final(self).values@, *name) is None
                &&& forall|n2: QName|
                    !qn_eq(n2, *name) ==> #[trigger] lookup(final(self).values@, n2) == lookup(
                        old(self).values@,
                        n2,
                    )
                &&& same_except_values_enumerants(*old(self), *final(self))
            },
            !r ==> *final(self) == *old(self),
    {
        match self.find_entry(name) {
            Option::None => false,
            Option::Some(i) => {
                let is_stored = match &self.values[i].prop {
                    Property::Stored { value: _ } => true,
                    _ => false,
                };
                if is_stored {
                    proof {
                        lemma_lookup_remove(self.values@, i as int, *name);
                        lemma_unique_remove(self.values@, i as int);
                    }
                    self.values.remove(i);
                    self.remove_enumerant(name);
                    true
                } else {
                    false
                }
            },
        }
    }

    /// Install a bound method under `name` at dispatch id `disp_id`. Every
    /// other binding and every other dispatch id is untouched.
    pub fn install_method(&mut self, name: &QName, disp_id: u32, function: ObjId)
        requires
            old(self).wf(),
            !(name.ns is Any),
        ensures
            final(self).wf(),
            lookup(final(self).values@, *name) == Some(Property::Method { disp_id }),
            forall|n2: QName|
                !qn_eq(n2, *name) ==> #[trigger] lookup(final(self).values@, n2) == lookup(
                    old(self).values@,
                    n2,
                ),
            final(self).spec_method(disp_id) == Some(function),
            forall|k: u32|
                k != disp_id ==> #[trigger] final(self).spec_method(k) == old(self).spec_method(k),
            forall|k: int|
                0 <= k < final(self).bound_methods@.len() ==> final(self).bound_methods@[k] == (
                if k == disp_id as int {
                    Some(function)
                } else if k < old(self).bound_methods@.len() {
                    old(self).bound_methods@[k]
                } else {
                    None::<ObjId>
                }),
            final(self).slots == old(self).slots,
            final(self).enumerants == old(self).enumerants,
            final(self).proto == old(self).proto,
            final(self).instance_of == old(self).instance_of,
    {
        self.upsert(name, Property::Method { disp_id });
        let ghost mid = *self;
        while self.bound_methods.len() <= disp_id as usize
            invariant
                mid.bound_methods@.len() <= self.bound_methods@.len(),
                forall|k: int|
                    0 <= k < mid.bound_methods@.len() ==> self.bound_methods@[k]
                        == mid.bound_methods@[k],
                forall|k: int|
                    mid.bound_methods@.len() <= k < self.bound_methods@.len()
                        ==> self.bound_methods@[k] is None,
                self.values == mid.values,
                self.slots == mid.slots,
                self.enumerants == mid.enumerants,
                self.proto == mid.proto,
                self.instance_of == mid.instance_of,
            decreases disp_id as int + 1 - self.bound_methods@.len(),
        {
            self.bound_methods.push(None);
        }
        self.bound_methods[disp_id as usize] = Some(function);
    }

    /// Install a getter under `name`, keeping a setter already bound there.
    /// Any non-virtual binding under the name is replaced by the fresh
    /// virtual one.
    pub fn install_getter(&mut self, name: &QName, function: ObjId)
        requires
            old(self).wf(),
            !(name.ns is Any),
        ensures
            final(self).wf(),
            same_except_values(*old(self), *final(self)),
            forall|n2: QName|
                !qn_eq(n2, *name) ==> #[trigger] lookup(final(self).values@, n2) == lookup(
                    old(self).values@,
                    n2,
                ),
            ({
                let prior = lookup(old(self).values@, *name);
                let kept = match prior {
                    Option::Some(Property::Virtual { getter: _, setter }) => setter,
                    _ => None,
                };
                lookup(final(self).values@, *name) == Some(
                    Property::Virtual { getter: Some(function), setter: kept },
                )
            }),
    {
        let kept: Option<ObjId> = match self.find_entry(name) {
            Option::Some(i) => match &self.values[i].prop {
                Property::Virtual { getter: _, setter } => *setter,
                _ => None,
            },
            Option::None => None,
        };
        self.upsert(name, Property::Virtual { getter: Some(function), setter: kept });
    }

    /// Install a setter under `name`, keeping a getter already bound there.
    /// Any non-virtual binding under the name is replaced by the fresh
    /// virtual one.
    pub fn install_setter(&mut self, name: &QName, function: ObjId)
        requires
            old(self).wf(),
            !(name.ns is Any),
        ensures
            final(self).wf(),
            same_except_values(*old(self), *final(self)),
            forall|n2: QName|
                !qn_eq(n2, *name) ==> #[trigger] lookup(final(self).values@, n2) == lookup(
                    old(self).values@,
                    n2,
                ),
            ({
                let prior = lookup(old(self).values@, *name);
                let kept = match prior {
                    Option::Some(Property::Virtual { getter, setter: _ }) => getter,
                    _ => None,
                };
                lookup(final(self).values@, *name) == Some(
                    Property::Virtual { getter: kept, setter: Some(function) },
                )
            }),
    {
        let kept: Option<ObjId> = match self.find_entry(name) {
            Option::Some(i) => match &self.values[i].prop {
                Property::Virtual { getter, setter: _ } => *getter,
                _ => None,
            },
            Option::None => None,
        };
        self.upsert(name, Property::Virtual { getter: kept, setter: Some(function) });
    }

    /// Install a directly stored value under `name`, without touching the
    /// enumeration order.
    pub fn install_dynamic_property(&mut self, name: &QName, value: Value)
        requires
            old(self).wf(),
            !(name.ns is Any),
        ensures
            final(self).wf(),
            same_except_values(*old(self), *final(self)),
            lookup(final(self).values@, *name) == Some(Property::Stored { value }),
            forall|n2: QName|
                !qn_eq(n2, *name) ==> #[trigger] lookup(final(self).values@, n2) == lookup(
                    old(self).values@,
                    n2,
                ),
    {
        self.upsert(name, Property::Stored { value });
    }

    /// Grow the slot table so that `id` is a valid slot index, filling new
    /// positions with empty slots.
    fn reserve_slot(&mut self, id: u32)
        ensures
            final(self).values == old(self).values,
            final(self).bound_methods == old(self).bound_methods,
            final(self).enumerants == old(self).enumerants,
            final(self).proto == old(self).proto,
            final(self).instance_of == old(self).instance_of,
            final(self).slots@.len() > id as int,
            old(self).slots@.len() <= final(self).slots@.len(),
            forall|k: int| 0 <= k < old(self).slots@.len() ==> final(self).slots@[k] == old(
                self,
            ).slots@[k],
            forall|k: int|
                old(self).slots@.len() <= k < final(self).slots@.len() ==> final(self).slots@[k]
                    is None,
    {
        while self.slots.len() <= id as usize
            invariant
                old(self).slots@.len() <= self.slots@.len(),
                forall|k: int| 0 <= k < old(self).slots@.len() ==> self.slots@[k] == old(
                    self,
                ).slots@[k],
                forall|k: int|
                    old(self).slots@.len() <= k < self.slots@.len() ==> self.slots@[k] is None,
                self.values == old(self).values,
                self.bound_methods == old(self).bound_methods,
                self.enumerants == old(self).enumerants,
                self.proto == old(self).proto,
                self.instance_of == old(self).instance_of,
            decreases id as int + 1 - self.slots@.len(),
        {
            self.slots.push(None);
        }
    }

    /// Install a trait slot under `name` at slot id `id`, holding `value`.
    pub fn install_slot(&mut self, name: &QName, id: u32, value: Value)
        requires
            old(self).wf(),
            !(name.ns is Any),
        ensures
            final(self).wf(),
            lookup(final(self).values@, *name) == Some(Property::Slot { slot_id: id }),
            forall|n2: QName|
                !qn_eq(n2, *name) ==> #[trigger] lookup(final(self).values@, n2) == lookup(
                    old(self).values@,
                    n2,
                ),
            final(self).spec_slot(id) == Some(value),
            forall|k: u32|
                k != id ==> #[trigger] final(self).spec_slot(k) == old(self).spec_slot(k),
            final(self).bound_methods == old(self).bound_methods,
            final(self).enumerants == old(self).enumerants,
            final(self).proto == old(self).proto,
            final(self).instance_of == old(self).instance_of,
    {
        self.upsert(name, Property::Slot { slot_id: id });
        self.reserve_slot(id);
        self.slots[id as usize] = Some(value);
    }

    /// Install a write-once trait slot under `name` at slot id `id`,
    /// holding `value`.
    pub fn install_const(&mut self, name: &QName, id: u32, value: Value)
        requires
            old(self).wf(),
            !(name.ns is Any),
        ensures
            final(self).wf(),
            lookup(final(self).values@, *name) == Some(Property::ConstSlot { slot_id: id }),
            forall|n2: QName|
                !qn_eq(n2, *name) ==> #[trigger] lookup(final(self).values@, n2) == lookup(
                    old(self).values@,
                    n2,
                ),
            final(self).spec_slot(id) == Some(value),
            forall|k: u32|
                k != id ==> #[trigger] final(self).spec_slot(k) == old(self).spec_slot(k),
            final(self).bound_methods == old(self).bound_methods,
            final(self).enumerants == old(self).enumerants,
            final(self).proto == old(self).proto,
            final(self).instance_of == old(self).instance_of,
    {
        self.upsert(name, Property::ConstSlot { slot_id: id });
        self.reserve_slot(id);
        self.slots[id as usize] = Some(value);
    }

    /// The next enumeration index after `last_index`, with 0 meaning
    /// "start". Indices walk the enumeration order one step at a time and
    /// run out exactly when the order is exhausted.
    pub fn get_next_enumerant(&self, last_index: u32) -> (r: Option<u32>)
        ensures
            r == spec_next_enumerant(*self, last_index),
    {
        if (last_index as usize) < self.enumerants.len() && last_index < u32::MAX {
            Some(last_index + 1)
        } else {
            None
        }
    }

    /// The name at enumeration index `index`, as a string value; `None`
    /// outside the valid range. Indices are the 1-based values
    /// `get_next_enumerant` hands out.
    pub fn get_enumerant_name(&self, index: u32) -> (r: Option<Value>)
        ensures
            (1 <= index && index as int <= self.enumerants@.len()) ==> (r is Some && (r->0 is String
                && r->0->String_0@ == self.enumerants@[index as int - 1].local@)),
            !(1 <= index && index as int <= self.enumerants@.len()) ==> r is None,
    {
        if 1 <= index && (index as usize) <= self.enumerants.len() {
            Some(Value::String(self.enumerants[(index - 1) as usize].local.clone()))
        } else {
            None
        }
    }

    /// Whether `name` is currently enumerable on this object.
    pub fn property_is_enumerable(&self, name: &QName) -> (r: bool)
        ensures
            r == names_contain(self.enumerants@, *name),
    {
        let mut i: usize = 0;
        while i < self.enumerants.len()
            invariant
                0 <= i <= self.enumerants@.len(),
                forall|j: int| 0 <= j < i ==> !qn_eq(self.enumerants@[j], *name),
            decreases self.enumerants@.len() - i,
        {
            if self.enumerants[i].equals(name) {
                return true;
            }
            i = i + 1;
        }
        false
    }

    /// Mark an own binding as enumerable or not. Making a name enumerable
    /// appends it to the enumeration order, if it has an own binding and is
    /// not already there; making it non-enumerable removes it.
    pub fn set_local_property_is_enumerable(&mut self, name: &QName, is_enumerable: bool)
        requires
            old(self).wf(),
        ensures
            final(self).wf(),
            final(self).values == old(self).values,
            same_except_values_enumerants(*old(self), *final(self)),
            is_enumerable && lookup(old(self).values@, *name) is Some && !names_contain(
                old(self).enumerants@,
                *name,
            ) ==> final(self).enumerants@ == old(self).enumerants@.push(*name),
            is_enumerable && !(lookup(old(self).values@, *name) is Some && !names_contain(
                old(self).enumerants@,
                *name,
            )) ==> final(self).enumerants@ == old(self).enumerants@,
            !is_enumerable ==> ({
                let k = first_name_match(old(self).enumerants@, *name);
                if k < old(self).enumerants@.len() {
                    final(self).enumerants@ == old(self).enumerants@.remove(k)
                } else {
                    final(self).enumerants@ == old(self).enumerants@
                }
            }),
    {
        if is_enumerable {
            if self.has_own_instantiated_property(name) && !self.property_is_enumerable(name) {
                self.enumerants.push(name.clone());
            }
        } else {
            self.remove_enumerant(name);
        }
    }

    /// Whether an ordinary write may replace the binding under `name`:
    /// yes for an absent, stored or writable-slot binding and for a
    /// virtual binding with a setter; no for const slots, methods and
    /// getter-only virtual bindings.
    pub fn is_property_overwritable(&self, name: &QName) -> (r: bool)
        ensures
            r == overwritable(lookup(self.values@, *name)),
    {
        match self.find_entry(name) {
            Option::None => true,
            Option::Some(i) => match &self.values[i].prop {
                Property::Stored { value: _ } => true,
                Property::Slot { slot_id: _ } => true,
                Property::ConstSlot { slot_id: _ } => false,
                Property::Method { disp_id: _ } => false,
                Property::Virtual { getter: _, setter } => setter.is_some(),
            },
        }
    }
}

/// Whether a looked-up binding is a virtual one with a setter but no
/// getter.
pub open spec fn set_only(p: Option<Property>) -> bool {
    match p {
        Some(Property::Virtual { getter, setter }) => getter is None && setter is Some,
        _ => false,
    }
}

/// The next enumeration index `get_next_enumerant` reports from
/// `last_index`.
pub open spec fn spec_next_enumerant(data: ObjectData, last_index: u32) -> Option<u32> {
    if (last_index as int) < data.enumerants@.len() && last_index < u32::MAX {
        Some((last_index + 1) as u32)
    } else {
        None
    }
}

/// Whether an ordinary write may replace a looked-up binding.
pub open spec fn overwritable(p: Option<Property>) -> bool {
    match p {
        Option::None => true,
        Option::Some(Property::Stored { .. }) => true,
        Option::Some(Property::Slot { .. }) => true,
        Option::Some(Property::ConstSlot { .. }) => false,
        Option::Some(Property::Method { .. }) => false,
        Option::Some(Property::Virtual { getter: _, setter }) => setter is Some,
    }
}

} // verus!
