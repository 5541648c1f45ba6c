//! Name resolution types: namespaces, qualified names and multinames.
//!
//! A namespace is a visibility scope. A qualified name pairs exactly one
//! namespace with a local name and is the unique key under which a property
//! is stored. A multiname is an unresolved reference: a local name plus a
//! set of candidate namespaces, possibly containing the wildcard `Any`.

use vstd::prelude::*;

verus! {

/// A visibility scope a name belongs to. `Any` is the resolution wildcard:
/// it matches every namespace during multiname resolution but is never the
/// namespace a property is actually stored under.
#[derive(Debug)]
pub enum Namespace {
    /// The wildcard namespace.
    Any,
    /// The public namespace: the unnamed package every dynamic property
    /// lands in.
    Public,
    /// A named package namespace.
    Package(String),
    /// A private namespace, identified by its declaring scope's name.
    Private(String),
}

/// Structural equality of namespaces, comparing package names by content.
pub open spec fn ns_eq(a: Namespace, b: Namespace) -> bool {
    match (a, b) {
        (Namespace::Any, Namespace::Any) => true,
        (Namespace::Public, Namespace::Public) => true,
        (Namespace::Package(x), Namespace::Package(y)) => x@ == y@,
        (Namespace::Private(x), Namespace::Private(y)) => x@ == y@,
        _ => false,
    }
}

/// Whether `ns` is the public namespace.
pub open spec fn ns_is_public(ns: Namespace) -> bool {
    ns is Public
}

impl Namespace {
    /// The public namespace.
    pub fn public() -> (r: Namespace)
        ensures
            r == Namespace::Public,
    {
        Namespace::Public
    }

    /// Whether this is the wildcard namespace.
    pub fn is_any(&self) -> (r: bool)
        ensures
            r == (*self is Any),
    {
        match self {
            Namespace::Any => true,
            _ => false,
        }
    }

    /// Whether this is the public namespace.
    pub fn is_public(&self) -> (r: bool)
        ensures
            r == ns_is_public(*self),
    {
        match self {
            Namespace::Public => true,
            _ => false,
        }
    }

    /// Structural equality test, mirroring `ns_eq`.
    pub fn equals(&self, other: &Namespace) -> (r: bool)
        ensures
            r == ns_eq(*self, *other),
    {
        match (self, other) {
            (Namespace::Any, Namespace::Any) => true,
            (Namespace::Public, Namespace::Public) => true,
            (Namespace::Package(a), Namespace::Package(b)) => *a == *b,
            (Namespace::Private(a), Namespace::Private(b)) => *a == *b,
            _ => false,
        }
    }
}

impl Clone for Namespace {
    fn clone(&self) -> (r: Self)
        ensures
            r == *self,
    {
        match self {
            Namespace::Any => Namespace::Any,
            Namespace::Public => Namespace::Public,
            Namespace::Package(p) => Namespace::Package(p.clone()),
            Namespace::Private(p) => Namespace::Private(p.clone()),
        }
    }
}

/// A resolved property reference: exactly one namespace plus one local name.
/// This is the storage key; equality is structural.
#[derive(Debug)]
pub struct QName {
    pub ns: Namespace,
    pub local: String,
}

/// Structural equality of qualified names.
pub open spec fn qn_eq(a: QName, b: QName) -> bool {
    ns_eq(a.ns, b.ns) && a.local@ == b.local@
}

impl QName {
    /// Build a qualified name from its parts.
    pub fn new(ns: Namespace, local: String) -> (r: QName)
        ensures
            r.ns == ns,
            r.local == local,
    {
        QName { ns, local }
    }

    /// A dynamic name: the given local name in the public namespace.
    pub fn dynamic_name(local: String) -> (r: QName)
        ensures
            r.ns == Namespace::Public,
            r.local == local,
    {
        QName { ns: Namespace::public(), local }
    }

    /// The local-name half of the key.
    pub fn local_name(&self) -> (r: &String)
        ensures
            r == &self.local,
    {
        &self.local
    }

    /// The namespace half of the key.
    pub fn namespace(&self) -> (r: &Namespace)
        ensures
            r == &self.ns,
    {
        &self.ns
    }

    /// Structural equality test, mirroring `qn_eq`.
    pub fn equals(&self, other: &QName) -> (r: bool)
        ensures
            r == qn_eq(*self, *other),
    {
        self.ns.equals(&other.ns) && self.local == other.local
    }
}

impl Clone for QName {
    fn clone(&self) -> (r: Self)
        ensures
            r == *self,
    {
        QName { ns: self.ns.clone(), local: self.local.clone() }
    }
}

/// An unresolved property reference: an optional local name plus an ordered
/// set of candidate namespaces. Resolved against a live object, never stored.
/// The local name is absent only for the special "any name" forms.
#[derive(Debug)]
pub struct Multiname {
    pub name: Option<String>,
    pub ns_set: Vec<Namespace>,
}

/// Whether the multiname's candidate set contains the wildcard namespace.
pub open spec fn mn_has_any(mn: Multiname) -> bool {
    exists|i: int| 0 <= i < mn.ns_set@.len() && mn.ns_set@[i] is Any
}

/// Whether the multiname's candidate set contains a namespace equal to `ns`.
pub open spec fn mn_contains_ns(mn: Multiname, ns: Namespace) -> bool {
    exists|i: int| 0 <= i < mn.ns_set@.len() && ns_eq(mn.ns_set@[i], ns)
}

impl Multiname {
    /// Build a multiname from a local name and its candidate namespaces.
    pub fn new(name: Option<String>, ns_set: Vec<Namespace>) -> (r: Multiname)
        ensures
            r.name == name,
            r.ns_set == ns_set,
    {
        Multiname { name, ns_set }
    }

    /// A multiname that names one qualified name exactly.
    pub fn from_qname(name: QName) -> (r: Multiname)
        ensures
            r.name == Some(name.local),
            r.ns_set@ == seq![name.ns],
    {
        let mut ns_set: Vec<Namespace> = Vec::new();
        ns_set.push(name.ns);
        Multiname { name: Some(name.local), ns_set }
    }

    /// A multiname for a dynamic name: the local name qualified by the
    /// public namespace alone.
    pub fn dynamic_name(local: String) -> (r: Multiname)
        ensures
            r.name == Some(local),
            r.ns_set@ == seq![Namespace::Public],
    {
        let mut ns_set: Vec<Namespace> = Vec::new();
        ns_set.push(Namespace::public());
        Multiname { name: Some(local), ns_set }
    }

    /// The local name, if the multiname carries one.
    pub fn local_name(&self) -> (r: &Option<String>)
        ensures
            r == &self.name,
    {
        &self.name
    }

    /// Whether the candidate set holds the wildcard namespace.
    pub fn contains_any(&self) -> (r: bool)
        ensures
            r == mn_has_any(*self),
    {
        let mut i: usize = 0;
        while i < self.ns_set.len()
            invariant
                0 <= i <= self.ns_set@.len(),
                forall|j: int| 0 <= j < i ==> !(self.ns_set@[j] is Any),
            decreases self.ns_set@.len() - i,
        {
            if self.ns_set[i].is_any() {
                return true;
            }
            i = i + 1;
        }
        false
    }

    /// Whether the candidate set holds a namespace equal to `ns`.
    pub fn contains_ns(&self, ns: &Namespace) -> (r: bool)
        ensures
            r == mn_contains_ns(*self, *ns),
    {
        let mut i: usize = 0;
        while i < self.ns_set.len()
            invariant
                0 <= i <= self.ns_set@.len(),
                forall|j: int| 0 <= j < i ==> !ns_eq(self.ns_set@[j], *ns),
            decreases self.ns_set@.len() - i,
        {
            if self.ns_set[i].equals(ns) {
                return true;
            }
            i = i + 1;
        }
        false
    }
}

} // verus!
