//! The namespace candidate list.
//!
//! Namespace resolution reports, for a local name, the ordered list of
//! namespaces that have some binding under that name. The list is held in a
//! small-vector optimized for the common one-candidate case. Verus cannot
//! take that collection's declaration (its element type is bound by the
//! crate's own `Array` trait), so it lives in a private field of an opaque
//! struct; everything said about it is said over `ns_list_model`, the
//! sequence of namespaces it holds in order, through the wrappers below.

use vstd::prelude::*;
use crate::names::Namespace;

verus! {

/// An ordered list of candidate namespaces, backed by a small-vector
/// (inline storage for the common single-candidate case).
#[verifier::external_body]
pub struct NsList {
    inner: smallvec::SmallVec<[Namespace; 1]>,
}

/// The namespaces a candidate list holds, in order.
pub uninterp spec fn ns_list_model(v: NsList) -> Seq<Namespace>;

impl NsList {
    /// Relies on smallvec's `SmallVec::new`: the fresh vector is empty.
    #[verifier::external_body]
    pub fn new() -> (r: NsList)
        ensures
            ns_list_model(r) == Seq::<Namespace>::empty(),
    {
        NsList { inner: smallvec::SmallVec::new() }
    }

    /// Relies on smallvec's `SmallVec::push`: the item is appended at the
    /// end. As with the standard vector's specification, growth failure
    /// (allocation failure, or a length at the address-space limit, which
    /// no reachable list attains) aborts rather than returns.
    #[verifier::external_body]
    pub fn push(&mut self, ns: Namespace)
        ensures
            ns_list_model(*final(self)) == ns_list_model(*old(self)).push(ns),
    {
        self.inner.push(ns)
    }

    /// Relies on smallvec's `SmallVec::len`: the number of items held.
    #[verifier::external_body]
    pub fn len(&self) -> (r: usize)
        ensures
            r == ns_list_model(*self).len(),
    {
        self.inner.len()
    }

    /// Relies on smallvec's slice indexing (through `Deref` to a slice):
    /// the item at position `i`.
    #[verifier::external_body]
    pub fn get(&self, i: usize) -> (r: &Namespace)
        requires
            i < ns_list_model(*self).len(),
        ensures
            *r == ns_list_model(*self)[i as int],
    {
        &self.inner[i]
    }
}

} // verus!
