//! Runtime object model for a class-based dynamic scripting language:
//! namespace-qualified property resolution, sealed and dynamic classes,
//! prototype delegation layered under a class hierarchy, lazily bound
//! inherited methods, trait installation, an enumeration cursor protocol,
//! and a vector-backed object kind as the worked storage specialization.
//!
//! Objects live in one arena (`avm::Avm`) and name each other by handle;
//! holding the arena exclusively is the mutation capability every write
//! needs. The capability interface is the arena's method set, and the
//! per-kind overrides dispatch over the closed variant set in
//! `object::Object`. The interpreter, which executes method bodies, is an
//! outside collaborator: wherever an operation owes part of its answer to
//! running a callable, the operation reports exactly which callable to
//! run instead of running it.

pub mod avm;
pub mod calls;
pub mod class;
pub mod decimal;
pub mod laws;
pub mod names;
pub mod nslist;
pub mod object;
pub mod props;
pub mod resolve;
pub mod storage;
pub mod traits;
pub mod value;
pub mod vector;

use vstd::prelude::*;

verus! {

/// Handle to an object in the arena. All inter-object references (prototype
/// links, class links, bound callables) are such handles; the arena hands
/// them out in allocation order and never reuses them.
pub type ObjId = usize;

} // verus!
