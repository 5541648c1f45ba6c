//! Runtime values, the error taxonomy, and deferred results.

use vstd::prelude::*;
use crate::ObjId;

verus! {

/// A runtime value: a tagged union over the primitive kinds and object
/// references. `Undefined` and `Null` are distinct sentinels with different
/// coercion behaviour.
///
/// The numeric payload is carried as its 64-bit encoding and is opaque to
/// the object model: no dispatch decision in this library reads it, and the
/// interpreter that produces and consumes numbers owns their arithmetic.
#[derive(Debug)]
pub enum Value {
    Undefined,
    Null,
    Bool(bool),
    Number(u64),
    String(String),
    Object(ObjId),
}

/// Structural equality of values, comparing strings by content.
pub open spec fn val_eq(a: Value, b: Value) -> bool {
    match (a, b) {
        (Value::Undefined, Value::Undefined) => true,
        (Value::Null, Value::Null) => true,
        (Value::Bool(x), Value::Bool(y)) => x == y,
        (Value::Number(x), Value::Number(y)) => x == y,
        (Value::String(x), Value::String(y)) => x@ == y@,
        (Value::Object(x), Value::Object(y)) => x == y,
        _ => false,
    }
}

impl Value {
    /// The object handle, if this value is an object reference; the error
    /// for values no object operation can proceed on.
    pub fn as_object(&self) -> (r: Result<ObjId, Error>)
        ensures
            r is Ok <==> *self is Object,
            *self is Object ==> r == Ok::<ObjId, Error>((*self)->Object_0),
            !(*self is Object) ==> r == Err::<ObjId, Error>(Error::NotAnObject),
    {
        match self {
            Value::Object(o) => Ok(*o),
            _ => Err(Error::NotAnObject),
        }
    }
}

impl Clone for Value {
    fn clone(&self) -> (r: Self)
        ensures
            r == *self,
    {
        match self {
            Value::Undefined => Value::Undefined,
            Value::Null => Value::Null,
            Value::Bool(b) => Value::Bool(*b),
            Value::Number(n) => Value::Number(*n),
            Value::String(s) => Value::String(s.clone()),
            Value::Object(o) => Value::Object(*o),
        }
    }
}

/// The primitive-coercion preference an object reports when there is no
/// other reason to pick one: numeric for every native kind except the
/// date-like ones, which prefer strings.
#[derive(Debug)]
pub enum Hint {
    Number,
    String,
}

/// Every failure the object model can report. All are synchronous,
/// propagated results; nothing is retried or recovered locally. Where a
/// name is known it is carried for diagnosability.
#[derive(Debug)]
pub enum Error {
    /// Reading an unresolved name on a sealed-class instance.
    UndefinedPropertyRead { name: Option<String> },
    /// Writing or deleting an unresolved name with no usable dynamic
    /// fallback: a sealed class, or a multiname with no local name at all.
    UndefinedPropertyWrite { name: Option<String> },
    /// Setting, initializing or deleting a name bound to an instance or
    /// class method, materialized or not.
    ReadOnlyOverwrite { local: String },
    /// Calling an object kind that does not support being called, or a
    /// named property that is not callable.
    NotCallable { name: Option<String> },
    /// Constructing an object kind that does not support construction.
    NotConstructable,
    /// Applying type parameters to a non-generic object.
    NotParameterizedType,
    /// A method id that resolves to nothing even after lazy binding.
    UnknownMethodId { id: u32 },
    /// A value where an object reference was needed.
    NotAnObject,
    /// An element write outside a vector's writable range.
    RangeError { index: usize },
}

/// The outcome of a storage-level read or write that may owe part of its
/// answer to a bound callable: either the value itself, or the callable the
/// interpreter must invoke (a getter with no arguments, a setter with the
/// value being written) to finish the operation. The object model never
/// executes method bodies; it reports exactly which one to run.
#[derive(Debug)]
pub enum ReturnValue {
    /// The operation finished; this is its value.
    Immediate(Value),
    /// Invoke the bound callable `callee` with `args` to finish.
    Deferred { callee: ObjId, args: Vec<Value> },
}

} // verus!
