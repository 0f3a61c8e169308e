//! A read-only, typed view over a registry hive as a hive-reading engine
//! presents it: a tree of named keys, each with typed values.
//!
//! The engine's answers are held as plain data. Everything that decides
//! (bounds checks, the size/read protocol, text decoding, the traversal of
//! the key tree) is stated and proved here.

use vstd::prelude::*;

pub mod error;
pub mod field;
pub mod file;
pub mod hive;
pub mod key;
pub mod kv;
pub mod order;
pub mod time;
pub mod value;
pub mod walk;

pub use error::{DecodeError, OpenError, RegfError, RootError, TraversalError};
pub use hive::{Hive, HiveIterator};
pub use kv::{Key, Value};
pub use time::epoch_to_timestamp;

verus! {

/// Merges the two halves of an engine answer: an error, if one was reported,
/// wins; otherwise the value, if there is one; otherwise the fallback `o`.
pub fn handle_err_and_option<T, E>(v: Option<T>, e: Option<E>, o: E) -> (r: Result<T, E>)
    ensures
        e is Some ==> r == Err::<T, E>(e->Some_0),
        e is None && v is Some ==> r == Ok::<T, E>(v->Some_0),
        e is None && v is None ==> r == Err::<T, E>(o),
{
    match (e, v) {
        (Some(error), _) => Err(error),
        (None, Some(t)) => Ok(t),
        (None, None) => Err(o),
    }
}

} // verus!
