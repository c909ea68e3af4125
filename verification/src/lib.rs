//! An ordered store of free-text entries with 1-based display numbering,
//! a self-describing persisted form, and overview / markdown rendering.

pub mod codec;
pub mod digits;
pub mod entry;
pub mod render;
pub mod store;
pub mod textops;

use vstd::prelude::*;

verus! {

/// The errors surfaced by the entry store.
#[derive(Clone, Copy, Debug, PartialEq, Eq, Structural)]
pub enum StoreError {
    /// Persisted data exists but cannot be parsed.
    CorruptState,
    /// An I/O failure while loading or saving persisted state.
    PersistenceFailure,
    /// A display number outside the range `[1, len]`.
    IndexOutOfRange,
}

/// A short user-facing sentence for each error kind.
pub fn store_error_message(e: StoreError) -> (r: &'static str)
    ensures
        r@.len() > 0,
        e == StoreError::CorruptState ==> r@ == "the persisted entries are corrupt"@,
        e == StoreError::PersistenceFailure ==> r@ == "the entries could not be loaded or saved"@,
        e == StoreError::IndexOutOfRange ==> r@ == "that entry number does not exist"@,
{
    proof {
        reveal_strlit("the persisted entries are corrupt");
        reveal_strlit("the entries could not be loaded or saved");
        reveal_strlit("that entry number does not exist");
    }
    match e {
        StoreError::CorruptState => "the persisted entries are corrupt",
        StoreError::PersistenceFailure => "the entries could not be loaded or saved",
        StoreError::IndexOutOfRange => "that entry number does not exist",
    }
}

} // verus!
