//! Where the values of reactive states live: generational boxes, grouped by
//! owners. Dropping an owner releases every box it handed out, and a handle
//! to a released box is refused on its next use.
//!
//! Nothing in this file is proved. It declares the outside types and gives
//! each outside call one function; what a box holds is not modelled, so the
//! functions promise nothing about the values they return.

use vstd::prelude::*;
use generational_box::{
    AlreadyBorrowedError, AlreadyBorrowedMutError, BorrowError, BorrowMutError, GenerationalBox,
    Owner, SyncStorage, ValueDroppedError,
};

verus! {

/// `generational_box::GenerationalBox`: a copyable handle to a value that an
/// owner keeps alive.
#[verifier::external_type_specification]
#[verifier::external_body]
#[verifier::reject_recursive_types(T)]
#[verifier::reject_recursive_types(S)]
pub struct ExGenerationalBox<T, S: 'static>(GenerationalBox<T, S>);

/// `generational_box::SyncStorage`: the storage behind boxes that may be
/// shared between threads.
#[verifier::external_type_specification]
#[verifier::external_body]
pub struct ExSyncStorage(SyncStorage);

/// `generational_box::ValueDroppedError`.
#[verifier::external_type_specification]
#[verifier::external_body]
pub struct ExValueDroppedError(ValueDroppedError);

/// `generational_box::AlreadyBorrowedMutError`.
#[verifier::external_type_specification]
#[verifier::external_body]
pub struct ExAlreadyBorrowedMutError(AlreadyBorrowedMutError);

/// `generational_box::AlreadyBorrowedError`.
#[verifier::external_type_specification]
#[verifier::external_body]
pub struct ExAlreadyBorrowedError(AlreadyBorrowedError);

/// `generational_box::BorrowError`: why a box could not be read.
#[verifier::external_type_specification]
pub struct ExBorrowError(BorrowError);

/// `generational_box::BorrowMutError`: why a box could not be written.
#[verifier::external_type_specification]
pub struct ExBorrowMutError(BorrowMutError);

/// A `generational_box::Owner` over `SyncStorage`. Every box that was made
/// through it is released when this value is dropped. `Owner` is bounded by
/// a trait of the outside crate, so the type itself cannot be declared; it
/// is held here instead.
#[verifier::external_body]
pub struct ArenaOwner {
    owner: Owner<SyncStorage>,
}

/// `Owner::default`, which for `SyncStorage` is `SyncStorage::owner`: an owner
/// that has handed out no box yet.
#[verifier::external_body]
pub(crate) fn new_owner() -> (owner: ArenaOwner) {
    ArenaOwner { owner: Owner::default() }
}

/// `Owner::insert`: moves `value` into a box that lives as long as `owner`.
#[verifier::external_body]
pub(crate) fn insert_value<T: Send + Sync + 'static>(owner: &ArenaOwner, value: T) -> (slot:
    GenerationalBox<T, SyncStorage>) {
    owner.owner.insert(value)
}

/// `GenerationalBox::try_read`, followed by a clone of what the guard points
/// to. The guard is released before the function returns. Which value comes
/// back, and whether one does, depends on what was written to the box and on
/// whether its owner still exists. `SyncStorage` waits for a writer to
/// finish; no guard outlives a call of this file, so within one thread there
/// is none to wait for, as long as cloning a value does not reach for the
/// same box.
#[verifier::external_body]
pub(crate) fn read_value<T: Clone + Send + Sync + 'static>(
    slot: &GenerationalBox<T, SyncStorage>,
) -> (outcome: Result<T, BorrowError>) {
    match slot.try_read() {
        Ok(guard) => Ok((*guard).clone()),
        Err(e) => Err(e),
    }
}

/// `GenerationalBox::try_write`, followed by an assignment through the guard,
/// which drops the value that was there. The guard is released before the
/// function returns. Whether the write happens depends on whether the owner
/// of the box still exists. `SyncStorage` waits for readers and writers to
/// finish; no guard outlives a call of this file, so within one thread there
/// is none to wait for, as long as dropping a value does not reach for the
/// same box.
#[verifier::external_body]
pub(crate) fn write_value<T: Send + Sync + 'static>(
    slot: &GenerationalBox<T, SyncStorage>,
    value: T,
) -> (outcome: Result<(), BorrowMutError>) {
    match slot.try_write() {
        Ok(mut guard) => {
            *guard = value;
            Ok(())
        },
        Err(e) => Err(e),
    }
}

} // verus!
