//! Safe memory reclamation by hazard epochs, with its contracts.
//!
//! A reader pins the current epoch before it looks at a shared object and
//! unpins it afterwards; a writer that replaces an object hands the old one
//! over with the epoch at which it did so. An object is destroyed only once
//! its epoch is at or below every pinned epoch.
//!
//! Every operation takes the engine by `&mut`, so what is stated and proved
//! here is the behaviour of the operations one after another, whichever
//! threads they are made for. A thread is known by its number, which the
//! caller hands in. An operation that reads the clock has a twin that is
//! given the time instead, with a contract that says exactly what it does;
//! of the operation itself the contract says that it does this for some
//! time.
//!
//! The contracts speak of `HazardEpochView`, the engine as plain values.
//! What follows from them for every run is proved in `guarantees` and
//! `conservation`.
pub mod conservation;
pub mod error;
pub mod guarantees;
pub mod hazard_epoch;
pub mod hazard_pointer;
pub mod lockfree_queue;
pub mod lockfree_stack;
pub mod spin_lock;
pub mod spin_rwlock;
pub mod util;
