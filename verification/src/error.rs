//! The status that the reclamation engine reports.
use vstd::prelude::*;

verus! {

/// Outcome of an operation of `HazardEpoch`.
#[derive(PartialEq, Eq, Structural, Copy, Clone, Debug)]
pub enum Status {
    /// The operation was carried out.
    Success,
    /// The thread already holds a version handle.
    Busy,
    /// The thread's number is not below the number of thread stores.
    ThreadNumOverflow,
    /// No node was given.
    InvalidParam,
}

impl Status {
    /// The variant's name, as it is printed.
    pub open spec fn name(self) -> Seq<char> {
        match self {
            Status::Success => "Success"@,
            Status::Busy => "Busy"@,
            Status::ThreadNumOverflow => "ThreadNumOverflow"@,
            Status::InvalidParam => "InvalidParam"@,
        }
    }

    /// The variant's name as an owned string.
    pub fn to_string(&self) -> (s: String)
        ensures
            s@ == self.name(),
    {
        match self {
            Status::Success => "Success".to_owned(),
            Status::Busy => "Busy".to_owned(),
            Status::ThreadNumOverflow => "ThreadNumOverflow".to_owned(),
            Status::InvalidParam => "InvalidParam".to_owned(),
        }
    }
}

} // verus!
