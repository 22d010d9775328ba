//! Errors that the library reports.
use vstd::prelude::*;

verus! {

/// The errors any component in the library can report.
#[derive(Clone, Copy, Debug, PartialEq, Eq)]
pub enum Error {
    /// An identifier was declared again with another type.
    IdentifierRedeclaration,
    /// An n-ary operator was given fewer than two arguments.
    IncompleteArgs,
    /// A sample was pushed to a signal that is not sampled.
    InvalidPushToSignal,
    /// A sample was pushed at a time point that is not after the signal's end time.
    NonMonotonicSignal {
        /// The time of the last sample in the signal.
        end_time: u64,
        /// The time of the sample that was refused.
        current_sample: u64,
    },
    /// An operation was applied to values of the wrong type.
    InvalidOperation,
    /// The named signal is not in the trace.
    SignalNotPresent,
    /// The signal in the trace has another type.
    InvalidSignalType,
    /// A temporal operator was given an empty or singleton interval.
    InvalidInterval,
}

/// A result whose error is an [`Error`].
pub type ArgusResult<T> = Result<T, Error>;

} // verus!
