//! Error type shared by the crate.

use vstd::prelude::*;

verus! {

/// Errors produced by this crate.
#[derive(Debug, Clone)]
pub enum Error {
    /// A record's declared payload was shorter than its type requires.
    TruncatedRecord,
    /// A trailing string field of a record was not valid text.
    ParseUtf8,
    /// A metric formula failed to parse; the field is the byte offset of the
    /// first token that could not be consumed.
    ParseMetricExpr,
    /// A numeric field of an event description failed to parse.
    ParseInt,
    /// A metric evaluation divided by a zero denominator.
    DivisionByZero,
    /// A metric formula referenced an event absent from the supplied lookup.
    UnresolvedEvent(String),
    /// A metric evaluation left the representable fixed-width range.
    ArithmeticOverflow,
    /// A name search was given an invalid regular expression.
    InvalidRegex,
    /// An expression shape that only the formula parser may produce internally
    /// was evaluated on its own.
    InvalidExpression,
    /// The kernel has not granted the requested access mode.
    KernelCapabilityError,
    /// The supplied control-page observations ended before any pass of the
    /// sequence-lock protocol was consistent.
    InconsistentRead,
    /// An event description held none of the recognised name keys.
    ParseEvent,
    /// A buffer geometry request was rejected.
    InvalidBufferSize,
    /// A requested feature is not implemented.
    NotImplemented,
}

/// Result type used in this crate.
pub type Result<T> = core::result::Result<T, Error>;

} // verus!
