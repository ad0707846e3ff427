use vstd::prelude::*;

verus! {

/// Every reason for which decoding, publishing or evaluating can fail.
#[derive(Clone, Copy, Debug, PartialEq, Eq, Structural)]
pub enum RuleSetError {
    /// A rule node's kind is unknown, or its declared length does not match its contents.
    MalformedHeader,
    /// Fewer bytes remain than a header or a length asks for.
    TruncatedBuffer,
    /// Offset arithmetic left the range of the buffer's address space.
    NumericalOverflow,
    /// The record does not carry the rule-set discriminant.
    KeyMismatch,
    /// The revision index has a version this library does not read.
    IncompatibleRevisionMap,
    /// The requested revision was never published.
    RevisionNotFound,
    /// The storage record is too small for the revision being published.
    BufferTooSmall,
    /// An input list is empty, or a referenced record holds no data.
    DataIsEmpty,
    /// The rule set has no rule for the operation.
    OperationNotFound,
    /// The payload has no value under a key that a rule reads.
    MissingPayloadField,
    /// The payload value under a key has the wrong type for the rule.
    InvalidPayloadType,
    /// An amount comparison did not hold.
    AmountCheckFailed,
    /// No referenced record is owned by a program of the allow-list.
    ProgramOwnedListCheckFailed,
    /// The rule kind is recognised but its check is not implemented.
    NotImplemented,
    /// No auxiliary record was supplied for a key that a rule reads.
    MissingAccount,
}

impl RuleSetError {
    /// The stable number under which the failure is reported to callers.
    pub open spec fn spec_code(self) -> u32 {
        match self {
            RuleSetError::MalformedHeader => 0,
            RuleSetError::TruncatedBuffer => 1,
            RuleSetError::NumericalOverflow => 2,
            RuleSetError::KeyMismatch => 3,
            RuleSetError::IncompatibleRevisionMap => 4,
            RuleSetError::RevisionNotFound => 5,
            RuleSetError::BufferTooSmall => 6,
            RuleSetError::DataIsEmpty => 7,
            RuleSetError::OperationNotFound => 8,
            RuleSetError::MissingPayloadField => 9,
            RuleSetError::InvalidPayloadType => 10,
            RuleSetError::AmountCheckFailed => 11,
            RuleSetError::ProgramOwnedListCheckFailed => 12,
            RuleSetError::NotImplemented => 13,
            RuleSetError::MissingAccount => 14,
        }
    }

    #[verifier::when_used_as_spec(spec_code)]
    pub fn code(self) -> (r: u32)
        ensures
            r == self.spec_code(),
    {
        match self {
            RuleSetError::MalformedHeader => 0,
            RuleSetError::TruncatedBuffer => 1,
            RuleSetError::NumericalOverflow => 2,
            RuleSetError::KeyMismatch => 3,
            RuleSetError::IncompatibleRevisionMap => 4,
            RuleSetError::RevisionNotFound => 5,
            RuleSetError::BufferTooSmall => 6,
            RuleSetError::DataIsEmpty => 7,
            RuleSetError::OperationNotFound => 8,
            RuleSetError::MissingPayloadField => 9,
            RuleSetError::InvalidPayloadType => 10,
            RuleSetError::AmountCheckFailed => 11,
            RuleSetError::ProgramOwnedListCheckFailed => 12,
            RuleSetError::NotImplemented => 13,
            RuleSetError::MissingAccount => 14,
        }
    }
}

} // verus!
