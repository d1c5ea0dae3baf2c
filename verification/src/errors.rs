//! The error taxonomy of identifier derivation. Each variant names the
//! stage that failed and carries the offending values, so callers can
//! report which operation went wrong on which input.

use vstd::prelude::*;

verus! {

/// Everything that can go wrong while deriving an identifier.
#[derive(Debug)]
pub enum IdError {
    /// The metadata source handed back `count` records instead of exactly one.
    AmbiguousRecords { count: usize },
    /// The primary date-time field matches no accepted form; `raw` is its text.
    UnparseableDate { raw: Vec<u8> },
    /// The auxiliary offset field chosen for reconstruction matches no
    /// accepted form; `raw` is its text.
    UnparseableOffset { raw: Vec<u8> },
    /// A sensor buffer whose length is not row pitch times row count.
    RawSizeMismatch { expected: u64, actual: usize },
    /// The resolved instant lies before 1970-01-01T00:00:00Z.
    BeforeEpoch,
}

} // verus!
