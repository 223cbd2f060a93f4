//! What a check of a candidate guess reports.

use vstd::prelude::*;

verus! {

/// One constraint that a candidate guess breaks.
#[derive(Clone, Copy, Debug, PartialEq, Eq, Structural)]
pub enum Violation {
    /// The position holds a known letter, and the candidate has another one there.
    FixedMismatch { position: usize, expected: char, found: char },
    /// The letter is known to occur nowhere in the solution.
    MustBeAbsent { position: usize, letter: char },
    /// The letter is known not to stand at this position.
    RuledOut { position: usize, letter: char },
}

/// Why a candidate guess was not accepted.
#[derive(Debug, PartialEq, Eq)]
pub enum CheckError {
    /// No feedback has been recorded yet.
    NoInformationYet,
    /// The candidate does not have the word length.
    LengthMismatch { expected: usize },
    /// Every constraint that the candidate breaks, in the order found.
    Violations(Vec<Violation>),
}

/// The mathematical value of a [`CheckError`].
pub enum CheckFailure {
    NoInformationYet,
    LengthMismatch(nat),
    Violations(Seq<Violation>),
}

impl View for CheckError {
    type V = CheckFailure;

    open spec fn view(&self) -> CheckFailure {
        match self {
            CheckError::NoInformationYet => CheckFailure::NoInformationYet,
            CheckError::LengthMismatch { expected } => CheckFailure::LengthMismatch(*expected as nat),
            CheckError::Violations(v) => CheckFailure::Violations(v@),
        }
    }
}

/// The mathematical value of the result of a check.
pub open spec fn outcome_view(r: Result<(), CheckError>) -> Result<(), CheckFailure> {
    match r {
        Ok(()) => Ok(()),
        Err(e) => Err(e@),
    }
}

} // verus!
