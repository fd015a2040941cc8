//! Why solutions fail, and what is reported of a solution's outcomes.
use vstd::prelude::*;

verus! {

/// Reasons why a solution failed.
#[derive(Debug, PartialEq, Eq)]
pub enum SolutionFailReason {
    /// Constraint check failed.
    ConstraintsFailed(String),
    /// Not composable with other solutions to build a batch.
    NotComposable,
}

/// Outcome of a solution check.
#[derive(Debug, PartialEq, Eq)]
pub enum CheckOutcome {
    /// The solution was successful in this block.
    Success(u64),
    /// The solution failed.
    Fail(SolutionFailReason),
}

/// The outcome of a solution as reported to clients.
#[derive(Debug, PartialEq, Eq)]
pub enum SolutionOutcome {
    /// The solution was part of the block with this number.
    Success(u64),
    /// The solution failed, for the reason given.
    Fail(String),
}

/// The text of a fail reason.
pub open spec fn spec_reason_text(r: SolutionFailReason) -> Seq<char> {
    match r {
        SolutionFailReason::ConstraintsFailed(reason) => "ConstraintsFailed: "@ + reason@,
        SolutionFailReason::NotComposable => "NotComposable"@,
    }
}

impl SolutionFailReason {
    /// The text of the reason: `ConstraintsFailed: ` followed by the
    /// constraint failure, or `NotComposable`.
    pub fn to_string(&self) -> (r: String)
        ensures
            r@ == spec_reason_text(*self),
    {
        match self {
            SolutionFailReason::ConstraintsFailed(reason) => {
                let mut s = String::from_str("ConstraintsFailed: ");
                s.append(reason.as_str());
                s
            },
            SolutionFailReason::NotComposable => String::from_str("NotComposable"),
        }
    }
}

/// The reported form of a check outcome.
pub open spec fn spec_reported(o: CheckOutcome) -> (Option<u64>, Seq<char>) {
    match o {
        CheckOutcome::Success(n) => (Some(n), Seq::empty()),
        CheckOutcome::Fail(r) => (None, spec_reason_text(r)),
    }
}

/// The view of a reported outcome.
pub open spec fn spec_outcome_view(o: SolutionOutcome) -> (Option<u64>, Seq<char>) {
    match o {
        SolutionOutcome::Success(n) => (Some(n), Seq::empty()),
        SolutionOutcome::Fail(s) => (None, s@),
    }
}

/// Reports the outcomes of a solution: each success with its block number,
/// each failure with the text of its reason, in order; a solution that is not
/// known has no outcomes.
pub fn solution_outcome(outcomes: Option<Vec<CheckOutcome>>) -> (r: Vec<SolutionOutcome>)
    ensures
        match outcomes {
            None => r@.len() == 0,
            Some(os) => r@.len() == os@.len() && forall|i: int|
                0 <= i < os@.len() ==> spec_outcome_view(#[trigger] r@[i]) == spec_reported(os@[i]),
        },
{
    let mut out: Vec<SolutionOutcome> = Vec::new();
    match outcomes {
        None => out,
        Some(os) => {
            let mut i: usize = 0;
            while i < os.len()
                invariant
                    i <= os@.len(),
                    out@.len() == i,
                    forall|j: int|
                        0 <= j < i ==> spec_outcome_view(#[trigger] out@[j]) == spec_reported(os@[j]),
                decreases os@.len() - i,
            {
                let o = match &os[i] {
                    CheckOutcome::Success(n) => SolutionOutcome::Success(*n),
                    CheckOutcome::Fail(f) => SolutionOutcome::Fail(f.to_string()),
                };
                out.push(o);
                i = i + 1;
            }
            out
        },
    }
}

} // verus!
