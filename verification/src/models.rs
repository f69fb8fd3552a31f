//! The score that a shared result stands for.

use vstd::prelude::*;

verus! {

/// How exactly a puzzle was solved.
#[derive(Clone, Copy, Debug, PartialEq, Eq, Structural)]
pub enum AkariPrecisionScore {
    /// Solved without a mistake.
    Perfect,
    /// Solved in part: the share that was right, in percent.
    ImperfectWithPercentage(i64),
    /// The shared text names no precision.
    NotAvailable,
}

/// The score of one shared result.
#[derive(Clone, Copy, Debug, PartialEq, Eq, Structural)]
pub struct AkariScore {
    pub precision: AkariPrecisionScore,
    /// The time the solve took, in seconds.
    pub time_sec: i64,
}

impl AkariScore {
    /// The time is not negative and a percentage lies between 0 and 100.
    pub open spec fn wf(self) -> bool {
        &&& self.time_sec >= 0
        &&& match self.precision {
            AkariPrecisionScore::ImperfectWithPercentage(p) => 0 <= p <= 100,
            _ => true,
        }
    }
}

} // verus!
