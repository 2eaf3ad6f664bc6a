//! Grading of a poor discard by the expected value it loses.
use vstd::prelude::*;

verus! {

/// How bad a discard was.
#[derive(Debug, Clone, Copy, PartialEq, Eq, Structural)]
pub enum BlunderSeverity {
    /// A small loss (150 to under 400 points).
    Inaccuracy,
    /// A clear loss (400 to under 1000 points).
    Mistake,
    /// A heavy loss (1000 points or more).
    Blunder,
}

/// The label of a severity, in Japanese.
pub open spec fn severity_label(s: BlunderSeverity) -> Seq<char> {
    match s {
        BlunderSeverity::Inaccuracy => "疑問手"@,
        BlunderSeverity::Mistake => "悪手"@,
        BlunderSeverity::Blunder => "大悪手"@,
    }
}

impl BlunderSeverity {
    /// The label of the severity, in Japanese.
    pub fn label_ja(&self) -> (s: &'static str)
        ensures
            s@ == severity_label(*self),
    {
        match self {
            BlunderSeverity::Inaccuracy => "疑問手",
            BlunderSeverity::Mistake => "悪手",
            BlunderSeverity::Blunder => "大悪手",
        }
    }
}

} // verus!
