//! How urgent a notification to a watched user is; the delivery mechanism
//! itself lives with the desktop environment.

use vstd::prelude::*;

verus! {

/// The urgency of a desktop notification.
#[derive(PartialEq, Eq, Structural, Debug, Clone, Copy)]
pub enum Urgency {
    Low,
    Significant,
    Critical,
}

impl Urgency {
    /// The urgency level as desktop notification tooling names it.
    pub fn label(&self) -> (r: &'static str)
        ensures
            self is Low ==> r@ == "low"@,
            self is Significant ==> r@ == "normal"@,
            self is Critical ==> r@ == "critical"@,
    {
        match self {
            Urgency::Low => "low",
            Urgency::Significant => "normal",
            Urgency::Critical => "critical",
        }
    }
}

} // verus!
