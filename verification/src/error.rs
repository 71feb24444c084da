//! The vocabulary for reporting diagnostics.
//!
//! The parsers in this crate never report anything themselves. They return
//! structured errors tagged with a [`Span`], and the caller renders them
//! through an [`ErrorHandler`].

use crate::sourcepos::Span;
use core::cmp::Ordering;
use vstd::prelude::*;
use vstd::std_specs::cmp::PartialOrdSpecImpl;

verus! {

/// A sink for the diagnostics produced while parsing or evaluating a source.
pub trait ErrorHandler {
    /// Receives one message about the text at `pos`.
    fn handle(&mut self, pos: Span, message: &str);
}

/// How serious a diagnostic is. A warning is less severe than an error.
#[derive(Debug, Clone, Copy, PartialEq, Eq, Ord, Structural)]
pub enum Severity {
    Warning,
    Error,
}

impl Severity {
    /// The place of the severity in the order: 0 for a warning, 1 for an error.
    pub open spec fn rank(self) -> int {
        match self {
            Severity::Warning => 0,
            Severity::Error => 1,
        }
    }

    /// The lower-case name of the severity.
    pub open spec fn name(self) -> Seq<char> {
        match self {
            Severity::Warning => "warning"@,
            Severity::Error => "error"@,
        }
    }

    /// The name under which the severity is shown to the user.
    pub fn to_string(&self) -> (s: String)
        ensures
            s@ == self.name(),
    {
        match self {
            Severity::Warning => "warning".to_owned(),
            Severity::Error => "error".to_owned(),
        }
    }
}

impl PartialOrd for Severity {
    fn partial_cmp(&self, other: &Self) -> (r: Option<Ordering>) {
        match (self, other) {
            (Severity::Warning, Severity::Error) => Some(Ordering::Less),
            (Severity::Error, Severity::Warning) => Some(Ordering::Greater),
            _ => Some(Ordering::Equal),
        }
    }
}

impl PartialOrdSpecImpl for Severity {
    open spec fn obeys_partial_cmp_spec() -> bool {
        true
    }

    open spec fn partial_cmp_spec(&self, other: &Self) -> Option<Ordering> {
        if self.rank() < other.rank() {
            Some(Ordering::Less)
        } else if self.rank() > other.rank() {
            Some(Ordering::Greater)
        } else {
            Some(Ordering::Equal)
        }
    }
}

/// Marks a failure that has already been reported to the user.
#[derive(Debug, Clone, Copy, PartialEq, Eq, Structural)]
pub struct Failed;

} // verus!
