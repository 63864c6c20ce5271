//! The ways in which entering the mode, starting a round and selecting an
//! answer can fail.

use vstd::prelude::*;

verus! {

/// Why an operation of the library was refused.
#[derive(Clone, Copy, Debug, PartialEq, Eq, Structural)]
pub enum VsError {
    /// Fewer than two models were named.
    InvalidArity,
    /// A name stands for no model of the catalog.
    UnknownResponder,
    /// No comparison set is active.
    ModeInactive,
    /// Every model of the round failed, so there is nothing to select.
    NoSelectableResults,
    /// The operator's input is no number of the menu.
    InvalidSelection,
}

impl VsError {
    /// The sentence that tells the operator about the error.
    pub open spec fn message_spec(self) -> Seq<char> {
        match self {
            VsError::InvalidArity => "VS mode requires at least 2 models"@,
            VsError::UnknownResponder => "Unknown chat model"@,
            VsError::ModeInactive => "Not in VS mode"@,
            VsError::NoSelectableResults => "No valid responses to select from"@,
            VsError::InvalidSelection => "Invalid selection"@,
        }
    }

    /// The sentence that tells the operator about the error.
    pub fn message(&self) -> (text: &'static str)
        ensures
            text@ == self.message_spec(),
    {
        match self {
            VsError::InvalidArity => "VS mode requires at least 2 models",
            VsError::UnknownResponder => "Unknown chat model",
            VsError::ModeInactive => "Not in VS mode",
            VsError::NoSelectableResults => "No valid responses to select from",
            VsError::InvalidSelection => "Invalid selection",
        }
    }
}

} // verus!
