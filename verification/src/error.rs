//! What can be wrong with the fields of a task.

use vstd::prelude::*;

verus! {

/// Why a task could not be made from the fields given.
#[derive(Debug, Clone)]
pub enum ValidationError {
    /// The difficulty rating lies outside `0..=10`.
    DifficultyOutOfRange,
    /// The deadline expression, held here as it was given, names no date.
    InvalidDeadline(String),
    /// The title has no character.
    EmptyTitle,
}

impl ValidationError {
    /// A sentence for the user. For a deadline it shows the expression
    /// and names an example of each form that is understood.
    pub fn message(&self) -> (text: String)
        ensures
            match self {
                ValidationError::DifficultyOutOfRange => text@
                    == "Difficulty value out of range. The value should be between 0 and 10."@,
                ValidationError::InvalidDeadline(input) => text@ == "Invalid deadline format: "@
                    + input@
                    + ". Use: today, tomorrow, monday, 2weeks, eow, +5d, 2026-02-10, etc."@,
                ValidationError::EmptyTitle => text@ == "A task needs a title."@,
            },
    {
        match self {
            ValidationError::DifficultyOutOfRange => {
                "Difficulty value out of range. The value should be between 0 and 10.".to_owned()
            },
            ValidationError::InvalidDeadline(input) => {
                let mut text = "Invalid deadline format: ".to_owned();
                text.append(input.as_str());
                text.append(". Use: today, tomorrow, monday, 2weeks, eow, +5d, 2026-02-10, etc.");
                text
            },
            ValidationError::EmptyTitle => "A task needs a title.".to_owned(),
        }
    }
}

} // verus!
