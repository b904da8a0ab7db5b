use vstd::prelude::*;

verus! {

/// What can go wrong while feeding a session.
#[derive(Clone, Copy, Debug, PartialEq, Eq, Structural)]
pub enum GameError {
    /// A token to parse held no character at all.
    EmptyInput,
    /// A character that is no colour's initial letter, in ASCII lower case.
    InvalidColour(char),
    /// A guess repeats a colour while duplicates are disallowed.
    DuplicateNotAllowed,
}

} // verus!
