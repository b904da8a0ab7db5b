//! A code-breaking game engine: a hidden sequence of coloured pegs is drawn,
//! guesses are scored by exact and colour-only matches, and a session runs
//! games back to back until the code is found or the tries run out.

pub mod colour;
pub mod error;
pub mod generator;
pub mod scoring;
pub mod session;
