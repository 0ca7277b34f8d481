//! Replacement of the section of a text that runs from a start pattern
//! through an end pattern.

pub mod validation;
pub mod result;
pub mod process;
