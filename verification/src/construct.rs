//! Constructs: the rules of the grammar, each a small state machine.

pub mod blank_line;
pub mod code_indented;
pub mod partial_space_or_tab;
pub mod partial_title;
