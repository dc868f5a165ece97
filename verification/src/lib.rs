//! A markdown tokenizer: a state machine that reads the text one code at a
//! time, goes back to a checkpoint where an attempt fails, and turns the
//! text into a well nested sequence of enter and exit events. What a
//! construct sets aside as a chunk is tokenized again, in a second pass,
//! under the content type of the chunk.
//!
//! *   [`token`]: token kinds, events, and what it is for events to be well
//!     nested.
//! *   [`tokenizer`]: the cursor, the events, checkpoints, and the
//!     trampoline: [`tokenizer::Tokenizer::run`] and the three ways to chain
//!     a run, `attempt`, `attempt_opt` and `go`.
//! *   [`state`]: the names of the states. [`state::step`] says what one
//!     state function does, [`state::run_end`] where the run from a state
//!     ends, and [`state::outcome`] what a run amounts to, in the terms of
//!     the grammar.
//! *   [`construct`]: the constructs, each with what it matches and with
//!     its state functions.
//! *   [`content`]: the content types, with the constructs that each tries
//!     line by line.
//! *   [`subtokenize`]: the second pass.
//! *   [`parser`]: from text to events.
//!
//! Every state function is proved to keep to [`state::transition`]. From
//! that the trampoline is proved to end on every text, to nest runs no
//! deeper than the levels of the states allow, to leave the events well
//! nested, and to end as the grammar says.

pub mod constant;
pub mod construct;
pub mod content;
pub mod parser;
pub mod state;
pub mod subtokenize;
pub mod token;
pub mod tokenizer;
