//! Constants of the grammar.

use vstd::prelude::*;

verus! {

/// Number of columns between two tab stops, and the number of columns of
/// indentation that starts code (indented).
pub const TAB_SIZE: usize = 4;

/// Horizontal tab.
pub const TAB: u8 = 9;

/// Line feed.
pub const LINE_FEED: u8 = 10;

/// Carriage return.
pub const CARRIAGE_RETURN: u8 = 13;

/// Space.
pub const SPACE: u8 = 32;

/// Double quote.
pub const QUOTATION_MARK: u8 = 34;

/// Single quote.
pub const APOSTROPHE: u8 = 39;

/// Opening parenthesis.
pub const LEFT_PARENTHESIS: u8 = 40;

/// Closing parenthesis.
pub const RIGHT_PARENTHESIS: u8 = 41;

/// Backslash.
pub const BACKSLASH: u8 = 92;

} // verus!
