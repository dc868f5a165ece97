//! A blank line: spaces and tabs, if any, up to a line ending or the end
//! of the text.
//!
//! ```bnf
//! blank_line ::= *( ' ' | '\t' )
//! ```

use vstd::prelude::*;
use crate::construct::partial_space_or_tab;
use crate::state::{transition, State, StateName};
use crate::tokenizer::{Code, Tokenizer, TokenizerView};

verus! {

/// The end of a blank line: a line ending or the end of the text is at the
/// cursor, and what follows the line interrupts no paragraph.
pub open spec fn blank_line_end(v: TokenizerView) -> Option<TokenizerView> {
    if v.code() is Char {
        None
    } else {
        Some(v.with_interrupt(false))
    }
}

/// A blank line: the spaces and tabs at the cursor, in one span, and
/// after them a line ending or the end of the text.
pub open spec fn blank_line(v: TokenizerView) -> Option<TokenizerView> {
    blank_line_end(partial_space_or_tab::run_opt(v))
}

/// What the state functions of this construct do on `v`.
pub open spec fn step(name: StateName, v: TokenizerView) -> (State, TokenizerView) {
    match name {
        StateName::BlankLineStart => (
            State::Next(StateName::BlankLineAfter),
            partial_space_or_tab::run_opt(v),
        ),
        StateName::BlankLineAfter => if v.code() is Char {
            (State::Nok, v)
        } else {
            (State::Okay, v.with_interrupt(false))
        },
        _ => (State::Nok, v),
    }
}

/// At the start of a line that may be blank.
///
/// ```markdown
/// > | ␠␠␊
///     ^
/// ```
pub fn start(tokenizer: &mut Tokenizer) -> (state: State)
    requires
        old(tokenizer)@.wf(),
        old(tokenizer)@.expects(StateName::BlankLineStart),
    ensures
        transition(StateName::BlankLineStart, old(tokenizer)@, final(tokenizer)@, state),
    decreases 1int, 0int, 2int, 0int,
{
    let ghost base = tokenizer@.open();
    let name = partial_space_or_tab::space_or_tab();
    assert(tokenizer@.base(StateName::BlankLineStart) =~= base);
    assert(tokenizer@.base(name) =~= base);
    proof {
        partial_space_or_tab::lemma_run_forward(tokenizer@, 1, usize::MAX as int);
    }
    let state = tokenizer.attempt_opt(name, StateName::BlankLineAfter);
    assert(tokenizer@.base(StateName::BlankLineAfter) =~= base);
    state
}

/// After the spaces and tabs.
///
/// ```markdown
/// > | ␠␠␊
///       ^
/// ```
pub fn after(tokenizer: &mut Tokenizer) -> (state: State)
    requires
        old(tokenizer)@.wf(),
        old(tokenizer)@.expects(StateName::BlankLineAfter),
    ensures
        transition(StateName::BlankLineAfter, old(tokenizer)@, final(tokenizer)@, state),
    decreases 0int, 0int, 0int, 0int,
{
    assert(tokenizer@.base(StateName::BlankLineAfter) =~= tokenizer@.open());
    match tokenizer.current() {
        Code::Char(_) => State::Nok,
        _ => {
            // A blank line ends a paragraph.
            tokenizer.interrupt = false;
            State::Okay
        },
    }
}

} // verus!
