//! Code (indented) is a construct of the flow content type.
//!
//! ```bnf
//! code_indented ::= indented_filled_line *( eol *( blank_line eol ) indented_filled_line )
//!
//! ; Restriction: at least one `code` must not be a space or a tab.
//! indented_filled_line ::= 4space_or_tab *code
//! blank_line ::= *space_or_tab
//! eol ::= '\r' | '\r\n' | '\n'
//! code ::= . ; any byte but those of line endings
//! space_or_tab ::= ' ' | '\t'
//! ```
//!
//! ## Tokens
//!
//! *   [`CodeIndented`][Token::CodeIndented]
//! *   [`CodeFlowChunk`][Token::CodeFlowChunk]
//! *   [`LineEnding`][Token::LineEnding]
//! *   [`SpaceOrTab`][Token::SpaceOrTab]

use vstd::prelude::*;
use crate::constant::{SPACE, TAB, TAB_SIZE};
use crate::construct::partial_space_or_tab;
use crate::construct::partial_space_or_tab::{space_or_tab, space_or_tab_min_max};
use crate::state::{lemma_expects, transition, State, StateName};
use crate::token::{balanced, extends, lemma_nesting_on_nothing, Boundary, Event, Token};
use crate::tokenizer::{
    is_eol,
    lemma_adds_enter,
    lemma_adds_exit,
    lemma_adds_nothing,
    lemma_nesting_push,
    Code,
    Tokenizer,
    TokenizerView,
};

verus! {

/// The tokenizer once the cursor has passed the rest of the line: every
/// code up to a line ending or the end of the text.
pub open spec fn line_rest(v: TokenizerView) -> TokenizerView
    decreases v.remaining(),
{
    if v.code() is Char {
        line_rest(v.consume())
    } else {
        v
    }
}

/// The tokenizer once the block is closed at the cursor: its span is
/// exited, and what follows may interrupt again.
pub open spec fn close(v: TokenizerView) -> TokenizerView {
    v.exit(Token::CodeIndented).with_interrupt(false)
}

/// Whether the line is filled from the cursor on: after the spaces and
/// tabs at the cursor, if any, stands something that is no line ending.
pub open spec fn filled_from(v: TokenizerView) -> bool
    decreases v.remaining(),
{
    if v.at_space_or_tab() {
        filled_from(v.consume())
    } else {
        v.code() is Char
    }
}

/// The rest of a line of spaces and tabs only, from the cursor, which is
/// in the chunk of that line: the chunk is closed where the line ends. `None`
/// where the line is filled.
pub open spec fn blank_chunk_rest(v: TokenizerView) -> Option<TokenizerView>
    decreases v.remaining(),
{
    if v.at_space_or_tab() {
        blank_chunk_rest(v.consume())
    } else if v.code() is Char {
        None
    } else {
        Some(v.exit(Token::CodeFlowChunk))
    }
}

/// The rest of a line of spaces and tabs only, from the cursor, as one
/// chunk. `None` where the line is filled.
pub open spec fn blank_chunk(v: TokenizerView) -> Option<TokenizerView> {
    blank_chunk_rest(v.enter(Token::CodeFlowChunk))
}

/// From the cursor to the text of the next line of the block, which is the
/// next filled line with four columns of indentation or more, where only
/// blank lines stand before it. Each line ending on the way is a span of its
/// own; of a blank line the first four columns, or all where they are fewer,
/// are one span, and what is left of it is one chunk; the four columns of
/// indentation of the line that is reached are one span. `None` where the
/// text ends before a filled line is reached, where the filled line that is
/// reached has fewer than four columns of indentation, and on a lazy line.
pub open spec fn next_line(v: TokenizerView) -> Option<TokenizerView>
    decreases v.remaining(), StateName::CodeIndentedFurtherStart.rank(v.code()),
{
    if v.lazy {
        None
    } else if v.code() is LineEnding {
        next_line(v.enter(Token::LineEnding).consume().exit(Token::LineEnding))
    } else {
        match partial_space_or_tab::run(v, TAB_SIZE as int, TAB_SIZE as int) {
            Some(indented) => {
                proof {
                    partial_space_or_tab::lemma_run_forward(v, TAB_SIZE as int, TAB_SIZE as int);
                }
                next_line_indented(indented)
            },
            None => next_line_past_blank(v),
        }
    }
}

/// As [`next_line`], after four columns of indentation: where the line is
/// filled it is the line looked for; where it is blank the search goes on
/// after it; where the text ends there is no such line.
pub open spec fn next_line_indented(v: TokenizerView) -> Option<TokenizerView>
    decreases v.remaining(), StateName::CodeIndentedFurtherEnd.rank(v.code()),
{
    if v.code() is Eof {
        None
    } else if v.code() is LineEnding {
        next_line(v)
    } else if v.at_space_or_tab() {
        match blank_chunk(v) {
            Some(blank) => {
                proof {
                    lemma_blank_chunk_forward(v.enter(Token::CodeFlowChunk));
                }
                next_line(blank)
            },
            None => Some(v),
        }
    } else {
        Some(v)
    }
}

/// As [`next_line`], from the start of a line that is not indented enough to
/// belong to the block: the line must be blank.
pub open spec fn next_line_past_blank(v: TokenizerView) -> Option<TokenizerView>
    decreases v.remaining(), StateName::CodeIndentedFurtherBegin.rank(v.code()),
{
    proof {
        partial_space_or_tab::lemma_run_forward(v, 1, usize::MAX as int);
    }
    next_line_past_spaces(partial_space_or_tab::run_opt(v))
}

/// As [`next_line`], after the spaces and tabs of a line that is not indented
/// enough: a line ending must follow.
pub open spec fn next_line_past_spaces(v: TokenizerView) -> Option<TokenizerView>
    decreases v.remaining(), StateName::CodeIndentedFurtherAfter.rank(v.code()),
{
    if v.code() is LineEnding {
        next_line(v)
    } else {
        None
    }
}

/// The rest of the block from the cursor, which is after the indentation of
/// a line or at the end of one: the text of each line is one chunk, the block
/// goes on over line endings as long as [`next_line`] finds a next line, and it
/// is closed at the end of the last line that it found.
pub open spec fn block_rest(v: TokenizerView) -> TokenizerView
    decreases v.remaining(), StateName::CodeIndentedAtBreak.rank(v.code()),
{
    match v.code() {
        Code::Eof => close(v),
        Code::LineEnding => match next_line(v) {
            Some(next) => {
                proof {
                    lemma_next_line_advances(v);
                }
                block_rest(next)
            },
            None => close(v),
        },
        Code::Char(_) => chunk_rest(v.enter(Token::CodeFlowChunk)),
    }
}

/// The rest of the block from the cursor, which is in the text of a line.
pub open spec fn chunk_rest(v: TokenizerView) -> TokenizerView
    decreases v.remaining(), StateName::CodeIndentedInside.rank(v.code()),
{
    if v.code() is Char {
        chunk_rest(v.consume())
    } else {
        block_rest(v.exit(Token::CodeFlowChunk))
    }
}

/// Code (indented) from the cursor: the span of the block is entered, four
/// columns of spaces and tabs are one span, and [`block_rest`] follows. `None`
/// where the block would interrupt a paragraph, where the construct is
/// turned off, and where fewer than four columns of spaces and tabs are at
/// the cursor.
pub open spec fn code_indented(v: TokenizerView) -> Option<TokenizerView> {
    if !v.interrupt && v.constructs.code_indented {
        match partial_space_or_tab::run(
            v.enter(Token::CodeIndented),
            TAB_SIZE as int,
            TAB_SIZE as int,
        ) {
            Some(indented) => Some(block_rest(indented)),
            None => None,
        }
    } else {
        None
    }
}

/// What the state functions of this construct do on `v`.
pub open spec fn step(name: StateName, v: TokenizerView) -> (State, TokenizerView)
    decreases name.rank(v.code()),
{
    match name {
        StateName::CodeIndentedStart => if !v.interrupt && v.constructs.code_indented {
            match partial_space_or_tab::run(
                v.enter(Token::CodeIndented),
                TAB_SIZE as int,
                TAB_SIZE as int,
            ) {
                Some(indented) => (State::Next(StateName::CodeIndentedAtBreak), indented),
                None => (
                    State::Nok,
                    partial_space_or_tab::passed(v.enter(Token::CodeIndented), TAB_SIZE as int),
                ),
            }
        } else {
            (State::Nok, v)
        },
        StateName::CodeIndentedAtBreak => match v.code() {
            Code::Eof => step(StateName::CodeIndentedAfter, v),
            Code::LineEnding => match next_line(v) {
                Some(next) => (State::Next(StateName::CodeIndentedAtBreak), next),
                None => (State::Next(StateName::CodeIndentedAfter), v),
            },
            Code::Char(_) => step(StateName::CodeIndentedInside, v.enter(Token::CodeFlowChunk)),
        },
        StateName::CodeIndentedInside => if v.code() is Char {
            (State::Next(StateName::CodeIndentedInside), v.consume())
        } else {
            step(StateName::CodeIndentedAtBreak, v.exit(Token::CodeFlowChunk))
        },
        StateName::CodeIndentedAfter => (State::Okay, close(v)),
        StateName::CodeIndentedFurtherStart => if v.lazy {
            (State::Nok, v)
        } else if v.code() is LineEnding {
            (
                State::Next(StateName::CodeIndentedFurtherStart),
                v.enter(Token::LineEnding).consume().exit(Token::LineEnding),
            )
        } else {
            match partial_space_or_tab::run(v, TAB_SIZE as int, TAB_SIZE as int) {
                Some(indented) => (State::Next(StateName::CodeIndentedFurtherEnd), indented),
                None => (State::Next(StateName::CodeIndentedFurtherBegin), v),
            }
        },
        StateName::CodeIndentedFurtherEnd => if v.code() is Eof {
            (State::Nok, v)
        } else if v.code() is LineEnding {
            step(StateName::CodeIndentedFurtherStart, v)
        } else if v.at_space_or_tab() {
            match blank_chunk(v) {
                Some(blank) => (State::Next(StateName::CodeIndentedFurtherStart), blank),
                None => (State::Okay, v),
            }
        } else {
            (State::Okay, v)
        },
        StateName::CodeIndentedFurtherBlank => step(
            StateName::CodeIndentedFurtherBlankInside,
            v.enter(Token::CodeFlowChunk),
        ),
        StateName::CodeIndentedFurtherBlankInside => if v.at_space_or_tab() {
            (State::Next(StateName::CodeIndentedFurtherBlankInside), v.consume())
        } else if v.code() is Char {
            (State::Nok, v)
        } else {
            (State::Okay, v.exit(Token::CodeFlowChunk))
        },
        StateName::CodeIndentedFurtherBegin => (
            State::Next(StateName::CodeIndentedFurtherAfter),
            partial_space_or_tab::run_opt(v),
        ),
        StateName::CodeIndentedFurtherAfter => if v.code() is LineEnding {
            step(StateName::CodeIndentedFurtherStart, v)
        } else {
            (State::Nok, v)
        },
        _ => (State::Nok, v),
    }
}

/// What [`next_line`] finds from a line ending lies after that line ending.
pub proof fn lemma_next_line_advances(v: TokenizerView)
    requires
        v.code() is LineEnding,
    ensures
        next_line(v) matches Some(next) ==> 0 <= next.remaining() < v.remaining() && next.end
            == v.end && next.interrupt == v.interrupt,
{
    let after = v.enter(Token::LineEnding).consume().exit(Token::LineEnding);
    lemma_next_line_forward(after);
}

/// A line of spaces and tabs is passed forward, and nothing but the cursor
/// and the events changes.
pub proof fn lemma_blank_chunk_forward(v: TokenizerView)
    ensures
        blank_chunk_rest(v) matches Some(blank) ==> {
            &&& blank.same_context(v)
            &&& blank.interrupt == v.interrupt
            &&& blank.offset >= v.offset
            &&& v.at_space_or_tab() ==> 0 <= blank.remaining() < v.remaining()
            &&& 0 <= v.remaining() ==> 0 <= blank.remaining()
            &&& !(blank.code() is Char)
        },
    decreases v.remaining(),
{
    if v.at_space_or_tab() {
        lemma_blank_chunk_forward(v.consume());
    }
}

/// What [`next_line`] finds does not lie before the cursor.
pub proof fn lemma_next_line_forward(v: TokenizerView)
    requires
        0 <= v.remaining(),
    ensures
        next_line(v) matches Some(next) ==> 0 <= next.remaining() <= v.remaining() && next.end
            == v.end && next.interrupt == v.interrupt,
        next_line_indented(v) matches Some(next) ==> 0 <= next.remaining() <= v.remaining()
            && next.end == v.end && next.interrupt == v.interrupt,
        next_line_past_blank(v) matches Some(next) ==> 0 <= next.remaining() <= v.remaining()
            && next.end == v.end && next.interrupt == v.interrupt,
        next_line_past_spaces(v) matches Some(next) ==> 0 <= next.remaining() <= v.remaining()
            && next.end == v.end && next.interrupt == v.interrupt,
    decreases v.remaining(), StateName::CodeIndentedFurtherStart.rank(v.code()),
{
    if v.code() is LineEnding {
        lemma_next_line_forward(v.enter(Token::LineEnding).consume().exit(Token::LineEnding));
    } else {
        partial_space_or_tab::lemma_run_forward(v, TAB_SIZE as int, TAB_SIZE as int);
        if let Some(indented) = partial_space_or_tab::run(v, TAB_SIZE as int, TAB_SIZE as int) {
            lemma_next_line_indented_forward(indented);
        }
        let after = partial_space_or_tab::run_opt(v);
        if after.code() is LineEnding {
            lemma_next_line_forward(after);
        }
    }
    if v.at_space_or_tab() {
        lemma_blank_chunk_forward(v.enter(Token::CodeFlowChunk));
        if let Some(blank) = blank_chunk(v) {
            lemma_next_line_forward(blank);
        }
    }
}

/// What [`next_line_indented`] finds does not lie before the cursor.
proof fn lemma_next_line_indented_forward(v: TokenizerView)
    requires
        0 <= v.remaining(),
    ensures
        next_line_indented(v) matches Some(next) ==> 0 <= next.remaining() <= v.remaining()
            && next.end == v.end && next.interrupt == v.interrupt,
    decreases v.remaining(), StateName::CodeIndentedFurtherEnd.rank(v.code()),
{
    if v.code() is LineEnding {
        lemma_next_line_forward(v);
    } else if v.at_space_or_tab() {
        lemma_blank_chunk_forward(v.enter(Token::CodeFlowChunk));
        if let Some(blank) = blank_chunk(v) {
            lemma_next_line_forward(blank);
        }
    }
}

/// Four columns of spaces and tabs start a block, and fewer never do,
/// whatever follows them: code (indented) matches at the cursor exactly
/// where it interrupts no paragraph, is turned on, and at least four columns
/// of spaces and tabs stand at the cursor.
pub proof fn lemma_indent_threshold(v: TokenizerView)
    requires
        v.wf(),
    ensures
        code_indented(v) is Some <==> !v.interrupt && v.constructs.code_indented
            && partial_space_or_tab::leading_columns(v) >= TAB_SIZE,
{
    let entered = v.enter(Token::CodeIndented);
    lemma_nesting_push(v.events, entered.events.last());
    partial_space_or_tab::lemma_run(entered, TAB_SIZE as int, TAB_SIZE as int);
    partial_space_or_tab::lemma_same_columns(entered, v, TAB_SIZE as int);
    partial_space_or_tab::lemma_columns_reach(v, TAB_SIZE as int, TAB_SIZE as int);
}

/// Whether the filled, indented line that starts at `line` ends at `end`,
/// in a block that starts at the cursor of `v`: `line` is where the block
/// starts or lies right after a line ending, at least four columns of spaces
/// and tabs stand there, the line is filled, and what stands from after the
/// first four of those columns to `end` is the rest of the line.
pub open spec fn filled_line_ends_at(v: TokenizerView, line: int, end: int) -> bool {
    let start = v.at(
        line,
        if line == v.offset {
            v.column
        } else {
            0
        },
    );
    &&& v.offset <= line <= end
    &&& line == v.offset || is_eol(v.bytes[line - 1])
    &&& partial_space_or_tab::leading_columns(start) >= TAB_SIZE
    &&& filled_from(partial_space_or_tab::skip(start, TAB_SIZE as int))
    &&& line_rest(partial_space_or_tab::skip(start, TAB_SIZE as int)).offset == end
}

/// Whether a block that starts at the cursor of `v` and ends at `end` ends
/// with the line that starts at `line`, and that line is indented and filled:
/// [`filled_line_ends_at`], and the byte at `filled`, which lies in the line,
/// is neither a space nor a tab.
pub open spec fn ends_with_filled_line(v: TokenizerView, line: int, filled: int, end: int) -> bool {
    &&& filled_line_ends_at(v, line, end)
    &&& line <= filled < end
    &&& filled < v.bytes.len()
    &&& v.bytes[filled] != SPACE
    &&& v.bytes[filled] != TAB
}

/// No blank line trails in a block: a block that starts on a filled line
/// ends with a filled line of four columns of indentation or more, at the end
/// of that line. So neither a line ending, nor a line of spaces and tabs
/// only, nor a line with fewer than four columns of indentation is the last
/// thing in it. The result is where the last line starts, and where a byte
/// stands in it that is neither a space nor a tab.
pub proof fn lemma_block_ends_with_filled_line(v: TokenizerView) -> (found: (int, int))
    requires
        v.wf(),
        filled_from(v),
    ensures
        code_indented(v) matches Some(after) ==> ends_with_filled_line(
            v,
            found.0,
            found.1,
            after.offset,
        ),
{
    let entered = v.enter(Token::CodeIndented);
    let start = v.at(v.offset, v.column);
    if code_indented(v) is Some {
        let indented = partial_space_or_tab::run(
            entered,
            TAB_SIZE as int,
            TAB_SIZE as int,
        ).unwrap();
        let spaces = entered.enter(Token::SpaceOrTab);
        let skipped = partial_space_or_tab::skip(start, TAB_SIZE as int);
        partial_space_or_tab::lemma_same_columns(entered, start, TAB_SIZE as int);
        partial_space_or_tab::lemma_columns_reach(start, TAB_SIZE as int, TAB_SIZE as int);
        partial_space_or_tab::lemma_same_skip(spaces, start, TAB_SIZE as int);
        partial_space_or_tab::lemma_skip_forward(spaces, TAB_SIZE as int);
        lemma_same_filled(v, start);
        lemma_skip_filled(start, TAB_SIZE as int);
        lemma_same_line_rest(skipped, indented);
        lemma_line_rest_forward(indented);
        let last = lemma_block_rest_line(v, indented, v.offset);
        let line = v.at(
            last,
            if last == v.offset {
                v.column
            } else {
                0
            },
        );
        partial_space_or_tab::lemma_skip_forward(line, TAB_SIZE as int);
        let filled = lemma_filled_witness(partial_space_or_tab::skip(line, TAB_SIZE as int));
        (last, filled)
    } else {
        (v.offset, v.offset)
    }
}

/// Two tokenizers over one text with the cursor at one place reach the
/// same end of the line.
proof fn lemma_same_line_rest(v: TokenizerView, w: TokenizerView)
    requires
        v.same_cursor(w),
    ensures
        line_rest(v).same_cursor(line_rest(w)),
    decreases v.remaining(),
{
    if v.code() is Char {
        lemma_same_line_rest(v.consume(), w.consume());
    }
}

/// Two tokenizers over one text with the cursor at one place are in a line
/// that is filled for both or for neither, and a line that is not filled is
/// one of spaces and tabs only.
proof fn lemma_same_filled(v: TokenizerView, w: TokenizerView)
    requires
        v.same_cursor(w),
    ensures
        filled_from(v) == filled_from(w),
        filled_from(v) == (blank_chunk_rest(w) is None),
    decreases v.remaining(),
{
    if v.at_space_or_tab() {
        lemma_same_filled(v.consume(), w.consume());
    }
}

/// A line that is filled is filled after some of its spaces and tabs are
/// passed.
proof fn lemma_skip_filled(v: TokenizerView, max: int)
    requires
        filled_from(v),
    ensures
        filled_from(partial_space_or_tab::skip(v, max)),
    decreases v.remaining(),
{
    if max > 0 && v.at_space_or_tab() {
        lemma_skip_filled(v.consume(), crate::tokenizer::less(max, v.width()));
    }
}

/// In a line that is filled stands a byte that is neither a space nor a
/// tab. The result is where.
proof fn lemma_filled_witness(v: TokenizerView) -> (filled: int)
    requires
        filled_from(v),
    ensures
        v.offset <= filled < line_rest(v).offset,
        0 <= filled < v.bytes.len(),
        v.bytes[filled] != SPACE,
        v.bytes[filled] != TAB,
    decreases v.remaining(),
{
    if v.at_space_or_tab() {
        lemma_filled_witness(v.consume())
    } else {
        lemma_line_rest_forward(v.consume());
        v.offset
    }
}

/// The rest of a line does not lie before the cursor, and the text is the
/// same there.
proof fn lemma_line_rest_forward(v: TokenizerView)
    ensures
        line_rest(v).offset >= v.offset,
        line_rest(v).same_context(v),
        !(line_rest(v).code() is Char),
        line_rest(v).column == v.column || 0 <= line_rest(v).column < TAB_SIZE,
    decreases v.remaining(),
{
    if v.code() is Char {
        lemma_line_rest_forward(v.consume());
    }
}

/// Where [`next_line`] finds a line, that line starts after a line ending
/// with at least four columns of spaces and tabs, it is filled, and what is
/// found is the place after the first four of those columns. `v` is at the
/// end of a line or at the start of one behind `origin`. The result is where
/// the line starts.
proof fn lemma_next_line_line(origin: TokenizerView, v: TokenizerView) -> (line: int)
    requires
        v.same_context(origin),
        origin.offset <= v.offset,
        !(v.code() is Char) || (v.column == 0 && origin.offset < v.offset && is_eol(
            v.bytes[v.offset - 1],
        )),
    ensures
        next_line(v) matches Some(next) ==> {
            &&& next.same_context(origin)
            &&& origin.offset < line
            &&& v.offset <= line
            &&& is_eol(origin.bytes[line - 1])
            &&& partial_space_or_tab::leading_columns(origin.at(line, 0)) >= TAB_SIZE
            &&& partial_space_or_tab::skip(origin.at(line, 0), TAB_SIZE as int).same_cursor(next)
            &&& filled_from(next)
        },
    decreases v.remaining(), StateName::CodeIndentedFurtherStart.rank(v.code()),
{
    if v.lazy {
        0
    } else if v.code() is LineEnding {
        let after = v.enter(Token::LineEnding).consume().exit(Token::LineEnding);
        assert(next_line(v) == next_line(after));
        assert(is_eol(after.bytes[after.offset - 1]));
        lemma_next_line_line(origin, after)
    } else {
        let start = origin.at(v.offset, 0);
        let spaces = v.enter(Token::SpaceOrTab);
        partial_space_or_tab::lemma_run_forward(v, 1, usize::MAX as int);
        partial_space_or_tab::lemma_run_forward(v, TAB_SIZE as int, TAB_SIZE as int);
        match partial_space_or_tab::run(v, TAB_SIZE as int, TAB_SIZE as int) {
            Some(indented) => {
                partial_space_or_tab::lemma_same_columns(v, start, TAB_SIZE as int);
                partial_space_or_tab::lemma_columns_reach(start, TAB_SIZE as int, TAB_SIZE as int);
                partial_space_or_tab::lemma_same_skip(start, spaces, TAB_SIZE as int);
                partial_space_or_tab::lemma_skip_forward(spaces, TAB_SIZE as int);
                assert(next_line(v) == next_line_indented(indented));
                lemma_next_line_indented_line(origin, indented, v.offset)
            },
            None => {
                let after = partial_space_or_tab::run_opt(v);
                assert(next_line(v) == next_line_past_blank(v));
                assert(next_line_past_blank(v) == next_line_past_spaces(after));
                if after.code() is LineEnding {
                    assert(next_line_past_spaces(after) == next_line(after));
                    lemma_next_line_line(origin, after)
                } else {
                    0
                }
            },
        }
    }
}

/// As [`lemma_next_line_line`], with `v` right after the four columns of
/// indentation of the line that starts at `indented`.
proof fn lemma_next_line_indented_line(origin: TokenizerView, v: TokenizerView, indented: int) -> (line:
    int)
    requires
        v.same_context(origin),
        origin.offset < indented <= v.offset,
        is_eol(origin.bytes[indented - 1]),
        partial_space_or_tab::leading_columns(origin.at(indented, 0)) >= TAB_SIZE,
        partial_space_or_tab::skip(origin.at(indented, 0), TAB_SIZE as int).same_cursor(v),
    ensures
        next_line_indented(v) matches Some(next) ==> {
            &&& next.same_context(origin)
            &&& indented <= line
            &&& is_eol(origin.bytes[line - 1])
            &&& partial_space_or_tab::leading_columns(origin.at(line, 0)) >= TAB_SIZE
            &&& partial_space_or_tab::skip(origin.at(line, 0), TAB_SIZE as int).same_cursor(next)
            &&& filled_from(next)
        },
    decreases v.remaining(), StateName::CodeIndentedFurtherEnd.rank(v.code()),
{
    if v.code() is Eof {
        0
    } else if v.code() is LineEnding {
        lemma_next_line_line(origin, v)
    } else if v.at_space_or_tab() {
        let chunk = v.enter(Token::CodeFlowChunk);
        lemma_blank_chunk_forward(chunk);
        lemma_same_filled(v, chunk);
        match blank_chunk(v) {
            Some(blank) => {
                assert(next_line_indented(v) == next_line(blank));
                lemma_next_line_line(origin, blank)
            },
            None => indented,
        }
    } else {
        indented
    }
}

/// The rest of a block ends with a filled, indented line, `v` being on the
/// filled, indented line that starts at `line`. The result is where the last
/// line starts.
proof fn lemma_block_rest_line(origin: TokenizerView, v: TokenizerView, line: int) -> (last: int)
    requires
        v.same_context(origin),
        origin.offset <= v.offset,
        filled_line_ends_at(origin, line, line_rest(v).offset),
    ensures
        filled_line_ends_at(origin, last, block_rest(v).offset),
    decreases v.remaining(), StateName::CodeIndentedAtBreak.rank(v.code()),
{
    match v.code() {
        Code::Eof => line,
        Code::LineEnding => match next_line(v) {
            Some(next) => {
                lemma_next_line_advances(v);
                let found = lemma_next_line_line(origin, v);
                let skipped = partial_space_or_tab::skip(origin.at(found, 0), TAB_SIZE as int);
                lemma_same_line_rest(skipped, next);
                lemma_same_filled(skipped, next);
                partial_space_or_tab::lemma_skip_forward(origin.at(found, 0), TAB_SIZE as int);
                lemma_line_rest_forward(next);
                lemma_block_rest_line(origin, next, found)
            },
            None => line,
        },
        Code::Char(_) => {
            let entered = v.enter(Token::CodeFlowChunk);
            lemma_same_line_rest(v, entered);
            lemma_chunk_rest_line(origin, entered, line)
        },
    }
}

/// As [`lemma_block_rest_line`], from inside a chunk.
proof fn lemma_chunk_rest_line(origin: TokenizerView, v: TokenizerView, line: int) -> (last: int)
    requires
        v.same_context(origin),
        origin.offset <= v.offset,
        filled_line_ends_at(origin, line, line_rest(v).offset),
    ensures
        filled_line_ends_at(origin, last, chunk_rest(v).offset),
    decreases v.remaining(), StateName::CodeIndentedInside.rank(v.code()),
{
    if v.code() is Char {
        lemma_chunk_rest_line(origin, v.consume(), line)
    } else {
        lemma_same_line_rest(v, v.exit(Token::CodeFlowChunk));
        lemma_block_rest_line(origin, v.exit(Token::CodeFlowChunk), line)
    }
}

/// The events that one block adds are balanced by themselves: the first
/// enters the block where it starts, the last exits it where it ends, and
/// between them every exit matches the enter last left open.
pub proof fn lemma_block_events_balanced(v: TokenizerView)
    ensures
        code_indented(v) matches Some(after) ==> {
            &&& extends(after.events, v.events)
            &&& balanced(after.added_to(v))
            &&& after.added_to(v).first() == (Event {
                kind: Token::CodeIndented,
                boundary: Boundary::Enter,
                offset: v.offset as usize,
            })
            &&& after.added_to(v).last() == (Event {
                kind: Token::CodeIndented,
                boundary: Boundary::Exit,
                offset: after.offset as usize,
            })
        },
{
    if code_indented(v) is Some {
        let nothing = Seq::<Token>::empty();
        let block = nothing.push(Token::CodeIndented);
        let entered = v.enter(Token::CodeIndented);
        let indented = partial_space_or_tab::run(
            entered,
            TAB_SIZE as int,
            TAB_SIZE as int,
        ).unwrap();
        let after = block_rest(indented);
        partial_space_or_tab::lemma_run_forward(entered, TAB_SIZE as int, TAB_SIZE as int);
        // What is added to the events before the block.
        lemma_adds_nothing(v, v, nothing);
        lemma_adds_enter(v, v, Token::CodeIndented, nothing, nothing);
        partial_space_or_tab::lemma_run_adds(
            v,
            entered,
            TAB_SIZE as int,
            TAB_SIZE as int,
            nothing,
            block,
        );
        lemma_block_rest_adds(v, indented, nothing, nothing);
        lemma_nesting_on_nothing(after.added_to(v));
        // What is added after the block is entered.
        lemma_adds_nothing(entered, entered, block);
        partial_space_or_tab::lemma_run_adds(
            entered,
            entered,
            TAB_SIZE as int,
            TAB_SIZE as int,
            block,
            block,
        );
        lemma_block_rest_adds(entered, indented, block, nothing);
        assert(after.events[v.events.len() as int] == after.events.take(
            entered.events.len() as int,
        )[v.events.len() as int]);
    }
}

/// A line of spaces and tabs adds the exit of its chunk.
proof fn lemma_blank_chunk_adds(
    earlier: TokenizerView,
    v: TokenizerView,
    open: Seq<Token>,
    left: Seq<Token>,
)
    requires
        v.adds(earlier, open, left.push(Token::CodeFlowChunk)),
    ensures
        blank_chunk_rest(v) matches Some(blank) ==> blank.adds(earlier, open, left),
    decreases v.remaining(),
{
    if v.at_space_or_tab() {
        lemma_blank_chunk_adds(earlier, v.consume(), open, left);
    } else {
        lemma_adds_exit(earlier, v, Token::CodeFlowChunk, open, left);
    }
}

/// What is added on the way to the next line of a block leaves open what
/// was open.
proof fn lemma_next_line_adds(
    earlier: TokenizerView,
    v: TokenizerView,
    open: Seq<Token>,
    left: Seq<Token>,
)
    requires
        0 <= v.remaining(),
        v.adds(earlier, open, left),
    ensures
        next_line(v) matches Some(next) ==> next.adds(earlier, open, left),
        next_line_past_blank(v) matches Some(next) ==> next.adds(earlier, open, left),
        next_line_past_spaces(v) matches Some(next) ==> next.adds(earlier, open, left),
    decreases v.remaining(), StateName::CodeIndentedFurtherStart.rank(v.code()),
{
    partial_space_or_tab::lemma_run_forward(v, TAB_SIZE as int, TAB_SIZE as int);
    partial_space_or_tab::lemma_run_adds(earlier, v, TAB_SIZE as int, TAB_SIZE as int, open, left);
    if v.code() is LineEnding {
        let entered = v.enter(Token::LineEnding);
        lemma_adds_enter(earlier, v, Token::LineEnding, open, left);
        lemma_adds_exit(earlier, entered.consume(), Token::LineEnding, open, left);
        lemma_next_line_adds(earlier, entered.consume().exit(Token::LineEnding), open, left);
    } else {
        if let Some(indented) = partial_space_or_tab::run(v, TAB_SIZE as int, TAB_SIZE as int) {
            lemma_next_line_indented_adds(earlier, indented, open, left);
        }
        let after = partial_space_or_tab::run_opt(v);
        if after.code() is LineEnding {
            lemma_next_line_adds(earlier, after, open, left);
        }
    }
}

/// As [`lemma_next_line_adds`], after four columns of indentation.
proof fn lemma_next_line_indented_adds(
    earlier: TokenizerView,
    v: TokenizerView,
    open: Seq<Token>,
    left: Seq<Token>,
)
    requires
        0 <= v.remaining(),
        v.adds(earlier, open, left),
    ensures
        next_line_indented(v) matches Some(next) ==> next.adds(earlier, open, left),
    decreases v.remaining(), StateName::CodeIndentedFurtherEnd.rank(v.code()),
{
    if v.code() is LineEnding {
        lemma_next_line_adds(earlier, v, open, left);
    } else if v.at_space_or_tab() {
        let chunk = v.enter(Token::CodeFlowChunk);
        lemma_adds_enter(earlier, v, Token::CodeFlowChunk, open, left);
        lemma_blank_chunk_forward(chunk);
        lemma_blank_chunk_adds(earlier, chunk, open, left);
        if let Some(blank) = blank_chunk(v) {
            lemma_next_line_adds(earlier, blank, open, left);
        }
    }
}

/// What the rest of a block adds closes the block, and the exit of the
/// block, where the block ends, is the last of it.
proof fn lemma_block_rest_adds(
    earlier: TokenizerView,
    v: TokenizerView,
    open: Seq<Token>,
    left: Seq<Token>,
)
    requires
        0 <= v.remaining(),
        v.adds(earlier, open, left.push(Token::CodeIndented)),
    ensures
        block_rest(v).adds(earlier, open, left),
        block_rest(v).events.last() == (Event {
            kind: Token::CodeIndented,
            boundary: Boundary::Exit,
            offset: block_rest(v).offset as usize,
        }),
    decreases v.remaining(), StateName::CodeIndentedAtBreak.rank(v.code()),
{
    lemma_adds_exit(earlier, v, Token::CodeIndented, open, left);
    match v.code() {
        Code::Eof => {},
        Code::LineEnding => {
            lemma_next_line_advances(v);
            lemma_next_line_adds(earlier, v, open, left.push(Token::CodeIndented));
            if let Some(next) = next_line(v) {
                lemma_block_rest_adds(earlier, next, open, left);
            }
        },
        Code::Char(_) => {
            lemma_adds_enter(
                earlier,
                v,
                Token::CodeFlowChunk,
                open,
                left.push(Token::CodeIndented),
            );
            lemma_chunk_rest_adds(earlier, v.enter(Token::CodeFlowChunk), open, left);
        },
    }
}

/// As [`lemma_block_rest_adds`], from inside a chunk.
proof fn lemma_chunk_rest_adds(
    earlier: TokenizerView,
    v: TokenizerView,
    open: Seq<Token>,
    left: Seq<Token>,
)
    requires
        0 <= v.remaining(),
        v.adds(earlier, open, left.push(Token::CodeIndented).push(Token::CodeFlowChunk)),
    ensures
        chunk_rest(v).adds(earlier, open, left),
        chunk_rest(v).events.last() == (Event {
            kind: Token::CodeIndented,
            boundary: Boundary::Exit,
            offset: chunk_rest(v).offset as usize,
        }),
    decreases v.remaining(), StateName::CodeIndentedInside.rank(v.code()),
{
    if v.code() is Char {
        lemma_chunk_rest_adds(earlier, v.consume(), open, left);
    } else {
        lemma_adds_exit(
            earlier,
            v,
            Token::CodeFlowChunk,
            open,
            left.push(Token::CodeIndented),
        );
        lemma_block_rest_adds(earlier, v.exit(Token::CodeFlowChunk), open, left);
    }
}

/// The rest of a block does not move the cursor back, nor past the end.
pub proof fn lemma_block_rest_forward(v: TokenizerView)
    requires
        0 <= v.remaining(),
    ensures
        0 <= block_rest(v).remaining() <= v.remaining(),
        block_rest(v).end == v.end,
    decreases v.remaining(), StateName::CodeIndentedAtBreak.rank(v.code()),
{
    match v.code() {
        Code::Eof => {},
        Code::LineEnding => {
            lemma_next_line_advances(v);
            if let Some(next) = next_line(v) {
                lemma_block_rest_forward(next);
            }
        },
        Code::Char(_) => {
            lemma_chunk_rest_forward(v.enter(Token::CodeFlowChunk));
        },
    }
}

/// The rest of a block from inside a chunk does not move the cursor back,
/// nor past the end.
pub proof fn lemma_chunk_rest_forward(v: TokenizerView)
    requires
        0 <= v.remaining(),
    ensures
        0 <= chunk_rest(v).remaining() <= v.remaining(),
        chunk_rest(v).end == v.end,
    decreases v.remaining(), StateName::CodeIndentedInside.rank(v.code()),
{
    if v.code() is Char {
        lemma_chunk_rest_forward(v.consume());
    } else {
        lemma_block_rest_forward(v.exit(Token::CodeFlowChunk));
    }
}

/// Code (indented) does not move the cursor back, nor past the end.
pub proof fn lemma_code_indented_forward(v: TokenizerView)
    requires
        0 <= v.remaining(),
    ensures
        code_indented(v) matches Some(after) ==> 0 <= after.remaining() <= v.remaining()
            && after.end == v.end,
{
    let entered = v.enter(Token::CodeIndented);
    partial_space_or_tab::lemma_run_forward(entered, TAB_SIZE as int, TAB_SIZE as int);
    if let Some(indented) = partial_space_or_tab::run(entered, TAB_SIZE as int, TAB_SIZE as int) {
        lemma_block_rest_forward(indented);
    }
}

/// Start of code (indented).
///
/// ```markdown
/// > |     aaa
///     ^
/// ```
pub fn start(tokenizer: &mut Tokenizer) -> (state: State)
    requires
        old(tokenizer)@.wf(),
        old(tokenizer)@.expects(StateName::CodeIndentedStart),
    ensures
        transition(StateName::CodeIndentedStart, old(tokenizer)@, final(tokenizer)@, state),
    decreases StateName::CodeIndentedStart.level(), 0int, StateName::CodeIndentedStart.rank(old(tokenizer)@.code()), 0int,
{
    let ghost base = tokenizer@.open();
    proof {
        lemma_expects(tokenizer@, StateName::CodeIndentedStart, base);
    }
    // Do not interrupt paragraphs.
    if !tokenizer.interrupt && tokenizer.constructs.code_indented {
        tokenizer.enter(Token::CodeIndented);
        let name = space_or_tab_min_max(TAB_SIZE, TAB_SIZE);
        proof {
            lemma_expects(tokenizer@, name, base.push(Token::CodeIndented));
            partial_space_or_tab::lemma_run_forward(tokenizer@, TAB_SIZE as int, TAB_SIZE as int);
            partial_space_or_tab::lemma_run_end(tokenizer@, TAB_SIZE, TAB_SIZE);
        }
        let state = tokenizer.go(name, StateName::CodeIndentedAtBreak);
        proof {
            if state != State::Nok {
                lemma_expects(tokenizer@, StateName::CodeIndentedAtBreak, base);
            }
        }
        state
    } else {
        State::Nok
    }
}

/// At a break.
///
/// ```markdown
/// > |     aaa
///         ^  ^
/// ```
pub fn at_break(tokenizer: &mut Tokenizer) -> (state: State)
    requires
        old(tokenizer)@.wf(),
        old(tokenizer)@.expects(StateName::CodeIndentedAtBreak),
    ensures
        transition(StateName::CodeIndentedAtBreak, old(tokenizer)@, final(tokenizer)@, state),
    decreases StateName::CodeIndentedAtBreak.level(), 0int, StateName::CodeIndentedAtBreak.rank(old(tokenizer)@.code()), 0int,
{
    let ghost base = tokenizer@.base(StateName::CodeIndentedAtBreak);
    match tokenizer.current() {
        Code::Eof => after(tokenizer),
        Code::LineEnding => {
            proof {
                lemma_expects(tokenizer@, StateName::CodeIndentedFurtherStart, tokenizer@.open());
                lemma_next_line_advances(tokenizer@);
            }
            let state = tokenizer.attempt(
                StateName::CodeIndentedFurtherStart,
                State::Next(StateName::CodeIndentedAtBreak),
                State::Next(StateName::CodeIndentedAfter),
            );
            proof {
                lemma_expects(tokenizer@, StateName::CodeIndentedAtBreak, base);
                lemma_expects(tokenizer@, StateName::CodeIndentedAfter, base);
            }
            state
        },
        Code::Char(_) => {
            tokenizer.enter(Token::CodeFlowChunk);
            proof {
                lemma_expects(tokenizer@, StateName::CodeIndentedInside, base);
            }
            inside(tokenizer)
        },
    }
}

/// Inside code content.
///
/// ```markdown
/// > |     aaa
///         ^^^^
/// ```
pub fn inside(tokenizer: &mut Tokenizer) -> (state: State)
    requires
        old(tokenizer)@.wf(),
        old(tokenizer)@.expects(StateName::CodeIndentedInside),
    ensures
        transition(StateName::CodeIndentedInside, old(tokenizer)@, final(tokenizer)@, state),
    decreases StateName::CodeIndentedInside.level(), 0int, StateName::CodeIndentedInside.rank(old(tokenizer)@.code()), 0int,
{
    let ghost base = tokenizer@.base(StateName::CodeIndentedInside);
    match tokenizer.current() {
        Code::Char(_) => {
            tokenizer.consume();
            proof {
                lemma_expects(tokenizer@, StateName::CodeIndentedInside, base);
            }
            State::Next(StateName::CodeIndentedInside)
        },
        _ => {
            tokenizer.exit(Token::CodeFlowChunk);
            proof {
                lemma_expects(tokenizer@, StateName::CodeIndentedAtBreak, base);
            }
            at_break(tokenizer)
        },
    }
}

/// After indented code.
///
/// ```markdown
/// > |     aaa
///            ^
/// ```
pub fn after(tokenizer: &mut Tokenizer) -> (state: State)
    requires
        old(tokenizer)@.wf(),
        old(tokenizer)@.expects(StateName::CodeIndentedAfter),
    ensures
        transition(StateName::CodeIndentedAfter, old(tokenizer)@, final(tokenizer)@, state),
        state == State::Okay,
        final(tokenizer)@ == close(old(tokenizer)@),
    decreases StateName::CodeIndentedAfter.level(), 0int, StateName::CodeIndentedAfter.rank(old(tokenizer)@.code()), 0int,
{
    let ghost base = tokenizer@.base(StateName::CodeIndentedAfter);
    tokenizer.exit(Token::CodeIndented);
    // Feel free to interrupt.
    tokenizer.interrupt = false;
    assert(tokenizer@.open() =~= base);
    State::Okay
}

/// Right at a line ending, trying to parse another indent.
///
/// ```markdown
/// > |     aaa
///            ^
///   |     bbb
/// ```
pub fn further_start(tokenizer: &mut Tokenizer) -> (state: State)
    requires
        old(tokenizer)@.wf(),
        old(tokenizer)@.expects(StateName::CodeIndentedFurtherStart),
    ensures
        transition(StateName::CodeIndentedFurtherStart, old(tokenizer)@, final(tokenizer)@, state),
    decreases StateName::CodeIndentedFurtherStart.level(), 0int, StateName::CodeIndentedFurtherStart.rank(old(tokenizer)@.code()), 0int,
{
    let ghost base = tokenizer@.open();
    proof {
        lemma_expects(tokenizer@, StateName::CodeIndentedFurtherStart, base);
    }
    if tokenizer.lazy {
        State::Nok
    } else {
        match tokenizer.current() {
            Code::LineEnding => {
                tokenizer.enter(Token::LineEnding);
                tokenizer.consume();
                tokenizer.exit(Token::LineEnding);
                proof {
                    assert(base.push(Token::LineEnding).drop_last() =~= base);
                    lemma_expects(tokenizer@, StateName::CodeIndentedFurtherStart, base);
                }
                State::Next(StateName::CodeIndentedFurtherStart)
            },
            _ => {
                let name = space_or_tab_min_max(TAB_SIZE, TAB_SIZE);
                proof {
                    lemma_expects(tokenizer@, name, base);
                    partial_space_or_tab::lemma_run_forward(
                        tokenizer@,
                        TAB_SIZE as int,
                        TAB_SIZE as int,
                    );
                }
                let state = tokenizer.attempt(
                    name,
                    State::Next(StateName::CodeIndentedFurtherEnd),
                    State::Next(StateName::CodeIndentedFurtherBegin),
                );
                proof {
                    lemma_expects(tokenizer@, StateName::CodeIndentedFurtherEnd, base);
                    lemma_expects(tokenizer@, StateName::CodeIndentedFurtherBegin, base);
                }
                state
            },
        }
    }
}

/// After the indentation of a line that may be the next of the block.
///
/// ```markdown
///    |     aaa
/// >  |     bbb
///          ^
/// ```
pub fn further_end(tokenizer: &mut Tokenizer) -> (state: State)
    requires
        old(tokenizer)@.wf(),
        old(tokenizer)@.expects(StateName::CodeIndentedFurtherEnd),
    ensures
        transition(StateName::CodeIndentedFurtherEnd, old(tokenizer)@, final(tokenizer)@, state),
    decreases StateName::CodeIndentedFurtherEnd.level(), 0int, StateName::CodeIndentedFurtherEnd.rank(
            old(tokenizer)@.code(),
        ), 0int,
{
    let ghost base = tokenizer@.open();
    proof {
        lemma_expects(tokenizer@, StateName::CodeIndentedFurtherEnd, base);
        lemma_expects(tokenizer@, StateName::CodeIndentedFurtherStart, base);
    }
    match tokenizer.current() {
        // A blank line at the end of the text is no line of the block.
        Code::Eof => State::Nok,
        Code::LineEnding => further_start(tokenizer),
        Code::Char(byte) => {
            if byte == SPACE || byte == TAB {
                proof {
                    lemma_expects(tokenizer@, StateName::CodeIndentedFurtherBlank, base);
                    lemma_blank_chunk_forward(tokenizer@.enter(Token::CodeFlowChunk));
                }
                let state = tokenizer.attempt(
                    StateName::CodeIndentedFurtherBlank,
                    State::Next(StateName::CodeIndentedFurtherStart),
                    State::Okay,
                );
                proof {
                    lemma_expects(tokenizer@, StateName::CodeIndentedFurtherStart, base);
                }
                state
            } else {
                State::Okay
            }
        },
    }
}

/// Before the spaces and tabs that stand after the indentation of a line
/// that may be blank.
///
/// ```markdown
///    |     aaa
/// >  |     ␠␠
///          ^
///    |     bbb
/// ```
pub fn further_blank(tokenizer: &mut Tokenizer) -> (state: State)
    requires
        old(tokenizer)@.wf(),
        old(tokenizer)@.expects(StateName::CodeIndentedFurtherBlank),
    ensures
        transition(StateName::CodeIndentedFurtherBlank, old(tokenizer)@, final(tokenizer)@, state),
    decreases StateName::CodeIndentedFurtherBlank.level(), 0int, StateName::CodeIndentedFurtherBlank.rank(
            old(tokenizer)@.code(),
        ), 0int,
{
    let ghost base = tokenizer@.open();
    proof {
        lemma_expects(tokenizer@, StateName::CodeIndentedFurtherBlank, base);
    }
    tokenizer.enter(Token::CodeFlowChunk);
    proof {
        lemma_expects(tokenizer@, StateName::CodeIndentedFurtherBlankInside, base);
    }
    further_blank_inside(tokenizer)
}

/// In the spaces and tabs that stand after the indentation of a line that
/// may be blank.
///
/// ```markdown
///    |     aaa
/// >  |     ␠␠
///           ^
///    |     bbb
/// ```
pub fn further_blank_inside(tokenizer: &mut Tokenizer) -> (state: State)
    requires
        old(tokenizer)@.wf(),
        old(tokenizer)@.expects(StateName::CodeIndentedFurtherBlankInside),
    ensures
        transition(
            StateName::CodeIndentedFurtherBlankInside,
            old(tokenizer)@,
            final(tokenizer)@,
            state,
        ),
    decreases StateName::CodeIndentedFurtherBlankInside.level(), 0int, StateName::CodeIndentedFurtherBlankInside.rank(
            old(tokenizer)@.code(),
        ), 0int,
{
    let ghost base = tokenizer@.base(StateName::CodeIndentedFurtherBlankInside);
    match tokenizer.current() {
        Code::Char(byte) => {
            if byte == SPACE || byte == TAB {
                tokenizer.consume();
                proof {
                    lemma_expects(tokenizer@, StateName::CodeIndentedFurtherBlankInside, base);
                }
                State::Next(StateName::CodeIndentedFurtherBlankInside)
            } else {
                // The line is filled.
                State::Nok
            }
        },
        _ => {
            tokenizer.exit(Token::CodeFlowChunk);
            assert(tokenizer@.open() =~= base);
            State::Okay
        },
    }
}

/// At the beginning of a line that is not indented enough.
///
/// ```markdown
///   |     aaa
/// > |   bbb
///     ^
/// ```
pub fn further_begin(tokenizer: &mut Tokenizer) -> (state: State)
    requires
        old(tokenizer)@.wf(),
        old(tokenizer)@.expects(StateName::CodeIndentedFurtherBegin),
    ensures
        transition(StateName::CodeIndentedFurtherBegin, old(tokenizer)@, final(tokenizer)@, state),
    decreases StateName::CodeIndentedFurtherBegin.level(), 0int, StateName::CodeIndentedFurtherBegin.rank(old(tokenizer)@.code()), 0int,
{
    let ghost base = tokenizer@.open();
    let name = space_or_tab();
    proof {
        lemma_expects(tokenizer@, StateName::CodeIndentedFurtherBegin, base);
        lemma_expects(tokenizer@, name, base);
        partial_space_or_tab::lemma_run_forward(tokenizer@, 1, usize::MAX as int);
    }
    let state = tokenizer.attempt_opt(name, StateName::CodeIndentedFurtherAfter);
    proof {
        lemma_expects(tokenizer@, StateName::CodeIndentedFurtherAfter, base);
    }
    state
}

/// After whitespace, not indented enough.
///
/// ```markdown
///   |     aaa
/// > |   bbb
///       ^
/// ```
pub fn further_after(tokenizer: &mut Tokenizer) -> (state: State)
    requires
        old(tokenizer)@.wf(),
        old(tokenizer)@.expects(StateName::CodeIndentedFurtherAfter),
    ensures
        transition(StateName::CodeIndentedFurtherAfter, old(tokenizer)@, final(tokenizer)@, state),
    decreases StateName::CodeIndentedFurtherAfter.level(), 0int, StateName::CodeIndentedFurtherAfter.rank(old(tokenizer)@.code()), 0int,
{
    let ghost base = tokenizer@.open();
    proof {
        lemma_expects(tokenizer@, StateName::CodeIndentedFurtherAfter, base);
        lemma_expects(tokenizer@, StateName::CodeIndentedFurtherStart, base);
    }
    match tokenizer.current() {
        Code::LineEnding => further_start(tokenizer),
        _ => State::Nok,
    }
}

} // verus!
