//! A run of spaces and tabs, measured in columns: a tab reaches to the next
//! tab stop.
//!
//! ```bnf
//! space_or_tab ::= 1*( ' ' | '\t' )
//! ```

use vstd::prelude::*;
use crate::constant::{SPACE, TAB, TAB_SIZE};
use crate::state::{run_end, transition, State, StateName};
use crate::token::{extends, Token};
use crate::tokenizer::{
    lemma_adds_enter,
    lemma_adds_exit,
    lemma_nesting_push,
    less,
    Code,
    Tokenizer,
    TokenizerView,
};

verus! {

/// The tokenizer once the cursor has passed the spaces and tabs under it,
/// as long as fewer than `max` columns of them were passed.
pub open spec fn skip(v: TokenizerView, max: int) -> TokenizerView
    decreases v.remaining(),
{
    if max > 0 && v.at_space_or_tab() {
        skip(v.consume(), less(max, v.width()))
    } else {
        v
    }
}

/// Number of columns that [`skip`] passes.
pub open spec fn columns(v: TokenizerView, max: int) -> int
    decreases v.remaining(),
{
    if max > 0 && v.at_space_or_tab() {
        v.width() + columns(v.consume(), less(max, v.width()))
    } else {
        0
    }
}

/// Number of columns of the spaces and tabs at the cursor, however many
/// they are.
pub open spec fn leading_columns(v: TokenizerView) -> int
    decreases v.remaining(),
{
    if v.at_space_or_tab() {
        v.width() + leading_columns(v.consume())
    } else {
        0
    }
}

/// The tokenizer once the cursor has passed the spaces and tabs under it,
/// in one span, as long as fewer than `max` columns of them were passed; the
/// tokenizer as it is where there is nothing to pass.
pub open spec fn passed(v: TokenizerView, max: int) -> TokenizerView {
    if max > 0 && v.at_space_or_tab() {
        skip(v.enter(Token::SpaceOrTab), max).exit(Token::SpaceOrTab)
    } else {
        v
    }
}

/// The rest of a run of spaces and tabs whose span is open: the cursor
/// passes what [`skip`] passes, and the span is closed there. The run fails
/// when it has fewer than `min` columns.
pub open spec fn run_rest(v: TokenizerView, min: int, max: int) -> Option<
    TokenizerView,
> {
    if columns(v, max) >= min {
        Some(skip(v, max).exit(Token::SpaceOrTab))
    } else {
        None
    }
}

/// A run of spaces and tabs of `min` to `max` columns: [`passed`], where at
/// least `min` columns are passed. The run fails when it has fewer.
pub open spec fn run(v: TokenizerView, min: int, max: int) -> Option<TokenizerView> {
    if columns(v, max) >= min {
        Some(passed(v, max))
    } else {
        None
    }
}

/// What the state functions of this construct do on `v`.
pub open spec fn step(name: StateName, v: TokenizerView) -> (State, TokenizerView)
    decreases name.rank(v.code()),
{
    match name {
        StateName::SpaceOrTabStart(min, max) => if max > 0 && v.at_space_or_tab() {
            step(StateName::SpaceOrTabInside(min, max), v.enter(Token::SpaceOrTab))
        } else if min == 0 {
            (State::Okay, v)
        } else {
            (State::Nok, v)
        },
        StateName::SpaceOrTabInside(min, max) => if max > 0 && v.at_space_or_tab() {
            (
                State::Next(
                    StateName::SpaceOrTabInside(
                        less(min as int, v.width()) as usize,
                        less(max as int, v.width()) as usize,
                    ),
                ),
                v.consume(),
            )
        } else if min == 0 {
            (State::Okay, v.exit(Token::SpaceOrTab))
        } else {
            (State::Nok, v.exit(Token::SpaceOrTab))
        },
        _ => (State::Nok, v),
    }
}

/// The tokenizer after one or more spaces and tabs, in one span, where the
/// cursor is at some; the tokenizer as it is where it is at none.
pub open spec fn run_opt(v: TokenizerView) -> TokenizerView {
    match run(v, 1, usize::MAX as int) {
        Some(after) => after,
        None => v,
    }
}

/// [`skip`] does not move the cursor back, nor past the end.
pub proof fn lemma_skip_forward(v: TokenizerView, max: int)
    ensures
        skip(v, max).end == v.end,
        skip(v, max).offset >= v.offset,
        skip(v, max).same_context(v),
        skip(v, max).interrupt == v.interrupt,
        skip(v, max).events == v.events,
        0 <= v.remaining() ==> 0 <= skip(v, max).remaining(),
    decreases v.remaining(),
{
    if max > 0 && v.at_space_or_tab() {
        lemma_skip_forward(v.consume(), less(max, v.width()));
    }
}

/// A run of spaces and tabs does not move the cursor back, nor past the
/// end.
pub proof fn lemma_run_forward(v: TokenizerView, min: int, max: int)
    ensures
        run(v, min, max) matches Some(after) ==> after.end == v.end && after.offset >= v.offset
            && after.same_context(v) && after.interrupt == v.interrupt && (0 <= v.remaining()
            ==> 0 <= after.remaining()),
        run_opt(v).end == v.end,
        run_opt(v).same_context(v),
        run_opt(v).interrupt == v.interrupt,
        run_opt(v).offset >= v.offset,
        0 <= v.remaining() ==> 0 <= run_opt(v).remaining(),
        passed(v, max).same_context(v),
        passed(v, max).interrupt == v.interrupt,
{
    lemma_skip_forward(v.enter(Token::SpaceOrTab), max);
    lemma_skip_forward(v.enter(Token::SpaceOrTab), usize::MAX as int);
}

/// A run of spaces and tabs adds one span, or nothing: after it is open
/// what was open before it.
pub proof fn lemma_run_adds(
    earlier: TokenizerView,
    v: TokenizerView,
    min: int,
    max: int,
    open: Seq<Token>,
    left: Seq<Token>,
)
    requires
        v.adds(earlier, open, left),
    ensures
        passed(v, max).adds(earlier, open, left),
        run(v, min, max) matches Some(after) ==> after.adds(earlier, open, left),
        run_opt(v).adds(earlier, open, left),
{
    let entered = v.enter(Token::SpaceOrTab);
    lemma_adds_enter(earlier, v, Token::SpaceOrTab, open, left);
    lemma_skip_forward(entered, max);
    lemma_adds_exit(earlier, skip(entered, max), Token::SpaceOrTab, open, left);
    lemma_skip_forward(entered, usize::MAX as int);
    lemma_adds_exit(earlier, skip(entered, usize::MAX as int), Token::SpaceOrTab, open, left);
}

/// [`skip`] moves the cursor forward, if at all, and changes nothing else.
pub proof fn lemma_skip(v: TokenizerView, max: int)
    requires
        v.wf(),
    ensures
        skip(v, max).offset >= v.offset,
        skip(v, max).wf(),
        skip(v, max).same_context(v),
        skip(v, max).events == v.events,
        skip(v, max).interrupt == v.interrupt,
        max > 0 && v.at_space_or_tab() ==> skip(v, max).offset > v.offset,
    decreases v.remaining(),
{
    if max > 0 && v.at_space_or_tab() {
        lemma_skip(v.consume(), less(max, v.width()));
    }
}

/// A run of spaces and tabs moves the cursor forward, if at all, leaves
/// open what was open, and changes nothing but the cursor and the events.
pub proof fn lemma_run(v: TokenizerView, min: int, max: int)
    requires
        v.wf(),
    ensures
        run(v, min, max) matches Some(after) ==> {
            &&& after.wf()
            &&& after.same_context(v)
            &&& after.offset >= v.offset
            &&& after.interrupt == v.interrupt
            &&& after.open() == v.open()
            &&& extends(after.events, v.events)
        },
        run(v, min, max) is Some <==> columns(v, max) >= min,
{
    if max > 0 && v.at_space_or_tab() {
        let entered = v.enter(Token::SpaceOrTab);
        lemma_nesting_push(v.events, entered.events.last());
        lemma_skip(entered, max);
        let skipped = skip(entered, max);
        lemma_nesting_push(skipped.events, skipped.exit(Token::SpaceOrTab).events.last());
        assert(v.open().push(Token::SpaceOrTab).drop_last() =~= v.open());
        lemma_same_columns(v, entered, max);
    }
}

/// Two tokenizers over one text with the cursor at one place pass as many
/// columns.
pub proof fn lemma_same_columns(v: TokenizerView, w: TokenizerView, max: int)
    requires
        v.same_cursor(w),
    ensures
        columns(v, max) == columns(w, max),
    decreases v.remaining(),
{
    if max > 0 && v.at_space_or_tab() {
        lemma_same_columns(v.consume(), w.consume(), less(max, v.width()));
    }
}

/// Two tokenizers over one text with the cursor at one place pass the same
/// spaces and tabs.
pub proof fn lemma_same_skip(v: TokenizerView, w: TokenizerView, max: int)
    requires
        v.same_cursor(w),
    ensures
        skip(v, max).same_cursor(skip(w, max)),
        skip(v, max).code() == skip(w, max).code(),
    decreases v.remaining(),
{
    if max > 0 && v.at_space_or_tab() {
        lemma_same_skip(v.consume(), w.consume(), less(max, v.width()));
    }
}

/// What [`skip`] passes is spaces and tabs.
pub proof fn lemma_skip_passes(v: TokenizerView, max: int, p: int)
    requires
        v.offset <= p < skip(v, max).offset,
    ensures
        p < v.end,
        p < v.bytes.len(),
        v.bytes[p] == SPACE || v.bytes[p] == TAB,
    decreases v.remaining(),
{
    if max > 0 && v.at_space_or_tab() && p > v.offset {
        lemma_skip_passes(v.consume(), less(max, v.width()), p);
    }
}

/// [`columns`] counts the columns of the spaces and tabs at the cursor as
/// far as `max`: it reaches a number up to `max` where they reach it.
pub proof fn lemma_columns_reach(v: TokenizerView, max: int, k: int)
    requires
        0 <= v.column < TAB_SIZE,
        k <= max,
    ensures
        columns(v, max) >= k <==> leading_columns(v) >= k,
        0 <= columns(v, max) <= leading_columns(v),
    decreases v.remaining(),
{
    if v.at_space_or_tab() {
        if max > 0 {
            lemma_columns_reach(v.consume(), less(max, v.width()), less(max, v.width()));
            if k > v.width() {
                lemma_columns_reach(v.consume(), less(max, v.width()), k - v.width());
            }
        } else {
            lemma_columns_reach(v.consume(), 0, 0);
        }
    }
}

/// Spaces and tabs that may or may not be there are passed where they are
/// there: the cursor is then where [`skip`] stops.
pub proof fn lemma_run_opt(v: TokenizerView)
    requires
        0 <= v.column < TAB_SIZE,
    ensures
        run_opt(v) == passed(v, usize::MAX as int),
        run_opt(v).same_cursor(skip(v, usize::MAX as int)),
        run_opt(v).code() == skip(v, usize::MAX as int).code(),
{
    lemma_same_skip(v, v.enter(Token::SpaceOrTab), usize::MAX as int);
    if v.at_space_or_tab() {
        lemma_columns_bounds(v.consume(), less(usize::MAX as int, v.width()));
    }
}

/// A run of spaces and tabs ends, whether it matches or not, where
/// [`passed`] says.
pub proof fn lemma_run_end(v: TokenizerView, min: usize, max: usize)
    requires
        0 <= v.column < TAB_SIZE,
    ensures
        run_end(StateName::SpaceOrTabStart(min, max), v) == (
            columns(v, max as int) >= min,
            passed(v, max as int),
        ),
{
    if max > 0 && v.at_space_or_tab() {
        let entered = v.enter(Token::SpaceOrTab);
        lemma_run_rest_end(entered, min, max);
        lemma_same_columns(v, entered, max as int);
        assert(step(StateName::SpaceOrTabStart(min, max), v) == step(
            StateName::SpaceOrTabInside(min, max),
            entered,
        ));
    }
}

/// The rest of a run of spaces and tabs ends, whether it matches or not,
/// where [`skip`] stops.
proof fn lemma_run_rest_end(v: TokenizerView, min: usize, max: usize)
    requires
        0 <= v.column < TAB_SIZE,
    ensures
        run_end(StateName::SpaceOrTabInside(min, max), v) == (
            columns(v, max as int) >= min,
            skip(v, max as int).exit(Token::SpaceOrTab),
        ),
    decreases v.remaining(),
{
    if max > 0 && v.at_space_or_tab() {
        let less_min = less(min as int, v.width()) as usize;
        let less_max = less(max as int, v.width()) as usize;
        lemma_run_rest_end(v.consume(), less_min, less_max);
        lemma_columns_bounds(v.consume(), less_max as int);
        assert(step(StateName::SpaceOrTabInside(min, max), v) == (
            State::Next(StateName::SpaceOrTabInside(less_min, less_max)),
            v.consume(),
        ));
    }
}

/// [`columns`] is never negative.
pub proof fn lemma_columns_bounds(v: TokenizerView, max: int)
    requires
        0 <= v.column < TAB_SIZE,
    ensures
        0 <= columns(v, max),
    decreases v.remaining(),
{
    if max > 0 && v.at_space_or_tab() {
        lemma_columns_bounds(v.consume(), less(max, v.width()));
    }
}

/// The state before one or more spaces and tabs.
pub fn space_or_tab() -> (name: StateName)
    ensures
        name == StateName::SpaceOrTabStart(1, usize::MAX),
{
    space_or_tab_min_max(1, usize::MAX)
}

/// The state before spaces and tabs of `min` to `max` columns.
pub fn space_or_tab_min_max(min: usize, max: usize) -> (name: StateName)
    ensures
        name == StateName::SpaceOrTabStart(min, max),
{
    StateName::SpaceOrTabStart(min, max)
}

/// What is left of `a` when `b` is taken from it.
fn left(a: usize, b: usize) -> (rest: usize)
    ensures
        rest == less(a as int, b as int),
{
    if a > b {
        a - b
    } else {
        0
    }
}

/// Before the run.
///
/// ```markdown
/// > | a␠␠b
///      ^
/// ```
pub fn start(tokenizer: &mut Tokenizer, min: usize, max: usize) -> (state: State)
    requires
        old(tokenizer)@.wf(),
        old(tokenizer)@.expects(StateName::SpaceOrTabStart(min, max)),
    ensures
        transition(
            StateName::SpaceOrTabStart(min, max),
            old(tokenizer)@,
            final(tokenizer)@,
            state,
        ),
    decreases 0int, 0int, 1int, 0int,
{
    let ghost base = tokenizer@.open();
    assert(tokenizer@.base(StateName::SpaceOrTabStart(min, max)) =~= base);
    proof {
        lemma_same_columns(tokenizer@, tokenizer@.enter(Token::SpaceOrTab), max as int);
    }
    if max > 0 && at_space_or_tab(tokenizer) {
        tokenizer.enter(Token::SpaceOrTab);
        assert(tokenizer@.open() =~= base + seq![Token::SpaceOrTab]);
        assert(tokenizer@.base(StateName::SpaceOrTabInside(min, max)) =~= base);
        inside(tokenizer, min, max)
    } else if min == 0 {
        State::Okay
    } else {
        State::Nok
    }
}

/// In the run.
///
/// ```markdown
/// > | a␠␠b
///       ^
/// ```
pub fn inside(tokenizer: &mut Tokenizer, min: usize, max: usize) -> (state: State)
    requires
        old(tokenizer)@.wf(),
        old(tokenizer)@.expects(StateName::SpaceOrTabInside(min, max)),
    ensures
        transition(
            StateName::SpaceOrTabInside(min, max),
            old(tokenizer)@,
            final(tokenizer)@,
            state,
        ),
    decreases 0int, 0int, 0int, 0int,
{
    let ghost base = tokenizer@.base(StateName::SpaceOrTabInside(min, max));
    if max > 0 && at_space_or_tab(tokenizer) {
        let width = tokenizer.current_width();
        tokenizer.consume();
        let next = StateName::SpaceOrTabInside(left(min, width), left(max, width));
        proof {
            lemma_columns_bounds(tokenizer@, less(max as int, width as int));
            assert(tokenizer@.base(next) =~= base);
        }
        State::Next(next)
    } else {
        tokenizer.exit(Token::SpaceOrTab);
        assert(tokenizer@.open() =~= base);
        if min == 0 {
            State::Okay
        } else {
            State::Nok
        }
    }
}

/// Whether a space or a tab is at the cursor.
pub fn at_space_or_tab(tokenizer: &Tokenizer) -> (yes: bool)
    requires
        tokenizer@.wf(),
    ensures
        yes == tokenizer@.at_space_or_tab(),
{
    match tokenizer.current() {
        Code::Char(byte) => byte == SPACE || byte == TAB,
        _ => false,
    }
}

} // verus!
