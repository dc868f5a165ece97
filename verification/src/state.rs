//! The states of the machine: their names, what each run amounts to, and
//! the one place from which a state function is called by name.

use vstd::prelude::*;
use crate::construct::partial_title::Kind;
use crate::construct::{blank_line, code_indented, partial_space_or_tab, partial_title};
use crate::content;
use crate::token::{chunk_free, extends, ContentType, Token};
use crate::tokenizer::{less, Code, Tokenizer, TokenizerView};

verus! {

/// What a state function hands back.
#[derive(Debug, Clone, Copy, PartialEq, Eq, Structural)]
pub enum State {
    /// Go on with the named state, at the cursor as the state function left
    /// it.
    Next(StateName),
    /// The construct matched.
    Okay,
    /// The construct did not match.
    Nok,
}

/// Names of the states.
#[derive(Debug, Clone, Copy, PartialEq, Eq, Structural)]
pub enum StateName {
    /// Before a run of spaces and tabs of at least the first and at most the
    /// second number of columns.
    SpaceOrTabStart(usize, usize),
    /// In such a run, of which at least the first and at most the second
    /// number of columns are still to come.
    SpaceOrTabInside(usize, usize),
    /// At the start of a line that may be blank.
    BlankLineStart,
    /// After the spaces and tabs of a line that may be blank.
    BlankLineAfter,
    /// Before code (indented).
    CodeIndentedStart,
    /// In code (indented), after the indentation of a line or at the end of
    /// one.
    CodeIndentedAtBreak,
    /// In the text of a line of code (indented).
    CodeIndentedInside,
    /// At the end of code (indented).
    CodeIndentedAfter,
    /// At a line ending after a line of code (indented), or at the start of
    /// a line after one, where the next line of the block is looked for.
    CodeIndentedFurtherStart,
    /// After the indentation of a line that may be the next line of code
    /// (indented): it is, where it is filled; where it is blank, the next
    /// line is looked for after it.
    CodeIndentedFurtherEnd,
    /// Before the spaces and tabs that stand after the indentation of a line
    /// that may be blank.
    CodeIndentedFurtherBlank,
    /// In those spaces and tabs.
    CodeIndentedFurtherBlankInside,
    /// At the start of a line that is not indented enough for code
    /// (indented).
    CodeIndentedFurtherBegin,
    /// After the spaces and tabs of such a line.
    CodeIndentedFurtherAfter,
    /// Before a title.
    TitleStart,
    /// After the opening marker of a title.
    TitleBegin(Kind),
    /// In the string of a title, between two chunks.
    TitleAtBreak(Kind),
    /// At the start of a line in a title.
    TitleLineStart(Kind),
    /// After the spaces and tabs that start a line in a title.
    TitleLineBegin(Kind),
    /// In a chunk of a title.
    TitleInside(Kind),
    /// In a chunk of a title, after a backslash.
    TitleEscape(Kind),
    /// In content of the given type, at the start of a line or where the
    /// constructs before the given place failed.
    ContentDispatch(ContentType, usize),
    /// In content of the given type, after a construct or where none
    /// matched.
    ContentAfter(ContentType),
    /// In data, in content of the given type.
    ContentDataInside(ContentType),
}

impl StateName {
    /// The kinds that are open, innermost last, when the state is entered
    /// and that the run from it closes.
    pub open spec fn opens(self) -> Seq<Token> {
        match self {
            StateName::SpaceOrTabInside(_, _) => seq![Token::SpaceOrTab],
            StateName::CodeIndentedAtBreak => seq![Token::CodeIndented],
            StateName::CodeIndentedInside => seq![Token::CodeIndented, Token::CodeFlowChunk],
            StateName::CodeIndentedAfter => seq![Token::CodeIndented],
            StateName::CodeIndentedFurtherBlankInside => seq![Token::CodeFlowChunk],
            StateName::TitleBegin(_) => seq![Token::DefinitionTitle],
            StateName::TitleAtBreak(_) | StateName::TitleLineStart(_) | StateName::TitleLineBegin(
                _,
            ) => seq![Token::DefinitionTitle, Token::DefinitionTitleString],
            StateName::TitleInside(_) | StateName::TitleEscape(_) => seq![
                Token::DefinitionTitle,
                Token::DefinitionTitleString,
                Token::ChunkString,
            ],
            StateName::ContentDataInside(_) => seq![Token::Data],
            _ => Seq::empty(),
        }
    }

    /// How deep the state lies in runs within runs: a state function hands
    /// on to states of its own level or below, and it starts a run of its
    /// own, by an attempt, only with a state of a lower level. So the depth
    /// to which runs are nested never depends on the text.
    pub open spec fn level(self) -> int {
        match self {
            StateName::SpaceOrTabStart(_, _) | StateName::SpaceOrTabInside(_, _) => 0,
            StateName::CodeIndentedFurtherBlank | StateName::CodeIndentedFurtherBlankInside => 1,
            StateName::CodeIndentedStart
            | StateName::CodeIndentedAtBreak
            | StateName::CodeIndentedInside
            | StateName::CodeIndentedAfter => 3,
            StateName::ContentDispatch(_, _)
            | StateName::ContentAfter(_)
            | StateName::ContentDataInside(_) => 4,
            _ => 2,
        }
    }

    /// Whether the state is one of a construct that sets chunks aside.
    pub open spec fn sets_chunks_aside(self) -> bool {
        match self {
            StateName::TitleStart
            | StateName::TitleBegin(_)
            | StateName::TitleAtBreak(_)
            | StateName::TitleLineStart(_)
            | StateName::TitleLineBegin(_)
            | StateName::TitleInside(_)
            | StateName::TitleEscape(_) => true,
            _ => false,
        }
    }

    /// Whether the state is one of a construct, and none of content.
    pub open spec fn in_construct(self) -> bool {
        self.level() < 4
    }

    /// A number that falls whenever a state hands on to another, or calls
    /// another, without having moved the cursor.
    pub open spec fn rank(self, code: Code) -> int {
        match self {
            StateName::SpaceOrTabStart(_, _) => 1,
            StateName::SpaceOrTabInside(_, _) => 0,
            StateName::BlankLineStart => 2,
            StateName::BlankLineAfter => 0,
            StateName::CodeIndentedStart => 8,
            StateName::CodeIndentedAtBreak => if code is LineEnding {
                6
            } else {
                1
            },
            StateName::CodeIndentedInside => if code is Char {
                0
            } else {
                7
            },
            StateName::CodeIndentedAfter => 0,
            StateName::CodeIndentedFurtherStart => if code is LineEnding {
                2
            } else {
                5
            },
            StateName::CodeIndentedFurtherEnd => if code is LineEnding {
                3
            } else {
                0
            },
            StateName::CodeIndentedFurtherBlank => 1,
            StateName::CodeIndentedFurtherBlankInside => 0,
            StateName::CodeIndentedFurtherBegin => 4,
            StateName::CodeIndentedFurtherAfter => 3,
            StateName::TitleStart => 0,
            StateName::TitleBegin(kind) => if code == Code::Char(kind.marker()) {
                0
            } else {
                3
            },
            StateName::TitleAtBreak(_) => if code is Char {
                1
            } else {
                0
            },
            StateName::TitleLineStart(_) => 3,
            StateName::TitleLineBegin(_) => 2,
            StateName::TitleInside(kind) => if code == Code::Char(kind.marker()) {
                2
            } else if code is Char {
                0
            } else {
                1
            },
            StateName::TitleEscape(kind) => if code == Code::Char(kind.marker()) {
                0
            } else {
                3
            },
            StateName::ContentDispatch(content, index) => 10 + less(
                content.candidates(),
                index as int,
            ),
            StateName::ContentAfter(_) => 0,
            StateName::ContentDataInside(_) => if code is Char {
                0
            } else {
                1
            },
        }
    }
}

/// The tokenizer at the end of the run that starts with the state called
/// `name` on `v`, when that run ends in [`State::Okay`]; `None` when it ends in
/// [`State::Nok`].
pub open spec fn outcome(name: StateName, v: TokenizerView) -> Option<TokenizerView> {
    match name {
        StateName::ContentDispatch(content, index) => Some(
            content::content_from(v, content, index as int),
        ),
        StateName::ContentAfter(content) => Some(content::content_after(v, content)),
        StateName::ContentDataInside(content) => Some(content::data_rest(v, content)),
        _ => construct_outcome(name, v),
    }
}

/// As [`outcome`], for the states of constructs.
pub open spec fn construct_outcome(name: StateName, v: TokenizerView) -> Option<TokenizerView> {
    match name {
        StateName::SpaceOrTabStart(min, max) => partial_space_or_tab::run(
            v,
            min as int,
            max as int,
        ),
        StateName::SpaceOrTabInside(min, max) => partial_space_or_tab::run_rest(
            v,
            min as int,
            max as int,
        ),
        StateName::BlankLineStart => blank_line::blank_line(v),
        StateName::BlankLineAfter => blank_line::blank_line_end(v),
        StateName::CodeIndentedStart => code_indented::code_indented(v),
        StateName::CodeIndentedAtBreak => Some(code_indented::block_rest(v)),
        StateName::CodeIndentedInside => Some(code_indented::chunk_rest(v)),
        StateName::CodeIndentedAfter => Some(code_indented::close(v)),
        StateName::CodeIndentedFurtherStart => code_indented::next_line(v),
        StateName::CodeIndentedFurtherEnd => code_indented::next_line_indented(v),
        StateName::CodeIndentedFurtherBlank => code_indented::blank_chunk(v),
        StateName::CodeIndentedFurtherBlankInside => code_indented::blank_chunk_rest(v),
        StateName::CodeIndentedFurtherBegin => code_indented::next_line_past_blank(v),
        StateName::CodeIndentedFurtherAfter => code_indented::next_line_past_spaces(v),
        StateName::TitleStart => partial_title::title_from(v),
        StateName::TitleBegin(kind) => partial_title::opened_rest(v, kind),
        StateName::TitleAtBreak(kind) => partial_title::string_rest(v, kind),
        StateName::TitleLineStart(kind) => partial_title::line_rest(v, kind),
        StateName::TitleLineBegin(kind) => partial_title::filled_line_rest(v, kind),
        StateName::TitleInside(kind) => partial_title::chunk_rest(v, kind),
        StateName::TitleEscape(kind) => partial_title::escaped_chunk_rest(v, kind),
        _ => None,
    }
}

/// What the state function of the state called `name` does on `v`: its
/// result, and the tokenizer as it leaves it.
pub open spec fn step(name: StateName, v: TokenizerView) -> (State, TokenizerView) {
    match name {
        StateName::SpaceOrTabStart(_, _) | StateName::SpaceOrTabInside(_, _) => {
            partial_space_or_tab::step(name, v)
        },
        StateName::BlankLineStart | StateName::BlankLineAfter => blank_line::step(name, v),
        StateName::TitleStart
        | StateName::TitleBegin(_)
        | StateName::TitleAtBreak(_)
        | StateName::TitleLineStart(_)
        | StateName::TitleLineBegin(_)
        | StateName::TitleInside(_)
        | StateName::TitleEscape(_) => partial_title::step(name, v),
        StateName::ContentDispatch(_, _)
        | StateName::ContentAfter(_)
        | StateName::ContentDataInside(_) => content::step(name, v),
        _ => code_indented::step(name, v),
    }
}

/// The end of the run that starts with the state called `name` on `v`:
/// whether it ends in [`State::Okay`], and the tokenizer as the last state
/// function leaves it. The run goes from state to state as [`step`] says.
pub open spec fn run_end(name: StateName, v: TokenizerView) -> (bool, TokenizerView)
    decreases v.remaining(), name.rank(v.code()),
{
    match step(name, v) {
        (State::Okay, after) => (true, after),
        (State::Nok, after) => (false, after),
        (State::Next(next), after) => if lower(next, after, name, v) {
            run_end(next, after)
        } else {
            (false, after)
        },
    }
}

/// The tokenizer at the end of the run that goes on from `v` as `state`
/// says, when that run ends in [`State::Okay`].
pub open spec fn resume(state: State, v: TokenizerView) -> Option<TokenizerView> {
    match state {
        State::Next(name) => outcome(name, v),
        State::Okay => Some(v),
        State::Nok => None,
    }
}

/// The state called `next` on `post` is nearer to the end of its run than
/// the state called `name` on `pre`: less text is left, or as much and the
/// rank is lower.
pub open spec fn lower(
    next: StateName,
    post: TokenizerView,
    name: StateName,
    pre: TokenizerView,
) -> bool {
    0 <= post.remaining() < pre.remaining() || (post.remaining() == pre.remaining() && 0
        <= next.rank(post.code()) < name.rank(pre.code()))
}

/// What every state function keeps to, `name` being its state, `pre` and
/// `post` the tokenizer before and after it, and `state` its result:
/// it does what [`step`] says, a state of a construct sets no flag unless
/// the construct matches, it adds events and moves the cursor forward only,
/// it adds chunks only in a construct that sets chunks aside, it leaves open
/// what the next state works in, it hands on to no higher level, it comes
/// nearer to the end of the run, and the run ends as the run from `name` on
/// `pre` ends.
pub open spec fn transition(
    name: StateName,
    pre: TokenizerView,
    post: TokenizerView,
    state: State,
) -> bool {
    &&& (state, post) == step(name, pre)
    &&& state != State::Okay && name.in_construct() ==> post.interrupt == pre.interrupt
    &&& post.wf()
    &&& post.same_context(pre)
    &&& post.offset >= pre.offset
    &&& extends(post.events, pre.events)
    &&& !name.sets_chunks_aside() ==> chunk_free(post.events, pre.events.len() as int)
    &&& match state {
        State::Next(next) => {
            &&& post.expects(next)
            &&& post.base(next) == pre.base(name)
            &&& next.level() <= name.level()
            &&& next.sets_chunks_aside() ==> name.sets_chunks_aside()
            &&& lower(next, post, name, pre)
        },
        State::Okay => post.open() == pre.base(name),
        State::Nok => true,
    }
    &&& resume(state, post) == outcome(name, pre)
}

/// A tokenizer whose open kinds are `base` and then those that the state
/// called `name` works in is one that the state expects.
pub proof fn lemma_expects(v: TokenizerView, name: StateName, base: Seq<Token>)
    requires
        v.open() =~= base + name.opens(),
    ensures
        v.expects(name),
        v.base(name) == base,
{
    assert(v.open().take(v.open().len() - name.opens().len()) =~= base);
}

/// Calls the state function of the state called `name`.
pub fn call(tokenizer: &mut Tokenizer, name: StateName) -> (state: State)
    requires
        old(tokenizer)@.wf(),
        old(tokenizer)@.expects(name),
    ensures
        transition(name, old(tokenizer)@, final(tokenizer)@, state),
    decreases name.level(), 0int, name.rank(old(tokenizer)@.code()), 1int,
{
    match name {
        StateName::SpaceOrTabStart(min, max) => partial_space_or_tab::start(tokenizer, min, max),
        StateName::SpaceOrTabInside(min, max) => partial_space_or_tab::inside(tokenizer, min, max),
        StateName::BlankLineStart => blank_line::start(tokenizer),
        StateName::BlankLineAfter => blank_line::after(tokenizer),
        StateName::CodeIndentedStart => code_indented::start(tokenizer),
        StateName::CodeIndentedAtBreak => code_indented::at_break(tokenizer),
        StateName::CodeIndentedInside => code_indented::inside(tokenizer),
        StateName::CodeIndentedAfter => code_indented::after(tokenizer),
        StateName::CodeIndentedFurtherStart => code_indented::further_start(tokenizer),
        StateName::CodeIndentedFurtherEnd => code_indented::further_end(tokenizer),
        StateName::CodeIndentedFurtherBlank => code_indented::further_blank(tokenizer),
        StateName::CodeIndentedFurtherBlankInside => code_indented::further_blank_inside(
            tokenizer,
        ),
        StateName::CodeIndentedFurtherBegin => code_indented::further_begin(tokenizer),
        StateName::CodeIndentedFurtherAfter => code_indented::further_after(tokenizer),
        StateName::TitleStart => partial_title::start(tokenizer),
        StateName::TitleBegin(kind) => partial_title::begin(tokenizer, kind),
        StateName::TitleAtBreak(kind) => partial_title::at_break(tokenizer, kind),
        StateName::TitleLineStart(kind) => partial_title::line_start(tokenizer, kind),
        StateName::TitleLineBegin(kind) => partial_title::line_begin(tokenizer, kind),
        StateName::TitleInside(kind) => partial_title::title(tokenizer, kind),
        StateName::TitleEscape(kind) => partial_title::escape(tokenizer, kind),
        StateName::ContentDispatch(content, index) => content::dispatch(tokenizer, content, index),
        StateName::ContentAfter(content) => content::after(tokenizer, content),
        StateName::ContentDataInside(content) => content::data_inside(tokenizer, content),
    }
}

} // verus!
