//! Content types: for each, the constructs that are tried at the start of
//! a line, in order, and the data that stands where none of them matches.

use vstd::prelude::*;
use crate::construct::{blank_line, code_indented, partial_space_or_tab};
use crate::state::{construct_outcome, lemma_expects, transition, State, StateName};
use crate::token::{ContentType, Token};
use crate::tokenizer::{less, Code, Tokenizer, TokenizerView};

verus! {

impl ContentType {
    /// Number of constructs of the content type.
    pub open spec fn candidates(self) -> int {
        match self {
            ContentType::Flow => 2,
            ContentType::String => 0,
        }
    }

    /// The start state of the construct that is tried at place `index`.
    pub open spec fn candidate_at(self, index: int) -> Option<StateName> {
        match self {
            ContentType::Flow => if index == 0 {
                Some(StateName::BlankLineStart)
            } else if index == 1 {
                Some(StateName::CodeIndentedStart)
            } else {
                None
            },
            ContentType::String => None,
        }
    }

    /// How deep chunks can lie in text of this content type: a chunk is
    /// tokenized again under a content type of a lower level.
    pub open spec fn level(self) -> nat {
        match self {
            ContentType::Flow => 1,
            ContentType::String => 0,
        }
    }

    /// How deep chunks can lie in text of this content type.
    pub fn nesting_level(self) -> (level: u8)
        ensures
            level == self.level(),
    {
        match self {
            ContentType::Flow => 1,
            ContentType::String => 0,
        }
    }

    /// The start state of the construct that is tried at place `index`, if
    /// there is one.
    pub fn candidate(self, index: usize) -> (name: Option<StateName>)
        ensures
            name == self.candidate_at(index as int),
            name is Some <==> index < self.candidates(),
    {
        match self {
            ContentType::Flow => if index == 0 {
                Some(StateName::BlankLineStart)
            } else if index == 1 {
                Some(StateName::CodeIndentedStart)
            } else {
                None
            },
            ContentType::String => None,
        }
    }
}

/// The tokenizer at the end of a line of data: its span is closed, and in
/// flow a construct that starts after it would interrupt a paragraph.
pub open spec fn data_end(v: TokenizerView, content: ContentType) -> TokenizerView {
    if content == ContentType::Flow {
        v.exit(Token::Data).with_interrupt(true)
    } else {
        v.exit(Token::Data)
    }
}

/// The content from the cursor to the end of the text, the cursor being at
/// the start of a line and the constructs before place `index` having failed
/// there: the first construct from `index` on that matches stands, and where
/// none matches the rest of the line is data.
pub open spec fn content_from(v: TokenizerView, content: ContentType, index: int) -> TokenizerView
    decreases v.remaining(), StateName::ContentDispatch(content, index as usize).rank(v.code()),
        less(content.candidates(), index),
{
    match content.candidate_at(index) {
        Some(name) => match construct_outcome(name, v) {
            Some(matched) => {
                proof {
                    lemma_candidate_forward(v, content, index);
                }
                content_after(matched, content)
            },
            None => content_from(v, content, index + 1),
        },
        None => content_after(v, content),
    }
}

/// The content from the cursor to the end of the text, the cursor being
/// after a construct or where none matched: a line ending is a span of its
/// own and the constructs are tried again after it, anything else is data up
/// to the end of the line, and at the end of the text the content ends.
pub open spec fn content_after(v: TokenizerView, content: ContentType) -> TokenizerView
    decreases v.remaining(), StateName::ContentAfter(content).rank(v.code()), 0int,
{
    match v.code() {
        Code::Eof => v,
        Code::LineEnding => content_from(
            v.enter(Token::LineEnding).consume().exit(Token::LineEnding),
            content,
            0,
        ),
        Code::Char(_) => data_rest(v.enter(Token::Data).consume(), content),
    }
}

/// The content from the cursor to the end of the text, the cursor being in
/// data.
pub open spec fn data_rest(v: TokenizerView, content: ContentType) -> TokenizerView
    decreases v.remaining(), StateName::ContentDataInside(content).rank(v.code()), 0int,
{
    if v.code() is Char {
        data_rest(v.consume(), content)
    } else {
        content_after(data_end(v, content), content)
    }
}

/// What the state functions of content do on `v`.
pub open spec fn step(name: StateName, v: TokenizerView) -> (State, TokenizerView)
    decreases name.rank(v.code()),
{
    match name {
        StateName::ContentDispatch(content, index) => match content.candidate_at(index as int) {
            Some(candidate) => match construct_outcome(candidate, v) {
                Some(matched) => (State::Next(StateName::ContentAfter(content)), matched),
                None => (
                    State::Next(StateName::ContentDispatch(content, (index + 1) as usize)),
                    v,
                ),
            },
            None => step(StateName::ContentAfter(content), v),
        },
        StateName::ContentAfter(content) => match v.code() {
            Code::Eof => (State::Okay, v),
            Code::LineEnding => (
                State::Next(StateName::ContentDispatch(content, 0)),
                v.enter(Token::LineEnding).consume().exit(Token::LineEnding),
            ),
            Code::Char(_) => (
                State::Next(StateName::ContentDataInside(content)),
                v.enter(Token::Data).consume(),
            ),
        },
        StateName::ContentDataInside(content) => if v.code() is Char {
            (State::Next(StateName::ContentDataInside(content)), v.consume())
        } else {
            step(StateName::ContentAfter(content), data_end(v, content))
        },
        _ => (State::Nok, v),
    }
}

/// A construct of a content type that matches does not move the cursor
/// back, nor past the end.
pub proof fn lemma_candidate_forward(v: TokenizerView, content: ContentType, index: int)
    ensures
        content.candidate_at(index) matches Some(name) ==> (construct_outcome(name, v) matches Some(
            matched,
        ) ==> {
            &&& matched.end == v.end
            &&& matched.offset >= v.offset
            &&& 0 <= matched.remaining() || matched.offset == v.offset
        }),
{
    if content == ContentType::Flow && 0 <= v.remaining() {
        partial_space_or_tab::lemma_run_forward(v, 1, usize::MAX as int);
        code_indented::lemma_code_indented_forward(v);
    }
}

/// At the start of a line, or where the constructs before place `index`
/// failed.
///
/// ```markdown
/// > | aaa
///     ^
/// ```
pub fn dispatch(tokenizer: &mut Tokenizer, content: ContentType, index: usize) -> (state: State)
    requires
        old(tokenizer)@.wf(),
        old(tokenizer)@.expects(StateName::ContentDispatch(content, index)),
    ensures
        transition(
            StateName::ContentDispatch(content, index),
            old(tokenizer)@,
            final(tokenizer)@,
            state,
        ),
    decreases StateName::ContentDispatch(content, index).level(), 0int, StateName::ContentDispatch(content, index).rank(old(tokenizer)@.code()), 0int,
{
    let ghost base = tokenizer@.open();
    proof {
        lemma_expects(tokenizer@, StateName::ContentDispatch(content, index), base);
        lemma_expects(tokenizer@, StateName::ContentAfter(content), base);
    }
    match content.candidate(index) {
        Some(name) => {
            proof {
                lemma_expects(tokenizer@, name, base);
            }
            let state = tokenizer.attempt(
                name,
                State::Next(StateName::ContentAfter(content)),
                State::Next(StateName::ContentDispatch(content, index + 1)),
            );
            proof {
                lemma_expects(tokenizer@, StateName::ContentAfter(content), base);
                lemma_expects(tokenizer@, StateName::ContentDispatch(content, (index + 1) as usize), base);
            }
            state
        },
        None => after(tokenizer, content),
    }
}

/// After a construct, or where none matched.
///
/// ```markdown
/// > | aaa
///        ^
/// ```
pub fn after(tokenizer: &mut Tokenizer, content: ContentType) -> (state: State)
    requires
        old(tokenizer)@.wf(),
        old(tokenizer)@.expects(StateName::ContentAfter(content)),
    ensures
        transition(StateName::ContentAfter(content), old(tokenizer)@, final(tokenizer)@, state),
    decreases StateName::ContentAfter(content).level(), 0int, StateName::ContentAfter(content).rank(old(tokenizer)@.code()), 0int,
{
    let ghost base = tokenizer@.open();
    proof {
        lemma_expects(tokenizer@, StateName::ContentAfter(content), base);
    }
    match tokenizer.current() {
        Code::Eof => State::Okay,
        Code::LineEnding => {
            tokenizer.enter(Token::LineEnding);
            tokenizer.consume();
            tokenizer.exit(Token::LineEnding);
            proof {
                assert(base.push(Token::LineEnding).drop_last() =~= base);
                lemma_expects(tokenizer@, StateName::ContentDispatch(content, 0), base);
            }
            State::Next(StateName::ContentDispatch(content, 0))
        },
        Code::Char(_) => {
            tokenizer.enter(Token::Data);
            tokenizer.consume();
            proof {
                lemma_expects(tokenizer@, StateName::ContentDataInside(content), base);
            }
            State::Next(StateName::ContentDataInside(content))
        },
    }
}

/// In data.
///
/// ```markdown
/// > | aaa
///      ^^
/// ```
pub fn data_inside(tokenizer: &mut Tokenizer, content: ContentType) -> (state: State)
    requires
        old(tokenizer)@.wf(),
        old(tokenizer)@.expects(StateName::ContentDataInside(content)),
    ensures
        transition(
            StateName::ContentDataInside(content),
            old(tokenizer)@,
            final(tokenizer)@,
            state,
        ),
    decreases StateName::ContentDataInside(content).level(), 0int, StateName::ContentDataInside(content).rank(old(tokenizer)@.code()), 0int,
{
    let ghost base = tokenizer@.base(StateName::ContentDataInside(content));
    match tokenizer.current() {
        Code::Char(_) => {
            tokenizer.consume();
            proof {
                lemma_expects(tokenizer@, StateName::ContentDataInside(content), base);
            }
            State::Next(StateName::ContentDataInside(content))
        },
        _ => {
            tokenizer.exit(Token::Data);
            if content == ContentType::Flow {
                // What starts after this would interrupt a paragraph.
                tokenizer.interrupt = true;
            }
            proof {
                lemma_expects(tokenizer@, StateName::ContentAfter(content), base);
            }
            after(tokenizer, content)
        },
    }
}

} // verus!
