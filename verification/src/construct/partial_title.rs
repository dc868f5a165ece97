//! Title occurs in definitions and label ends.
//!
//! ```bnf
//! ; Restriction: no blank lines.
//! ; Restriction: markers must match (in case of `(` with `)`).
//! title ::= marker [  *( code - '\\' | '\\' [ marker ] ) ] marker
//! marker ::= '"' | '\'' | '('
//! ```
//!
//! Titles can be double quoted (`"a"`), single quoted (`'a'`), or
//! parenthesized (`(a)`).
//!
//! Titles can contain line endings and whitespace, but they are not allowed to
//! contain blank lines.
//! They are allowed to be blank themselves.
//!
//! The title is interpreted as the string content type: its text is set
//! aside in chunks that are tokenized again.
//!
//! ## Tokens
//!
//! *   [`DefinitionTitle`][Token::DefinitionTitle]
//! *   [`DefinitionTitleMarker`][Token::DefinitionTitleMarker]
//! *   [`DefinitionTitleString`][Token::DefinitionTitleString]
//! *   [`ChunkString`][Token::ChunkString]
//! *   [`LineEnding`][Token::LineEnding]
//! *   [`SpaceOrTab`][Token::SpaceOrTab]

use vstd::prelude::*;
use crate::constant::{
    APOSTROPHE,
    BACKSLASH,
    CARRIAGE_RETURN,
    LEFT_PARENTHESIS,
    LINE_FEED,
    QUOTATION_MARK,
    RIGHT_PARENTHESIS,
};
use crate::construct::partial_space_or_tab;
use crate::construct::partial_space_or_tab::space_or_tab;
use crate::state::{lemma_expects, transition, State, StateName};
use crate::token::{balanced, extends, lemma_nesting_on_nothing, Boundary, Event, Token};
use crate::tokenizer::{
    is_eol,
    lemma_adds_enter,
    lemma_adds_exit,
    lemma_adds_nothing,
    Code,
    Tokenizer,
    TokenizerView,
};

verus! {

/// Type of title.
#[derive(Debug, Clone, Copy, PartialEq, Eq, Structural)]
pub enum Kind {
    /// In a parenthesized (`(` and `)`) title.
    Paren,
    /// In a double quoted (`"`) title.
    Double,
    /// In a single quoted (`'`) title.
    Single,
}

impl Kind {
    /// The byte that closes a title of this kind.
    pub open spec fn marker(self) -> u8 {
        match self {
            Kind::Double => QUOTATION_MARK,
            Kind::Single => APOSTROPHE,
            Kind::Paren => RIGHT_PARENTHESIS,
        }
    }

    /// The kind of title that `code` opens.
    pub open spec fn opened_by(code: Code) -> Option<Kind> {
        if code == Code::Char(QUOTATION_MARK) {
            Some(Kind::Double)
        } else if code == Code::Char(APOSTROPHE) {
            Some(Kind::Single)
        } else if code == Code::Char(LEFT_PARENTHESIS) {
            Some(Kind::Paren)
        } else {
            None
        }
    }
}

/// Whether the marker that closes a title of `kind` is at the cursor.
pub open spec fn at_marker(v: TokenizerView, kind: Kind) -> bool {
    v.code() == Code::Char(kind.marker())
}

/// The tokenizer once the cursor has passed the text of a chunk: it stops
/// at the closing marker, at a line ending and at the end of the text, and a
/// backslash takes the closing marker that follows it into the chunk.
pub open spec fn text_rest(v: TokenizerView, kind: Kind) -> TokenizerView
    decreases v.remaining(), 0int,
{
    match v.code() {
        Code::Char(byte) => if byte == kind.marker() {
            v
        } else if byte == BACKSLASH {
            escaped_rest(v.consume(), kind)
        } else {
            text_rest(v.consume(), kind)
        },
        _ => v,
    }
}

/// As [`text_rest`], with the cursor right after a backslash.
pub open spec fn escaped_rest(v: TokenizerView, kind: Kind) -> TokenizerView
    decreases v.remaining(), 1int,
{
    if at_marker(v, kind) {
        text_rest(v.consume(), kind)
    } else {
        text_rest(v, kind)
    }
}

/// The tokenizer once the title is closed at the cursor, which is at the
/// closing marker: the marker is one span, and the span of the title ends
/// after it.
pub open spec fn closing(v: TokenizerView) -> TokenizerView {
    v.enter(Token::DefinitionTitleMarker).consume().exit(Token::DefinitionTitleMarker).exit(
        Token::DefinitionTitle,
    )
}

/// The rest of a title from the cursor, which is between two chunks of its
/// string: at the closing marker the string and the title are closed, a line
/// ending is a span of its own and the line after it must not be blank, and
/// any other text is one chunk up to where [`text_rest`] stops. `None` where
/// the text ends before the closing marker, and where a line is blank.
pub open spec fn string_rest(v: TokenizerView, kind: Kind) -> Option<TokenizerView>
    decreases v.remaining(), StateName::TitleAtBreak(kind).rank(v.code()),
{
    match v.code() {
        Code::Eof => None,
        Code::LineEnding => line_rest(
            v.enter(Token::LineEnding).consume().exit(Token::LineEnding),
            kind,
        ),
        Code::Char(byte) => if byte == kind.marker() {
            Some(closing(v.exit(Token::DefinitionTitleString)))
        } else {
            proof {
                lemma_text_advances(v.enter(Token::ChunkString), kind);
            }
            string_rest(
                text_rest(v.enter(Token::ChunkString), kind).exit(Token::ChunkString),
                kind,
            )
        },
    }
}

/// The rest of a title from the start of a line: spaces and tabs are one
/// span, and what follows them must not be a line ending.
pub open spec fn line_rest(v: TokenizerView, kind: Kind) -> Option<TokenizerView>
    decreases v.remaining(), StateName::TitleLineStart(kind).rank(v.code()),
{
    proof {
        partial_space_or_tab::lemma_run_forward(v, 1, usize::MAX as int);
    }
    filled_line_rest(partial_space_or_tab::run_opt(v), kind)
}

/// The rest of a title from the cursor, which is after the spaces and tabs
/// that start a line: a line ending here makes the line blank, and the title
/// fails.
pub open spec fn filled_line_rest(v: TokenizerView, kind: Kind) -> Option<TokenizerView>
    decreases v.remaining(), StateName::TitleLineBegin(kind).rank(v.code()),
{
    if v.code() is LineEnding {
        None
    } else {
        string_rest(v, kind)
    }
}

/// The rest of a title from the cursor, which is right after the opening
/// marker: at the closing marker the title is empty and closed; anything else
/// opens the string of the title.
pub open spec fn opened_rest(v: TokenizerView, kind: Kind) -> Option<TokenizerView> {
    if at_marker(v, kind) {
        Some(closing(v))
    } else {
        string_rest(v.enter(Token::DefinitionTitleString), kind)
    }
}

/// A title from the cursor, which must be at an opening marker: the span
/// of the title is entered, the marker is one span, and [`opened_rest`]
/// follows.
pub open spec fn title_from(v: TokenizerView) -> Option<TokenizerView> {
    match Kind::opened_by(v.code()) {
        Some(kind) => opened_rest(
            v.enter(Token::DefinitionTitle).enter(Token::DefinitionTitleMarker).consume().exit(
                Token::DefinitionTitleMarker,
            ),
            kind,
        ),
        None => None,
    }
}

/// The rest of a title from the cursor, which is in a chunk.
pub open spec fn chunk_rest(v: TokenizerView, kind: Kind) -> Option<TokenizerView> {
    string_rest(text_rest(v, kind).exit(Token::ChunkString), kind)
}

/// The rest of a title from the cursor, which is in a chunk, right after a
/// backslash.
pub open spec fn escaped_chunk_rest(v: TokenizerView, kind: Kind) -> Option<TokenizerView> {
    string_rest(escaped_rest(v, kind).exit(Token::ChunkString), kind)
}

/// What the state functions of this construct do on `v`.
pub open spec fn step(name: StateName, v: TokenizerView) -> (State, TokenizerView)
    decreases name.rank(v.code()),
{
    match name {
        StateName::TitleStart => match Kind::opened_by(v.code()) {
            Some(kind) => (
                State::Next(StateName::TitleBegin(kind)),
                v.enter(Token::DefinitionTitle).enter(Token::DefinitionTitleMarker).consume().exit(
                    Token::DefinitionTitleMarker,
                ),
            ),
            None => (State::Nok, v),
        },
        StateName::TitleBegin(kind) => if at_marker(v, kind) {
            (State::Okay, closing(v))
        } else {
            step(StateName::TitleAtBreak(kind), v.enter(Token::DefinitionTitleString))
        },
        StateName::TitleAtBreak(kind) => match v.code() {
            Code::Eof => (State::Nok, v),
            Code::LineEnding => (
                State::Next(StateName::TitleLineStart(kind)),
                v.enter(Token::LineEnding).consume().exit(Token::LineEnding),
            ),
            Code::Char(byte) => if byte == kind.marker() {
                step(StateName::TitleBegin(kind), v.exit(Token::DefinitionTitleString))
            } else {
                step(StateName::TitleInside(kind), v.enter(Token::ChunkString))
            },
        },
        StateName::TitleLineStart(kind) => (
            State::Next(StateName::TitleLineBegin(kind)),
            partial_space_or_tab::run_opt(v),
        ),
        StateName::TitleLineBegin(kind) => if v.code() is LineEnding {
            (State::Nok, v)
        } else {
            step(StateName::TitleAtBreak(kind), v)
        },
        StateName::TitleInside(kind) => match v.code() {
            Code::Char(byte) => if byte == kind.marker() {
                step(StateName::TitleAtBreak(kind), v.exit(Token::ChunkString))
            } else if byte == BACKSLASH {
                (State::Next(StateName::TitleEscape(kind)), v.consume())
            } else {
                (State::Next(StateName::TitleInside(kind)), v.consume())
            },
            _ => step(StateName::TitleAtBreak(kind), v.exit(Token::ChunkString)),
        },
        StateName::TitleEscape(kind) => if at_marker(v, kind) {
            (State::Next(StateName::TitleInside(kind)), v.consume())
        } else {
            step(StateName::TitleInside(kind), v)
        },
        _ => (State::Nok, v),
    }
}

/// [`text_rest`] does not move the cursor back, nor past the end, and it
/// moves the cursor forward from any byte but the closing marker.
pub proof fn lemma_text_advances(v: TokenizerView, kind: Kind)
    ensures
        text_rest(v, kind).end == v.end,
        text_rest(v, kind).offset >= v.offset,
        0 <= v.remaining() ==> 0 <= text_rest(v, kind).remaining(),
        v.code() is Char && !at_marker(v, kind) ==> text_rest(v, kind).offset > v.offset,
        escaped_rest(v, kind).end == v.end,
        escaped_rest(v, kind).offset >= v.offset,
        0 <= v.remaining() ==> 0 <= escaped_rest(v, kind).remaining(),
    decreases v.remaining(), 1int,
{
    if v.code() is Char {
        lemma_text_advances(v.consume(), kind);
        if at_marker(v, kind) {
        } else if v.code() == Code::Char(BACKSLASH) {
            if at_marker(v.consume(), kind) {
                lemma_text_advances(v.consume().consume(), kind);
            }
        }
    }
}

/// A backslash right before the closing marker takes the marker into the
/// chunk; a backslash before anything else is text like any other, and what
/// follows it is read as if no backslash stood before it.
pub proof fn lemma_escape(v: TokenizerView, kind: Kind)
    requires
        v.code() == Code::Char(BACKSLASH),
    ensures
        at_marker(v.consume(), kind) ==> text_rest(v, kind) == text_rest(
            v.consume().consume(),
            kind,
        ) && text_rest(v, kind).offset >= v.offset + 2,
        !at_marker(v.consume(), kind) ==> text_rest(v, kind) == text_rest(v.consume(), kind),
{
    assert(text_rest(v, kind) == escaped_rest(v.consume(), kind));
    lemma_text_advances(v.consume().consume(), kind);
}

/// Whether the cursor is at a line ending after which a blank line stands:
/// spaces and tabs, if any, and a line ending again.
pub open spec fn blank_line_follows(v: TokenizerView) -> bool {
    &&& v.code() is LineEnding
    &&& partial_space_or_tab::skip(v.consume(), usize::MAX as int).code() is LineEnding
}

/// A blank line makes a title fail, whatever came before it: from a line
/// ending after which a blank line stands, in whatever state of the title the
/// cursor has reached it, the run fails.
pub proof fn lemma_blank_line_fails(v: TokenizerView, kind: Kind)
    requires
        blank_line_follows(v),
    ensures
        opened_rest(v, kind) is None,
        string_rest(v, kind) is None,
        chunk_rest(v, kind) is None,
        escaped_chunk_rest(v, kind) is None,
{
    lemma_blank_line_fails_string(v, v, kind);
    lemma_blank_line_fails_string(v, v.enter(Token::DefinitionTitleString), kind);
    lemma_blank_line_fails_string(v, v.exit(Token::ChunkString), kind);
}

/// From a line ending after which a blank line stands, between two chunks,
/// the run fails.
proof fn lemma_blank_line_fails_string(v: TokenizerView, w: TokenizerView, kind: Kind)
    requires
        blank_line_follows(v),
        w.same_cursor(v),
    ensures
        string_rest(w, kind) is None,
{
    let line = w.enter(Token::LineEnding).consume().exit(Token::LineEnding);
    partial_space_or_tab::lemma_same_skip(v.consume(), line, usize::MAX as int);
    partial_space_or_tab::lemma_run_opt(line);
    assert(string_rest(w, kind) == line_rest(line, kind));
    assert(line_rest(line, kind) == filled_line_rest(partial_space_or_tab::run_opt(line), kind));
}

/// Whether the byte at offset `p` is the last of a line ending.
pub open spec fn ends_line(v: TokenizerView, p: int) -> bool {
    &&& 0 <= p < v.end
    &&& p < v.bytes.len()
    &&& is_eol(v.bytes[p])
    &&& !(v.bytes[p] == CARRIAGE_RETURN && p + 1 < v.end && v.bytes[p + 1] == LINE_FEED)
}

/// Whether the line that starts at offset `line` is blank and ends in a
/// line ending: after its spaces and tabs, if any, stands a line ending.
pub open spec fn blank_at(v: TokenizerView, line: int) -> bool {
    partial_space_or_tab::skip(v.at(line, 0), usize::MAX as int).code() is LineEnding
}

/// Whether no line that starts after a line ending between `from` and `to`
/// is blank.
pub open spec fn no_blank_line(v: TokenizerView, from: int, to: int) -> bool {
    forall|p: int| from <= p < to && #[trigger] ends_line(v, p) ==> !blank_at(v, p + 1)
}

/// A title holds no blank line: where a title matches, no line that starts
/// in it after a line ending is blank.
pub proof fn lemma_title_has_no_blank_line(v: TokenizerView)
    ensures
        title_from(v) matches Some(after) ==> no_blank_line(v, v.offset, after.offset),
{
    if let Some(kind) = Kind::opened_by(v.code()) {
        let opened = v.enter(Token::DefinitionTitle).enter(
            Token::DefinitionTitleMarker,
        ).consume().exit(Token::DefinitionTitleMarker);
        if !at_marker(opened, kind) {
            lemma_string_rest_no_blank_line(v, opened.enter(Token::DefinitionTitleString), kind);
        }
    }
}

/// Between the cursor and the end of a title that matches from between two
/// chunks, no line that starts after a line ending is blank.
proof fn lemma_string_rest_no_blank_line(origin: TokenizerView, v: TokenizerView, kind: Kind)
    requires
        v.same_context(origin),
    ensures
        string_rest(v, kind) matches Some(after) ==> no_blank_line(origin, v.offset, after.offset),
    decreases v.remaining(), StateName::TitleAtBreak(kind).rank(v.code()),
{
    match v.code() {
        Code::Eof => {},
        Code::LineEnding => {
            let line = v.enter(Token::LineEnding).consume().exit(Token::LineEnding);
            let start = origin.at(line.offset, 0);
            let filled = partial_space_or_tab::run_opt(line);
            partial_space_or_tab::lemma_run_forward(line, 1, usize::MAX as int);
            partial_space_or_tab::lemma_same_skip(start, line, usize::MAX as int);
            partial_space_or_tab::lemma_run_opt(line);
            assert(string_rest(v, kind) == line_rest(line, kind));
            assert(line_rest(line, kind) == filled_line_rest(filled, kind));
            if string_rest(v, kind) is Some {
                let after = string_rest(v, kind).unwrap();
                assert(filled.code() == partial_space_or_tab::skip(
                    start,
                    usize::MAX as int,
                ).code());
                lemma_string_rest_no_blank_line(origin, filled, kind);
                assert forall|p: int| v.offset <= p < after.offset && #[trigger] ends_line(
                    origin,
                    p,
                ) implies !blank_at(origin, p + 1) by {
                    if line.offset <= p < filled.offset {
                        partial_space_or_tab::lemma_skip_passes(start, usize::MAX as int, p);
                    }
                }
            }
        },
        Code::Char(byte) => {
            if byte != kind.marker() {
                let chunk = v.enter(Token::ChunkString);
                let text = text_rest(chunk, kind);
                lemma_text_advances(chunk, kind);
                lemma_text_context(chunk, kind);
                if string_rest(v, kind) is Some {
                    let after = string_rest(v, kind).unwrap();
                    lemma_string_rest_no_blank_line(origin, text.exit(Token::ChunkString), kind);
                    assert forall|p: int| v.offset <= p < after.offset && #[trigger] ends_line(
                        origin,
                        p,
                    ) implies !blank_at(origin, p + 1) by {
                        if p < text.offset {
                            lemma_text_passes(chunk, kind, p);
                        }
                    }
                }
            }
        },
    }
}

/// The text of a chunk is in the same text as the cursor.
proof fn lemma_text_context(v: TokenizerView, kind: Kind)
    ensures
        text_rest(v, kind).same_context(v),
        escaped_rest(v, kind).same_context(v),
        text_rest(v, kind).events == v.events,
        escaped_rest(v, kind).events == v.events,
    decreases v.remaining(), 1int,
{
    if v.code() is Char {
        lemma_text_context(v.consume(), kind);
        if v.consume().code() is Char {
            lemma_text_context(v.consume().consume(), kind);
        }
    }
}

/// The text of a chunk holds no line ending.
proof fn lemma_text_passes(v: TokenizerView, kind: Kind, p: int)
    requires
        v.offset <= p,
    ensures
        p < text_rest(v, kind).offset ==> p < v.end && p < v.bytes.len() && !is_eol(v.bytes[p]),
        p < escaped_rest(v, kind).offset ==> p < v.end && p < v.bytes.len() && !is_eol(
            v.bytes[p],
        ),
    decreases v.remaining(), 1int,
{
    if v.code() is Char {
        if p > v.offset {
            lemma_text_passes(v.consume(), kind, p);
            if v.consume().code() is Char && p > v.offset + 1 {
                lemma_text_passes(v.consume().consume(), kind, p);
            }
        }
    }
}

/// The events that one title adds are balanced by themselves: the first
/// enters the title where it starts, the last exits it where it ends, and
/// between them every exit matches the enter last left open.
pub proof fn lemma_title_events_balanced(v: TokenizerView)
    ensures
        title_from(v) matches Some(after) ==> {
            &&& extends(after.events, v.events)
            &&& balanced(after.added_to(v))
            &&& after.added_to(v).first() == (Event {
                kind: Token::DefinitionTitle,
                boundary: Boundary::Enter,
                offset: v.offset as usize,
            })
            &&& after.added_to(v).last() == (Event {
                kind: Token::DefinitionTitle,
                boundary: Boundary::Exit,
                offset: after.offset as usize,
            })
        },
{
    if title_from(v) is Some {
        let kind = Kind::opened_by(v.code()).unwrap();
        let after = title_from(v).unwrap();
        let nothing = Seq::<Token>::empty();
        let title = nothing.push(Token::DefinitionTitle);
        let entered = v.enter(Token::DefinitionTitle);
        let marker = entered.enter(Token::DefinitionTitleMarker);
        let opened = marker.consume().exit(Token::DefinitionTitleMarker);
        // What is added to the events before the title.
        lemma_adds_nothing(v, v, nothing);
        lemma_adds_enter(v, v, Token::DefinitionTitle, nothing, nothing);
        lemma_adds_enter(v, entered, Token::DefinitionTitleMarker, nothing, title);
        lemma_adds_exit(v, marker.consume(), Token::DefinitionTitleMarker, nothing, title);
        lemma_opened_rest_adds(v, opened, kind, nothing, nothing);
        lemma_nesting_on_nothing(after.added_to(v));
        // What is added after the title is entered.
        lemma_adds_nothing(entered, entered, title);
        lemma_adds_enter(entered, entered, Token::DefinitionTitleMarker, title, title);
        lemma_adds_exit(entered, marker.consume(), Token::DefinitionTitleMarker, title, title);
        lemma_opened_rest_adds(entered, opened, kind, title, nothing);
        assert(after.events[v.events.len() as int] == after.events.take(
            entered.events.len() as int,
        )[v.events.len() as int]);
    }
}

/// What closes a title adds its closing marker and the exit of the title,
/// which is the last of it.
proof fn lemma_closing_adds(
    earlier: TokenizerView,
    v: TokenizerView,
    open: Seq<Token>,
    left: Seq<Token>,
)
    requires
        v.adds(earlier, open, left.push(Token::DefinitionTitle)),
    ensures
        closing(v).adds(earlier, open, left),
        closing(v).events.last() == (Event {
            kind: Token::DefinitionTitle,
            boundary: Boundary::Exit,
            offset: closing(v).offset as usize,
        }),
{
    let title = left.push(Token::DefinitionTitle);
    let marker = v.enter(Token::DefinitionTitleMarker);
    lemma_adds_enter(earlier, v, Token::DefinitionTitleMarker, open, title);
    lemma_adds_exit(earlier, marker.consume(), Token::DefinitionTitleMarker, open, title);
    lemma_adds_exit(
        earlier,
        marker.consume().exit(Token::DefinitionTitleMarker),
        Token::DefinitionTitle,
        open,
        left,
    );
}

/// What the rest of a title adds, from right after the opening marker,
/// closes the title.
proof fn lemma_opened_rest_adds(
    earlier: TokenizerView,
    v: TokenizerView,
    kind: Kind,
    open: Seq<Token>,
    left: Seq<Token>,
)
    requires
        v.adds(earlier, open, left.push(Token::DefinitionTitle)),
    ensures
        opened_rest(v, kind) matches Some(after) ==> after.adds(earlier, open, left)
            && after.events.last() == (Event {
            kind: Token::DefinitionTitle,
            boundary: Boundary::Exit,
            offset: after.offset as usize,
        }),
{
    lemma_closing_adds(earlier, v, open, left);
    lemma_adds_enter(
        earlier,
        v,
        Token::DefinitionTitleString,
        open,
        left.push(Token::DefinitionTitle),
    );
    lemma_string_rest_adds(earlier, v.enter(Token::DefinitionTitleString), kind, open, left);
}

/// What the rest of a title adds, from between two chunks, closes the
/// string and the title.
proof fn lemma_string_rest_adds(
    earlier: TokenizerView,
    v: TokenizerView,
    kind: Kind,
    open: Seq<Token>,
    left: Seq<Token>,
)
    requires
        v.adds(earlier, open, left.push(Token::DefinitionTitle).push(Token::DefinitionTitleString)),
    ensures
        string_rest(v, kind) matches Some(after) ==> after.adds(earlier, open, left)
            && after.events.last() == (Event {
            kind: Token::DefinitionTitle,
            boundary: Boundary::Exit,
            offset: after.offset as usize,
        }),
    decreases v.remaining(), StateName::TitleAtBreak(kind).rank(v.code()),
{
    let title = left.push(Token::DefinitionTitle);
    let string = title.push(Token::DefinitionTitleString);
    match v.code() {
        Code::Eof => {},
        Code::LineEnding => {
            let entered = v.enter(Token::LineEnding);
            let line = entered.consume().exit(Token::LineEnding);
            let filled = partial_space_or_tab::run_opt(line);
            lemma_adds_enter(earlier, v, Token::LineEnding, open, string);
            lemma_adds_exit(earlier, entered.consume(), Token::LineEnding, open, string);
            partial_space_or_tab::lemma_run_forward(line, 1, usize::MAX as int);
            partial_space_or_tab::lemma_run_adds(earlier, line, 1, usize::MAX as int, open, string);
            assert(string_rest(v, kind) == line_rest(line, kind));
            assert(line_rest(line, kind) == filled_line_rest(filled, kind));
            if !(filled.code() is LineEnding) {
                lemma_string_rest_adds(earlier, filled, kind, open, left);
            }
        },
        Code::Char(byte) => {
            if byte == kind.marker() {
                lemma_adds_exit(earlier, v, Token::DefinitionTitleString, open, title);
                lemma_closing_adds(earlier, v.exit(Token::DefinitionTitleString), open, left);
            } else {
                let chunk = v.enter(Token::ChunkString);
                let text = text_rest(chunk, kind);
                lemma_text_advances(chunk, kind);
                lemma_text_context(chunk, kind);
                lemma_adds_enter(earlier, v, Token::ChunkString, open, string);
                lemma_adds_exit(earlier, text, Token::ChunkString, open, string);
                lemma_string_rest_adds(earlier, text.exit(Token::ChunkString), kind, open, left);
            }
        },
    }
}

/// Display a marker.
pub fn kind_to_marker(kind: &Kind) -> (marker: u8)
    ensures
        marker == kind.marker(),
{
    match kind {
        Kind::Double => QUOTATION_MARK,
        Kind::Single => APOSTROPHE,
        Kind::Paren => RIGHT_PARENTHESIS,
    }
}

/// Whether the marker that closes a title of `kind` is at the cursor.
fn is_at_marker(tokenizer: &Tokenizer, kind: Kind) -> (yes: bool)
    requires
        tokenizer@.wf(),
    ensures
        yes == at_marker(tokenizer@, kind),
{
    match tokenizer.current() {
        Code::Char(byte) => byte == kind_to_marker(&kind),
        _ => false,
    }
}

/// Before a title.
///
/// ```markdown
/// |"a"
/// |'a'
/// |(a)
/// ```
pub fn start(tokenizer: &mut Tokenizer) -> (state: State)
    requires
        old(tokenizer)@.wf(),
        old(tokenizer)@.expects(StateName::TitleStart),
    ensures
        transition(StateName::TitleStart, old(tokenizer)@, final(tokenizer)@, state),
    decreases StateName::TitleStart.level(), 0int, StateName::TitleStart.rank(old(tokenizer)@.code()), 0int,
{
    let ghost base = tokenizer@.open();
    proof {
        lemma_expects(tokenizer@, StateName::TitleStart, base);
    }
    let kind = match tokenizer.current() {
        Code::Char(byte) => if byte == QUOTATION_MARK {
            Some(Kind::Double)
        } else if byte == APOSTROPHE {
            Some(Kind::Single)
        } else if byte == LEFT_PARENTHESIS {
            Some(Kind::Paren)
        } else {
            None
        },
        _ => None,
    };
    if let Some(kind) = kind {
        tokenizer.enter(Token::DefinitionTitle);
        tokenizer.enter(Token::DefinitionTitleMarker);
        tokenizer.consume();
        tokenizer.exit(Token::DefinitionTitleMarker);
        proof {
            assert(base.push(Token::DefinitionTitle).push(Token::DefinitionTitleMarker).drop_last()
                =~= base + seq![Token::DefinitionTitle]);
            lemma_expects(tokenizer@, StateName::TitleBegin(kind), base);
        }
        State::Next(StateName::TitleBegin(kind))
    } else {
        State::Nok
    }
}

/// After the opening marker.
///
/// This is also used when at the closing marker.
///
/// ```markdown
/// "|a"
/// '|a'
/// (|a)
/// ```
pub fn begin(tokenizer: &mut Tokenizer, kind: Kind) -> (state: State)
    requires
        old(tokenizer)@.wf(),
        old(tokenizer)@.expects(StateName::TitleBegin(kind)),
    ensures
        transition(StateName::TitleBegin(kind), old(tokenizer)@, final(tokenizer)@, state),
    decreases StateName::TitleBegin(kind).level(), 0int, StateName::TitleBegin(kind).rank(old(tokenizer)@.code()), 0int,
{
    let ghost base = tokenizer@.base(StateName::TitleBegin(kind));
    if is_at_marker(tokenizer, kind) {
        tokenizer.enter(Token::DefinitionTitleMarker);
        tokenizer.consume();
        tokenizer.exit(Token::DefinitionTitleMarker);
        assert(tokenizer@.open() =~= base + seq![Token::DefinitionTitle]);
        tokenizer.exit(Token::DefinitionTitle);
        assert(tokenizer@.open() =~= base);
        State::Okay
    } else {
        tokenizer.enter(Token::DefinitionTitleString);
        proof {
            lemma_expects(tokenizer@, StateName::TitleAtBreak(kind), base);
        }
        at_break(tokenizer, kind)
    }
}

/// At something, before something else.
///
/// ```markdown
/// "|a"
/// 'a|'
/// (a|
/// b)
/// ```
pub fn at_break(tokenizer: &mut Tokenizer, kind: Kind) -> (state: State)
    requires
        old(tokenizer)@.wf(),
        old(tokenizer)@.expects(StateName::TitleAtBreak(kind)),
    ensures
        transition(StateName::TitleAtBreak(kind), old(tokenizer)@, final(tokenizer)@, state),
    decreases StateName::TitleAtBreak(kind).level(), 0int, StateName::TitleAtBreak(kind).rank(old(tokenizer)@.code()), 0int,
{
    let ghost base = tokenizer@.base(StateName::TitleAtBreak(kind));
    let ghost open = tokenizer@.open();
    match tokenizer.current() {
        Code::Eof => State::Nok,
        Code::LineEnding => {
            tokenizer.enter(Token::LineEnding);
            tokenizer.consume();
            tokenizer.exit(Token::LineEnding);
            proof {
                assert(open.push(Token::LineEnding).drop_last() =~= open);
                lemma_expects(tokenizer@, StateName::TitleLineStart(kind), base);
            }
            State::Next(StateName::TitleLineStart(kind))
        },
        Code::Char(byte) => {
            if byte == kind_to_marker(&kind) {
                tokenizer.exit(Token::DefinitionTitleString);
                proof {
                    lemma_expects(tokenizer@, StateName::TitleBegin(kind), base);
                }
                begin(tokenizer, kind)
            } else {
                tokenizer.enter(Token::ChunkString);
                proof {
                    lemma_expects(tokenizer@, StateName::TitleInside(kind), base);
                }
                title(tokenizer, kind)
            }
        },
    }
}

/// After a line ending.
///
/// ```markdown
/// "a
/// |b"
/// ```
pub fn line_start(tokenizer: &mut Tokenizer, kind: Kind) -> (state: State)
    requires
        old(tokenizer)@.wf(),
        old(tokenizer)@.expects(StateName::TitleLineStart(kind)),
    ensures
        transition(StateName::TitleLineStart(kind), old(tokenizer)@, final(tokenizer)@, state),
    decreases StateName::TitleLineStart(kind).level(), 0int, StateName::TitleLineStart(kind).rank(old(tokenizer)@.code()), 0int,
{
    let ghost base = tokenizer@.base(StateName::TitleLineStart(kind));
    let name = space_or_tab();
    proof {
        lemma_expects(tokenizer@, name, tokenizer@.open());
        partial_space_or_tab::lemma_run_forward(tokenizer@, 1, usize::MAX as int);
    }
    let state = tokenizer.attempt_opt(name, StateName::TitleLineBegin(kind));
    proof {
        lemma_expects(tokenizer@, StateName::TitleLineBegin(kind), base);
    }
    state
}

/// After a line ending, after optional whitespace.
///
/// ```markdown
/// "a
/// |b"
/// ```
pub fn line_begin(tokenizer: &mut Tokenizer, kind: Kind) -> (state: State)
    requires
        old(tokenizer)@.wf(),
        old(tokenizer)@.expects(StateName::TitleLineBegin(kind)),
    ensures
        transition(StateName::TitleLineBegin(kind), old(tokenizer)@, final(tokenizer)@, state),
    decreases StateName::TitleLineBegin(kind).level(), 0int, StateName::TitleLineBegin(kind).rank(old(tokenizer)@.code()), 0int,
{
    let ghost base = tokenizer@.base(StateName::TitleLineBegin(kind));
    proof {
        lemma_expects(tokenizer@, StateName::TitleAtBreak(kind), base);
    }
    match tokenizer.current() {
        // Blank line not allowed.
        Code::LineEnding => State::Nok,
        _ => at_break(tokenizer, kind),
    }
}

/// In title text.
///
/// ```markdown
/// "a|b"
/// ```
pub fn title(tokenizer: &mut Tokenizer, kind: Kind) -> (state: State)
    requires
        old(tokenizer)@.wf(),
        old(tokenizer)@.expects(StateName::TitleInside(kind)),
    ensures
        transition(StateName::TitleInside(kind), old(tokenizer)@, final(tokenizer)@, state),
    decreases StateName::TitleInside(kind).level(), 0int, StateName::TitleInside(kind).rank(old(tokenizer)@.code()), 0int,
{
    let ghost base = tokenizer@.base(StateName::TitleInside(kind));
    match tokenizer.current() {
        Code::Char(byte) => {
            if byte == kind_to_marker(&kind) {
                tokenizer.exit(Token::ChunkString);
                proof {
                    lemma_expects(tokenizer@, StateName::TitleAtBreak(kind), base);
                }
                at_break(tokenizer, kind)
            } else if byte == BACKSLASH {
                tokenizer.consume();
                proof {
                    lemma_expects(tokenizer@, StateName::TitleEscape(kind), base);
                }
                State::Next(StateName::TitleEscape(kind))
            } else {
                tokenizer.consume();
                proof {
                    lemma_expects(tokenizer@, StateName::TitleInside(kind), base);
                }
                State::Next(StateName::TitleInside(kind))
            }
        },
        _ => {
            tokenizer.exit(Token::ChunkString);
            proof {
                lemma_expects(tokenizer@, StateName::TitleAtBreak(kind), base);
            }
            at_break(tokenizer, kind)
        },
    }
}

/// After `\`, in title text.
///
/// ```markdown
/// "a\|"b"
/// ```
pub fn escape(tokenizer: &mut Tokenizer, kind: Kind) -> (state: State)
    requires
        old(tokenizer)@.wf(),
        old(tokenizer)@.expects(StateName::TitleEscape(kind)),
    ensures
        transition(StateName::TitleEscape(kind), old(tokenizer)@, final(tokenizer)@, state),
    decreases StateName::TitleEscape(kind).level(), 0int, StateName::TitleEscape(kind).rank(old(tokenizer)@.code()), 0int,
{
    let ghost base = tokenizer@.base(StateName::TitleEscape(kind));
    proof {
        lemma_expects(tokenizer@, StateName::TitleInside(kind), base);
    }
    if is_at_marker(tokenizer, kind) {
        tokenizer.consume();
        proof {
            lemma_expects(tokenizer@, StateName::TitleInside(kind), base);
        }
        State::Next(StateName::TitleInside(kind))
    } else {
        title(tokenizer, kind)
    }
}

} // verus!
