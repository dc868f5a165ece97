//! The tokenizer: a cursor over the text, the events so far, and the
//! trampoline that runs state functions, with checkpoints to go back to.

use vstd::prelude::*;
use crate::constant::{CARRIAGE_RETURN, LINE_FEED, SPACE, TAB, TAB_SIZE};
use crate::state::{call, outcome, run_end, State, StateName};
use crate::token::{
    chunk_free,
    extends,
    lemma_chunk_free_extends,
    lemma_nesting_on_push,
    nesting,
    nesting_on,
    Boundary,
    Event,
    Token,
};

verus! {

/// The atomic unit of scanning.
#[derive(Debug, Clone, Copy, PartialEq, Eq, Structural)]
pub enum Code {
    /// The end of the text; it is met again however often it is consumed.
    Eof,
    /// A line ending, whether written `\n`, `\r` or `\r\n`.
    LineEnding,
    /// Any other byte.
    Char(u8),
}

/// Which constructs are turned on.
#[derive(Debug, Clone, Copy, PartialEq, Eq, Structural)]
pub struct Constructs {
    /// Code (indented).
    pub code_indented: bool,
}

impl Default for Constructs {
    /// Every construct turned on.
    fn default() -> (constructs: Constructs)
        ensures
            constructs == (Constructs { code_indented: true }),
    {
        Constructs { code_indented: true }
    }
}

/// Place of the cursor in the text.
#[derive(Debug, Clone, Copy, PartialEq, Eq, Structural)]
pub struct Point {
    /// Byte offset.
    pub offset: usize,
    /// Number of line endings that lie before the cursor, counted from
    /// where the tokenizer started.
    pub line: usize,
    /// Column, counted modulo [`TAB_SIZE`]: what the width of a tab depends
    /// on.
    pub column: usize,
}

/// What an attempt goes back to when it fails.
#[derive(Debug, Clone, Copy, PartialEq, Eq, Structural)]
pub struct Checkpoint {
    /// Place of the cursor.
    pub point: Point,
    /// Number of events.
    pub events_len: usize,
}

/// State of one parse.
pub struct Tokenizer<'a> {
    /// The whole text.
    pub bytes: &'a [u8],
    /// Where scanning stops: the end of input for this tokenizer.
    pub end: usize,
    /// Place of the cursor.
    pub point: Point,
    /// The events so far.
    pub events: Vec<Event>,
    /// Whether a construct that starts here would interrupt a paragraph.
    pub interrupt: bool,
    /// Whether the current line is a lazy continuation of a container.
    pub lazy: bool,
    /// Which constructs are turned on.
    pub constructs: Constructs,
}

/// A tokenizer as a mathematical value.
pub struct TokenizerView {
    /// The whole text.
    pub bytes: Seq<u8>,
    /// Where scanning stops.
    pub end: int,
    /// Byte offset of the cursor.
    pub offset: int,
    /// Number of line endings that lie before the cursor.
    pub line: int,
    /// Column of the cursor, counted modulo [`TAB_SIZE`].
    pub column: int,
    /// The events so far.
    pub events: Seq<Event>,
    /// Whether a construct that starts here would interrupt a paragraph.
    pub interrupt: bool,
    /// Whether the current line is a lazy continuation of a container.
    pub lazy: bool,
    /// Which constructs are turned on.
    pub constructs: Constructs,
}

impl<'a> View for Tokenizer<'a> {
    type V = TokenizerView;

    open spec fn view(&self) -> TokenizerView {
        TokenizerView {
            bytes: self.bytes@,
            end: self.end as int,
            offset: self.point.offset as int,
            line: self.point.line as int,
            column: self.point.column as int,
            events: self.events@,
            interrupt: self.interrupt,
            lazy: self.lazy,
            constructs: self.constructs,
        }
    }
}

/// Whether `byte` starts a line ending.
pub open spec fn is_eol(byte: u8) -> bool {
    byte == LINE_FEED || byte == CARRIAGE_RETURN
}

/// What is left of `a` when `b` is taken from it.
pub open spec fn less(a: int, b: int) -> int {
    if a > b {
        a - b
    } else {
        0
    }
}

impl TokenizerView {
    /// The tokenizer at offset `start` of `bytes` that stops at `end`, with
    /// no events.
    pub open spec fn initial(bytes: Seq<u8>, start: int, end: int, constructs: Constructs)
        -> TokenizerView {
        TokenizerView {
            bytes,
            end,
            offset: start,
            line: 0,
            column: 0,
            events: Seq::empty(),
            interrupt: false,
            lazy: false,
            constructs,
        }
    }

    /// The cursor is inside the text and the events are well nested.
    pub open spec fn wf(self) -> bool {
        &&& 0 <= self.offset <= self.end <= self.bytes.len() <= usize::MAX
        &&& 0 <= self.line <= self.offset
        &&& 0 <= self.column < TAB_SIZE
        &&& nesting(self.events) is Some
    }

    /// The code at the cursor.
    pub open spec fn code(self) -> Code {
        if self.offset < 0 || self.offset >= self.end || self.offset >= self.bytes.len() {
            Code::Eof
        } else if is_eol(self.bytes[self.offset]) {
            Code::LineEnding
        } else {
            Code::Char(self.bytes[self.offset])
        }
    }

    /// Number of bytes that the code at the cursor is written with.
    pub open spec fn code_len(self) -> int {
        match self.code() {
            Code::Eof => 0,
            Code::Char(_) => 1,
            Code::LineEnding => if self.bytes[self.offset] == CARRIAGE_RETURN && self.offset + 1
                < self.end && self.bytes[self.offset + 1] == LINE_FEED {
                2
            } else {
                1
            },
        }
    }

    /// Number of columns that the code at the cursor takes: a tab reaches
    /// to the next tab stop.
    pub open spec fn width(self) -> int {
        match self.code() {
            Code::Char(byte) => if byte == TAB {
                TAB_SIZE - self.column
            } else {
                1
            },
            _ => 0,
        }
    }

    /// Whether a space or a tab is at the cursor.
    pub open spec fn at_space_or_tab(self) -> bool {
        self.code() == Code::Char(SPACE) || self.code() == Code::Char(TAB)
    }

    /// Number of bytes between the cursor and the end.
    pub open spec fn remaining(self) -> int {
        self.end - self.offset
    }

    /// The tokenizer once the code at the cursor is consumed.
    pub open spec fn consume(self) -> TokenizerView {
        TokenizerView {
            offset: self.offset + self.code_len(),
            line: if self.code() is LineEnding {
                self.line + 1
            } else {
                self.line
            },
            column: match self.code() {
                Code::Eof => self.column,
                Code::LineEnding => 0,
                Code::Char(byte) => if byte == TAB {
                    0
                } else {
                    (self.column + 1) % (TAB_SIZE as int)
                },
            },
            ..self
        }
    }

    /// The tokenizer once `event` is added.
    pub open spec fn push(self, event: Event) -> TokenizerView {
        TokenizerView { events: self.events.push(event), ..self }
    }

    /// The tokenizer once a span of `kind` is entered at the cursor.
    pub open spec fn enter(self, kind: Token) -> TokenizerView {
        self.push(Event { kind, boundary: Boundary::Enter, offset: self.offset as usize })
    }

    /// The tokenizer once a span of `kind` is exited at the cursor.
    pub open spec fn exit(self, kind: Token) -> TokenizerView {
        self.push(Event { kind, boundary: Boundary::Exit, offset: self.offset as usize })
    }

    /// The tokenizer with the interrupt flag set to `interrupt`.
    pub open spec fn with_interrupt(self, interrupt: bool) -> TokenizerView {
        TokenizerView { interrupt, ..self }
    }

    /// The kinds that are open, outermost first.
    pub open spec fn open(self) -> Seq<Token> {
        nesting(self.events).unwrap()
    }

    /// The kinds that are open beside those that a state called `name` works
    /// in.
    pub open spec fn base(self, name: StateName) -> Seq<Token> {
        self.open().take(self.open().len() - name.opens().len())
    }

    /// The innermost open kinds are those that a state called `name` works
    /// in.
    pub open spec fn expects(self, name: StateName) -> bool {
        &&& name.opens().len() <= self.open().len()
        &&& self.open() =~= self.base(name) + name.opens()
    }

    /// The events that this tokenizer holds after those of `earlier`.
    pub open spec fn added_to(self, earlier: TokenizerView) -> Seq<Event> {
        self.events.skip(earlier.events.len() as int)
    }

    /// This tokenizer holds the events of `earlier` and, after them, events
    /// that leave `left` open where `open` were open before them.
    pub open spec fn adds(self, earlier: TokenizerView, open: Seq<Token>, left: Seq<Token>) -> bool {
        &&& extends(self.events, earlier.events)
        &&& nesting_on(open, self.added_to(earlier)) == Some(left)
    }

    /// The text, its end, the lazy flag and the constructs are those of
    /// `other`.
    pub open spec fn same_context(self, other: TokenizerView) -> bool {
        &&& self.bytes == other.bytes
        &&& self.end == other.end
        &&& self.lazy == other.lazy
        &&& self.constructs == other.constructs
    }

    /// The cursor is where that of `other` is, in the same text.
    pub open spec fn same_cursor(self, other: TokenizerView) -> bool {
        &&& self.bytes == other.bytes
        &&& self.end == other.end
        &&& self.offset == other.offset
        &&& self.column == other.column
    }

    /// The tokenizer with the cursor at `offset` and `column`.
    pub open spec fn at(self, offset: int, column: int) -> TokenizerView {
        TokenizerView { offset, column, ..self }
    }

    /// The checkpoint to which this tokenizer goes back.
    pub open spec fn checkpoint(self) -> Checkpoint {
        Checkpoint {
            point: Point {
                offset: self.offset as usize,
                line: self.line as usize,
                column: self.column as usize,
            },
            events_len: self.events.len() as usize,
        }
    }

    /// The tokenizer put back to `checkpoint`: the cursor is where it was,
    /// and of the events those stay that were there.
    pub open spec fn restore(self, checkpoint: Checkpoint) -> TokenizerView {
        TokenizerView {
            offset: checkpoint.point.offset as int,
            line: checkpoint.point.line as int,
            column: checkpoint.point.column as int,
            events: if checkpoint.events_len <= self.events.len() {
                self.events.take(checkpoint.events_len as int)
            } else {
                self.events
            },
            ..self
        }
    }
}

/// A tokenizer with the events of another adds nothing to them.
pub proof fn lemma_adds_nothing(earlier: TokenizerView, v: TokenizerView, open: Seq<Token>)
    requires
        v.events == earlier.events,
    ensures
        v.adds(earlier, open, open),
{
    assert(v.events.take(earlier.events.len() as int) =~= earlier.events);
}

/// To enter a span after what was added is to add it, and the span is open
/// then.
pub proof fn lemma_adds_enter(
    earlier: TokenizerView,
    v: TokenizerView,
    kind: Token,
    open: Seq<Token>,
    left: Seq<Token>,
)
    requires
        v.adds(earlier, open, left),
    ensures
        v.enter(kind).adds(earlier, open, left.push(kind)),
{
    let event = v.enter(kind).events.last();
    assert(v.enter(kind).events.take(earlier.events.len() as int) =~= v.events.take(
        earlier.events.len() as int,
    ));
    assert(v.enter(kind).added_to(earlier) =~= v.added_to(earlier).push(event));
    lemma_nesting_on_push(open, v.added_to(earlier), event);
}

/// To exit the innermost open span after what was added is to add that,
/// and the span is open no more.
pub proof fn lemma_adds_exit(
    earlier: TokenizerView,
    v: TokenizerView,
    kind: Token,
    open: Seq<Token>,
    left: Seq<Token>,
)
    requires
        v.adds(earlier, open, left.push(kind)),
    ensures
        v.exit(kind).adds(earlier, open, left),
{
    let event = v.exit(kind).events.last();
    assert(v.exit(kind).events.take(earlier.events.len() as int) =~= v.events.take(
        earlier.events.len() as int,
    ));
    assert(v.exit(kind).added_to(earlier) =~= v.added_to(earlier).push(event));
    lemma_nesting_on_push(open, v.added_to(earlier), event);
    assert(left.push(kind).drop_last() =~= left);
}

/// Adding an event changes the open kinds as the event says.
pub proof fn lemma_nesting_push(events: Seq<Event>, event: Event)
    ensures
        nesting(events.push(event)) == match nesting(events) {
            None => None,
            Some(open) => match event.boundary {
                Boundary::Enter => Some(open.push(event.kind)),
                Boundary::Exit => if open.len() > 0 && open.last() == event.kind {
                    Some(open.drop_last())
                } else {
                    None
                },
            },
        },
{
    assert(events.push(event).drop_last() =~= events);
}

impl<'a> Tokenizer<'a> {
    /// A tokenizer at offset `start` of `bytes` that stops at `end`, with no
    /// events.
    pub fn new(bytes: &'a [u8], start: usize, end: usize, constructs: Constructs) -> (tokenizer:
        Tokenizer<'a>)
        requires
            start <= end <= bytes@.len(),
        ensures
            tokenizer@ == TokenizerView::initial(bytes@, start as int, end as int, constructs),
            tokenizer@.wf(),
            tokenizer@.open() == Seq::<Token>::empty(),
    {
        let _: usize = bytes.len();
        assert(nesting(Seq::<Event>::empty()) == Some(Seq::<Token>::empty()));
        Tokenizer {
            bytes,
            end,
            point: Point { offset: start, line: 0, column: 0 },
            events: Vec::new(),
            interrupt: false,
            lazy: false,
            constructs,
        }
    }

    /// The code at the cursor.
    pub fn current(&self) -> (code: Code)
        requires
            self@.wf(),
        ensures
            code == self@.code(),
    {
        if self.point.offset >= self.end {
            Code::Eof
        } else {
            let byte: u8 = self.bytes[self.point.offset];
            if byte == LINE_FEED || byte == CARRIAGE_RETURN {
                Code::LineEnding
            } else {
                Code::Char(byte)
            }
        }
    }

    /// Number of columns that the code at the cursor takes.
    pub fn current_width(&self) -> (width: usize)
        requires
            self@.wf(),
        ensures
            width == self@.width(),
    {
        match self.current() {
            Code::Char(byte) => if byte == TAB {
                TAB_SIZE - self.point.column
            } else {
                1
            },
            _ => 0,
        }
    }

    /// Moves the cursor past the code under it. At the end of the text the
    /// cursor stays.
    pub fn consume(&mut self)
        requires
            old(self)@.wf(),
        ensures
            final(self)@ == old(self)@.consume(),
            final(self)@.wf(),
            final(self)@.open() == old(self)@.open(),
    {
        match self.current() {
            Code::Eof => {},
            Code::LineEnding => {
                let offset: usize = self.point.offset;
                if self.bytes[offset] == CARRIAGE_RETURN && offset + 1 < self.end
                    && self.bytes[offset + 1] == LINE_FEED {
                    self.point.offset = offset + 2;
                } else {
                    self.point.offset = offset + 1;
                }
                self.point.line = self.point.line + 1;
                self.point.column = 0;
            },
            Code::Char(byte) => {
                self.point.offset = self.point.offset + 1;
                if byte == TAB {
                    self.point.column = 0;
                } else {
                    self.point.column = (self.point.column + 1) % TAB_SIZE;
                }
            },
        }
    }

    /// Opens a span of `kind` at the cursor.
    pub fn enter(&mut self, kind: Token)
        requires
            old(self)@.wf(),
        ensures
            final(self)@ == old(self)@.enter(kind),
            final(self)@.wf(),
            final(self)@.open() == old(self)@.open().push(kind),
    {
        proof {
            lemma_nesting_push(self@.events, self@.enter(kind).events.last());
        }
        self.events.push(Event { kind, boundary: Boundary::Enter, offset: self.point.offset });
    }

    /// Closes at the cursor the span of `kind`, which is the innermost open
    /// one.
    pub fn exit(&mut self, kind: Token)
        requires
            old(self)@.wf(),
            old(self)@.open().len() > 0,
            old(self)@.open().last() == kind,
        ensures
            final(self)@ == old(self)@.exit(kind),
            final(self)@.wf(),
            final(self)@.open() == old(self)@.open().drop_last(),
    {
        proof {
            lemma_nesting_push(self@.events, self@.exit(kind).events.last());
        }
        self.events.push(Event { kind, boundary: Boundary::Exit, offset: self.point.offset });
    }

    /// The checkpoint of the tokenizer as it is.
    pub fn capture(&self) -> (checkpoint: Checkpoint)
        ensures
            checkpoint == self@.checkpoint(),
            checkpoint.events_len == self@.events.len(),
            checkpoint.point.offset == self@.offset,
            checkpoint.point.line == self@.line,
            checkpoint.point.column == self@.column,
    {
        Checkpoint { point: self.point, events_len: self.events.len() }
    }

    /// Goes back to `checkpoint`: the cursor is put back and the events
    /// after it are dropped.
    pub fn free(&mut self, checkpoint: Checkpoint)
        ensures
            final(self)@ == old(self)@.restore(checkpoint),
    {
        self.point = checkpoint.point;
        if checkpoint.events_len < self.events.len() {
            self.events.truncate(checkpoint.events_len);
        } else {
            assert(self@.events.take(self@.events.len() as int) =~= self@.events);
        }
    }

    /// Runs the state called `start`, and each state that a state hands on
    /// to, until one ends the run. The result says whether the run ended in
    /// [`State::Okay`].
    pub fn run(&mut self, start: StateName) -> (ok: bool)
        requires
            old(self)@.wf(),
            old(self)@.expects(start),
        ensures
            final(self)@.wf(),
            final(self)@.same_context(old(self)@),
            final(self)@.offset >= old(self)@.offset,
            extends(final(self)@.events, old(self)@.events),
            !start.sets_chunks_aside() ==> chunk_free(
                final(self)@.events,
                old(self)@.events.len() as int,
            ),
            (ok, final(self)@) == run_end(start, old(self)@),
            ok == outcome(start, old(self)@) is Some,
            ok ==> final(self)@ == outcome(start, old(self)@).unwrap(),
            ok ==> final(self)@.open() == old(self)@.base(start),
            !ok ==> final(self)@.interrupt == old(self)@.interrupt,
        decreases start.level(), 1int, 0int, 0int,
    {
        let mut name = start;
        loop
            invariant
                self@.wf(),
                self@.expects(name),
                self@.base(name) == old(self)@.base(start),
                self@.same_context(old(self)@),
                self@.offset >= old(self)@.offset,
                extends(self@.events, old(self)@.events),
                outcome(name, self@) == outcome(start, old(self)@),
                run_end(name, self@) == run_end(start, old(self)@),
                name.level() <= start.level(),
                !start.sets_chunks_aside() ==> !name.sets_chunks_aside() && chunk_free(
                    self@.events,
                    old(self)@.events.len() as int,
                ),
                start.in_construct() ==> self@.interrupt == old(self)@.interrupt,
            decreases self@.remaining(), name.rank(self@.code()),
        {
            let ghost before = self@.events;
            let state = call(self, name);
            proof {
                if !start.sets_chunks_aside() {
                    lemma_chunk_free_extends(self@.events, before, old(self)@.events.len() as int);
                }
            }
            match state {
                State::Next(next) => {
                    name = next;
                },
                State::Okay => {
                    return true;
                },
                State::Nok => {
                    return false;
                },
            }
        }
    }

    /// Runs the state called `name` from a checkpoint. When the run ends in
    /// [`State::Okay`] its effects stay and the result is `ok`; when not, the
    /// tokenizer goes back to the checkpoint and the result is `nok`.
    pub fn attempt(&mut self, name: StateName, ok: State, nok: State) -> (state: State)
        requires
            old(self)@.wf(),
            old(self)@.expects(name),
        ensures
            final(self)@.wf(),
            final(self)@.same_context(old(self)@),
            final(self)@.offset >= old(self)@.offset,
            extends(final(self)@.events, old(self)@.events),
            !name.sets_chunks_aside() ==> chunk_free(
                final(self)@.events,
                old(self)@.events.len() as int,
            ),
            match outcome(name, old(self)@) {
                Some(after) => state == ok && final(self)@ == after && final(self)@.open() == old(self)@.base(name),
                None => state == nok && final(self)@ == old(self)@,
            },
        decreases name.level(), 2int, 0int, 0int,
    {
        let checkpoint = self.capture();
        if self.run(name) {
            ok
        } else {
            self.free(checkpoint);
            assert(self@.events =~= old(self)@.events);
            nok
        }
    }

    /// Runs the state called `name` from a checkpoint and goes on with
    /// `next` however the run ends: what fails leaves no trace.
    pub fn attempt_opt(&mut self, name: StateName, next: StateName) -> (state: State)
        requires
            old(self)@.wf(),
            old(self)@.expects(name),
        ensures
            final(self)@.wf(),
            final(self)@.same_context(old(self)@),
            final(self)@.offset >= old(self)@.offset,
            extends(final(self)@.events, old(self)@.events),
            !name.sets_chunks_aside() ==> chunk_free(
                final(self)@.events,
                old(self)@.events.len() as int,
            ),
            state == State::Next(next),
            match outcome(name, old(self)@) {
                Some(after) => final(self)@ == after && final(self)@.open() == old(self)@.base(
                    name,
                ),
                None => final(self)@ == old(self)@,
            },
        decreases name.level(), 3int, 0int, 0int,
    {
        self.attempt(name, State::Next(next), State::Next(next))
    }

    /// Runs the state called `name` with no checkpoint and goes on with
    /// `next` when the run ends in [`State::Okay`]; when not, the result is
    /// [`State::Nok`] and what the run did stays.
    pub fn go(&mut self, name: StateName, next: StateName) -> (state: State)
        requires
            old(self)@.wf(),
            old(self)@.expects(name),
        ensures
            final(self)@.wf(),
            final(self)@.same_context(old(self)@),
            final(self)@.offset >= old(self)@.offset,
            extends(final(self)@.events, old(self)@.events),
            !name.sets_chunks_aside() ==> chunk_free(
                final(self)@.events,
                old(self)@.events.len() as int,
            ),
            match outcome(name, old(self)@) {
                Some(after) => state == State::Next(next) && final(self)@ == after && final(self)@.open() == old(self)@.base(name),
                None => state == State::Nok && final(self)@ == run_end(name, old(self)@).1
                    && final(self)@.interrupt == old(self)@.interrupt,
            },
        decreases name.level(), 2int, 0int, 0int,
    {
        if self.run(name) {
            State::Next(next)
        } else {
            State::Nok
        }
    }
}

} // verus!
