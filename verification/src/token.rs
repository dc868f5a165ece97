//! Token kinds, events, and the nesting of an event sequence.

use vstd::prelude::*;

verus! {

/// Grammar under which a stretch of text is tokenized.
#[derive(Debug, Clone, Copy, PartialEq, Eq, Structural)]
pub enum ContentType {
    /// Blocks: blank lines, code (indented), and lines of data.
    Flow,
    /// Text of titles and the like: data only.
    String,
}

/// What a span of the text means.
#[derive(Debug, Clone, Copy, PartialEq, Eq, Structural)]
pub enum Token {
    /// Whole code (indented).
    CodeIndented,
    /// One line of literal text in code (indented).
    CodeFlowChunk,
    /// A line ending: `\n`, `\r` or `\r\n`.
    LineEnding,
    /// A run of spaces and tabs.
    SpaceOrTab,
    /// Whole title, markers included.
    DefinitionTitle,
    /// Opening or closing marker of a title.
    DefinitionTitleMarker,
    /// What stands between the markers of a title.
    DefinitionTitleString,
    /// Text set aside to be tokenized again as string content.
    ChunkString,
    /// Text that no construct matched.
    Data,
}

impl Token {
    /// The content type under which a chunk of this kind is tokenized again;
    /// `None` for a kind that is no chunk.
    pub open spec fn chunk_content(self) -> Option<ContentType> {
        match self {
            Token::ChunkString => Some(ContentType::String),
            _ => None,
        }
    }

    /// The content type under which a chunk of this kind is tokenized again.
    pub fn content(self) -> (content: Option<ContentType>)
        ensures
            content == self.chunk_content(),
    {
        match self {
            Token::ChunkString => Some(ContentType::String),
            _ => None,
        }
    }
}

/// Side of a span that an event marks.
#[derive(Debug, Clone, Copy, PartialEq, Eq, Structural)]
pub enum Boundary {
    /// The span starts here.
    Enter,
    /// The span ends here.
    Exit,
}

/// One mark in the event sequence.
#[derive(Debug, Clone, Copy, PartialEq, Eq, Structural)]
pub struct Event {
    /// What the span means.
    pub kind: Token,
    /// Whether the span starts or ends here.
    pub boundary: Boundary,
    /// Byte offset of the mark in the text.
    pub offset: usize,
}

/// The kinds that are entered and not yet exited after `events`, outermost
/// first; `None` when some exit does not match the enter last left open.
pub open spec fn nesting(events: Seq<Event>) -> Option<Seq<Token>>
    decreases events.len(),
{
    if events.len() == 0 {
        Some(Seq::empty())
    } else {
        match nesting(events.drop_last()) {
            None => None,
            Some(open) => match events.last().boundary {
                Boundary::Enter => Some(open.push(events.last().kind)),
                Boundary::Exit => if open.len() > 0 && open.last() == events.last().kind {
                    Some(open.drop_last())
                } else {
                    None
                },
            },
        }
    }
}

/// The kinds that are open after `events` where `open` were open before
/// them, outermost first; `None` when some exit does not match the enter last
/// left open.
pub open spec fn nesting_on(open: Seq<Token>, events: Seq<Event>) -> Option<Seq<Token>>
    decreases events.len(),
{
    if events.len() == 0 {
        Some(open)
    } else {
        match nesting_on(open, events.drop_last()) {
            None => None,
            Some(open) => match events.last().boundary {
                Boundary::Enter => Some(open.push(events.last().kind)),
                Boundary::Exit => if open.len() > 0 && open.last() == events.last().kind {
                    Some(open.drop_last())
                } else {
                    None
                },
            },
        }
    }
}

/// With nothing open before them, events leave open what [`nesting`] says.
pub proof fn lemma_nesting_on_nothing(events: Seq<Event>)
    ensures
        nesting_on(Seq::empty(), events) == nesting(events),
    decreases events.len(),
{
    if events.len() > 0 {
        lemma_nesting_on_nothing(events.drop_last());
    }
}

/// One more event changes the open kinds as the event says.
pub proof fn lemma_nesting_on_push(open: Seq<Token>, events: Seq<Event>, event: Event)
    ensures
        nesting_on(open, events.push(event)) == match nesting_on(open, events) {
            None => None,
            Some(open) => match event.boundary {
                Boundary::Enter => Some(open.push(event.kind)),
                Boundary::Exit => if open.len() > 0 && open.last() == event.kind {
                    Some(open.drop_last())
                } else {
                    None
                },
            },
        },
{
    assert(events.push(event).drop_last() =~= events);
}

/// Every exit matches the enter last left open, and nothing is left open.
pub open spec fn balanced(events: Seq<Event>) -> bool {
    nesting(events) == Some(Seq::<Token>::empty())
}

/// No event of `events` from place `from` on is an end of a chunk.
pub open spec fn chunk_free(events: Seq<Event>, from: int) -> bool {
    forall|i: int| from <= i < events.len() ==> (#[trigger] events[i]).kind.chunk_content() is None
}

/// Events that continue events without a chunk from `from` on, and hold
/// none after those, hold none from `from` on.
pub proof fn lemma_chunk_free_extends(events: Seq<Event>, earlier: Seq<Event>, from: int)
    requires
        0 <= from,
        extends(events, earlier),
        chunk_free(earlier, from),
        chunk_free(events, earlier.len() as int),
    ensures
        chunk_free(events, from),
{
    assert forall|i: int| from <= i < events.len() implies (#[trigger] events[i]).kind.chunk_content()
        is None by {
        if i < earlier.len() {
            assert(events[i] == events.take(earlier.len() as int)[i]);
        }
    }
}

/// `events` continues `earlier`: nothing of `earlier` was changed.
pub open spec fn extends(events: Seq<Event>, earlier: Seq<Event>) -> bool {
    earlier.len() <= events.len() && events.take(earlier.len() as int) =~= earlier
}

} // verus!
