//! The second pass: each chunk in a sequence of events gives way to the
//! events of its text, tokenized under the content type of the chunk.

use vstd::prelude::*;
use crate::content::content_from;
use crate::parser::tokenize;
use crate::token::{balanced, chunk_free, nesting, Boundary, ContentType, Event, Token};
use crate::tokenizer::{lemma_nesting_push, Constructs, TokenizerView};

verus! {

/// The level above that of every content type: below it every chunk is
/// tokenized again.
pub const TOP_LEVEL: u8 = 2;

/// The events of the text of `bytes` from `start` to `end` under `content`,
/// with the chunks among them tokenized in their turn.
pub open spec fn tokenized(
    bytes: Seq<u8>,
    start: int,
    end: int,
    content: ContentType,
    constructs: Constructs,
) -> Seq<Event>
    decreases content.level(), 1int, 0int,
{
    resolved(
        bytes,
        content_from(TokenizerView::initial(bytes, start, end, constructs), content, 0).events,
        constructs,
        content.level(),
    )
}

/// Whether `events` starts with the two ends of a chunk in `bytes` whose
/// content type lies below `level`.
pub open spec fn starts_with_chunk(bytes: Seq<u8>, events: Seq<Event>, level: nat) -> bool {
    &&& events.len() >= 2
    &&& events[0].boundary == Boundary::Enter
    &&& events[1].boundary == Boundary::Exit
    &&& events[1].kind == events[0].kind
    &&& events[0].offset <= events[1].offset <= bytes.len()
    &&& events[0].kind.chunk_content() matches Some(content) && content.level() < level
}

/// `events` with each chunk whose content type lies below `level` replaced
/// by the events of its text, tokenized under that content type. All other
/// events stay, in their order.
pub open spec fn resolved(
    bytes: Seq<u8>,
    events: Seq<Event>,
    constructs: Constructs,
    level: nat,
) -> Seq<Event>
    decreases level, 0int, events.len(),
{
    if events.len() == 0 {
        Seq::empty()
    } else if starts_with_chunk(bytes, events, level) {
        tokenized(
            bytes,
            events[0].offset as int,
            events[1].offset as int,
            events[0].kind.chunk_content().unwrap(),
            constructs,
        ) + resolved(bytes, events.skip(2), constructs, level)
    } else {
        seq![events[0]] + resolved(bytes, events.skip(1), constructs, level)
    }
}

/// Events that hold no chunk stay as they are.
pub proof fn lemma_resolved_without_chunks(
    bytes: Seq<u8>,
    events: Seq<Event>,
    constructs: Constructs,
    level: nat,
)
    requires
        chunk_free(events, 0),
    ensures
        resolved(bytes, events, constructs, level) == events,
    decreases events.len(),
{
    if events.len() > 0 {
        let rest = events.skip(1);
        assert(events[0].kind.chunk_content() is None);
        assert forall|i: int| 0 <= i < rest.len() implies (#[trigger] rest[i]).kind.chunk_content()
            is None by {
            assert(rest[i] == events[i + 1]);
        }
        lemma_resolved_without_chunks(bytes, rest, constructs, level);
        assert(seq![events[0]] + rest =~= events);
    } else {
        assert(events =~= Seq::<Event>::empty());
    }
}

/// Events that are balanced, put after others, leave open what those left
/// open.
pub proof fn lemma_nesting_balanced_tail(events: Seq<Event>, tail: Seq<Event>)
    requires
        balanced(tail),
    ensures
        nesting(events + tail) == nesting(events),
{
    lemma_nesting_concat(events, tail);
    if nesting(events) is Some {
        assert(nesting(events).unwrap() + Seq::<Token>::empty() =~= nesting(events).unwrap());
    }
}

/// What is open after two sequences of events, the second of which is well
/// nested by itself: what the first left open, then what the second left
/// open.
pub proof fn lemma_nesting_concat(events: Seq<Event>, tail: Seq<Event>)
    requires
        nesting(tail) is Some,
    ensures
        nesting(events + tail) == match nesting(events) {
            Some(open) => Some(open + nesting(tail).unwrap()),
            None => None,
        },
    decreases tail.len(),
{
    if tail.len() == 0 {
        assert(events + tail =~= events);
        if nesting(events) is Some {
            assert(nesting(events).unwrap() + Seq::<Token>::empty() =~= nesting(events).unwrap());
        }
    } else {
        let last = tail.last();
        let front = tail.drop_last();
        assert(events + tail =~= (events + front).push(last));
        assert(tail =~= front.push(last));
        lemma_nesting_push(front, last);
        lemma_nesting_push(events + front, last);
        lemma_nesting_concat(events, front);
        if nesting(events) is Some {
            let open = nesting(events).unwrap();
            let inner = nesting(front).unwrap();
            match last.boundary {
                Boundary::Enter => {
                    assert((open + inner).push(last.kind) =~= open + inner.push(last.kind));
                },
                Boundary::Exit => {
                    assert((open + inner).drop_last() =~= open + inner.drop_last());
                },
            }
        }
    }
}

/// Replaces each chunk in `events` by the events of its text, tokenized
/// under the content type of the chunk.
pub fn subtokenize(bytes: &[u8], events: &Vec<Event>, constructs: Constructs) -> (out: Vec<Event>)
    ensures
        out@ == resolved(bytes@, events@, constructs, TOP_LEVEL as nat),
        nesting(out@) == nesting(events@),
{
    resolve(bytes, events, constructs, TOP_LEVEL)
}

/// Replaces each chunk in `events` whose content type lies below `level`
/// by the events of its text, tokenized under that content type.
pub fn resolve(bytes: &[u8], events: &Vec<Event>, constructs: Constructs, level: u8) -> (out: Vec<
    Event,
>)
    ensures
        out@ == resolved(bytes@, events@, constructs, level as nat),
        nesting(out@) == nesting(events@),
    decreases level, 0int,
{
    let mut out: Vec<Event> = Vec::new();
    let mut i: usize = 0;
    assert(events@.skip(0) =~= events@);
    assert(events@.take(0) =~= out@);
    while i < events.len()
        invariant
            i <= events.len(),
            resolved(bytes@, events@, constructs, level as nat) == out@ + resolved(
                bytes@,
                events@.skip(i as int),
                constructs,
                level as nat,
            ),
            nesting(out@) == nesting(events@.take(i as int)),
        decreases events.len() - i,
    {
        let event = events[i];
        let ghost rest = events@.skip(i as int);
        let ghost before = out@;
        assert(rest.len() == events.len() - i && rest[0] == event);
        let content = chunk_at(bytes, events, i, level);
        match content {
            Some(content) => {
                let close = events[i + 1];
                assert(rest[1] == close);
                let mut sub = tokenize(bytes, event.offset, close.offset, content, constructs);
                proof {
                    assert(rest.skip(2) =~= events@.skip(i + 2));
                    assert(events@.take(i + 2) =~= events@.take(i as int).push(event).push(close));
                    lemma_nesting_push(events@.take(i as int), event);
                    lemma_nesting_push(events@.take(i as int).push(event), close);
                    if nesting(events@.take(i as int)) is Some {
                        let open = nesting(events@.take(i as int)).unwrap();
                        assert(open.push(event.kind).drop_last() =~= open);
                    }
                    lemma_nesting_balanced_tail(before, sub@);
                    assert((before + sub@) + resolved(
                        bytes@,
                        rest.skip(2),
                        constructs,
                        level as nat,
                    ) =~= before + (sub@ + resolved(
                        bytes@,
                        rest.skip(2),
                        constructs,
                        level as nat,
                    )));
                }
                out.append(&mut sub);
                i = i + 2;
            },
            None => {
                proof {
                    assert(rest.skip(1) =~= events@.skip(i + 1));
                    assert(events@.take(i + 1) =~= events@.take(i as int).push(event));
                    lemma_nesting_push(events@.take(i as int), event);
                    lemma_nesting_push(before, event);
                    assert(before.push(event) + resolved(
                        bytes@,
                        rest.skip(1),
                        constructs,
                        level as nat,
                    ) =~= before + (seq![event] + resolved(
                        bytes@,
                        rest.skip(1),
                        constructs,
                        level as nat,
                    )));
                }
                out.push(event);
                i = i + 1;
            },
        }
    }
    assert(events@.skip(i as int) =~= Seq::<Event>::empty());
    assert(events@.take(i as int) =~= events@);
    assert(out@ + Seq::<Event>::empty() =~= out@);
    out
}

/// The content type of the chunk whose two ends are the events at `i` and
/// after it, where they are such, in `bytes`, and of a content type below
/// `level`.
fn chunk_at(bytes: &[u8], events: &Vec<Event>, i: usize, level: u8) -> (content: Option<
    ContentType,
>)
    requires
        i < events.len(),
    ensures
        content is Some <==> starts_with_chunk(bytes@, events@.skip(i as int), level as nat),
        content is Some ==> content == events[i as int].kind.chunk_content(),
{
    let event = events[i];
    match event.kind.content() {
        Some(content) => {
            if i + 1 < events.len() {
                let close = events[i + 1];
                if event.boundary == Boundary::Enter && close.boundary == Boundary::Exit
                    && close.kind == event.kind && event.offset <= close.offset && close.offset
                    <= bytes.len() && content.nesting_level() < level {
                    Some(content)
                } else {
                    None
                }
            } else {
                None
            }
        },
        None => None,
    }
}

} // verus!
