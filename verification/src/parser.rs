//! The whole of it: from text to events.

use vstd::prelude::*;
use crate::content::content_from;
use crate::state::StateName;
use crate::subtokenize::{lemma_resolved_without_chunks, resolve, tokenized};
use crate::token::{balanced, chunk_free, ContentType, Event};
use crate::tokenizer::{Constructs, Tokenizer, TokenizerView};

verus! {

/// Turns the text of `bytes` into events: the text is tokenized as flow,
/// and each chunk among the events is tokenized in its turn. The end is
/// reached on every text, the events are balanced, and no chunk is left
/// among them.
pub fn parse(bytes: &[u8], constructs: Constructs) -> (events: Vec<Event>)
    ensures
        events@ == tokenized(bytes@, 0, bytes@.len() as int, ContentType::Flow, constructs),
        events@ == content_from(
            TokenizerView::initial(bytes@, 0, bytes@.len() as int, constructs),
            ContentType::Flow,
            0,
        ).events,
        balanced(events@),
        chunk_free(events@, 0),
{
    tokenize(bytes, 0, bytes.len(), ContentType::Flow, constructs)
}

/// Turns the text of `bytes` from `start` to `end` into events under
/// `content`: the constructs of the content type are tried line by line,
/// and each chunk among the events is tokenized in its turn. The events are
/// balanced, and no chunk is left among them.
pub fn tokenize(
    bytes: &[u8],
    start: usize,
    end: usize,
    content: ContentType,
    constructs: Constructs,
) -> (events: Vec<Event>)
    requires
        start <= end <= bytes@.len(),
    ensures
        events@ == tokenized(bytes@, start as int, end as int, content, constructs),
        events@ == content_from(
            TokenizerView::initial(bytes@, start as int, end as int, constructs),
            content,
            0,
        ).events,
        balanced(events@),
        chunk_free(events@, 0),
    decreases content.level(), 1int,
{
    let mut tokenizer = Tokenizer::new(bytes, start, end, constructs);
    let name = StateName::ContentDispatch(content, 0);
    assert(tokenizer@.base(name) =~= tokenizer@.open());
    tokenizer.run(name);
    proof {
        lemma_resolved_without_chunks(bytes@, tokenizer@.events, constructs, content.level());
    }
    resolve(bytes, &tokenizer.events, constructs, content.nesting_level())
}

} // verus!
