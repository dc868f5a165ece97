use micromark::construct::partial_title::{kind_to_marker, Kind};
use micromark::state::StateName;
use micromark::subtokenize::subtokenize;
use micromark::token::{Boundary, Event, Token};
use micromark::tokenizer::{Constructs, Tokenizer};

fn enter(kind: Token, offset: usize) -> Event {
    Event { kind, boundary: Boundary::Enter, offset }
}

fn exit(kind: Token, offset: usize) -> Event {
    Event { kind, boundary: Boundary::Exit, offset }
}

/// The events of the title at the start of `text`, and where it ends.
fn title(text: &str) -> Option<(Vec<Event>, usize)> {
    let bytes = text.as_bytes();
    let mut tokenizer = Tokenizer::new(bytes, 0, bytes.len(), Constructs::default());
    if tokenizer.run(StateName::TitleStart) {
        Some((tokenizer.events, tokenizer.point.offset))
    } else {
        None
    }
}

/// The text of the title at the start of `text`: its chunks, with
/// `\` taken from before the marker, joined by line endings.
fn title_text(text: &str, marker: char) -> Option<String> {
    let (events, _) = title(text)?;
    let mut out = String::new();
    for index in 0..events.len() {
        let event = events[index];
        match (event.kind, event.boundary) {
            (Token::ChunkString, Boundary::Exit) => {
                let chunk = &text[events[index - 1].offset..event.offset];
                out.push_str(&chunk.replace(&format!("\\{}", marker), &marker.to_string()));
            }
            (Token::LineEnding, Boundary::Exit) => out.push('\n'),
            _ => {}
        }
    }
    Some(out)
}

#[test]
fn title_markers() {
    assert_eq!(kind_to_marker(&Kind::Double), b'"');
    assert_eq!(kind_to_marker(&Kind::Single), b'\'');
    assert_eq!(kind_to_marker(&Kind::Paren), b')');
}

#[test]
fn title_double_quoted() {
    assert_eq!(
        title("\"a\" b"),
        Some((
            vec![
                enter(Token::DefinitionTitle, 0),
                enter(Token::DefinitionTitleMarker, 0),
                exit(Token::DefinitionTitleMarker, 1),
                enter(Token::DefinitionTitleString, 1),
                enter(Token::ChunkString, 1),
                exit(Token::ChunkString, 2),
                exit(Token::DefinitionTitleString, 2),
                enter(Token::DefinitionTitleMarker, 2),
                exit(Token::DefinitionTitleMarker, 3),
                exit(Token::DefinitionTitle, 3),
            ],
            3
        ))
    );
}

#[test]
fn title_single_quoted_and_parenthesized() {
    assert_eq!(title_text("'a'", '\''), Some("a".to_string()));
    assert_eq!(title_text("(a)", ')'), Some("a".to_string()));
    assert_eq!(title_text("(a(b)", ')'), Some("a(b".to_string()));
    assert_eq!(title("(a("), None);
    assert_eq!(title("\"a'"), None);
}

#[test]
fn title_empty() {
    assert_eq!(
        title("\"\""),
        Some((
            vec![
                enter(Token::DefinitionTitle, 0),
                enter(Token::DefinitionTitleMarker, 0),
                exit(Token::DefinitionTitleMarker, 1),
                enter(Token::DefinitionTitleMarker, 1),
                exit(Token::DefinitionTitleMarker, 2),
                exit(Token::DefinitionTitle, 2),
            ],
            2
        ))
    );
}

#[test]
fn title_needs_an_opening_marker() {
    assert_eq!(title("a\""), None);
    assert_eq!(title(""), None);
    assert_eq!(title(")a)"), None);
    assert_eq!(title("\n\"a\""), None);
}

#[test]
fn title_unterminated() {
    assert_eq!(title("\"a"), None);
    assert_eq!(title("\""), None);
    assert_eq!(title("\"a\\\""), None);
}

#[test]
fn title_escaped_marker_does_not_close() {
    assert_eq!(title_text("\"a\\\"b\"", '"'), Some("a\"b".to_string()));
    let (events, end) = title("\"a\\\"b\"").unwrap();
    assert_eq!(end, 6);
    assert_eq!(events[4], enter(Token::ChunkString, 1));
    assert_eq!(events[5], exit(Token::ChunkString, 5));
}

#[test]
fn title_backslash_before_anything_else_is_literal() {
    let (events, end) = title("\"a\\b\"").unwrap();
    assert_eq!(end, 5);
    assert_eq!(events[4], enter(Token::ChunkString, 1));
    assert_eq!(events[5], exit(Token::ChunkString, 4));
    // A backslash after a backslash is a backslash like any other: it takes
    // the marker after it into the chunk.
    assert_eq!(title("\"a\\\\\" b"), None);
    let (events, end) = title("\"a\\\\\"\" b").unwrap();
    assert_eq!(end, 6);
    assert_eq!(events[5], exit(Token::ChunkString, 5));
    // In a parenthesized title `(` is no marker.
    assert_eq!(title("(a\\()").map(|found| found.1), Some(5));
    assert_eq!(title("(a\\))").map(|found| found.1), Some(5));
}

#[test]
fn title_over_two_lines() {
    assert_eq!(
        title("\"a\n  b\""),
        Some((
            vec![
                enter(Token::DefinitionTitle, 0),
                enter(Token::DefinitionTitleMarker, 0),
                exit(Token::DefinitionTitleMarker, 1),
                enter(Token::DefinitionTitleString, 1),
                enter(Token::ChunkString, 1),
                exit(Token::ChunkString, 2),
                enter(Token::LineEnding, 2),
                exit(Token::LineEnding, 3),
                enter(Token::SpaceOrTab, 3),
                exit(Token::SpaceOrTab, 5),
                enter(Token::ChunkString, 5),
                exit(Token::ChunkString, 6),
                exit(Token::DefinitionTitleString, 6),
                enter(Token::DefinitionTitleMarker, 6),
                exit(Token::DefinitionTitleMarker, 7),
                exit(Token::DefinitionTitle, 7),
            ],
            7
        ))
    );
    assert_eq!(title_text("\"a\nb\"", '"'), Some("a\nb".to_string()));
    assert_eq!(title_text("\"a\r\nb\"", '"'), Some("a\nb".to_string()));
    assert_eq!(title_text("\"a\n\"", '"'), Some("a\n".to_string()));
}

#[test]
fn title_with_blank_line_fails() {
    assert_eq!(title("\"a\n\nb\""), None);
    assert_eq!(title("\"a\n  \nb\""), None);
    assert_eq!(title("\"a\r\n\r\nb\""), None);
    assert_eq!(title("\"\n\nb\""), None);
    assert_eq!(title("\"a b c d e\nf g h\n\t\ni\""), None);
}

#[test]
fn title_failure_leaves_attempt_clean() {
    let bytes = b"x\"a\n\nb\"";
    let mut tokenizer = Tokenizer::new(bytes, 1, bytes.len(), Constructs::default());
    tokenizer.enter(Token::Data);
    let before = (tokenizer.point, tokenizer.events.clone());
    let state = tokenizer.attempt(
        StateName::TitleStart,
        micromark::state::State::Okay,
        micromark::state::State::Nok,
    );
    assert_eq!(state, micromark::state::State::Nok);
    assert_eq!((tokenizer.point, tokenizer.events.clone()), before);
}

#[test]
fn title_chunks_become_data() {
    let bytes = b"\"a\\\"b\"";
    let (events, _) = title("\"a\\\"b\"").unwrap();
    let events = subtokenize(bytes, &events, Constructs::default());
    assert_eq!(
        events,
        vec![
            enter(Token::DefinitionTitle, 0),
            enter(Token::DefinitionTitleMarker, 0),
            exit(Token::DefinitionTitleMarker, 1),
            enter(Token::DefinitionTitleString, 1),
            enter(Token::Data, 1),
            exit(Token::Data, 5),
            exit(Token::DefinitionTitleString, 5),
            enter(Token::DefinitionTitleMarker, 5),
            exit(Token::DefinitionTitleMarker, 6),
            exit(Token::DefinitionTitle, 6),
        ]
    );
}
