use micromark::construct::partial_space_or_tab::{space_or_tab, space_or_tab_min_max};
use micromark::parser::{parse, tokenize};
use micromark::state::{call, State, StateName};
use micromark::subtokenize::{resolve, subtokenize};
use micromark::token::{Boundary, ContentType, Event, Token};
use micromark::tokenizer::{Checkpoint, Code, Constructs, Point, Tokenizer};

fn enter(kind: Token, offset: usize) -> Event {
    Event { kind, boundary: Boundary::Enter, offset }
}

fn exit(kind: Token, offset: usize) -> Event {
    Event { kind, boundary: Boundary::Exit, offset }
}

/// Whether every exit matches the enter last left open, and nothing is
/// left open.
fn is_balanced(events: &[Event]) -> bool {
    let mut open = vec![];
    for event in events {
        match event.boundary {
            Boundary::Enter => open.push(event.kind),
            Boundary::Exit => {
                if open.pop() != Some(event.kind) {
                    return false;
                }
            }
        }
    }
    open.is_empty()
}

#[test]
fn parse_empty_text() {
    assert_eq!(parse(b"", Constructs::default()), vec![]);
}

#[test]
fn parse_is_balanced_on_any_text() {
    let texts: [&[u8]; 12] = [
        b"",
        b"\n",
        b"\r\n\r",
        b"a",
        b"    a",
        b"    a\n",
        b"    a\n\n\n    b\n  \n",
        b"\t\ta\n \tb\n",
        b"a\n    b\n\n    c\n   d",
        b"    \n    \n",
        b"\"a\\\"b\"",
        b"    \xff\xfe\n\x00",
    ];
    for text in texts {
        let events = parse(text, Constructs::default());
        assert!(is_balanced(&events));
        let mut last = 0;
        for event in events {
            assert!(last <= event.offset && event.offset <= text.len());
            last = event.offset;
        }
    }
}

#[test]
fn parse_blank_lines() {
    assert_eq!(
        parse(b"\n  \na", Constructs::default()),
        vec![
            enter(Token::LineEnding, 0),
            exit(Token::LineEnding, 1),
            enter(Token::SpaceOrTab, 1),
            exit(Token::SpaceOrTab, 3),
            enter(Token::LineEnding, 3),
            exit(Token::LineEnding, 4),
            enter(Token::Data, 4),
            exit(Token::Data, 5),
        ]
    );
}

#[test]
fn parse_blank_line_ends_paragraph() {
    let events = parse(b"a\n\n    b", Constructs::default());
    assert_eq!(events[6], enter(Token::CodeIndented, 3));
    assert_eq!(events.last(), Some(&exit(Token::CodeIndented, 8)));
}

#[test]
fn tokenize_string_content() {
    assert_eq!(
        tokenize(b"xab\ncx", 1, 5, ContentType::String, Constructs::default()),
        vec![
            enter(Token::Data, 1),
            exit(Token::Data, 3),
            enter(Token::LineEnding, 3),
            exit(Token::LineEnding, 4),
            enter(Token::Data, 4),
            exit(Token::Data, 5),
        ]
    );
    assert_eq!(
        tokenize(b"    a", 0, 5, ContentType::String, Constructs::default()),
        vec![enter(Token::Data, 0), exit(Token::Data, 5)]
    );
}

#[test]
fn cursor_codes() {
    let mut tokenizer = Tokenizer::new(b"a\r\n\r\tb", 0, 6, Constructs::default());
    assert_eq!(tokenizer.current(), Code::Char(b'a'));
    tokenizer.consume();
    assert_eq!(tokenizer.point, Point { offset: 1, line: 0, column: 1 });
    assert_eq!(tokenizer.current(), Code::LineEnding);
    tokenizer.consume();
    assert_eq!(tokenizer.point, Point { offset: 3, line: 1, column: 0 });
    assert_eq!(tokenizer.current(), Code::LineEnding);
    tokenizer.consume();
    assert_eq!(tokenizer.point, Point { offset: 4, line: 2, column: 0 });
    assert_eq!(tokenizer.current(), Code::Char(b'\t'));
    assert_eq!(tokenizer.current_width(), 4);
    tokenizer.consume();
    assert_eq!(tokenizer.current(), Code::Char(b'b'));
    assert_eq!(tokenizer.current_width(), 1);
    tokenizer.consume();
    assert_eq!(tokenizer.current(), Code::Eof);
    assert_eq!(tokenizer.current_width(), 0);
    tokenizer.consume();
    assert_eq!(tokenizer.current(), Code::Eof);
    assert_eq!(tokenizer.point, Point { offset: 6, line: 2, column: 1 });
}

#[test]
fn cursor_stops_at_its_end() {
    let mut tokenizer = Tokenizer::new(b"a\r\n", 0, 2, Constructs::default());
    tokenizer.consume();
    assert_eq!(tokenizer.current(), Code::LineEnding);
    tokenizer.consume();
    assert_eq!(tokenizer.point.offset, 2);
    assert_eq!(tokenizer.current(), Code::Eof);
}

#[test]
fn tab_reaches_the_next_tab_stop() {
    let mut tokenizer = Tokenizer::new(b"ab\tc", 0, 4, Constructs::default());
    tokenizer.consume();
    tokenizer.consume();
    assert_eq!(tokenizer.point.column, 2);
    assert_eq!(tokenizer.current_width(), 2);
    tokenizer.consume();
    assert_eq!(tokenizer.point.column, 0);
}

#[test]
fn enter_and_exit_add_events() {
    let mut tokenizer = Tokenizer::new(b"ab", 0, 2, Constructs::default());
    tokenizer.enter(Token::Data);
    tokenizer.consume();
    tokenizer.exit(Token::Data);
    assert_eq!(tokenizer.events, vec![enter(Token::Data, 0), exit(Token::Data, 1)]);
}

#[test]
fn capture_and_free() {
    let mut tokenizer = Tokenizer::new(b"ab", 0, 2, Constructs::default());
    tokenizer.enter(Token::Data);
    let checkpoint = tokenizer.capture();
    assert_eq!(
        checkpoint,
        Checkpoint { point: Point { offset: 0, line: 0, column: 0 }, events_len: 1 }
    );
    tokenizer.consume();
    tokenizer.exit(Token::Data);
    tokenizer.free(checkpoint);
    assert_eq!(tokenizer.point, Point { offset: 0, line: 0, column: 0 });
    assert_eq!(tokenizer.events, vec![enter(Token::Data, 0)]);
}

#[test]
fn attempt_keeps_what_matched() {
    let mut tokenizer = Tokenizer::new(b"  a", 0, 3, Constructs::default());
    let state = tokenizer.attempt(space_or_tab(), State::Okay, State::Nok);
    assert_eq!(state, State::Okay);
    assert_eq!(tokenizer.point.offset, 2);
    assert_eq!(tokenizer.events, vec![enter(Token::SpaceOrTab, 0), exit(Token::SpaceOrTab, 2)]);
}

#[test]
fn attempt_rolls_back_what_failed() {
    let mut tokenizer = Tokenizer::new(b"   a", 0, 4, Constructs::default());
    let state = tokenizer.attempt(space_or_tab_min_max(4, 4), State::Okay, State::Nok);
    assert_eq!(state, State::Nok);
    assert_eq!(tokenizer.point, Point { offset: 0, line: 0, column: 0 });
    assert_eq!(tokenizer.events, vec![]);
}

#[test]
fn attempt_opt_goes_on_either_way() {
    let mut tokenizer = Tokenizer::new(b"a", 0, 1, Constructs::default());
    let state = tokenizer.attempt_opt(space_or_tab(), StateName::BlankLineAfter);
    assert_eq!(state, State::Next(StateName::BlankLineAfter));
    assert_eq!(tokenizer.events, vec![]);
    let mut tokenizer = Tokenizer::new(b" a", 0, 2, Constructs::default());
    let state = tokenizer.attempt_opt(space_or_tab(), StateName::BlankLineAfter);
    assert_eq!(state, State::Next(StateName::BlankLineAfter));
    assert_eq!(tokenizer.point.offset, 1);
}

#[test]
fn go_keeps_what_failed() {
    let mut tokenizer = Tokenizer::new(b"   a", 0, 4, Constructs::default());
    let state = tokenizer.go(space_or_tab_min_max(4, 4), StateName::BlankLineAfter);
    assert_eq!(state, State::Nok);
    assert_eq!(tokenizer.point.offset, 3);
    let mut tokenizer = Tokenizer::new(b"    a", 0, 5, Constructs::default());
    let state = tokenizer.go(space_or_tab_min_max(4, 4), StateName::BlankLineAfter);
    assert_eq!(state, State::Next(StateName::BlankLineAfter));
    assert_eq!(tokenizer.point.offset, 4);
}

#[test]
fn space_or_tab_takes_no_more_than_its_maximum() {
    let mut tokenizer = Tokenizer::new(b"      a", 0, 7, Constructs::default());
    assert!(tokenizer.run(space_or_tab_min_max(2, 4)));
    assert_eq!(tokenizer.point.offset, 4);
    let mut tokenizer = Tokenizer::new(b" \t  a", 0, 5, Constructs::default());
    assert!(tokenizer.run(space_or_tab_min_max(4, 4)));
    assert_eq!(tokenizer.point.offset, 2);
    let mut tokenizer = Tokenizer::new(b"a", 0, 1, Constructs::default());
    assert!(tokenizer.run(space_or_tab_min_max(0, 4)));
    assert!(!tokenizer.run(space_or_tab()));
}

#[test]
fn call_runs_one_state() {
    let mut tokenizer = Tokenizer::new(b"ab", 0, 2, Constructs::default());
    tokenizer.enter(Token::CodeIndented);
    tokenizer.enter(Token::CodeFlowChunk);
    assert_eq!(
        call(&mut tokenizer, StateName::CodeIndentedInside),
        State::Next(StateName::CodeIndentedInside)
    );
    assert_eq!(tokenizer.point.offset, 1);
    assert_eq!(
        call(&mut tokenizer, StateName::CodeIndentedInside),
        State::Next(StateName::CodeIndentedInside)
    );
    assert_eq!(call(&mut tokenizer, StateName::CodeIndentedInside), State::Okay);
    assert_eq!(tokenizer.events.len(), 4);
}

#[test]
fn blank_line_matches_spaces_before_a_line_ending() {
    let mut tokenizer = Tokenizer::new(b" \t\na", 0, 4, Constructs::default());
    tokenizer.interrupt = true;
    assert!(tokenizer.run(StateName::BlankLineStart));
    assert_eq!(tokenizer.point.offset, 2);
    assert!(!tokenizer.interrupt);
    let mut tokenizer = Tokenizer::new(b" a", 0, 2, Constructs::default());
    assert!(!tokenizer.run(StateName::BlankLineStart));
}

#[test]
fn subtokenize_leaves_other_events() {
    let events = vec![
        enter(Token::CodeIndented, 0),
        enter(Token::CodeFlowChunk, 0),
        exit(Token::CodeFlowChunk, 2),
        exit(Token::CodeIndented, 2),
    ];
    assert_eq!(subtokenize(b"ab", &events, Constructs::default()), events);
}

#[test]
fn subtokenize_replaces_chunks() {
    let events = vec![
        enter(Token::ChunkString, 0),
        exit(Token::ChunkString, 1),
        enter(Token::ChunkString, 1),
        exit(Token::ChunkString, 1),
        enter(Token::Data, 1),
        exit(Token::Data, 2),
    ];
    assert_eq!(
        subtokenize(b"ab", &events, Constructs::default()),
        vec![
            enter(Token::Data, 0),
            exit(Token::Data, 1),
            enter(Token::Data, 1),
            exit(Token::Data, 2),
        ]
    );
    // No chunk lies below the lowest level.
    assert_eq!(resolve(b"ab", &events, Constructs::default(), 0), events);
}

#[test]
fn content_levels() {
    assert_eq!(ContentType::Flow.nesting_level(), 1);
    assert_eq!(ContentType::String.nesting_level(), 0);
    assert_eq!(ContentType::Flow.candidate(0), Some(StateName::BlankLineStart));
    assert_eq!(ContentType::Flow.candidate(1), Some(StateName::CodeIndentedStart));
    assert_eq!(ContentType::Flow.candidate(2), None);
    assert_eq!(ContentType::String.candidate(0), None);
    assert_eq!(Token::ChunkString.content(), Some(ContentType::String));
    assert_eq!(Token::CodeFlowChunk.content(), None);
}
