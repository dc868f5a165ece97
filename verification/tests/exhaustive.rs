use micromark::parser::parse;
use micromark::state::{State, StateName};
use micromark::token::{Boundary, Event, Token};
use micromark::tokenizer::{Constructs, Tokenizer};

/// Every text over `alphabet` of at most `max` bytes.
fn texts(alphabet: &[u8], max: usize) -> Vec<Vec<u8>> {
    let mut all: Vec<Vec<u8>> = vec![vec![]];
    let mut from = 0;
    for _ in 0..max {
        let to = all.len();
        for index in from..to {
            for byte in alphabet {
                let mut text = all[index].clone();
                text.push(*byte);
                all.push(text);
            }
        }
        from = to;
    }
    all
}

/// Whether every exit matches the enter last left open, and nothing is
/// left open.
fn is_balanced(events: &[Event]) -> bool {
    let mut open = vec![];
    for event in events {
        match event.boundary {
            Boundary::Enter => open.push(event.kind),
            Boundary::Exit => {
                if open.pop() != Some(event.kind) {
                    return false;
                }
            }
        }
    }
    open.is_empty()
}

/// Number of columns of the spaces and tabs at `from`, which is in column
/// `column`.
fn leading_columns(text: &[u8], from: usize, column: usize) -> usize {
    let mut column = column;
    let mut columns = 0;
    for byte in &text[from..] {
        match byte {
            b' ' => {
                column += 1;
                columns += 1;
            }
            b'\t' => {
                let width = 4 - column % 4;
                column += width;
                columns += width;
            }
            _ => break,
        }
    }
    columns
}

/// Where the line that holds the byte before `end` starts.
fn line_start(text: &[u8], end: usize) -> usize {
    let mut start = end;
    while start > 0 && text[start - 1] != b'\n' && text[start - 1] != b'\r' {
        start -= 1;
    }
    start
}

/// Where the title at the start of `text` ends, going by the grammar: a
/// marker, then anything but the marker, where a backslash takes the marker
/// after it along and no line is blank, then the marker.
fn title_end(text: &[u8]) -> Option<usize> {
    let marker = match text.first() {
        Some(b'"') => b'"',
        Some(b'\'') => b'\'',
        Some(b'(') => b')',
        _ => return None,
    };
    let mut index = 1;
    while index < text.len() {
        let byte = text[index];
        if byte == marker {
            return Some(index + 1);
        } else if byte == b'\\' {
            index += 1;
            if index < text.len() && text[index] == marker {
                index += 1;
            }
        } else if byte == b'\n' || byte == b'\r' {
            index += 1;
            if byte == b'\r' && index < text.len() && text[index] == b'\n' {
                index += 1;
            }
            while index < text.len() && (text[index] == b' ' || text[index] == b'\t') {
                index += 1;
            }
            if index < text.len() && (text[index] == b'\n' || text[index] == b'\r') {
                return None;
            }
        } else {
            index += 1;
        }
    }
    None
}

#[test]
fn every_short_text_parses_to_balanced_events() {
    for text in texts(b" \t\n\ra\"\\", 5) {
        let events = parse(&text, Constructs::default());
        assert!(is_balanced(&events), "{:?}", text);
        let mut last = 0;
        for event in &events {
            assert!(last <= event.offset && event.offset <= text.len(), "{:?}", text);
            last = event.offset;
        }
        // Every byte lies in a span.
        if !text.is_empty() {
            assert_eq!(events.first().map(|event| event.offset), Some(0), "{:?}", text);
            assert_eq!(events.last().map(|event| event.offset), Some(text.len()), "{:?}", text);
        }
    }
}

#[test]
fn every_failed_attempt_leaves_the_tokenizer_as_it_was() {
    for text in texts(b" \t\na\"\\", 5) {
        for name in [StateName::TitleStart, StateName::CodeIndentedStart, StateName::BlankLineStart]
        {
            let mut tokenizer = Tokenizer::new(&text, 0, text.len(), Constructs::default());
            tokenizer.enter(Token::Data);
            let before = (tokenizer.point, tokenizer.events.clone(), tokenizer.interrupt);
            let state = tokenizer.attempt(name, State::Okay, State::Nok);
            if state == State::Nok {
                assert_eq!(
                    (tokenizer.point, tokenizer.events.clone(), tokenizer.interrupt),
                    before,
                    "{:?}",
                    text
                );
            } else {
                assert_eq!(tokenizer.events[..1], before.1[..], "{:?}", text);
                assert!(is_balanced(&tokenizer.events[1..]), "{:?}", text);
            }
        }
    }
}

/// Where code (indented) that starts at the start of `text` ends, going by
/// the grammar: the first line has four columns of indentation, and each
/// filled line after it with as many belongs to the block, with the blank
/// lines before it, up to the first filled line that has fewer.
fn code_end(text: &[u8]) -> Option<usize> {
    if leading_columns(text, 0, 0) < 4 {
        return None;
    }
    let mut end = text.iter().position(|byte| *byte == b'\n').unwrap_or(text.len());
    let mut line = end;
    while line < text.len() {
        // `line` is at a line ending.
        let start = line + 1;
        let stop = text[start..]
            .iter()
            .position(|byte| *byte == b'\n')
            .map_or(text.len(), |index| start + index);
        let blank = text[start..stop].iter().all(|byte| *byte == b' ' || *byte == b'\t');
        if !blank {
            if leading_columns(text, start, 0) < 4 {
                break;
            }
            end = stop;
        }
        line = stop;
    }
    Some(end)
}

#[test]
fn code_starts_with_four_columns_and_ends_with_a_filled_line() {
    for text in texts(b" \t\na", 8) {
        let mut tokenizer = Tokenizer::new(&text, 0, text.len(), Constructs::default());
        let ok = tokenizer.run(StateName::CodeIndentedStart);
        assert_eq!(ok, leading_columns(&text, 0, 0) >= 4, "{:?}", text);
        let end = if ok { Some(tokenizer.point.offset) } else { None };
        assert_eq!(end, code_end(&text), "{:?}", text);
        if let Some(end) = end {
            assert_eq!(tokenizer.events.last().map(|event| event.offset), Some(end));
            assert!(end == text.len() || text[end] == b'\n', "{:?}", text);
            let first_line = text.split(|byte| *byte == b'\n').next().unwrap();
            if first_line.contains(&b'a') {
                // No blank line trails in the block.
                let start = line_start(&text, end);
                assert!(leading_columns(&text, start, 0) >= 4, "{:?}", text);
                assert!(text[start..end].contains(&b'a'), "{:?}", text);
            }
        }
    }
}

#[test]
fn titles_match_as_the_grammar_says() {
    for text in texts(b"\"\\a\n ", 7) {
        let mut tokenizer = Tokenizer::new(&text, 0, text.len(), Constructs::default());
        let ok = tokenizer.run(StateName::TitleStart);
        let end = if ok { Some(tokenizer.point.offset) } else { None };
        assert_eq!(end, title_end(&text), "{:?}", text);
        if ok {
            assert!(is_balanced(&tokenizer.events), "{:?}", text);
        }
    }
    for text in texts(b"()'\\\r\n", 6) {
        let mut tokenizer = Tokenizer::new(&text, 0, text.len(), Constructs::default());
        let ok = tokenizer.run(StateName::TitleStart);
        let end = if ok { Some(tokenizer.point.offset) } else { None };
        assert_eq!(end, title_end(&text), "{:?}", text);
    }
}
