use micromark::parser::parse;
use micromark::state::StateName;
use micromark::token::{Boundary, Event, Token};
use micromark::tokenizer::{Constructs, Tokenizer};

/// Escapes what HTML reserves.
fn encode(bytes: &[u8]) -> String {
    let mut out = String::new();
    for byte in bytes {
        match byte {
            b'&' => out.push_str("&amp;"),
            b'<' => out.push_str("&lt;"),
            b'>' => out.push_str("&gt;"),
            b'"' => out.push_str("&quot;"),
            _ => out.push(*byte as char),
        }
    }
    out
}

/// Renders the events of flow as HTML: code (indented) as `pre` and `code`,
/// lines of data as paragraphs.
fn render(text: &str, events: &[Event]) -> String {
    let bytes = text.as_bytes();
    let mut blocks: Vec<String> = vec![];
    let mut paragraph: Vec<String> = vec![];
    let mut code = String::new();
    let mut in_code = false;
    let mut blank = true;
    let mut index = 0;
    while index < events.len() {
        let event = events[index];
        match (event.kind, event.boundary) {
            (Token::CodeIndented, Boundary::Enter) => {
                if !paragraph.is_empty() {
                    blocks.push(format!("<p>{}</p>", paragraph.join("\n")));
                    paragraph.clear();
                }
                in_code = true;
                code.clear();
            }
            (Token::CodeIndented, Boundary::Exit) => {
                if !code.ends_with('\n') {
                    code.push('\n');
                }
                blocks.push(format!("<pre><code>{}</code></pre>", code));
                in_code = false;
            }
            (Token::CodeFlowChunk, Boundary::Exit) => {
                code.push_str(&encode(&bytes[events[index - 1].offset..event.offset]));
            }
            (Token::LineEnding, Boundary::Exit) => {
                if in_code {
                    code.push('\n');
                } else if blank && !paragraph.is_empty() {
                    blocks.push(format!("<p>{}</p>", paragraph.join("\n")));
                    paragraph.clear();
                }
                blank = true;
            }
            (Token::Data, Boundary::Exit) => {
                let line = encode(&bytes[events[index - 1].offset..event.offset]);
                paragraph.push(line.trim_start_matches([' ', '\t']).to_string());
                blank = false;
            }
            _ => {}
        }
        index += 1;
    }
    if !paragraph.is_empty() {
        blocks.push(format!("<p>{}</p>", paragraph.join("\n")));
    }
    blocks.join("\n")
}

/// Text to HTML, by way of the events.
fn to_html(text: &str) -> String {
    let events = parse(text.as_bytes(), Constructs::default());
    render(text, &events)
}

/// The literal text of the one code (indented) in `text`.
fn code_text(text: &str) -> Option<String> {
    let events = parse(text.as_bytes(), Constructs::default());
    let enters = events
        .iter()
        .filter(|event| event.kind == Token::CodeIndented && event.boundary == Boundary::Enter)
        .count();
    if enters != 1 {
        return None;
    }
    let bytes = text.as_bytes();
    let mut code = String::new();
    let mut in_code = false;
    for index in 0..events.len() {
        let event = events[index];
        match (event.kind, event.boundary) {
            (Token::CodeIndented, Boundary::Enter) => in_code = true,
            (Token::CodeIndented, Boundary::Exit) => in_code = false,
            (Token::CodeFlowChunk, Boundary::Exit) => {
                code.push_str(
                    std::str::from_utf8(&bytes[events[index - 1].offset..event.offset]).unwrap(),
                );
            }
            (Token::LineEnding, Boundary::Exit) => {
                if in_code {
                    code.push('\n');
                }
            }
            _ => {}
        }
    }
    Some(code)
}

fn enter(kind: Token, offset: usize) -> Event {
    Event { kind, boundary: Boundary::Enter, offset }
}

fn exit(kind: Token, offset: usize) -> Event {
    Event { kind, boundary: Boundary::Exit, offset }
}

#[test]
fn code_indented() {
    assert_eq!(
        to_html("    a simple\n      indented code block"),
        "<pre><code>a simple\n  indented code block\n</code></pre>",
        "should support indented code"
    );

    assert_eq!(
        to_html("    <a/>\n    *hi*\n\n    - one"),
        "<pre><code>&lt;a/&gt;\n*hi*\n\n- one\n</code></pre>",
        "should support blank lines in indented code (1)"
    );

    assert_eq!(
        to_html("    chunk1\n\n    chunk2\n  \n \n \n    chunk3"),
        "<pre><code>chunk1\n\nchunk2\n\n\n\nchunk3\n</code></pre>",
        "should support blank lines in indented code (2)"
    );

    assert_eq!(
        to_html("    chunk1\n      \n      chunk2"),
        "<pre><code>chunk1\n  \n  chunk2\n</code></pre>",
        "should support blank lines in indented code (3)"
    );

    assert_eq!(
        to_html("Foo\n    bar"),
        "<p>Foo\nbar</p>",
        "should not support interrupting paragraphs"
    );

    assert_eq!(
        to_html("    foo\nbar"),
        "<pre><code>foo\n</code></pre>\n<p>bar</p>",
        "should support paragraphs directly after indented code"
    );

    assert_eq!(
        to_html("        foo\n    bar"),
        "<pre><code>    foo\nbar\n</code></pre>",
        "should support extra whitespace on the first line"
    );

    assert_eq!(
        to_html("\n    \n    foo\n    "),
        "<pre><code>foo\n</code></pre>",
        "should not support initial blank lines"
    );

    assert_eq!(
        to_html("    foo  "),
        "<pre><code>foo  \n</code></pre>",
        "should support trailing whitespace"
    );
}

#[test]
fn code_indented_two_lines() {
    assert_eq!(
        code_text("    aaa\n      indented code block"),
        Some("aaa\n  indented code block".to_string())
    );
}

#[test]
fn code_indented_keeps_blank_lines_inside() {
    assert_eq!(
        code_text("    chunk1\n\n    chunk2\n  \n \n \n    chunk3"),
        Some("chunk1\n\nchunk2\n\n\n\nchunk3".to_string())
    );
}

#[test]
fn code_indented_does_not_interrupt_paragraph() {
    let events = parse(b"Foo\n    bar", Constructs::default());
    assert_eq!(
        events,
        vec![
            enter(Token::Data, 0),
            exit(Token::Data, 3),
            enter(Token::LineEnding, 3),
            exit(Token::LineEnding, 4),
            enter(Token::Data, 4),
            exit(Token::Data, 11),
        ]
    );
}

#[test]
fn code_indented_events_of_one_line() {
    let events = parse(b"    a\n", Constructs::default());
    assert_eq!(
        events,
        vec![
            enter(Token::CodeIndented, 0),
            enter(Token::SpaceOrTab, 0),
            exit(Token::SpaceOrTab, 4),
            enter(Token::CodeFlowChunk, 4),
            exit(Token::CodeFlowChunk, 5),
            exit(Token::CodeIndented, 5),
            enter(Token::LineEnding, 5),
            exit(Token::LineEnding, 6),
        ]
    );
}

#[test]
fn code_indented_four_columns_start_a_block() {
    assert_eq!(code_text("    a"), Some("a".to_string()));
    assert_eq!(code_text("\ta"), Some("a".to_string()));
    assert_eq!(code_text("  \ta"), Some("a".to_string()));
    assert_eq!(code_text("   \ta"), Some("a".to_string()));
    assert_eq!(code_text(" \t a"), Some(" a".to_string()));
}

#[test]
fn code_indented_three_columns_start_no_block() {
    assert_eq!(code_text("   a"), None);
    assert_eq!(code_text("   a\n    b"), None);
    assert_eq!(code_text("a"), None);
    assert_eq!(code_text(""), None);
}

#[test]
fn code_indented_leaves_trailing_blank_lines_out() {
    let events = parse(b"    foo\n\n  \n", Constructs::default());
    assert_eq!(events[5], exit(Token::CodeIndented, 7));
    let events = parse(b"    foo\n  \nbar", Constructs::default());
    assert_eq!(events[5], exit(Token::CodeIndented, 7));
}

#[test]
fn code_indented_leaves_a_trailing_line_of_spaces_out() {
    let block = vec![
        enter(Token::CodeIndented, 0),
        enter(Token::SpaceOrTab, 0),
        exit(Token::SpaceOrTab, 4),
        enter(Token::CodeFlowChunk, 4),
        exit(Token::CodeFlowChunk, 7),
        exit(Token::CodeIndented, 7),
    ];
    for text in ["    foo\n    ", "    foo\n      ", "    foo\n\t\t\n     \n", "    foo\n    \n  a"] {
        let bytes = text.as_bytes();
        let mut tokenizer = Tokenizer::new(bytes, 0, bytes.len(), Constructs::default());
        assert!(tokenizer.run(StateName::CodeIndentedStart), "{:?}", text);
        assert_eq!(tokenizer.events, block, "{:?}", text);
        assert_eq!(tokenizer.point.offset, 7, "{:?}", text);
        assert_eq!(code_text(text), Some("foo".to_string()), "{:?}", text);
    }
}

#[test]
fn code_indented_after_blank_lines_leaves_blank_lines_out() {
    let bytes = b"\n    \n    foo\n    ";
    let mut tokenizer = Tokenizer::new(bytes, 6, bytes.len(), Constructs::default());
    assert!(tokenizer.run(StateName::CodeIndentedStart));
    assert_eq!(
        tokenizer.events,
        vec![
            enter(Token::CodeIndented, 6),
            enter(Token::SpaceOrTab, 6),
            exit(Token::SpaceOrTab, 10),
            enter(Token::CodeFlowChunk, 10),
            exit(Token::CodeFlowChunk, 13),
            exit(Token::CodeIndented, 13),
        ]
    );
    assert_eq!(tokenizer.point.offset, 13);
}

#[test]
fn code_indented_keeps_a_line_of_spaces_before_a_filled_line() {
    let events = parse(b"    a\n      \n    \n\n    b", Constructs::default());
    assert_eq!(
        events,
        vec![
            enter(Token::CodeIndented, 0),
            enter(Token::SpaceOrTab, 0),
            exit(Token::SpaceOrTab, 4),
            enter(Token::CodeFlowChunk, 4),
            exit(Token::CodeFlowChunk, 5),
            enter(Token::LineEnding, 5),
            exit(Token::LineEnding, 6),
            enter(Token::SpaceOrTab, 6),
            exit(Token::SpaceOrTab, 10),
            enter(Token::CodeFlowChunk, 10),
            exit(Token::CodeFlowChunk, 12),
            enter(Token::LineEnding, 12),
            exit(Token::LineEnding, 13),
            enter(Token::SpaceOrTab, 13),
            exit(Token::SpaceOrTab, 17),
            enter(Token::LineEnding, 17),
            exit(Token::LineEnding, 18),
            enter(Token::LineEnding, 18),
            exit(Token::LineEnding, 19),
            enter(Token::SpaceOrTab, 19),
            exit(Token::SpaceOrTab, 23),
            enter(Token::CodeFlowChunk, 23),
            exit(Token::CodeFlowChunk, 24),
            exit(Token::CodeIndented, 24),
        ]
    );
    assert_eq!(code_text("    a\n      \n    \n\n    b"), Some("a\n  \n\n\nb".to_string()));
    // What follows the spaces may start with more spaces.
    assert_eq!(code_text("    a\n     \n      b"), Some("a\n \n  b".to_string()));
}

#[test]
fn code_indented_ends_before_a_filled_line_that_is_not_indented() {
    let events = parse(b"    a\n      \n   b", Constructs::default());
    assert_eq!(events[5], exit(Token::CodeIndented, 5));
}

#[test]
fn code_indented_turned_off() {
    let events = parse(b"    a", Constructs { code_indented: false });
    assert_eq!(events, vec![enter(Token::Data, 0), exit(Token::Data, 5)]);
}

#[test]
fn code_indented_not_on_a_lazy_line() {
    let mut tokenizer = Tokenizer::new(b"    a\n    b", 0, 11, Constructs::default());
    tokenizer.lazy = true;
    assert!(tokenizer.run(StateName::CodeIndentedStart));
    assert_eq!(tokenizer.events.last(), Some(&exit(Token::CodeIndented, 5)));
    assert_eq!(tokenizer.point.offset, 5);
}

#[test]
fn code_indented_clears_interrupt() {
    let mut tokenizer = Tokenizer::new(b"    a", 0, 5, Constructs::default());
    assert!(tokenizer.run(StateName::CodeIndentedStart));
    assert!(!tokenizer.interrupt);
    let mut tokenizer = Tokenizer::new(b"    a", 0, 5, Constructs::default());
    tokenizer.interrupt = true;
    assert!(!tokenizer.run(StateName::CodeIndentedStart));
}

#[test]
fn code_indented_with_carriage_returns() {
    assert_eq!(code_text("    a\r\n    b\r    c"), Some("a\nb\nc".to_string()));
    let events = parse(b"    a\r\n    b", Constructs::default());
    assert_eq!(events[5], enter(Token::LineEnding, 5));
    assert_eq!(events[6], exit(Token::LineEnding, 7));
}
