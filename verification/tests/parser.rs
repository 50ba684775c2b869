use text_adventure::parser::{parse, ExpectedRule, ParseError};
use text_adventure::StoryEvent;

#[test]
fn empty_document_parses_to_no_events() {
    let events = parse("").unwrap();
    assert!(events.is_empty());
}

#[test]
fn plain_prose_is_one_text_event() {
    let events = parse("Hello world").unwrap();
    assert_eq!(events.len(), 1);
    assert!(matches!(&events[0], StoryEvent::Text(t) if t == "Hello world"));
}

#[test]
fn pause_command_parses_to_pause() {
    let events = parse("+PAUSE").unwrap();
    assert_eq!(events.len(), 1);
    assert!(matches!(events[0], StoryEvent::Pause));
}

#[test]
fn clear_command_parses_to_clear() {
    let events = parse("+CLEAR").unwrap();
    assert_eq!(events.len(), 1);
    assert!(matches!(events[0], StoryEvent::Clear));
}

#[test]
fn input_command_carries_its_label() {
    let events = parse("+INPUT:name").unwrap();
    assert_eq!(events.len(), 1);
    assert!(matches!(&events[0], StoryEvent::Input(l) if l == "name"));
}

#[test]
fn input_without_argument_is_rejected() {
    let err = parse("+INPUT").unwrap_err();
    assert_eq!(err, ParseError::MissingArgument);
}

#[test]
fn input_with_empty_argument_is_rejected() {
    let err = parse("+INPUT:").unwrap_err();
    assert_eq!(err, ParseError::MissingArgument);
}

#[test]
fn unknown_command_is_reported_by_name() {
    let err = parse("+FROB").unwrap_err();
    assert!(matches!(&err, ParseError::UnknownCommand(n) if n == "FROB"));
}

#[test]
fn unknown_command_with_argument_is_still_unknown() {
    let err = parse("+FROB:x").unwrap_err();
    assert!(matches!(&err, ParseError::UnknownCommand(n) if n == "FROB"));
}

#[test]
fn events_are_separated_by_newlines() {
    let events = parse("Line one\n+CLEAR\nLine two").unwrap();
    assert_eq!(events.len(), 3);
    assert!(matches!(&events[0], StoryEvent::Text(t) if t == "Line one"));
    assert!(matches!(events[1], StoryEvent::Clear));
    assert!(matches!(&events[2], StoryEvent::Text(t) if t == "Line two"));
}

#[test]
fn parsing_twice_gives_equal_results() {
    let text = "Line one\n+CLEAR\nLine two\n+INPUT:name";
    let first = parse(text).unwrap();
    let second = parse(text).unwrap();
    assert_eq!(first, second);
}

#[test]
fn trailing_whitespace_and_newlines_are_ignored() {
    assert_eq!(parse("Hello world \t\n\n").unwrap(), parse("Hello world").unwrap());
    assert_eq!(parse("+PAUSE\n\n").unwrap(), parse("+PAUSE").unwrap());
    assert_eq!(parse("+INPUT:name \n").unwrap(), parse("+INPUT:name").unwrap());
    assert_eq!(parse(" \t\n").unwrap(), parse("").unwrap());
}

#[test]
fn argument_may_follow_inline_whitespace() {
    let events = parse("+INPUT: name").unwrap();
    assert!(matches!(&events[0], StoryEvent::Input(l) if l == "name"));
    let events = parse("+INPUT :name").unwrap();
    assert!(matches!(&events[0], StoryEvent::Input(l) if l == "name"));
}

#[test]
fn argument_stops_at_whitespace() {
    let err = parse("+INPUT:first second").unwrap_err();
    assert!(matches!(err, ParseError::SyntaxError { .. }));
}

#[test]
fn pause_ignores_an_argument() {
    let events = parse("+PAUSE:x").unwrap();
    assert_eq!(events.len(), 1);
    assert!(matches!(events[0], StoryEvent::Pause));
}

#[test]
fn plus_inside_prose_is_ordinary_text() {
    let events = parse("one + two").unwrap();
    assert_eq!(events.len(), 1);
    assert!(matches!(&events[0], StoryEvent::Text(t) if t == "one + two"));
}

#[test]
fn lowercase_word_after_plus_is_prose() {
    let events = parse("+input").unwrap();
    assert_eq!(events.len(), 1);
    assert!(matches!(&events[0], StoryEvent::Text(t) if t == "+input"));
}

#[test]
fn prose_swallows_newlines_not_followed_by_plus() {
    let events = parse("Line one\nLine two").unwrap();
    assert_eq!(events.len(), 1);
    assert!(matches!(&events[0], StoryEvent::Text(t) if t == "Line one\nLine two"));
}

#[test]
fn junk_after_command_is_a_positioned_syntax_error() {
    let err = parse("+PAUSEx").unwrap_err();
    assert_eq!(err, ParseError::SyntaxError { pos: 6, expected: ExpectedRule::Event });
}

#[test]
fn newline_then_command_at_document_start_is_an_error() {
    let err = parse("\n+PAUSE").unwrap_err();
    assert_eq!(err, ParseError::SyntaxError { pos: 0, expected: ExpectedRule::Event });
}

#[test]
fn blank_lines_between_events_are_allowed() {
    let events = parse("+PAUSE\n\n\n+CLEAR").unwrap();
    assert_eq!(events.len(), 2);
    assert!(matches!(events[0], StoryEvent::Pause));
    assert!(matches!(events[1], StoryEvent::Clear));
}
