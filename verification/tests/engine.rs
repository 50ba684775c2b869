use text_adventure::engine::{Engine, Key, Mode, Phase};
use text_adventure::parser::parse;
use text_adventure::{AppData, StoryEvent};

fn engine_for(events: Vec<StoryEvent>) -> Engine {
    Engine::new(AppData::from_events(events))
}

fn engine_for_story(text: &str) -> Engine {
    engine_for(parse(text).unwrap())
}

#[test]
fn playthrough_reveals_text_and_collects_input() {
    let mut engine = engine_for(vec![
        StoryEvent::Text(String::from("Hi")),
        StoryEvent::Input(String::from("name")),
    ]);
    engine.tick(0);
    assert_eq!(engine.phase(), Phase::Responding);
    engine.tick(20);
    assert_eq!(engine.output_log().as_slice(), &[String::from("Hi")]);
    engine.tick(21);
    assert_eq!(engine.input_mode(), Mode::AwaitingInput);
    assert_eq!(engine.phase(), Phase::AwaitingExternalEvent);
    engine.key(Key::Char('B'));
    engine.key(Key::Char('o'));
    engine.key(Key::Char('b'));
    assert_eq!(engine.input_buffer().as_str(), "Bob");
    engine.key(Key::Enter);
    assert_eq!(engine.phase(), Phase::CommittingInput);
    engine.tick(22);
    assert_eq!(engine.game_store().get("name").map(String::as_str), Some("Bob"));
    assert_eq!(engine.input_buffer().as_str(), "");
    engine.tick(23);
    assert!(engine.is_finished());
}

#[test]
fn reveal_count_follows_the_clock() {
    let mut engine = engine_for(vec![StoryEvent::Text(String::from("Hello"))]);
    engine.tick(100);
    assert_eq!(engine.phase(), Phase::Responding);
    engine.tick(105);
    assert_eq!(engine.revealed_text(), "");
    engine.tick(110);
    assert_eq!(engine.revealed_text(), "H");
    engine.tick(135);
    assert_eq!(engine.revealed_text(), "Hel");
    engine.tick(149);
    assert_eq!(engine.revealed_text(), "Hell");
    engine.tick(150);
    assert_eq!(engine.output_log().as_slice(), &[String::from("Hello")]);
    assert_eq!(engine.revealed_text(), "");
}

#[test]
fn ticking_faster_does_not_reveal_faster() {
    let mut busy = engine_for(vec![StoryEvent::Text(String::from("Hello"))]);
    let mut calm = engine_for(vec![StoryEvent::Text(String::from("Hello"))]);
    busy.tick(0);
    calm.tick(0);
    for ms in 1..=25u64 {
        busy.tick(ms);
    }
    calm.tick(25);
    assert_eq!(busy.revealed_text(), calm.revealed_text());
    assert_eq!(busy.revealed_text(), "He");
}

#[test]
fn clear_empties_output_within_a_single_tick() {
    let mut engine = engine_for_story("First\n+CLEAR\nSecond");
    engine.tick(0);
    engine.tick(50);
    assert_eq!(engine.output_log().as_slice(), &[String::from("First")]);
    engine.tick(51);
    assert!(engine.output_log().is_empty());
    assert_eq!(engine.phase(), Phase::Responding);
}

#[test]
fn clear_at_the_end_finishes_in_the_same_tick() {
    let mut engine = engine_for(vec![StoryEvent::Clear]);
    engine.tick(0);
    assert!(engine.output_log().is_empty());
    assert!(engine.is_finished());
}

#[test]
fn pause_waits_for_any_key() {
    let mut engine = engine_for_story("+PAUSE\nDone");
    engine.tick(0);
    assert_eq!(engine.input_mode(), Mode::AwaitingAnyKey);
    assert_eq!(engine.phase(), Phase::AwaitingExternalEvent);
    engine.tick(1);
    assert_eq!(engine.phase(), Phase::AwaitingExternalEvent);
    engine.key(Key::Other);
    assert_eq!(engine.phase(), Phase::Update);
    assert_eq!(engine.input_mode(), Mode::Disabled);
}

#[test]
fn backspace_removes_the_last_typed_character() {
    let mut engine = engine_for(vec![StoryEvent::Input(String::from("k"))]);
    engine.tick(0);
    engine.key(Key::Char('a'));
    engine.key(Key::Char('b'));
    engine.key(Key::Backspace);
    assert_eq!(engine.input_buffer().as_str(), "a");
    engine.key(Key::Backspace);
    engine.key(Key::Backspace);
    assert_eq!(engine.input_buffer().as_str(), "");
}

#[test]
fn a_later_write_overwrites_the_earlier_value() {
    let mut engine = engine_for(vec![
        StoryEvent::Input(String::from("name")),
        StoryEvent::Input(String::from("name")),
    ]);
    engine.tick(0);
    engine.key(Key::Char('A'));
    engine.key(Key::Enter);
    engine.tick(1);
    engine.tick(2);
    engine.key(Key::Char('B'));
    engine.key(Key::Enter);
    engine.tick(3);
    assert_eq!(engine.game_store().len(), 1);
    assert_eq!(engine.game_store().get("name").map(String::as_str), Some("B"));
}

#[test]
fn keys_are_ignored_while_text_is_revealed() {
    let mut engine = engine_for(vec![StoryEvent::Text(String::from("Hi"))]);
    engine.tick(0);
    engine.key(Key::Char('x'));
    engine.key(Key::Enter);
    assert_eq!(engine.input_buffer().as_str(), "");
    assert_eq!(engine.phase(), Phase::Responding);
}

#[test]
fn quit_finishes_from_input_mode_and_discards_the_buffer() {
    let mut engine = engine_for(vec![StoryEvent::Input(String::from("name"))]);
    engine.tick(0);
    engine.key(Key::Char('B'));
    engine.key(Key::Char('o'));
    engine.key(Key::Quit);
    assert!(engine.is_finished());
    assert_eq!(engine.input_buffer().as_str(), "");
    assert!(engine.game_store().is_empty());
}

#[test]
fn quit_finishes_during_a_reveal() {
    let mut engine = engine_for(vec![StoryEvent::Text(String::from("Hello"))]);
    engine.tick(0);
    engine.tick(20);
    engine.key(Key::Quit);
    assert!(engine.is_finished());
    assert_eq!(engine.revealed_text(), "");
    let mut idle = engine_for(vec![StoryEvent::Pause]);
    idle.tick(0);
    idle.key(Key::Quit);
    assert!(idle.is_finished());
}

#[test]
fn a_document_can_be_packed_for_playback_directly() {
    let data = AppData::from_document("Hello\n+INPUT:name").unwrap();
    let story: Vec<StoryEvent> = data.story.into_iter().collect();
    assert_eq!(
        story,
        vec![
            StoryEvent::Text(String::from("Hello")),
            StoryEvent::Input(String::from("name")),
        ]
    );
    assert!(AppData::from_document("+FROB").is_err());
}

#[test]
fn a_default_app_data_plays_to_finished_at_once() {
    let mut engine = Engine::new(AppData::default());
    engine.tick(0);
    assert!(engine.is_finished());
    assert!(engine.output_log().is_empty());
}
