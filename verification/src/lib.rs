//! A small interactive-fiction player: a parser that compiles a light
//! narrative markup into a sequence of story events, and a tick-driven
//! playback engine that reveals text over time, collects player input,
//! and keeps the entered values in a game store.
use vstd::prelude::*;

pub mod engine;
pub mod parser;
pub mod text;

use std::collections::VecDeque;
use vstd::hash_map::StringHashMap;

verus! {

/// One step of a story: prose to reveal, a request for player input stored
/// under a label, a pause until any key is pressed, or a wipe of all output
/// shown so far.
#[derive(Debug, PartialEq, Eq)]
pub enum StoryEvent {
    Text(String),
    Input(String),
    Pause,
    Clear,
}

/// The mathematical shape of a [`StoryEvent`]: the same four variants over
/// sequences of characters.
#[verifier::ext_equal]
pub enum EventModel {
    Text(Seq<char>),
    Input(Seq<char>),
    Pause,
    Clear,
}

impl View for StoryEvent {
    type V = EventModel;

    open spec fn view(&self) -> EventModel {
        match self {
            StoryEvent::Text(t) => EventModel::Text(t@),
            StoryEvent::Input(l) => EventModel::Input(l@),
            StoryEvent::Pause => EventModel::Pause,
            StoryEvent::Clear => EventModel::Clear,
        }
    }
}

/// The views of a sequence of story events, element by element.
pub open spec fn events_view(s: Seq<StoryEvent>) -> Seq<EventModel> {
    s.map_values(|e: StoryEvent| e@)
}

/// The story still to be played, consumed from the front, together with the
/// game store: the values the player has entered so far, keyed by label.
pub struct AppData {
    pub story: VecDeque<StoryEvent>,
    pub game_store: StringHashMap<String>,
}

impl AppData {
    /// Parses a story document and packs it for playback with an empty game
    /// store; a document the grammar rejects is reported unchanged.
    pub fn from_document(text: &str) -> (r: Result<AppData, parser::ParseError>)
        ensures
            match r {
                Ok(data) => parser::spec_parse(text@) == Ok::<
                    Seq<EventModel>,
                    parser::ParseErrorModel,
                >(events_view(data.story@)) && data.game_store@ == Map::<
                    Seq<char>,
                    String,
                >::empty(),
                Err(e) => parser::spec_parse(text@) == Err::<
                    Seq<EventModel>,
                    parser::ParseErrorModel,
                >(e@),
            },
    {
        match parser::parse(text) {
            Ok(events) => Ok(AppData::from_events(events)),
            Err(e) => Err(e),
        }
    }

    /// Packs an already parsed event list into playable form, with an empty
    /// game store.
    pub fn from_events(events: Vec<StoryEvent>) -> (r: AppData)
        ensures
            r.story@ == events@,
            r.game_store@ == Map::<Seq<char>, String>::empty(),
    {
        let mut story: VecDeque<StoryEvent> = VecDeque::new();
        let mut rest = events;
        proof {
            assert(rest@ + story@ =~= events@);
        }
        loop
            invariant
                rest@ + story@ == events@,
            ensures
                rest@.len() == 0,
                rest@ + story@ == events@,
            decreases rest@.len(),
        {
            match rest.pop() {
                Some(e) => {
                    story.push_front(e);
                    proof {
                        assert(rest@ + story@ =~= events@);
                    }
                }
                None => {
                    break;
                }
            }
        }
        proof {
            assert(story@ =~= events@);
        }
        AppData { story, game_store: StringHashMap::new() }
    }
}

impl Default for AppData {
    /// An empty story with an empty game store.
    fn default() -> (r: AppData)
        ensures
            r.story@ == Seq::<StoryEvent>::empty(),
            r.game_store@ == Map::<Seq<char>, String>::empty(),
    {
        AppData { story: VecDeque::new(), game_store: StringHashMap::new() }
    }
}

} // verus!

