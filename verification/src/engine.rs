//! The playback engine: a tick-driven state machine over the parsed story.
//!
//! A driving loop calls [`Engine::tick`] once per iteration with the current
//! wall-clock time in milliseconds, renders a snapshot, and hands at most one
//! classified key press to [`Engine::key`].  Text is revealed at a fixed rate
//! per character measured in wall-clock time, so the tick frequency never
//! changes what the player sees; `Clear` events are folded into the same tick
//! as whatever follows them.
//!
//! The transitions are written down as spec functions over [`EngineModel`];
//! the executable engine is proved to step exactly as they describe.
use vstd::prelude::*;

use crate::events_view;
use crate::AppData;
use crate::EventModel;
use crate::StoryEvent;
use vstd::hash_map::StringHashMap;
use vstd::string::*;

verus! {

/// Milliseconds of elapsed time per revealed character of a response.
pub const MILLIS_PER_CHAR: u64 = 10;

/// How the engine currently treats key presses.
#[derive(Clone, Copy, Debug, PartialEq, Eq, Structural)]
pub enum Mode {
    Disabled,
    AwaitingInput,
    AwaitingAnyKey,
}

/// Where the playback state machine stands.  `Finished` is terminal.
#[derive(Clone, Copy, Debug, PartialEq, Eq, Structural)]
pub enum Phase {
    Update,
    Responding,
    AwaitingExternalEvent,
    CommittingInput,
    Finished,
}

/// A classified key press handed in by the driving loop.
#[derive(Clone, Copy, Debug, PartialEq, Eq, Structural)]
pub enum Key {
    Char(char),
    Backspace,
    Enter,
    Quit,
    Other,
}

impl Default for Mode {
    /// Key presses start out ignored.
    fn default() -> (m: Mode)
        ensures
            m == Mode::Disabled,
    {
        Mode::Disabled
    }
}

impl Default for Phase {
    /// Playback starts by dequeuing the first event.
    fn default() -> (p: Phase)
        ensures
            p == Phase::Update,
    {
        Phase::Update
    }
}

/// The mathematical state of the playback engine.
#[verifier::ext_equal]
pub struct EngineModel {
    /// Events still to be played, front first.
    pub story: Seq<EventModel>,
    /// Labelled values the player has committed so far.
    pub store: Map<Seq<char>, Seq<char>>,
    pub mode: Mode,
    pub phase: Phase,
    /// The response currently being revealed.
    pub current_response: Seq<char>,
    /// Wall-clock time, in milliseconds, at which the reveal began.
    pub reveal_start: nat,
    /// How many characters of the current response are shown.
    pub revealed: nat,
    /// What the player has typed so far.
    pub input: Seq<char>,
    /// The label of the in-flight `Input` event, if one is awaited.
    pub pending_label: Option<Seq<char>>,
    /// Fully revealed lines, oldest first.
    pub output: Seq<Seq<char>>,
}

/// The game store as a mapping from label characters to value characters.
pub open spec fn store_view(m: Map<Seq<char>, String>) -> Map<Seq<char>, Seq<char>> {
    Map::new(|k: Seq<char>| m.contains_key(k), |k: Seq<char>| m[k]@)
}

/// Validity of an engine state: the revealed count never exceeds the current
/// response, a pending label is held exactly while input is awaited, and the
/// mode matches the phase — keys act only while an external event is awaited
/// or an entered line is about to be committed.
pub open spec fn wf(e: EngineModel) -> bool {
    &&& e.revealed <= e.current_response.len()
    &&& (e.pending_label is Some <==> e.mode == Mode::AwaitingInput)
    &&& match e.phase {
        Phase::Update | Phase::Responding | Phase::Finished => e.mode == Mode::Disabled,
        Phase::CommittingInput => e.mode == Mode::AwaitingInput,
        Phase::AwaitingExternalEvent => e.mode != Mode::Disabled,
    }
}

/// One pass of the `Update` phase at time `now`: events are dequeued from
/// the front; `Clear` wipes the output and the pass continues with the next
/// event, so a `Clear` never consumes a tick of its own; the first other
/// event — or the story's end — decides the next phase.
pub open spec fn spec_update(e: EngineModel, now: nat) -> EngineModel
    decreases e.story.len(),
{
    if e.story.len() == 0 {
        EngineModel { phase: Phase::Finished, ..e }
    } else {
        match e.story[0] {
            EventModel::Text(txt) => EngineModel {
                story: e.story.drop_first(),
                current_response: txt,
                revealed: 0,
                reveal_start: now,
                mode: Mode::Disabled,
                phase: Phase::Responding,
                ..e
            },
            EventModel::Input(label) => EngineModel {
                story: e.story.drop_first(),
                mode: Mode::AwaitingInput,
                pending_label: Some(label),
                phase: Phase::AwaitingExternalEvent,
                ..e
            },
            EventModel::Pause => EngineModel {
                story: e.story.drop_first(),
                mode: Mode::AwaitingAnyKey,
                phase: Phase::AwaitingExternalEvent,
                ..e
            },
            EventModel::Clear => spec_update(
                EngineModel { story: e.story.drop_first(), output: Seq::empty(), ..e },
                now,
            ),
        }
    }
}

/// Milliseconds elapsed since `start` at wall-clock time `now` (zero if the
/// clock reads earlier than the recorded start).
pub open spec fn elapsed_since(start: nat, now: nat) -> nat {
    if now >= start {
        (now - start) as nat
    } else {
        0
    }
}

/// Characters revealed after `elapsed` milliseconds of a response of length
/// `len`: one per [`MILLIS_PER_CHAR`], capped at the full length.
pub open spec fn revealed_count(len: nat, elapsed: nat) -> nat {
    if elapsed / (MILLIS_PER_CHAR as nat) >= len {
        len
    } else {
        elapsed / (MILLIS_PER_CHAR as nat)
    }
}

/// One engine tick at wall-clock time `now` (milliseconds).
pub open spec fn spec_tick(e: EngineModel, now: nat) -> EngineModel {
    match e.phase {
        Phase::Update => spec_update(e, now),
        Phase::Responding => {
            let q = elapsed_since(e.reveal_start, now) / (MILLIS_PER_CHAR as nat);
            if q >= e.current_response.len() {
                EngineModel {
                    output: e.output.push(e.current_response),
                    current_response: Seq::empty(),
                    revealed: 0,
                    phase: Phase::Update,
                    ..e
                }
            } else {
                EngineModel { revealed: q, ..e }
            }
        },
        Phase::AwaitingExternalEvent => e,
        Phase::CommittingInput => match e.pending_label {
            Some(label) => EngineModel {
                store: e.store.insert(label, e.input),
                input: Seq::empty(),
                pending_label: None,
                mode: Mode::Disabled,
                phase: Phase::Update,
                ..e
            },
            None => EngineModel {
                input: Seq::empty(),
                mode: Mode::Disabled,
                phase: Phase::Update,
                ..e
            },
        },
        Phase::Finished => e,
    }
}

/// The engine's response to one classified key press.  Quit finishes
/// playback from anywhere, discarding the in-progress reveal and the input
/// buffer; other keys act only while an external event is awaited.
pub open spec fn spec_key(e: EngineModel, k: Key) -> EngineModel {
    match k {
        Key::Quit => EngineModel {
            phase: Phase::Finished,
            mode: Mode::Disabled,
            pending_label: None,
            input: Seq::empty(),
            current_response: Seq::empty(),
            revealed: 0,
            ..e
        },
        _ => {
            if e.phase == Phase::AwaitingExternalEvent {
                match e.mode {
                    Mode::AwaitingInput => match k {
                        Key::Char(c) => EngineModel { input: e.input.push(c), ..e },
                        Key::Backspace => EngineModel {
                            input: if e.input.len() > 0 {
                                e.input.drop_last()
                            } else {
                                e.input
                            },
                            ..e
                        },
                        Key::Enter => EngineModel { phase: Phase::CommittingInput, ..e },
                        _ => e,
                    },
                    Mode::AwaitingAnyKey => EngineModel {
                        phase: Phase::Update,
                        mode: Mode::Disabled,
                        ..e
                    },
                    Mode::Disabled => e,
                }
            } else {
                e
            }
        },
    }
}

/// A pass of the `Update` phase keeps the state valid.
pub proof fn lemma_update_preserves_wf(e: EngineModel, now: nat)
    requires
        wf(e),
        e.phase == Phase::Update,
    ensures
        wf(spec_update(e, now)),
    decreases e.story.len(),
{
    if e.story.len() > 0 {
        match e.story[0] {
            EventModel::Clear => {
                lemma_update_preserves_wf(
                    EngineModel { story: e.story.drop_first(), output: Seq::empty(), ..e },
                    now,
                );
            },
            _ => {},
        }
    }
}

/// Every tick keeps the state valid: the revealed count stays within the
/// current response, and the pending label stays tied to the input mode.
pub proof fn lemma_tick_preserves_wf(e: EngineModel, now: nat)
    requires
        wf(e),
    ensures
        wf(spec_tick(e, now)),
{
    if e.phase == Phase::Update {
        lemma_update_preserves_wf(e, now);
    }
}

/// Every key press keeps the state valid.
pub proof fn lemma_key_preserves_wf(e: EngineModel, k: Key)
    requires
        wf(e),
    ensures
        wf(spec_key(e, k)),
{
}

/// Reveal timing is wall-clock based: while the response is still being
/// revealed, the count after a tick at time `now` is exactly
/// `min(length, elapsed / MILLIS_PER_CHAR)` — a function of the elapsed time
/// alone, not of how many ticks have run.
pub proof fn lemma_reveal_timing(e: EngineModel, now: nat)
    requires
        e.phase == Phase::Responding,
    ensures
        ({
            let q = elapsed_since(e.reveal_start, now) / (MILLIS_PER_CHAR as nat);
            if q < e.current_response.len() {
                spec_tick(e, now).revealed == revealed_count(
                    e.current_response.len(),
                    elapsed_since(e.reveal_start, now),
                ) && spec_tick(e, now).phase == Phase::Responding && spec_tick(
                    e,
                    now,
                ).current_response == e.current_response && spec_tick(e, now).reveal_start
                    == e.reveal_start
            } else {
                spec_tick(e, now).output == e.output.push(e.current_response) && spec_tick(
                    e,
                    now,
                ).phase == Phase::Update
            }
        }),
{
}

/// Ticking faster reveals nothing extra: a tick taken part-way through a
/// reveal does not change what a later tick shows.
pub proof fn lemma_tick_rate_independent(e: EngineModel, n1: nat, n2: nat)
    requires
        e.phase == Phase::Responding,
        elapsed_since(e.reveal_start, n1) / (MILLIS_PER_CHAR as nat) < e.current_response.len(),
    ensures
        spec_tick(spec_tick(e, n1), n2) == spec_tick(e, n2),
{
    assert(spec_tick(spec_tick(e, n1), n2) =~= spec_tick(e, n2));
}

/// A `Clear` empties the output immediately and consumes no tick of its
/// own: the tick treats the state exactly as if the `Clear` were already
/// gone and the output already empty, so no render ever sees stale output.
pub proof fn lemma_clear_immediate(e: EngineModel, now: nat)
    requires
        e.phase == Phase::Update,
        e.story.len() > 0,
        e.story[0] == EventModel::Clear,
    ensures
        spec_tick(e, now) == spec_tick(
            EngineModel { story: e.story.drop_first(), output: Seq::empty(), ..e },
            now,
        ),
{
}

/// The quit key finishes playback from any phase and any mode, discarding
/// the in-progress reveal and input buffer and committing nothing to the
/// game store.
pub proof fn lemma_quit_finishes(e: EngineModel)
    ensures
        spec_key(e, Key::Quit).phase == Phase::Finished,
        spec_key(e, Key::Quit).store == e.store,
        spec_key(e, Key::Quit).output == e.output,
        spec_key(e, Key::Quit).story == e.story,
        spec_key(e, Key::Quit).input == Seq::<char>::empty(),
        spec_key(e, Key::Quit).pending_label is None,
{
}

/// A pass of the `Update` phase never writes the game store and never
/// touches the input buffer.
pub proof fn lemma_update_keeps_store(e: EngineModel, now: nat)
    ensures
        spec_update(e, now).store == e.store,
        spec_update(e, now).input == e.input,
    decreases e.story.len(),
{
    if e.story.len() > 0 {
        match e.story[0] {
            EventModel::Clear => {
                lemma_update_keeps_store(
                    EngineModel { story: e.story.drop_first(), output: Seq::empty(), ..e },
                    now,
                );
            },
            _ => {},
        }
    }
}

/// The game store is written only while a completed input is committed: a
/// tick in any other phase leaves it as it was, and no key press ever
/// changes it.
pub proof fn lemma_store_written_only_on_commit(e: EngineModel, now: nat, k: Key)
    ensures
        e.phase != Phase::CommittingInput ==> spec_tick(e, now).store == e.store,
        spec_key(e, k).store == e.store,
{
    if e.phase == Phase::Update {
        lemma_update_keeps_store(e, now);
    }
}

/// A pass of the `Update` phase either keeps the output log or clears it
/// whole; it never appends and never drops single lines.
pub proof fn lemma_update_output(e: EngineModel, now: nat)
    ensures
        spec_update(e, now).output == e.output || spec_update(e, now).output == Seq::<
            Seq<char>,
        >::empty(),
    decreases e.story.len(),
{
    if e.story.len() > 0 {
        match e.story[0] {
            EventModel::Clear => {
                lemma_update_output(
                    EngineModel { story: e.story.drop_first(), output: Seq::empty(), ..e },
                    now,
                );
            },
            _ => {},
        }
    }
}

/// The output log never shrinks except by a whole-log `Clear`: a tick
/// leaves it unchanged, appends the fully revealed response, or empties it;
/// key presses never change it.
pub proof fn lemma_output_never_shrinks_except_clear(e: EngineModel, now: nat, k: Key)
    ensures
        spec_tick(e, now).output == e.output || spec_tick(e, now).output == e.output.push(
            e.current_response,
        ) || spec_tick(e, now).output == Seq::<Seq<char>>::empty(),
        spec_key(e, k).output == e.output,
{
    if e.phase == Phase::Update {
        lemma_update_output(e, now);
    }
}

proof fn lemma_update_story(e: EngineModel, now: nat)
    ensures
        spec_update(e, now).story.len() <= e.story.len(),
        spec_update(e, now).story == e.story.skip(
            e.story.len() - spec_update(e, now).story.len(),
        ),
    decreases e.story.len(),
{
    if e.story.len() == 0 {
        assert(e.story =~= e.story.skip(0));
    } else {
        match e.story[0] {
            EventModel::Clear => {
                let e2 = EngineModel { story: e.story.drop_first(), output: Seq::empty(), ..e };
                lemma_update_story(e2, now);
                let dropped = e.story.len() - spec_update(e, now).story.len();
                assert(e2.story.skip(e2.story.len() - spec_update(e2, now).story.len()) =~= e
                    .story.skip(dropped));
            },
            _ => {
                assert(e.story.drop_first() =~= e.story.skip(1));
            },
        }
    }
}

/// Events are dequeued from the front, each at most once, and never put
/// back: what remains after a tick is a tail of what was there before, and
/// key presses never change the remaining story.
pub proof fn lemma_story_consumed_from_front(e: EngineModel, now: nat, k: Key)
    ensures
        spec_tick(e, now).story.len() <= e.story.len(),
        spec_tick(e, now).story == e.story.skip(e.story.len() - spec_tick(e, now).story.len()),
        spec_key(e, k).story == e.story,
{
    if e.phase == Phase::Update {
        lemma_update_story(e, now);
    } else {
        assert(e.story =~= e.story.skip(0));
    }
}

/// Relies on `String::push`: appends the given character at the end of the
/// string.
#[verifier::external_body]
fn push_char(s: &mut String, c: char)
    ensures
        final(s)@ == old(s)@.push(c),
{
    s.push(c)
}

/// Relies on `String::pop`: removes and returns the last character, or
/// returns `None` and leaves the string unchanged if it is empty.
#[verifier::external_body]
fn pop_char(s: &mut String) -> (r: Option<char>)
    ensures
        old(s)@.len() == 0 ==> r is None && final(s)@ == old(s)@,
        old(s)@.len() > 0 ==> r == Some(old(s)@.last()) && final(s)@ == old(s)@.drop_last(),
{
    s.pop()
}

/// The playback engine: the remaining story and game store, plus everything
/// the state machine tracks between ticks.
pub struct Engine {
    data: AppData,
    mode: Mode,
    phase: Phase,
    current_response: String,
    reveal_start: u64,
    revealed: usize,
    input: String,
    pending_label: Option<String>,
    output: Vec<String>,
}

impl View for Engine {
    type V = EngineModel;

    closed spec fn view(&self) -> EngineModel {
        EngineModel {
            story: events_view(self.data.story@),
            store: store_view(self.data.game_store@),
            mode: self.mode,
            phase: self.phase,
            current_response: self.current_response@,
            reveal_start: self.reveal_start as nat,
            revealed: self.revealed as nat,
            input: self.input@,
            pending_label: match self.pending_label {
                Some(l) => Some(l@),
                None => None,
            },
            output: self.output@.map_values(|s: String| s@),
        }
    }
}

impl Engine {
    /// A fresh engine over the given story and game store, ready to play
    /// from the first event.
    pub fn new(data: AppData) -> (r: Engine)
        ensures
            r@ == (EngineModel {
                story: events_view(data.story@),
                store: store_view(data.game_store@),
                mode: Mode::Disabled,
                phase: Phase::Update,
                current_response: Seq::<char>::empty(),
                reveal_start: 0,
                revealed: 0,
                input: Seq::<char>::empty(),
                pending_label: None,
                output: Seq::<Seq<char>>::empty(),
            }),
            wf(r@),
    {
        let r = Engine {
            data,
            mode: Mode::Disabled,
            phase: Phase::Update,
            current_response: String::new(),
            reveal_start: 0,
            revealed: 0,
            input: String::new(),
            pending_label: None,
            output: Vec::new(),
        };
        proof {
            assert(r.output@.map_values(|s: String| s@) =~= Seq::<Seq<char>>::empty());
        }
        r
    }

    /// The `Update` phase: dequeue events until one suspends the machine or
    /// the story runs out, folding any `Clear`s into the same pass.
    fn run_update(&mut self, now: u64)
        requires
            old(self).phase == Phase::Update,
        ensures
            final(self)@ == spec_update(old(self)@, now as nat),
    {
        loop
            invariant_except_break
                self.phase == Phase::Update,
                spec_update(old(self)@, now as nat) == spec_update(self@, now as nat),
            ensures
                spec_update(old(self)@, now as nat) == self@,
            decreases self.data.story@.len(),
        {
            let ghost prev = self@;
            match self.data.story.pop_front() {
                None => {
                    self.phase = Phase::Finished;
                    proof {
                        assert(prev.story.len() == 0);
                        assert(self@ =~= spec_update(prev, now as nat));
                    }
                    break;
                },
                Some(ev) => {
                    proof {
                        assert(prev.story[0] == ev@);
                        assert(events_view(self.data.story@) =~= prev.story.drop_first());
                    }
                    match ev {
                        StoryEvent::Text(t) => {
                            self.current_response = t;
                            self.revealed = 0;
                            self.reveal_start = now;
                            self.mode = Mode::Disabled;
                            self.phase = Phase::Responding;
                            proof {
                                assert(self@ =~= spec_update(prev, now as nat));
                            }
                            break;
                        },
                        StoryEvent::Input(label) => {
                            self.mode = Mode::AwaitingInput;
                            self.pending_label = Some(label);
                            self.phase = Phase::AwaitingExternalEvent;
                            proof {
                                assert(self@ =~= spec_update(prev, now as nat));
                            }
                            break;
                        },
                        StoryEvent::Pause => {
                            self.mode = Mode::AwaitingAnyKey;
                            self.phase = Phase::AwaitingExternalEvent;
                            proof {
                                assert(self@ =~= spec_update(prev, now as nat));
                            }
                            break;
                        },
                        StoryEvent::Clear => {
                            self.output.clear();
                            proof {
                                assert(self.output@.map_values(|s: String| s@) =~= Seq::<
                                    Seq<char>,
                                >::empty());
                                assert(self@ =~= (EngineModel {
                                    story: prev.story.drop_first(),
                                    output: Seq::empty(),
                                    ..prev
                                }));
                            }
                        },
                    }
                },
            }
        }
    }

    /// One tick at wall-clock time `now` (milliseconds): performs exactly
    /// one phase step — dequeuing through the `Update` phase, advancing or
    /// finishing a timed reveal, committing an entered line, or nothing at
    /// all while an external event is awaited or playback is finished.
    pub fn tick(&mut self, now: u64)
        ensures
            final(self)@ == spec_tick(old(self)@, now as nat),
    {
        match self.phase {
            Phase::Update => {
                self.run_update(now);
            },
            Phase::Responding => {
                let len = self.current_response.as_str().unicode_len();
                let elapsed = if now >= self.reveal_start {
                    now - self.reveal_start
                } else {
                    0
                };
                let q = elapsed / MILLIS_PER_CHAR;
                if q >= len as u64 {
                    let line = self.current_response.clone();
                    self.current_response = String::new();
                    let ghost out_prev = self.output@;
                    self.output.push(line);
                    self.revealed = 0;
                    self.phase = Phase::Update;
                    proof {
                        assert(self.output@.map_values(|s: String| s@) =~= out_prev.map_values(
                            |s: String| s@,
                        ).push(old(self)@.current_response));
                        assert(self@ =~= spec_tick(old(self)@, now as nat));
                    }
                } else {
                    self.revealed = q as usize;
                    proof {
                        assert(self@ =~= spec_tick(old(self)@, now as nat));
                    }
                }
            },
            Phase::AwaitingExternalEvent => {
            },
            Phase::CommittingInput => {
                let pl = self.pending_label.take();
                match pl {
                    Some(label) => {
                        let ghost store_prev = self.data.game_store@;
                        let value = self.input.clone();
                        self.input = String::new();
                        let ghost label_chars = label@;
                        let ghost value_chars = value@;
                        self.data.game_store.insert(label, value);
                        self.mode = Mode::Disabled;
                        self.phase = Phase::Update;
                        proof {
                            assert(store_view(store_prev.insert(label_chars, value)) =~= store_view(
                                store_prev,
                            ).insert(label_chars, value_chars));
                            assert(self@ =~= spec_tick(old(self)@, now as nat));
                        }
                    },
                    None => {
                        self.input = String::new();
                        self.mode = Mode::Disabled;
                        self.phase = Phase::Update;
                        proof {
                            assert(self@ =~= spec_tick(old(self)@, now as nat));
                        }
                    },
                }
            },
            Phase::Finished => {
            },
        }
    }

    /// The current input mode, for prompt styling.
    pub fn input_mode(&self) -> (m: Mode)
        ensures
            m == self@.mode,
    {
        self.mode
    }

    /// Where the state machine stands.
    pub fn phase(&self) -> (p: Phase)
        ensures
            p == self@.phase,
    {
        self.phase
    }

    /// Whether playback has ended.
    pub fn is_finished(&self) -> (b: bool)
        ensures
            b == (self@.phase == Phase::Finished),
    {
        match self.phase {
            Phase::Finished => true,
            _ => false,
        }
    }

    /// What the player has typed so far.
    pub fn input_buffer(&self) -> (s: &String)
        ensures
            s@ == self@.input,
    {
        &self.input
    }

    /// The fully revealed lines, oldest first.
    pub fn output_log(&self) -> (o: &Vec<String>)
        ensures
            o@.map_values(|s: String| s@) == self@.output,
    {
        &self.output
    }

    /// The values the player has committed so far, keyed by label.
    pub fn game_store(&self) -> (m: &StringHashMap<String>)
        ensures
            store_view(m@) == self@.store,
    {
        &self.data.game_store
    }

    /// The part of the current response that is revealed so far: the first
    /// `revealed` characters, clamped to the response's length.
    pub fn revealed_text(&self) -> (s: String)
        ensures
            s@ == self@.current_response.take(
                if self@.revealed <= self@.current_response.len() {
                    self@.revealed as int
                } else {
                    self@.current_response.len() as int
                },
            ),
    {
        let len = self.current_response.as_str().unicode_len();
        let n = if self.revealed <= len {
            self.revealed
        } else {
            len
        };
        self.current_response.as_str().substring_char(0, n).to_owned()
    }

    /// Feeds one classified key press to the engine.
    pub fn key(&mut self, k: Key)
        ensures
            final(self)@ == spec_key(old(self)@, k),
    {
        match k {
            Key::Quit => {
                self.phase = Phase::Finished;
                self.mode = Mode::Disabled;
                self.pending_label = None;
                self.input = String::new();
                self.current_response = String::new();
                self.revealed = 0;
                proof {
                    assert(self@ =~= spec_key(old(self)@, k));
                }
            },
            _ => {
                if self.phase == Phase::AwaitingExternalEvent {
                    match self.mode {
                        Mode::AwaitingInput => {
                            match k {
                                Key::Char(c) => {
                                    push_char(&mut self.input, c);
                                    proof {
                                        assert(self@ =~= spec_key(old(self)@, k));
                                    }
                                },
                                Key::Backspace => {
                                    pop_char(&mut self.input);
                                    proof {
                                        assert(self@ =~= spec_key(old(self)@, k));
                                    }
                                },
                                Key::Enter => {
                                    self.phase = Phase::CommittingInput;
                                    proof {
                                        assert(self@ =~= spec_key(old(self)@, k));
                                    }
                                },
                                _ => {
                                },
                            }
                        },
                        Mode::AwaitingAnyKey => {
                            self.phase = Phase::Update;
                            self.mode = Mode::Disabled;
                            proof {
                                assert(self@ =~= spec_key(old(self)@, k));
                            }
                        },
                        Mode::Disabled => {
                        },
                    }
                }
            },
        }
    }
}

} // verus!
