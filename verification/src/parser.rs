//! The story-markup parser.
//!
//! A document is a sequence of events separated by runs of newlines, with any
//! trailing inline whitespace or newlines ignored.  An event is either a
//! command — a `+` followed by an uppercase name and an optional
//! colon-introduced, single-token argument — or a run of prose that extends up
//! to (not including) the next newline that is immediately followed by `+`.
//!
//! The grammar is first written down as spec functions over sequences of
//! characters; the executable parser is then proved to return exactly what
//! those spec functions describe.
use vstd::prelude::*;
use vstd::string::*;

use crate::events_view;
use crate::EventModel;
use crate::StoryEvent;

verus! {

/// The grammar rule that a positioned syntax error reports as expected.
#[derive(Clone, Copy, Debug, PartialEq, Eq, Structural)]
pub enum ExpectedRule {
    Command,
    Argument,
    Text,
    Event,
}

/// Why a document was rejected: a command name other than the known three, a
/// `+INPUT` without its required argument, or a positioned syntax error.
#[derive(Debug, PartialEq, Eq)]
pub enum ParseError {
    UnknownCommand(String),
    MissingArgument,
    SyntaxError { pos: usize, expected: ExpectedRule },
}

/// The mathematical shape of a [`ParseError`].
#[verifier::ext_equal]
pub enum ParseErrorModel {
    UnknownCommand(Seq<char>),
    MissingArgument,
    SyntaxError(int, ExpectedRule),
}

impl View for ParseError {
    type V = ParseErrorModel;

    open spec fn view(&self) -> ParseErrorModel {
        match self {
            ParseError::UnknownCommand(name) => ParseErrorModel::UnknownCommand(name@),
            ParseError::MissingArgument => ParseErrorModel::MissingArgument,
            ParseError::SyntaxError { pos, expected } => ParseErrorModel::SyntaxError(
                *pos as int,
                *expected,
            ),
        }
    }
}

/// Inline whitespace: space or tab, never a newline.
pub open spec fn is_inline_ws(c: char) -> bool {
    c == ' ' || c == '\t'
}

/// A character that may trail the final event: inline whitespace or a newline.
pub open spec fn is_skippable(c: char) -> bool {
    is_inline_ws(c) || c == '\n'
}

/// An uppercase ASCII letter, the only characters allowed in a command name.
pub open spec fn is_upper(c: char) -> bool {
    'A' as u32 <= c as u32 && c as u32 <= 'Z' as u32
}

/// The document with every trailing space, tab and newline removed.
pub open spec fn trim_end(s: Seq<char>) -> Seq<char>
    decreases s.len(),
{
    if s.len() > 0 && is_skippable(s.last()) {
        trim_end(s.drop_last())
    } else {
        s
    }
}

/// What trimming yields: a prefix of the input whose last character, if any,
/// is not skippable, and beyond which every character is skippable.
proof fn lemma_trim_end_shape(s: Seq<char>)
    ensures
        trim_end(s).len() <= s.len(),
        trim_end(s) == s.subrange(0, trim_end(s).len() as int),
        trim_end(s).len() > 0 ==> !is_skippable(trim_end(s).last()),
        forall|k: int| trim_end(s).len() <= k < s.len() ==> is_skippable(s[k]),
    decreases s.len(),
{
    if s.len() > 0 && is_skippable(s.last()) {
        lemma_trim_end_shape(s.drop_last());
        assert(trim_end(s) == trim_end(s.drop_last()));
        assert(s.drop_last() == s.subrange(0, s.len() - 1));
        assert forall|k: int| trim_end(s).len() <= k < s.len() implies is_skippable(s[k]) by {
            if k < s.len() - 1 {
                assert(s.drop_last()[k] == s[k]);
            } else {
                assert(s[k] == s.last());
            }
        }
        assert(trim_end(s) =~= s.subrange(0, trim_end(s).len() as int));
    } else {
        assert(trim_end(s) == s);
        assert(trim_end(s) =~= s.subrange(0, trim_end(s).len() as int));
    }
}

/// End of the run of uppercase letters that starts at `i`.
pub open spec fn upper_end(t: Seq<char>, i: int) -> int
    decreases t.len() - i,
    when 0 <= i <= t.len()
{
    if i < t.len() && is_upper(t[i]) {
        upper_end(t, i + 1)
    } else {
        i
    }
}

/// End of the run of inline whitespace that starts at `i`.
pub open spec fn ws_end(t: Seq<char>, i: int) -> int
    decreases t.len() - i,
    when 0 <= i <= t.len()
{
    if i < t.len() && is_inline_ws(t[i]) {
        ws_end(t, i + 1)
    } else {
        i
    }
}

/// End of the run of newlines that starts at `i`.
pub open spec fn nl_end(t: Seq<char>, i: int) -> int
    decreases t.len() - i,
    when 0 <= i <= t.len()
{
    if i < t.len() && t[i] == '\n' {
        nl_end(t, i + 1)
    } else {
        i
    }
}

/// End of the argument token that starts at `i`: a run of characters up to
/// the next whitespace or newline.
pub open spec fn arg_end(t: Seq<char>, i: int) -> int
    decreases t.len() - i,
    when 0 <= i <= t.len()
{
    if i < t.len() && !is_skippable(t[i]) {
        arg_end(t, i + 1)
    } else {
        i
    }
}

/// End of the prose run that starts at `i`: the run stops only at the end of
/// the document or just before a newline that is immediately followed by `+`.
pub open spec fn text_end(t: Seq<char>, i: int) -> int
    decreases t.len() - i,
    when 0 <= i <= t.len()
{
    if i < t.len() && !(t[i] == '\n' && i + 1 < t.len() && t[i + 1] == '+') {
        text_end(t, i + 1)
    } else {
        i
    }
}

proof fn lemma_upper_end_bounds(t: Seq<char>, i: int)
    requires
        0 <= i <= t.len(),
    ensures
        i <= upper_end(t, i) <= t.len(),
        i < t.len() && is_upper(t[i]) ==> i + 1 <= upper_end(t, i),
    decreases t.len() - i,
{
    if i < t.len() && is_upper(t[i]) {
        lemma_upper_end_bounds(t, i + 1);
    }
}

proof fn lemma_ws_end_bounds(t: Seq<char>, i: int)
    requires
        0 <= i <= t.len(),
    ensures
        i <= ws_end(t, i) <= t.len(),
    decreases t.len() - i,
{
    if i < t.len() && is_inline_ws(t[i]) {
        lemma_ws_end_bounds(t, i + 1);
    }
}

proof fn lemma_nl_end_bounds(t: Seq<char>, i: int)
    requires
        0 <= i <= t.len(),
    ensures
        i <= nl_end(t, i) <= t.len(),
        i < t.len() && t[i] == '\n' ==> i + 1 <= nl_end(t, i),
    decreases t.len() - i,
{
    if i < t.len() && t[i] == '\n' {
        lemma_nl_end_bounds(t, i + 1);
    }
}

proof fn lemma_arg_end_bounds(t: Seq<char>, i: int)
    requires
        0 <= i <= t.len(),
    ensures
        i <= arg_end(t, i) <= t.len(),
    decreases t.len() - i,
{
    if i < t.len() && !is_skippable(t[i]) {
        lemma_arg_end_bounds(t, i + 1);
    }
}

proof fn lemma_text_end_bounds(t: Seq<char>, i: int)
    requires
        0 <= i <= t.len(),
    ensures
        i <= text_end(t, i) <= t.len(),
    decreases t.len() - i,
{
    if i < t.len() && !(t[i] == '\n' && i + 1 < t.len() && t[i + 1] == '+') {
        lemma_text_end_bounds(t, i + 1);
    }
}

/// Turns a structurally parsed command — name, optional argument, position
/// just past it — into an event: `PAUSE` and `CLEAR` ignore any argument,
/// `INPUT` requires one, and every other name is rejected.
pub open spec fn command_event(name: Seq<char>, arg: Option<Seq<char>>, next: int) -> Result<
    (EventModel, int),
    ParseErrorModel,
> {
    if name == "PAUSE"@ {
        Ok((EventModel::Pause, next))
    } else if name == "CLEAR"@ {
        Ok((EventModel::Clear, next))
    } else if name == "INPUT"@ {
        match arg {
            Some(a) => Ok((EventModel::Input(a), next)),
            None => Err(ParseErrorModel::MissingArgument),
        }
    } else {
        Err(ParseErrorModel::UnknownCommand(name))
    }
}

/// Parses the command that starts at `i`: the `+`, the uppercase name,
/// optional inline whitespace, and an optional `:`-introduced argument.  An
/// argument-less `:` is not consumed; the command then ends at the
/// whitespace run before it.
pub open spec fn parse_command_at(t: Seq<char>, i: int) -> Result<
    (EventModel, int),
    ParseErrorModel,
>
    recommends
        0 <= i,
        i + 1 < t.len(),
        t[i] == '+',
        is_upper(t[i + 1]),
{
    let j = upper_end(t, i + 1);
    let name = t.subrange(i + 1, j);
    let k = ws_end(t, j);
    if k < t.len() && t[k] == ':' {
        let m = ws_end(t, k + 1);
        let e = arg_end(t, m);
        if e > m {
            command_event(name, Some(t.subrange(m, e)), e)
        } else {
            command_event(name, None, k)
        }
    } else {
        command_event(name, None, k)
    }
}

/// Parses the event that starts at `i`: a command if `i` sits on a `+`
/// directly followed by an uppercase letter, otherwise a non-empty prose run.
pub open spec fn parse_event_at(t: Seq<char>, i: int) -> Result<
    (EventModel, int),
    ParseErrorModel,
>
    recommends
        0 <= i <= t.len(),
{
    if i < t.len() && t[i] == '+' && i + 1 < t.len() && is_upper(t[i + 1]) {
        parse_command_at(t, i)
    } else {
        let j = text_end(t, i);
        if j > i {
            Ok((EventModel::Text(t.subrange(i, j)), j))
        } else {
            Err(ParseErrorModel::SyntaxError(i, ExpectedRule::Event))
        }
    }
}

/// A parsed event always ends past where it began and within the document.
proof fn lemma_parse_event_at_advances(t: Seq<char>, i: int)
    requires
        0 <= i <= t.len(),
    ensures
        match parse_event_at(t, i) {
            Ok(r) => i < r.1 <= t.len(),
            Err(_) => true,
        },
{
    if i < t.len() && t[i] == '+' && i + 1 < t.len() && is_upper(t[i + 1]) {
        lemma_upper_end_bounds(t, i + 1);
        let j = upper_end(t, i + 1);
        assert(j > i + 1);
        lemma_ws_end_bounds(t, j);
        let k = ws_end(t, j);
        if k < t.len() && t[k] == ':' {
            lemma_ws_end_bounds(t, k + 1);
            let m = ws_end(t, k + 1);
            lemma_arg_end_bounds(t, m);
        }
    } else {
        lemma_text_end_bounds(t, i);
    }
}

/// Parses the events from `i` to the end of the (already trimmed) document:
/// one event, then either the end, or a run of newlines and the rest.
pub open spec fn parse_events(t: Seq<char>, i: int) -> Result<Seq<EventModel>, ParseErrorModel>
    decreases t.len() - i,
    when 0 <= i <= t.len()
    via parse_events_decreases
{
    match parse_event_at(t, i) {
        Err(e) => Err(e),
        Ok(r) => {
            if r.1 >= t.len() {
                Ok(seq![r.0])
            } else if t[r.1] == '\n' {
                match parse_events(t, nl_end(t, r.1)) {
                    Ok(rest) => Ok(seq![r.0] + rest),
                    Err(e) => Err(e),
                }
            } else {
                Err(ParseErrorModel::SyntaxError(r.1, ExpectedRule::Event))
            }
        },
    }
}

#[via_fn]
proof fn parse_events_decreases(t: Seq<char>, i: int) {
    lemma_parse_event_at_advances(t, i);
    match parse_event_at(t, i) {
        Ok(r) => {
            if r.1 < t.len() && t[r.1] == '\n' {
                lemma_nl_end_bounds(t, r.1);
            }
        },
        Err(_) => {},
    }
}

/// What parsing a whole document yields: the event sequence of its trimmed
/// form, or the first error.  An empty (or all-whitespace) document parses to
/// the empty sequence.
pub open spec fn spec_parse(s: Seq<char>) -> Result<Seq<EventModel>, ParseErrorModel> {
    let t = trim_end(s);
    if t.len() == 0 {
        Ok(Seq::<EventModel>::empty())
    } else {
        parse_events(t, 0)
    }
}

/// Parsing is referentially transparent: the result is a function of the
/// document's characters alone, so two parses of identical text yield
/// identical event sequences (or identical errors).
pub proof fn lemma_parse_deterministic(s1: Seq<char>, s2: Seq<char>)
    requires
        s1 == s2,
    ensures
        spec_parse(s1) == spec_parse(s2),
{
}

/// Trailing whitespace changes nothing: appending any run of spaces, tabs
/// and newlines to a document leaves the parse result as it was.
pub proof fn lemma_trailing_ws_ignored(s: Seq<char>, w: Seq<char>)
    requires
        forall|k: int| 0 <= k < w.len() ==> is_skippable(w[k]),
    ensures
        spec_parse(s + w) == spec_parse(s),
    decreases w.len(),
{
    if w.len() == 0 {
        assert(s + w =~= s);
    } else {
        assert((s + w).last() == w.last());
        assert((s + w).drop_last() =~= s + w.drop_last());
        assert forall|k: int| 0 <= k < w.drop_last().len() implies is_skippable(
            w.drop_last()[k],
        ) by {
            assert(w.drop_last()[k] == w[k]);
        }
        lemma_trailing_ws_ignored(s, w.drop_last());
        assert(trim_end(s + w) == trim_end(s + w.drop_last()));
    }
}

/// Every character of a newline run is a newline.
proof fn lemma_nl_end_run(t: Seq<char>, i: int)
    requires
        0 <= i <= t.len(),
    ensures
        forall|m: int| i <= m < nl_end(t, i) ==> t[m] == '\n',
    decreases t.len() - i,
{
    if i < t.len() && t[i] == '\n' {
        lemma_nl_end_run(t, i + 1);
    }
}

fn is_inline_ws_char(c: char) -> (b: bool)
    ensures
        b == is_inline_ws(c),
{
    c == ' ' || c == '\t'
}

fn is_skippable_char(c: char) -> (b: bool)
    ensures
        b == is_skippable(c),
{
    c == ' ' || c == '\t' || c == '\n'
}

fn is_upper_char(c: char) -> (b: bool)
    ensures
        b == is_upper(c),
{
    let u = c as u32;
    'A' as u32 <= u && u <= 'Z' as u32
}

fn scan_upper(text: &str, start: usize, end: usize) -> (j: usize)
    requires
        start <= end <= text@.len(),
    ensures
        start <= j <= end,
        j as int == upper_end(text@.subrange(0, end as int), start as int),
{
    let ghost t = text@.subrange(0, end as int);
    let mut j = start;
    while j < end && is_upper_char(text.get_char(j))
        invariant
            start <= j <= end <= text@.len(),
            t == text@.subrange(0, end as int),
            upper_end(t, start as int) == upper_end(t, j as int),
        decreases end - j,
    {
        j = j + 1;
    }
    j
}

fn scan_ws(text: &str, start: usize, end: usize) -> (j: usize)
    requires
        start <= end <= text@.len(),
    ensures
        start <= j <= end,
        j as int == ws_end(text@.subrange(0, end as int), start as int),
{
    let ghost t = text@.subrange(0, end as int);
    let mut j = start;
    while j < end && is_inline_ws_char(text.get_char(j))
        invariant
            start <= j <= end <= text@.len(),
            t == text@.subrange(0, end as int),
            ws_end(t, start as int) == ws_end(t, j as int),
        decreases end - j,
    {
        j = j + 1;
    }
    j
}

fn scan_nl(text: &str, start: usize, end: usize) -> (j: usize)
    requires
        start <= end <= text@.len(),
    ensures
        start <= j <= end,
        j as int == nl_end(text@.subrange(0, end as int), start as int),
{
    let ghost t = text@.subrange(0, end as int);
    let mut j = start;
    while j < end && text.get_char(j) == '\n'
        invariant
            start <= j <= end <= text@.len(),
            t == text@.subrange(0, end as int),
            nl_end(t, start as int) == nl_end(t, j as int),
        decreases end - j,
    {
        j = j + 1;
    }
    j
}

fn scan_arg(text: &str, start: usize, end: usize) -> (j: usize)
    requires
        start <= end <= text@.len(),
    ensures
        start <= j <= end,
        j as int == arg_end(text@.subrange(0, end as int), start as int),
{
    let ghost t = text@.subrange(0, end as int);
    let mut j = start;
    while j < end && !is_skippable_char(text.get_char(j))
        invariant
            start <= j <= end <= text@.len(),
            t == text@.subrange(0, end as int),
            arg_end(t, start as int) == arg_end(t, j as int),
        decreases end - j,
    {
        j = j + 1;
    }
    j
}

fn is_text_stop(text: &str, j: usize, end: usize) -> (b: bool)
    requires
        j < end <= text@.len(),
    ensures
        b == ({
            let t = text@.subrange(0, end as int);
            t[j as int] == '\n' && j + 1 < end && t[j as int + 1] == '+'
        }),
{
    text.get_char(j) == '\n' && j + 1 < end && text.get_char(j + 1) == '+'
}

fn scan_text(text: &str, start: usize, end: usize) -> (j: usize)
    requires
        start <= end <= text@.len(),
    ensures
        start <= j <= end,
        j as int == text_end(text@.subrange(0, end as int), start as int),
{
    let ghost t = text@.subrange(0, end as int);
    let mut j = start;
    while j < end && !is_text_stop(text, j, end)
        invariant
            start <= j <= end <= text@.len(),
            t == text@.subrange(0, end as int),
            text_end(t, start as int) == text_end(t, j as int),
        decreases end - j,
    {
        j = j + 1;
    }
    j
}

fn parse_command(text: &str, i: usize, end: usize) -> (r: Result<(StoryEvent, usize), ParseError>)
    requires
        i < end <= text@.len(),
        ({
            let t = text@.subrange(0, end as int);
            t[i as int] == '+' && i + 1 < end && is_upper(t[i as int + 1])
        }),
    ensures
        ({
            let t = text@.subrange(0, end as int);
            match r {
                Ok(p) => parse_command_at(t, i as int) == Ok::<(EventModel, int), ParseErrorModel>(
                    (p.0@, p.1 as int),
                ) && i < p.1 <= end,
                Err(e) => parse_command_at(t, i as int) == Err::<
                    (EventModel, int),
                    ParseErrorModel,
                >(e@),
            }
        }),
{
    let ghost t = text@.subrange(0, end as int);
    let j = scan_upper(text, i + 1, end);
    proof {
        lemma_upper_end_bounds(t, i as int + 1);
    }
    let name = text.substring_char(i + 1, j).to_owned();
    proof {
        assert(name@ =~= t.subrange(i as int + 1, j as int));
    }
    let k = scan_ws(text, j, end);
    let mut arg: Option<String> = None;
    let mut next: usize = k;
    if k < end && text.get_char(k) == ':' {
        let m = scan_ws(text, k + 1, end);
        let e = scan_arg(text, m, end);
        if e > m {
            let a = text.substring_char(m, e).to_owned();
            proof {
                assert(a@ =~= t.subrange(m as int, e as int));
            }
            arg = Some(a);
            next = e;
        }
    }
    let pause = String::from_str("PAUSE");
    let clear = String::from_str("CLEAR");
    let input = String::from_str("INPUT");
    if name == pause {
        Ok((StoryEvent::Pause, next))
    } else if name == clear {
        Ok((StoryEvent::Clear, next))
    } else if name == input {
        match arg {
            Some(a) => Ok((StoryEvent::Input(a), next)),
            None => Err(ParseError::MissingArgument),
        }
    } else {
        Err(ParseError::UnknownCommand(name))
    }
}

fn parse_event(text: &str, i: usize, end: usize) -> (r: Result<(StoryEvent, usize), ParseError>)
    requires
        i < end <= text@.len(),
    ensures
        ({
            let t = text@.subrange(0, end as int);
            match r {
                Ok(p) => parse_event_at(t, i as int) == Ok::<(EventModel, int), ParseErrorModel>(
                    (p.0@, p.1 as int),
                ) && i < p.1 <= end,
                Err(e) => parse_event_at(t, i as int) == Err::<(EventModel, int), ParseErrorModel>(
                    e@,
                ),
            }
        }),
{
    let ghost t = text@.subrange(0, end as int);
    let c = text.get_char(i);
    if c == '+' && i + 1 < end && is_upper_char(text.get_char(i + 1)) {
        parse_command(text, i, end)
    } else {
        let j = scan_text(text, i, end);
        if j > i {
            let content = text.substring_char(i, j).to_owned();
            proof {
                assert(content@ =~= t.subrange(i as int, j as int));
            }
            Ok((StoryEvent::Text(content), j))
        } else {
            Err(ParseError::SyntaxError { pos: i, expected: ExpectedRule::Event })
        }
    }
}

/// Compiles a story document into its event sequence, or reports the first
/// error.  The result is exactly what [`spec_parse`] describes for the
/// document's characters, so parsing the same text always gives the same
/// outcome.
pub fn parse(text: &str) -> (r: Result<Vec<StoryEvent>, ParseError>)
    ensures
        match r {
            Ok(events) => spec_parse(text@) == Ok::<Seq<EventModel>, ParseErrorModel>(
                events_view(events@),
            ),
            Err(e) => spec_parse(text@) == Err::<Seq<EventModel>, ParseErrorModel>(e@),
        },
{
    let n = text.unicode_len();
    let mut end = n;
    proof {
        assert(text@.subrange(0, n as int) =~= text@);
    }
    loop
        invariant
            end <= n,
            n == text@.len(),
            trim_end(text@) == trim_end(text@.subrange(0, end as int)),
        ensures
            end <= n,
            n == text@.len(),
            trim_end(text@) == text@.subrange(0, end as int),
        decreases end,
    {
        if end == 0 {
            proof {
                assert(text@.subrange(0, 0) =~= Seq::<char>::empty());
            }
            break;
        }
        let c = text.get_char(end - 1);
        if !is_skippable_char(c) {
            proof {
                let s1 = text@.subrange(0, end as int);
                assert(s1.last() == c);
            }
            break;
        }
        proof {
            let s1 = text@.subrange(0, end as int);
            let s0 = text@.subrange(0, end as int - 1);
            assert(s1.last() == c);
            assert(s1.drop_last() =~= s0);
        }
        end = end - 1;
    }
    let ghost t = trim_end(text@);
    let mut events: Vec<StoryEvent> = Vec::new();
    if end == 0 {
        proof {
            assert(events_view(events@) =~= Seq::<EventModel>::empty());
        }
        return Ok(events);
    }
    proof {
        assert(t.len() == end);
    }
    let mut i: usize = 0;
    while i < end
        invariant
            i < end <= n,
            n == text@.len(),
            t == trim_end(text@),
            t == text@.subrange(0, end as int),
            t.len() == end,
            parse_events(t, 0) == (match parse_events(t, i as int) {
                Ok(rest) => Ok::<Seq<EventModel>, ParseErrorModel>(events_view(events@) + rest),
                Err(e) => Err::<Seq<EventModel>, ParseErrorModel>(e),
            }),
        decreases end - i,
    {
        let ghost events_before = events@;
        let ghost i0 = i as int;
        match parse_event(text, i, end) {
            Err(e) => {
                return Err(e);
            },
            Ok(p) => {
                let (ev, j) = p;
                let ghost ev_model = ev@;
                events.push(ev);
                proof {
                    assert(events_view(events@) =~= events_view(events_before) + seq![ev_model]);
                }
                if j == end {
                    proof {
                        assert(parse_events(t, i0) == Ok::<Seq<EventModel>, ParseErrorModel>(
                            seq![ev_model],
                        ));
                    }
                    return Ok(events);
                }
                let c = text.get_char(j);
                if c != '\n' {
                    return Err(ParseError::SyntaxError { pos: j, expected: ExpectedRule::Event });
                }
                let k = scan_nl(text, j, end);
                proof {
                    lemma_nl_end_bounds(t, j as int);
                    lemma_nl_end_run(t, j as int);
                    lemma_trim_end_shape(text@);
                    if k == end {
                        assert(t[end - 1] == '\n');
                        assert(is_skippable(t.last()));
                        assert(false);
                    }
                    assert(parse_events(t, i0) == (match parse_events(t, k as int) {
                        Ok(rest) => Ok::<Seq<EventModel>, ParseErrorModel>(seq![ev_model] + rest),
                        Err(e) => Err::<Seq<EventModel>, ParseErrorModel>(e),
                    }));
                    match parse_events(t, k as int) {
                        Ok(rest) => {
                            assert(events_view(events_before) + (seq![ev_model] + rest)
                                =~= events_view(events@) + rest);
                        },
                        Err(_) => {},
                    }
                }
                i = k;
            },
        }
    }
    proof {
        assert(false);
    }
    unreached()
}

} // verus!
