//! Scripts: a timeline of events, keyed by emulated cycles, that set what
//! the board's devices sense or make them fail.
//!
//! One event per line, `<cck> <verb> <arguments>`; blank lines and lines
//! that start with `#` are skipped. The verbs:
//!
//! - `set <channel> <value>`, as in `set ltc2990.tint 45.0`;
//! - `fault <device> <kind>`, where the kind is `unplugged` or `ok` (any
//!   device), or `stuck_rotor` or `spinning` (the fan).
//!
//! Values are decimal fractions, and turning them into the integers that
//! devices hold is the caller's part: [`Scenario::readings`] lists them, and
//! [`Scenario::parse`] takes the integers.

use crate::board::{address_of, Board, BoardView};
use crate::bus_device::{DeviceView, Kind};
use crate::devices::lm75::Lm75;
use crate::devices::ltc2990::Ltc2990;
use crate::fan::Max31760;
use crate::text::{
    append_chars, append_decimal, chars_of, decimal, lemma_words_solid, lines, parse_number,
    spelled_number, spells, split_lines, split_words, string_of, texts, words,
};
use vstd::prelude::*;
use vstd::string::*;

verus! {

/// What a `set` line can set.
#[derive(Clone, Copy, Debug, PartialEq, Eq, Structural)]
pub enum Channel {
    /// In sixteenths of a degree Celsius.
    Ltc2990Tint,
    /// In counts of 0.61 mV.
    Ltc2990V1,
    /// In counts of 1.22 mV.
    Ltc2990V2,
    /// In sixteenths of a degree Celsius.
    Ltc2990ExternalTemp,
    /// In counts of 305.18 uV above 2.5 V.
    Ltc2990Vcc,
    /// In half degrees Celsius.
    Lm75Celsius,
}

/// Something that happens to the board.
#[derive(Debug)]
pub enum Event {
    SetLtc2990Tint(i32),
    SetLtc2990V1(i32),
    SetLtc2990V2(i32),
    SetLtc2990ExternalTemp(i32),
    SetLtc2990Vcc(i32),
    SetLm75Celsius(i32),
    SetFanStuck(bool),
    SetDeviceUnplugged(String, bool),
}

/// What an event says.
pub enum EventView {
    SetLtc2990Tint(i32),
    SetLtc2990V1(i32),
    SetLtc2990V2(i32),
    SetLtc2990ExternalTemp(i32),
    SetLtc2990Vcc(i32),
    SetLm75Celsius(i32),
    SetFanStuck(bool),
    SetDeviceUnplugged(Seq<char>, bool),
}

impl View for Event {
    type V = EventView;

    open spec fn view(&self) -> EventView {
        match self {
            Event::SetLtc2990Tint(x) => EventView::SetLtc2990Tint(*x),
            Event::SetLtc2990V1(x) => EventView::SetLtc2990V1(*x),
            Event::SetLtc2990V2(x) => EventView::SetLtc2990V2(*x),
            Event::SetLtc2990ExternalTemp(x) => EventView::SetLtc2990ExternalTemp(*x),
            Event::SetLtc2990Vcc(x) => EventView::SetLtc2990Vcc(*x),
            Event::SetLm75Celsius(x) => EventView::SetLm75Celsius(*x),
            Event::SetFanStuck(stuck) => EventView::SetFanStuck(*stuck),
            Event::SetDeviceUnplugged(name, unplugged) => EventView::SetDeviceUnplugged(
                name@,
                *unplugged,
            ),
        }
    }
}

/// The event that sets a channel.
pub open spec fn channel_event(channel: Channel, value: i32) -> EventView {
    match channel {
        Channel::Ltc2990Tint => EventView::SetLtc2990Tint(value),
        Channel::Ltc2990V1 => EventView::SetLtc2990V1(value),
        Channel::Ltc2990V2 => EventView::SetLtc2990V2(value),
        Channel::Ltc2990ExternalTemp => EventView::SetLtc2990ExternalTemp(value),
        Channel::Ltc2990Vcc => EventView::SetLtc2990Vcc(value),
        Channel::Lm75Celsius => EventView::SetLm75Celsius(value),
    }
}

fn make_channel_event(channel: Channel, value: i32) -> (event: Event)
    ensures
        event@ == channel_event(channel, value),
{
    match channel {
        Channel::Ltc2990Tint => Event::SetLtc2990Tint(value),
        Channel::Ltc2990V1 => Event::SetLtc2990V1(value),
        Channel::Ltc2990V2 => Event::SetLtc2990V2(value),
        Channel::Ltc2990ExternalTemp => Event::SetLtc2990ExternalTemp(value),
        Channel::Ltc2990Vcc => Event::SetLtc2990Vcc(value),
        Channel::Lm75Celsius => Event::SetLm75Celsius(value),
    }
}

/// The voltage monitor of a board, changed.
pub open spec fn with_ltc2990(board: BoardView, device: Ltc2990) -> BoardView {
    board.with_device(Kind::Ltc2990, DeviceView::Ltc2990(device))
}

/// The board after an event. An event for a device that is not fitted
/// changes nothing.
pub open spec fn applied(event: EventView, board: BoardView) -> BoardView {
    match event {
        EventView::SetLtc2990Tint(x) => match board.device(Kind::Ltc2990) {
            Some(DeviceView::Ltc2990(d)) => with_ltc2990(board, Ltc2990 { tint: x, ..d }),
            _ => board,
        },
        EventView::SetLtc2990V1(x) => match board.device(Kind::Ltc2990) {
            Some(DeviceView::Ltc2990(d)) => with_ltc2990(board, Ltc2990 { v1: x, ..d }),
            _ => board,
        },
        EventView::SetLtc2990V2(x) => match board.device(Kind::Ltc2990) {
            Some(DeviceView::Ltc2990(d)) => with_ltc2990(board, Ltc2990 { v2: x, ..d }),
            _ => board,
        },
        EventView::SetLtc2990ExternalTemp(x) => match board.device(Kind::Ltc2990) {
            Some(DeviceView::Ltc2990(d)) => with_ltc2990(board, Ltc2990 { external_temp: x, ..d }),
            _ => board,
        },
        EventView::SetLtc2990Vcc(x) => match board.device(Kind::Ltc2990) {
            Some(DeviceView::Ltc2990(d)) => with_ltc2990(board, Ltc2990 { vcc: x, ..d }),
            _ => board,
        },
        EventView::SetLm75Celsius(x) => match board.device(Kind::Lm75) {
            Some(DeviceView::Lm75(d)) => board.with_device(
                Kind::Lm75,
                DeviceView::Lm75(Lm75 { half_degrees: x, ..d }),
            ),
            _ => board,
        },
        EventView::SetFanStuck(stuck) => match board.device(Kind::Fan) {
            Some(DeviceView::Fan(d)) => board.with_device(
                Kind::Fan,
                DeviceView::Fan(Max31760 { fan: d.fan.with_stuck(stuck), ..d }),
            ),
            _ => board,
        },
        EventView::SetDeviceUnplugged(name, unplugged) => match address_of(board.names, name) {
            Some(addr) => board.with_unplugged(addr, unplugged),
            None => board,
        },
    }
}

/// Carries out an event.
fn apply(event: &Event, board: &mut Board)
    requires
        old(board).valid(),
    ensures
        final(board).valid(),
        final(board)@ == applied(event@, old(board)@),
{
    match event {
        Event::SetLtc2990Tint(x) => board.set_ltc2990_tint(*x),
        Event::SetLtc2990V1(x) => board.set_ltc2990_v1(*x),
        Event::SetLtc2990V2(x) => board.set_ltc2990_v2(*x),
        Event::SetLtc2990ExternalTemp(x) => board.set_ltc2990_external_temp(*x),
        Event::SetLtc2990Vcc(x) => board.set_ltc2990_vcc(*x),
        Event::SetLm75Celsius(x) => board.set_lm75_celsius(*x),
        Event::SetFanStuck(stuck) => board.set_fan_stuck(*stuck),
        Event::SetDeviceUnplugged(name, unplugged) => {
            let _ = board.set_device_unplugged(name.as_str(), *unplugged);
        },
    }
}

/// An event and its time.
#[derive(Debug)]
pub struct ScheduledEvent {
    pub at_cck: u64,
    pub event: Event,
}

/// An event and its time.
pub struct Scheduled {
    pub at_cck: u64,
    pub event: EventView,
}

impl View for ScheduledEvent {
    type V = Scheduled;

    open spec fn view(&self) -> Scheduled {
        Scheduled { at_cck: self.at_cck, event: self.event@ }
    }
}

/// A script in the course of being played.
#[derive(Debug)]
pub struct Scenario {
    /// In the order of their times.
    pub events: Vec<ScheduledEvent>,
    /// The first that is still to come.
    pub next: usize,
    pub elapsed_cck: u64,
}

/// A script in the course of being played.
#[verifier::ext_equal]
pub struct ScenarioView {
    pub events: Seq<Scheduled>,
    pub next: int,
    pub elapsed_cck: int,
}

impl View for Scenario {
    type V = ScenarioView;

    open spec fn view(&self) -> ScenarioView {
        ScenarioView {
            events: timeline_of(self.events@),
            next: self.next as int,
            elapsed_cck: self.elapsed_cck as int,
        }
    }
}

/// What a list of scheduled events says.
pub open spec fn timeline_of(events: Seq<ScheduledEvent>) -> Seq<Scheduled> {
    Seq::new(events.len(), |i: int| events[i]@)
}

/// No event comes before an earlier one.
pub open spec fn in_order(events: Seq<Scheduled>) -> bool {
    forall|i: int, j: int|
        0 <= i <= j < events.len() ==> (#[trigger] events[i]).at_cck <= (
        #[trigger] events[j]).at_cck
}

/// A timeline with an event put in, behind those of its own time.
pub open spec fn inserted(events: Seq<Scheduled>, event: Scheduled) -> Seq<Scheduled>
    decreases events.len(),
{
    if events.len() == 0 || events.last().at_cck <= event.at_cck {
        events.push(event)
    } else {
        inserted(events.drop_last(), event).push(events.last())
    }
}

/// Events put in the order of their times; those of one time stay in the
/// order that they are in.
pub open spec fn timeline(events: Seq<Scheduled>) -> Seq<Scheduled>
    decreases events.len(),
{
    if events.len() == 0 {
        Seq::empty()
    } else {
        inserted(timeline(events.drop_last()), events.last())
    }
}

// One line.

/// What a line asks for.
#[derive(Debug)]
pub enum Command {
    /// A channel, and the value as written.
    Reading(Channel, String),
    Unplug(String, bool),
    Stick(bool),
}

/// What a line asks for.
pub enum CommandView {
    Reading(Channel, Seq<char>),
    Unplug(Seq<char>, bool),
    Stick(bool),
}

impl View for Command {
    type V = CommandView;

    open spec fn view(&self) -> CommandView {
        match self {
            Command::Reading(channel, text) => CommandView::Reading(*channel, text@),
            Command::Unplug(name, unplugged) => CommandView::Unplug(name@, *unplugged),
            Command::Stick(stuck) => CommandView::Stick(*stuck),
        }
    }
}

/// The channel of that name.
pub open spec fn channel_named(name: Seq<char>) -> Option<Channel> {
    if name == "ltc2990.tint"@ {
        Some(Channel::Ltc2990Tint)
    } else if name == "ltc2990.v1"@ {
        Some(Channel::Ltc2990V1)
    } else if name == "ltc2990.v2"@ {
        Some(Channel::Ltc2990V2)
    } else if name == "ltc2990.external_temp"@ {
        Some(Channel::Ltc2990ExternalTemp)
    } else if name == "ltc2990.vcc"@ {
        Some(Channel::Ltc2990Vcc)
    } else if name == "lm75.celsius"@ {
        Some(Channel::Lm75Celsius)
    } else {
        None
    }
}

/// What the arguments of `set` ask for, or what is wrong with them.
pub open spec fn set_command(args: Seq<Seq<char>>) -> Result<CommandView, Seq<char>> {
    if args.len() < 1 {
        Err("'set' needs a target"@)
    } else if args.len() < 2 {
        Err("'set "@ + args[0] + "' needs a value"@)
    } else {
        match channel_named(args[0]) {
            Some(channel) => Ok(CommandView::Reading(channel, args[1])),
            None => Err("unknown set target '"@ + args[0] + "'"@),
        }
    }
}

/// What the arguments of `fault` ask for, or what is wrong with them. Any
/// device can be unplugged; only the fan has a rotor.
pub open spec fn fault_command(args: Seq<Seq<char>>) -> Result<CommandView, Seq<char>> {
    if args.len() < 1 {
        Err("'fault' needs a device"@)
    } else if args.len() < 2 {
        Err("'fault "@ + args[0] + "' needs a kind"@)
    } else if args[1] == "unplugged"@ {
        Ok(CommandView::Unplug(args[0], true))
    } else if args[1] == "ok"@ {
        Ok(CommandView::Unplug(args[0], false))
    } else if args[0] == "fan"@ && args[1] == "stuck_rotor"@ {
        Ok(CommandView::Stick(true))
    } else if args[0] == "fan"@ && args[1] == "spinning"@ {
        Ok(CommandView::Stick(false))
    } else {
        Err("unknown fault kind '"@ + args[1] + "'"@)
    }
}

/// A line without an event: blank, or a comment.
pub open spec fn is_idle(line: Seq<char>) -> bool {
    words(line).len() == 0 || (words(line)[0].len() > 0 && words(line)[0][0] == '#')
}

/// What a line asks for and when, or what is wrong with it.
pub open spec fn line_command(line: Seq<char>) -> Result<(u64, CommandView), Seq<char>> {
    let w = words(line);
    match spelled_number(w[0], 10, u64::MAX as int) {
        None => Err("invalid cck"@),
        Some(at) => {
            let command = if w.len() < 2 {
                Err("missing verb"@)
            } else if w[1] == "set"@ {
                set_command(w.skip(2))
            } else if w[1] == "fault"@ {
                fault_command(w.skip(2))
            } else {
                Err("unknown verb '"@ + w[1] + "'"@)
            };
            match command {
                Ok(command) => Ok((at as u64, command)),
                Err(message) => Err(message),
            }
        },
    }
}

/// A message with the number of its line.
pub open spec fn at_line(number: int, message: Seq<char>) -> Seq<char> {
    "line "@ + decimal(number as nat) + ": "@ + message
}

// The whole script.

/// The values that the `set` lines of a script give, in order, as far as the
/// first line that is wrong.
pub open spec fn listed(script: Seq<Seq<char>>) -> (Seq<(Channel, Seq<char>)>, bool)
    decreases script.len(),
{
    if script.len() == 0 {
        (Seq::empty(), true)
    } else {
        let (before, sound) = listed(script.drop_last());
        if !sound || is_idle(script.last()) {
            (before, sound)
        } else {
            match line_command(script.last()) {
                Ok((_, CommandView::Reading(channel, text))) => (before.push((channel, text)), true),
                Ok(_) => (before, true),
                Err(_) => (before, false),
            }
        }
    }
}

/// The events of a script in the order of its lines, given what its values
/// come to (none for a value that is no number), and how many values they
/// took; or what is wrong with the first line that is wrong.
pub open spec fn collected(script: Seq<Seq<char>>, values: Seq<Option<i32>>) -> Result<
    (Seq<Scheduled>, int),
    Seq<char>,
>
    decreases script.len(),
{
    if script.len() == 0 {
        Ok((Seq::empty(), 0))
    } else {
        match collected(script.drop_last(), values) {
            Err(message) => Err(message),
            Ok((events, used)) => if is_idle(script.last()) {
                Ok((events, used))
            } else {
                let number = script.len() as int;
                match line_command(script.last()) {
                    Err(message) => Err(at_line(number, message)),
                    Ok((at_cck, CommandView::Reading(channel, text))) => match values[used] {
                        Some(value) => Ok(
                            (
                                events.push(
                                    Scheduled { at_cck, event: channel_event(channel, value) },
                                ),
                                used + 1,
                            ),
                        ),
                        None => Err(at_line(number, "invalid number '"@ + text + "'"@)),
                    },
                    Ok((at_cck, CommandView::Unplug(name, unplugged))) => Ok(
                        (
                            events.push(
                                Scheduled {
                                    at_cck,
                                    event: EventView::SetDeviceUnplugged(name, unplugged),
                                },
                            ),
                            used,
                        ),
                    ),
                    Ok((at_cck, CommandView::Stick(stuck))) => Ok(
                        (
                            events.push(
                                Scheduled { at_cck, event: EventView::SetFanStuck(stuck) },
                            ),
                            used,
                        ),
                    ),
                }
            },
        }
    }
}

/// What a script is, or what is wrong with it.
pub open spec fn parsed(text: Seq<char>, values: Seq<Option<i32>>) -> Result<
    ScenarioView,
    Seq<char>,
> {
    match collected(lines(text), values) {
        Ok((events, _)) => Ok(
            ScenarioView { events: timeline(events), next: 0, elapsed_cck: 0 },
        ),
        Err(message) => Err(message),
    }
}

// Playing.

/// How far a timeline has run: past every event in a row from `next` on
/// whose time has come.
pub open spec fn run_to(events: Seq<Scheduled>, next: int, elapsed: int) -> int
    decreases events.len() - next,
{
    if 0 <= next < events.len() && events[next].at_cck <= elapsed {
        run_to(events, next + 1, elapsed)
    } else {
        next
    }
}

/// The board after the events from `from` up to `to`, in order.
pub open spec fn played(events: Seq<Scheduled>, from: int, to: int, board: BoardView) -> BoardView
    decreases to - from,
{
    if from >= to {
        board
    } else {
        applied(events[to - 1].event, played(events, from, to - 1, board))
    }
}

impl ScenarioView {
    /// The first event still to come is one of the timeline, or past it.
    pub open spec fn well_formed(self) -> bool {
        0 <= self.next <= self.events.len()
    }

    /// The script after `cck` cycles.
    pub open spec fn after_tick(self, cck: u32) -> Self {
        ScenarioView {
            next: run_to(self.events, self.next, self.elapsed_cck + cck),
            elapsed_cck: self.elapsed_cck + cck,
            ..self
        }
    }

    /// The board after the events that come due in `cck` cycles.
    pub open spec fn board_after_tick(self, cck: u32, board: BoardView) -> BoardView {
        played(self.events, self.next, self.after_tick(cck).next, board)
    }
}

/// Text between two literals.
fn framed(before: &str, text: &Vec<char>, after: &str) -> (message: String)
    ensures
        message@ == before@ + text@ + after@,
{
    let mut message = String::from_str(before);
    append_chars(&mut message, text);
    message.append(after);
    message
}

/// A message with the number of its line.
fn line_error(number: usize, message: &str) -> (full: String)
    ensures
        full@ == at_line(number as int, message@),
{
    let mut full = String::from_str("line ");
    append_decimal(&mut full, number as u64);
    full.append(": ");
    full.append(message);
    full
}

/// The channel of that name.
fn find_channel(name: &Vec<char>) -> (channel: Option<Channel>)
    ensures
        channel == channel_named(name@),
{
    if spells(name, "ltc2990.tint") {
        Some(Channel::Ltc2990Tint)
    } else if spells(name, "ltc2990.v1") {
        Some(Channel::Ltc2990V1)
    } else if spells(name, "ltc2990.v2") {
        Some(Channel::Ltc2990V2)
    } else if spells(name, "ltc2990.external_temp") {
        Some(Channel::Ltc2990ExternalTemp)
    } else if spells(name, "ltc2990.vcc") {
        Some(Channel::Ltc2990Vcc)
    } else if spells(name, "lm75.celsius") {
        Some(Channel::Lm75Celsius)
    } else {
        None
    }
}

/// A result says what a statement of it says.
pub open spec fn same_command(
    result: Result<Command, String>,
    expected: Result<CommandView, Seq<char>>,
) -> bool {
    match (result, expected) {
        (Ok(command), Ok(view)) => command@ == view,
        (Err(message), Err(text)) => message@ == text,
        _ => false,
    }
}

/// Reads the arguments of `set`, the words behind the first two.
fn parse_set(w: &Vec<Vec<char>>) -> (r: Result<Command, String>)
    requires
        w@.len() >= 2,
    ensures
        same_command(r, set_command(texts(w@).skip(2))),
{
    let ghost args = texts(w@).skip(2);
    if w.len() < 3 {
        return Err(String::from_str("'set' needs a target"));
    }
    assert(args[0] == w@[2]@);
    if w.len() < 4 {
        return Err(framed("'set ", &w[2], "' needs a value"));
    }
    assert(args[1] == w@[3]@);
    match find_channel(&w[2]) {
        Some(channel) => Ok(Command::Reading(channel, string_of(&w[3]))),
        None => Err(framed("unknown set target '", &w[2], "'")),
    }
}

/// Reads the arguments of `fault`, the words behind the first two.
fn parse_fault(w: &Vec<Vec<char>>) -> (r: Result<Command, String>)
    requires
        w@.len() >= 2,
    ensures
        same_command(r, fault_command(texts(w@).skip(2))),
{
    let ghost args = texts(w@).skip(2);
    if w.len() < 3 {
        return Err(String::from_str("'fault' needs a device"));
    }
    assert(args[0] == w@[2]@);
    if w.len() < 4 {
        return Err(framed("'fault ", &w[2], "' needs a kind"));
    }
    assert(args[1] == w@[3]@);
    if spells(&w[3], "unplugged") {
        Ok(Command::Unplug(string_of(&w[2]), true))
    } else if spells(&w[3], "ok") {
        Ok(Command::Unplug(string_of(&w[2]), false))
    } else if spells(&w[2], "fan") && spells(&w[3], "stuck_rotor") {
        Ok(Command::Stick(true))
    } else if spells(&w[2], "fan") && spells(&w[3], "spinning") {
        Ok(Command::Stick(false))
    } else {
        Err(framed("unknown fault kind '", &w[3], "'"))
    }
}

/// Reads a line: nothing for a line without an event.
fn parse_line(line: &Vec<char>) -> (r: Result<Option<(u64, Command)>, String>)
    ensures
        match r {
            Ok(None) => is_idle(line@),
            Ok(Some((at, command))) => {
                &&& !is_idle(line@)
                &&& line_command(line@) == Ok::<(u64, CommandView), Seq<char>>((at, command@))
            },
            Err(message) => {
                &&& !is_idle(line@)
                &&& line_command(line@) == Err::<(u64, CommandView), Seq<char>>(message@)
            },
        },
{
    let w: Vec<Vec<char>> = split_words(line);
    assert(texts(w@).len() == w@.len());
    if w.len() == 0 {
        return Ok(None);
    }
    assert(words(line@)[0] == w@[0]@);
    if w[0].len() > 0 && w[0][0] == '#' {
        return Ok(None);
    }
    let at: u64 = match parse_number(&w[0], 10, u64::MAX) {
        Some(at) => at,
        None => {
            return Err(String::from_str("invalid cck"));
        },
    };
    if w.len() < 2 {
        return Err(String::from_str("missing verb"));
    }
    assert(words(line@)[1] == w@[1]@);
    let command = if spells(&w[1], "set") {
        parse_set(&w)
    } else if spells(&w[1], "fault") {
        proof {
            reveal_strlit("set");
            reveal_strlit("fault");
        }
        parse_fault(&w)
    } else {
        Err(framed("unknown verb '", &w[1], "'"))
    };
    match command {
        Ok(command) => Ok(Some((at, command))),
        Err(message) => Err(message),
    }
}

/// Puts an event into a timeline, behind those of its own time.
fn insert_event(events: &mut Vec<ScheduledEvent>, event: ScheduledEvent)
    requires
        old(events)@.len() < usize::MAX,
    ensures
        timeline_of(final(events)@) == inserted(timeline_of(old(events)@), event@),
{
    let ghost before = timeline_of(events@);
    let mut i: usize = events.len();
    assert(before.take(i as int) =~= before);
    assert(before.skip(i as int) =~= Seq::<Scheduled>::empty());
    assert(inserted(before, event@) =~= inserted(before.take(i as int), event@) + before.skip(
        i as int,
    ));
    while i > 0 && events[i - 1].at_cck > event.at_cck
        invariant
            i <= events@.len(),
            events@ == old(events)@,
            before == timeline_of(events@),
            inserted(before, event@) == inserted(before.take(i as int), event@) + before.skip(
                i as int,
            ),
        decreases i,
    {
        proof {
            let t = before.take(i as int);
            assert(t.last() == before[i - 1]);
            assert(t.drop_last() =~= before.take(i - 1));
            assert(inserted(t, event@) == inserted(t.drop_last(), event@).push(t.last()));
            assert(inserted(t, event@) + before.skip(i as int) =~= inserted(
                before.take(i - 1),
                event@,
            ) + before.skip(i - 1));
        }
        i -= 1;
    }
    proof {
        let t = before.take(i as int);
        if i > 0 {
            assert(t.last() == before[i - 1]);
        }
        assert(inserted(t, event@) == t.push(event@));
    }
    events.insert(i, event);
    assert(timeline_of(events@) =~= before.take(i as int).push(event@) + before.skip(i as int));
}

/// The values that a list of channels and texts gives.
pub open spec fn readings_of(list: Seq<(Channel, String)>) -> Seq<(Channel, Seq<char>)> {
    Seq::new(list.len(), |i: int| (list[i].0, list[i].1@))
}

impl Scenario {
    /// A script without events.
    pub fn empty() -> (scenario: Self)
        ensures
            scenario@ == (ScenarioView { events: Seq::empty(), next: 0, elapsed_cck: 0 }),
    {
        let scenario = Scenario { events: Vec::new(), next: 0, elapsed_cck: 0 };
        assert(scenario@.events =~= Seq::<Scheduled>::empty());
        scenario
    }

    /// The values that the `set` lines of a script give, in order, as far as
    /// the first line that is wrong.
    pub fn readings(text: &str) -> (list: Vec<(Channel, String)>)
        ensures
            readings_of(list@) == listed(lines(text@)).0,
    {
        let all: Vec<Vec<char>> = split_lines(&chars_of(text));
        let ghost script = lines(text@);
        assert(texts(all@).len() == all@.len());
        let mut list: Vec<(Channel, String)> = Vec::new();
        let mut i: usize = 0;
        assert(script.take(0) =~= Seq::<Seq<char>>::empty());
        assert(readings_of(list@) =~= listed(script.take(0)).0);
        while i < all.len()
            invariant
                i <= all@.len(),
                script == lines(text@),
                script == texts(all@),
                listed(script.take(i as int)).1,
                readings_of(list@) == listed(script.take(i as int)).0,
            decreases all@.len() - i,
        {
            let ghost now = script.take(i as int + 1);
            proof {
                assert(now.drop_last() =~= script.take(i as int));
                assert(now.last() == all@[i as int]@);
            }
            let ghost before = list@;
            match parse_line(&all[i]) {
                Ok(None) => {},
                Ok(Some((_, Command::Reading(channel, value)))) => {
                    list.push((channel, value));
                    assert(readings_of(list@) =~= readings_of(before).push((channel, value@)));
                },
                Ok(Some(_)) => {},
                Err(_) => {
                    proof {
                        lemma_listed_stops(script, i as int + 1);
                    }
                    return list;
                },
            }
            i += 1;
        }
        assert(script.take(script.len() as int) =~= script);
        list
    }

    /// Reads a script, given what the values that [`Scenario::readings`]
    /// lists come to: none for a value that is no number.
    pub fn parse(text: &str, values: &Vec<Option<i32>>) -> (r: Result<Self, String>)
        requires
            values@.len() >= listed(lines(text@)).0.len(),
        ensures
            match (r, parsed(text@, values@)) {
                (Ok(scenario), Ok(expected)) => scenario@ == expected,
                (Err(message), Err(expected)) => message@ == expected,
                _ => false,
            },
    {
        let all: Vec<Vec<char>> = split_lines(&chars_of(text));
        let ghost script = lines(text@);
        assert(texts(all@).len() == all@.len());
        let mut events: Vec<ScheduledEvent> = Vec::new();
        let mut used: usize = 0;
        let mut i: usize = 0;
        assert(script.take(0) =~= Seq::<Seq<char>>::empty());
        assert(timeline_of(events@) =~= Seq::<Scheduled>::empty());
        while i < all.len()
            invariant
                i <= all@.len(),
                script == lines(text@),
                script == texts(all@),
                values@.len() >= listed(script).0.len(),
                collected(script.take(i as int), values@) is Ok,
                ({
                    let (so_far, n) = collected(script.take(i as int), values@)->Ok_0;
                    &&& timeline_of(events@) == timeline(so_far)
                    &&& events@.len() == so_far.len() <= i
                    &&& n == used
                    &&& n == listed(script.take(i as int)).0.len()
                }),
                listed(script.take(i as int)).1,
            decreases all@.len() - i,
        {
            let ghost now = script.take(i as int + 1);
            proof {
                assert(now.drop_last() =~= script.take(i as int));
                assert(now.last() == all@[i as int]@);
                assert(now.len() == i + 1);
                lemma_listed_grows(script, i as int + 1);
            }
            match parse_line(&all[i]) {
                Ok(None) => {},
                Ok(Some((at_cck, command))) => {
                    let event = match command {
                        Command::Reading(channel, value) => {
                            let number: Option<i32> = values[used];
                            match number {
                                Some(n) => {
                                    assert(used < values.len());
                                    used += 1;
                                    make_channel_event(channel, n)
                                },
                                None => {
                                    let mut message = String::from_str("invalid number '");
                                    message.append(value.as_str());
                                    message.append("'");
                                    proof {
                                        lemma_collected_stops(script, values@, i as int + 1);
                                    }
                                    return Err(line_error(i + 1, message.as_str()));
                                },
                            }
                        },
                        Command::Unplug(name, unplugged) => Event::SetDeviceUnplugged(
                            name,
                            unplugged,
                        ),
                        Command::Stick(stuck) => Event::SetFanStuck(stuck),
                    };
                    proof {
                        let so_far = collected(script.take(i as int), values@)->Ok_0.0;
                        let scheduled = Scheduled { at_cck, event: event@ };
                        assert(so_far.push(scheduled).drop_last() =~= so_far);
                        lemma_timeline(so_far.push(scheduled));
                    }
                    insert_event(&mut events, ScheduledEvent { at_cck, event });
                },
                Err(message) => {
                    proof {
                        lemma_collected_stops(script, values@, i as int + 1);
                    }
                    return Err(line_error(i + 1, message.as_str()));
                },
            }
            i += 1;
        }
        assert(script.take(script.len() as int) =~= script);
        Ok(Scenario { events, next: 0, elapsed_cck: 0 })
    }

    /// Lets `cck` cycles pass: every event whose time has come is carried
    /// out, in order, once.
    pub fn tick(&mut self, cck: u32, board: &mut Board)
        requires
            old(self)@.well_formed(),
            old(self).elapsed_cck + cck <= u64::MAX,
            old(board).valid(),
        ensures
            final(self)@.well_formed(),
            final(self)@ == old(self)@.after_tick(cck),
            final(board).valid(),
            final(board)@ == old(self)@.board_after_tick(cck, old(board)@),
    {
        self.elapsed_cck = self.elapsed_cck + cck as u64;
        let ghost events = old(self)@.events;
        let ghost first = old(self)@.next;
        while self.next < self.events.len() && self.events[self.next].at_cck <= self.elapsed_cck
            invariant
                self.events == old(self).events,
                events == timeline_of(self.events@),
                first == old(self).next,
                first <= self.next <= self.events@.len(),
                self.elapsed_cck == old(self).elapsed_cck + cck,
                board.valid(),
                run_to(events, self.next as int, self.elapsed_cck as int) == run_to(
                    events,
                    first,
                    self.elapsed_cck as int,
                ),
                board@ == played(events, first, self.next as int, old(board)@),
            decreases self.events@.len() - self.next,
        {
            apply(&self.events[self.next].event, board);
            self.next = self.next + 1;
        }
    }
}

impl Default for Scenario {
    fn default() -> (scenario: Self)
        ensures
            scenario@ == (ScenarioView { events: Seq::empty(), next: 0, elapsed_cck: 0 }),
    {
        Self::empty()
    }
}

/// Behind a wrong line nothing is listed.
proof fn lemma_listed_stops(script: Seq<Seq<char>>, n: int)
    requires
        0 <= n <= script.len(),
        !listed(script.take(n)).1,
    ensures
        listed(script) == listed(script.take(n)),
    decreases script.len() - n,
{
    if n < script.len() {
        let more = script.take(n + 1);
        assert(more.drop_last() =~= script.take(n));
        lemma_listed_stops(script, n + 1);
    } else {
        assert(script.take(n) =~= script);
    }
}

/// A script lists at least what its first lines list.
proof fn lemma_listed_grows(script: Seq<Seq<char>>, n: int)
    requires
        0 <= n <= script.len(),
    ensures
        listed(script.take(n)).0.len() <= listed(script).0.len(),
    decreases script.len() - n,
{
    if n < script.len() {
        let more = script.take(n + 1);
        assert(more.drop_last() =~= script.take(n));
        lemma_listed_grows(script, n + 1);
    } else {
        assert(script.take(n) =~= script);
    }
}

/// A script is wrong where its first lines are.
proof fn lemma_collected_stops(script: Seq<Seq<char>>, values: Seq<Option<i32>>, n: int)
    requires
        0 <= n <= script.len(),
        collected(script.take(n), values) is Err,
    ensures
        collected(script, values) == collected(script.take(n), values),
    decreases script.len() - n,
{
    if n < script.len() {
        let more = script.take(n + 1);
        assert(more.drop_last() =~= script.take(n));
        lemma_collected_stops(script, values, n + 1);
    } else {
        assert(script.take(n) =~= script);
    }
}

/// Putting in an event keeps a timeline in order, and adds that event and no
/// other.
proof fn lemma_inserted(events: Seq<Scheduled>, event: Scheduled)
    requires
        in_order(events),
    ensures
        in_order(inserted(events, event)),
        inserted(events, event).to_multiset() == events.to_multiset().insert(event),
        inserted(events, event).len() == events.len() + 1,
        forall|i: int|
            0 <= i <= events.len() ==> (#[trigger] inserted(events, event)[i]).at_cck
                <= event.at_cck || (events.len() > 0 && inserted(events, event)[i].at_cck
                <= events.last().at_cck),
    decreases events.len(),
{
    broadcast use vstd::seq_lib::group_to_multiset_ensures;

    if events.len() > 0 && events.last().at_cck > event.at_cck {
        let rest = events.drop_last();
        let last = events.last();
        assert(in_order(rest)) by {
            assert forall|i: int, j: int| 0 <= i <= j < rest.len() implies (
            #[trigger] rest[i]).at_cck <= (#[trigger] rest[j]).at_cck by {
                assert(events[i].at_cck <= events[j].at_cck);
            }
        }
        lemma_inserted(rest, event);
        let part = inserted(rest, event);
        assert(inserted(events, event) == part.push(last));
        assert forall|i: int| 0 <= i < part.len() implies (#[trigger] part[i]).at_cck
            <= last.at_cck by {
            if rest.len() > 0 {
                assert(events[rest.len() - 1].at_cck <= events[events.len() - 1].at_cck);
            }
        }
        assert(events =~= rest.push(last));
        assert(part.push(last).to_multiset() =~= events.to_multiset().insert(event));
    } else {
        let whole = events.push(event);
        assert forall|i: int, j: int| 0 <= i <= j < whole.len() implies (
        #[trigger] whole[i]).at_cck <= (#[trigger] whole[j]).at_cck by {
            if i < events.len() {
                assert(events[i].at_cck <= events[events.len() - 1].at_cck);
                if j < events.len() {
                    assert(events[i].at_cck <= events[j].at_cck);
                }
            }
        }
    }
}

/// A timeline is in order and holds exactly the events that went into it.
pub proof fn lemma_timeline(events: Seq<Scheduled>)
    ensures
        in_order(timeline(events)),
        timeline(events).to_multiset() == events.to_multiset(),
        timeline(events).len() == events.len(),
    decreases events.len(),
{
    broadcast use vstd::seq_lib::group_to_multiset_ensures;

    if events.len() > 0 {
        let rest = events.drop_last();
        lemma_timeline(rest);
        lemma_inserted(timeline(rest), events.last());
        assert(events =~= rest.push(events.last()));
    } else {
        assert(timeline(events) =~= events);
    }
}

/// Where an event goes in among those of a time: behind them, if it is of
/// that time.
proof fn lemma_inserted_behind(events: Seq<Scheduled>, event: Scheduled, time: u64)
    requires
        in_order(events),
    ensures
        inserted(events, event).filter(of_time(time)) == if event.at_cck == time {
            events.filter(of_time(time)).push(event)
        } else {
            events.filter(of_time(time))
        },
    decreases events.len(),
{
    reveal(Seq::filter);
    if events.len() > 0 && events.last().at_cck > event.at_cck {
        let rest = events.drop_last();
        assert(in_order(rest)) by {
            assert forall|i: int, j: int| 0 <= i <= j < rest.len() implies (
            #[trigger] rest[i]).at_cck <= (#[trigger] rest[j]).at_cck by {
                assert(events[i].at_cck <= events[j].at_cck);
            }
        }
        lemma_inserted_behind(rest, event, time);
        let part = inserted(rest, event);
        assert(part.push(events.last()).drop_last() =~= part);
    } else {
        assert(events.push(event).drop_last() =~= events);
    }
}

/// The events of one time.
pub open spec fn of_time(time: u64) -> spec_fn(Scheduled) -> bool {
    |event: Scheduled| event.at_cck == time
}

/// Events of one time stay in the order of their lines.
pub proof fn lemma_timeline_stable(events: Seq<Scheduled>, time: u64)
    ensures
        timeline(events).filter(of_time(time)) == events.filter(of_time(time)),
    decreases events.len(),
{
    reveal(Seq::filter);
    if events.len() > 0 {
        let rest = events.drop_last();
        lemma_timeline_stable(rest, time);
        lemma_timeline(rest);
        lemma_inserted_behind(timeline(rest), events.last(), time);
    }
}

/// The timeline of a script that parses is in order.
pub proof fn lemma_parsed_in_order(text: Seq<char>, values: Seq<Option<i32>>)
    requires
        parsed(text, values) is Ok,
    ensures
        in_order(parsed(text, values)->Ok_0.events),
        parsed(text, values)->Ok_0.well_formed(),
{
    lemma_timeline(collected(lines(text), values)->Ok_0.0);
}

/// A line without an event adds none, and makes nothing wrong.
pub proof fn lemma_idle_line(script: Seq<Seq<char>>, line: Seq<char>, values: Seq<Option<i32>>)
    requires
        is_idle(line),
    ensures
        collected(script.push(line), values) == collected(script, values),
        listed(script.push(line)) == listed(script),
{
    assert(script.push(line).drop_last() =~= script);
}

/// A timeline runs on past every event whose time has come, and stops at the
/// first whose time has not.
proof fn lemma_run_to(events: Seq<Scheduled>, next: int, elapsed: int)
    requires
        0 <= next <= events.len(),
    ensures
        next <= run_to(events, next, elapsed) <= events.len(),
        forall|i: int|
            next <= i < run_to(events, next, elapsed) ==> (#[trigger] events[i]).at_cck <= elapsed,
        run_to(events, next, elapsed) < events.len() ==> events[run_to(
            events,
            next,
            elapsed,
        )].at_cck > elapsed,
    decreases events.len() - next,
{
    if next < events.len() && events[next].at_cck <= elapsed {
        lemma_run_to(events, next + 1, elapsed);
    }
}

/// After a tick, exactly the events whose time has come have been carried
/// out: those before the tick, those in it, and none of the rest.
pub proof fn lemma_tick_catches_up(s: ScenarioView, cck: u32, i: int)
    requires
        s.well_formed(),
        in_order(s.events),
        forall|k: int| 0 <= k < s.next ==> (#[trigger] s.events[k]).at_cck <= s.elapsed_cck,
        0 <= i < s.events.len(),
    ensures
        s.after_tick(cck).well_formed(),
        s.next <= s.after_tick(cck).next,
        i < s.after_tick(cck).next <==> s.events[i].at_cck <= s.after_tick(cck).elapsed_cck,
{
    let after = s.after_tick(cck);
    lemma_run_to(s.events, s.next, after.elapsed_cck);
    if i < s.next {
        assert(s.events[i].at_cck <= s.elapsed_cck);
    } else if i >= after.next {
        assert(s.events[after.next].at_cck <= s.events[i].at_cck);
    }
}

/// Running a timeline to one time and on to a later one is running it to the
/// later one.
proof fn lemma_run_on(events: Seq<Scheduled>, next: int, first: int, second: int)
    requires
        0 <= next <= events.len(),
        first <= second,
    ensures
        run_to(events, run_to(events, next, first), second) == run_to(events, next, second),
    decreases events.len() - next,
{
    if next < events.len() && events[next].at_cck <= first {
        lemma_run_on(events, next + 1, first, second);
    }
}

/// Playing on from where playing stopped is playing through.
proof fn lemma_play_on(events: Seq<Scheduled>, from: int, mid: int, to: int, board: BoardView)
    requires
        from <= mid <= to,
    ensures
        played(events, mid, to, played(events, from, mid, board)) == played(
            events,
            from,
            to,
            board,
        ),
    decreases to - mid,
{
    if mid < to {
        lemma_play_on(events, from, mid, to - 1, board);
    }
}

/// Two ticks do to a script, and through it to a board, what one tick as
/// long as both does.
pub proof fn lemma_tick_split(s: ScenarioView, a: u32, b: u32, board: BoardView)
    requires
        s.well_formed(),
        a + b <= u32::MAX,
    ensures
        s.after_tick(a).after_tick(b) == s.after_tick((a + b) as u32),
        s.after_tick(a).board_after_tick(b, s.board_after_tick(a, board)) == s.board_after_tick(
            (a + b) as u32,
            board,
        ),
{
    let (first, second) = (s.elapsed_cck + a, s.elapsed_cck + a + b);
    lemma_run_on(s.events, s.next, first, second);
    lemma_run_to(s.events, s.next, first);
    let mid = run_to(s.events, s.next, first);
    lemma_run_to(s.events, mid, second);
    lemma_play_on(s.events, s.next, mid, run_to(s.events, mid, second), board);
}

/// Only a line that names the fan seizes or frees its rotor: with any other
/// device those kinds are unknown.
pub proof fn lemma_rotor_faults_name_the_fan(args: Seq<Seq<char>>)
    requires
        args.len() >= 2,
    ensures
        fault_command(args) matches Ok(CommandView::Stick(_)) ==> args[0] == "fan"@,
        args[0] != "fan"@ && (args[1] == "stuck_rotor"@ || args[1] == "spinning"@)
            ==> fault_command(args) == Err::<CommandView, Seq<char>>(
            "unknown fault kind '"@ + args[1] + "'"@,
        ),
{
    reveal_strlit("unplugged");
    reveal_strlit("ok");
    reveal_strlit("stuck_rotor");
    reveal_strlit("spinning");
    assert("stuck_rotor"@[0] == 's' && "unplugged"@[0] == 'u' && "ok"@[0] == 'o');
    assert("spinning"@[0] == 's');
}

/// A fault for a device that the board does not have changes nothing.
pub proof fn lemma_fault_without_device(board: BoardView, name: Seq<char>, unplugged: bool)
    requires
        address_of(board.names, name) is None,
    ensures
        applied(EventView::SetDeviceUnplugged(name, unplugged), board) == board,
{
}

/// Plugging a device in again undoes unplugging it, where it was plugged in
/// before.
pub proof fn lemma_replug(board: BoardView, name: Seq<char>)
    requires
        address_of(board.names, name) matches Some(addr) ==> !board.bus.unplugged.contains(addr),
    ensures
        applied(
            EventView::SetDeviceUnplugged(name, false),
            applied(EventView::SetDeviceUnplugged(name, true), board),
        ) == board,
{
    if let Some(addr) = address_of(board.names, name) {
        assert(board.bus.unplugged.insert(addr).remove(addr) =~= board.bus.unplugged);
    }
}

/// The names of the channels, and that there are no others.
pub proof fn lemma_channel_names(name: Seq<char>)
    ensures
        channel_named("ltc2990.tint"@) == Some(Channel::Ltc2990Tint),
        channel_named("ltc2990.v1"@) == Some(Channel::Ltc2990V1),
        channel_named("ltc2990.v2"@) == Some(Channel::Ltc2990V2),
        channel_named("ltc2990.external_temp"@) == Some(Channel::Ltc2990ExternalTemp),
        channel_named("ltc2990.vcc"@) == Some(Channel::Ltc2990Vcc),
        channel_named("lm75.celsius"@) == Some(Channel::Lm75Celsius),
        channel_named(name) is Some ==> name == "ltc2990.tint"@ || name == "ltc2990.v1"@ || name
            == "ltc2990.v2"@ || name == "ltc2990.external_temp"@ || name == "ltc2990.vcc"@ || name
            == "lm75.celsius"@,
{
    reveal_strlit("ltc2990.tint");
    reveal_strlit("ltc2990.v1");
    reveal_strlit("ltc2990.v2");
    reveal_strlit("ltc2990.external_temp");
    reveal_strlit("ltc2990.vcc");
    reveal_strlit("lm75.celsius");
    assert("ltc2990.v1"@[9] == '1' && "ltc2990.v2"@[9] == '2');
    assert("ltc2990.tint"@[8] == 't' && "lm75.celsius"@[8] == 's');
    assert("ltc2990.tint"@.len() == 12 && "lm75.celsius"@.len() == 12);
    assert("ltc2990.v1"@.len() == 10 && "ltc2990.v2"@.len() == 10);
    assert("ltc2990.external_temp"@.len() == 21 && "ltc2990.vcc"@.len() == 11);
}

/// The words of a script are told apart.
proof fn lemma_keywords()
    ensures
        "set"@ != "fault"@,
        "unplugged"@ != "ok"@,
        "unplugged"@ != "stuck_rotor"@,
        "unplugged"@ != "spinning"@,
        "ok"@ != "stuck_rotor"@,
        "ok"@ != "spinning"@,
        "stuck_rotor"@ != "spinning"@,
{
    reveal_strlit("set");
    reveal_strlit("fault");
    reveal_strlit("unplugged");
    reveal_strlit("ok");
    reveal_strlit("stuck_rotor");
    reveal_strlit("spinning");
    assert("set"@.len() == 3 && "fault"@.len() == 5 && "unplugged"@.len() == 9 && "ok"@.len() == 2);
    assert("stuck_rotor"@.len() == 11 && "spinning"@.len() == 8);
}

/// The event that a `set` line makes, by the name that it gives.
pub open spec fn sets(name: Seq<char>, event: EventView, x: i32) -> bool {
    ||| name == "ltc2990.tint"@ && event == EventView::SetLtc2990Tint(x)
    ||| name == "ltc2990.v1"@ && event == EventView::SetLtc2990V1(x)
    ||| name == "ltc2990.v2"@ && event == EventView::SetLtc2990V2(x)
    ||| name == "ltc2990.external_temp"@ && event == EventView::SetLtc2990ExternalTemp(x)
    ||| name == "ltc2990.vcc"@ && event == EventView::SetLtc2990Vcc(x)
    ||| name == "lm75.celsius"@ && event == EventView::SetLm75Celsius(x)
}

/// A line `<cck> set <channel> <value>` adds one event: at that time, to set
/// that channel to what its value comes to; and its value is the next of those
/// that are listed. What stands behind the value does not count.
pub proof fn lemma_set_line(
    script: Seq<Seq<char>>,
    line: Seq<char>,
    values: Seq<Option<i32>>,
    at: u64,
    x: i32,
    event: EventView,
)
    requires
        words(line).len() >= 4,
        words(line)[0][0] != '#',
        spelled_number(words(line)[0], 10, u64::MAX as int) == Some(at as int),
        words(line)[1] == "set"@,
        sets(words(line)[2], event, x),
        collected(script, values) is Ok,
        values[collected(script, values)->Ok_0.1] == Some(x),
    ensures
        ({
            let (events, used) = collected(script, values)->Ok_0;
            collected(script.push(line), values) == Ok::<(Seq<Scheduled>, int), Seq<char>>(
                (events.push(Scheduled { at_cck: at, event }), used + 1),
            )
        }),
        listed(script).1 ==> listed(script.push(line)).1 && listed(script.push(line)).0.len()
            == listed(script).0.len() + 1 && listed(script.push(line)).0.last() == (
            channel_named(words(line)[2]).unwrap(),
            words(line)[3],
        ),
{
    let w = words(line);
    let args = w.skip(2);
    lemma_channel_names(w[2]);
    lemma_keywords();
    lemma_words_solid(line);
    assert(script.push(line).drop_last() =~= script);
    assert(args[0] == w[2] && args[1] == w[3]);
    assert(!is_idle(line));
}

/// A value that is no number is refused, with the number of its line.
pub proof fn lemma_set_line_refused(
    script: Seq<Seq<char>>,
    line: Seq<char>,
    values: Seq<Option<i32>>,
    at: u64,
)
    requires
        words(line).len() >= 4,
        words(line)[0][0] != '#',
        spelled_number(words(line)[0], 10, u64::MAX as int) == Some(at as int),
        words(line)[1] == "set"@,
        channel_named(words(line)[2]) is Some,
        collected(script, values) is Ok,
        values[collected(script, values)->Ok_0.1] is None,
    ensures
        collected(script.push(line), values) == Err::<(Seq<Scheduled>, int), Seq<char>>(
            "line "@ + decimal((script.len() + 1) as nat) + ": "@ + ("invalid number '"@ + words(
                line,
            )[3] + "'"@),
        ),
{
    let w = words(line);
    let args = w.skip(2);
    lemma_words_solid(line);
    assert(script.push(line).drop_last() =~= script);
    assert(args[0] == w[2] && args[1] == w[3]);
    assert(!is_idle(line));
}

/// A line `<cck> fault <device> <kind>` adds one event: to unplug the device
/// or plug it in again, or, for the fan, to seize its rotor or free it. It
/// takes no value.
pub proof fn lemma_fault_line(
    script: Seq<Seq<char>>,
    line: Seq<char>,
    values: Seq<Option<i32>>,
    at: u64,
    event: EventView,
)
    requires
        words(line).len() >= 4,
        words(line)[0][0] != '#',
        spelled_number(words(line)[0], 10, u64::MAX as int) == Some(at as int),
        words(line)[1] == "fault"@,
        ({
            let (device, kind) = (words(line)[2], words(line)[3]);
            ||| kind == "unplugged"@ && event == EventView::SetDeviceUnplugged(device, true)
            ||| kind == "ok"@ && event == EventView::SetDeviceUnplugged(device, false)
            ||| device == "fan"@ && kind == "stuck_rotor"@ && event == EventView::SetFanStuck(true)
            ||| device == "fan"@ && kind == "spinning"@ && event == EventView::SetFanStuck(false)
        }),
        collected(script, values) is Ok,
    ensures
        ({
            let (events, used) = collected(script, values)->Ok_0;
            collected(script.push(line), values) == Ok::<(Seq<Scheduled>, int), Seq<char>>(
                (events.push(Scheduled { at_cck: at, event }), used),
            )
        }),
        listed(script).1 ==> listed(script.push(line)) == listed(script),
{
    let w = words(line);
    let args = w.skip(2);
    lemma_keywords();
    lemma_words_solid(line);
    assert(script.push(line).drop_last() =~= script);
    assert(args[0] == w[2] && args[1] == w[3]);
    assert(!is_idle(line));
}

/// What is wrong with a line: a time that is no number, no verb, a verb that
/// is neither `set` nor `fault`, an argument missing, a target or a kind that
/// is none.
pub proof fn lemma_line_refused(line: Seq<char>)
    requires
        words(line).len() > 0,
    ensures
        ({
            let w = words(line);
            let timed = spelled_number(w[0], 10, u64::MAX as int) is Some;
            let refused = line_command(line);
            &&& refused is Err ==> !timed || w.len() < 4 || w[1] != "set"@ || channel_named(w[2])
                is None
            &&& !timed ==> refused == Err::<(u64, CommandView), Seq<char>>("invalid cck"@)
            &&& timed && w.len() == 1 ==> refused == Err::<(u64, CommandView), Seq<char>>(
                "missing verb"@,
            )
            &&& timed && w.len() >= 2 && w[1] != "set"@ && w[1] != "fault"@ ==> refused == Err::<
                (u64, CommandView),
                Seq<char>,
            >("unknown verb '"@ + w[1] + "'"@)
            &&& timed && w.len() == 2 && w[1] == "set"@ ==> refused == Err::<
                (u64, CommandView),
                Seq<char>,
            >("'set' needs a target"@)
            &&& timed && w.len() == 3 && w[1] == "set"@ ==> refused == Err::<
                (u64, CommandView),
                Seq<char>,
            >("'set "@ + w[2] + "' needs a value"@)
            &&& timed && w.len() >= 4 && w[1] == "set"@ && channel_named(w[2]) is None ==> refused
                == Err::<(u64, CommandView), Seq<char>>("unknown set target '"@ + w[2] + "'"@)
            &&& timed && w.len() == 2 && w[1] == "fault"@ ==> refused == Err::<
                (u64, CommandView),
                Seq<char>,
            >("'fault' needs a device"@)
            &&& timed && w.len() == 3 && w[1] == "fault"@ ==> refused == Err::<
                (u64, CommandView),
                Seq<char>,
            >("'fault "@ + w[2] + "' needs a kind"@)
        }),
{
    let w = words(line);
    lemma_keywords();
    if w.len() >= 3 {
        assert(w.skip(2)[0] == w[2]);
    }
    if w.len() >= 4 {
        assert(w.skip(2)[1] == w[3]);
    }
}

/// The first line that is wrong is the one that is complained of, by its
/// number, counted from one with the blank lines and the comments; nothing
/// behind it matters.
pub proof fn lemma_first_wrong_line(
    script: Seq<Seq<char>>,
    line: Seq<char>,
    next: Seq<char>,
    values: Seq<Option<i32>>,
)
    requires
        collected(script, values) is Ok,
        !is_idle(line),
        line_command(line) is Err,
    ensures
        collected(script.push(line), values) == Err::<(Seq<Scheduled>, int), Seq<char>>(
            "line "@ + decimal((script.len() + 1) as nat) + ": "@ + line_command(line)->Err_0,
        ),
        collected(script.push(line).push(next), values) == collected(script.push(line), values),
{
    assert(script.push(line).drop_last() =~= script);
    assert(script.push(line).push(next).drop_last() =~= script.push(line));
}

/// A line is passed over exactly if nothing stands on it but white space, or
/// if the first character that is none is a `#`.
pub proof fn lemma_idle_lines(line: Seq<char>)
    ensures
        words(line).len() == 0 ==> is_idle(line),
        words(line).len() > 0 ==> (is_idle(line) <==> words(line)[0][0] == '#'),
{
    lemma_words_solid(line);
}

/// What an event does to the board, device by device: it changes the one
/// field that it names, of the one device that it is for.
pub proof fn lemma_events_hit_one_device(
    board: BoardView,
    name: Seq<char>,
    x: i32,
    event: EventView,
    i: usize,
)
    requires
        board.slots_hold(),
        sets(name, event, x),
        name != "lm75.celsius"@ ==> board.slots.of(Kind::Ltc2990) == Some(i),
        name == "lm75.celsius"@ ==> board.slots.of(Kind::Lm75) == Some(i),
    ensures
        ({
            let after = applied(event, board);
            let (before, now) = (board.bus.devices[i as int], after.bus.devices[i as int]);
            &&& now.0 == before.0
            &&& forall|k: int|
                0 <= k < board.bus.devices.len() && k != i ==> #[trigger] after.bus.devices[k]
                    == board.bus.devices[k]
            &&& after.bus.devices.len() == board.bus.devices.len()
            &&& after == (BoardView { bus: after.bus, ..board })
            &&& after.bus.active == board.bus.active && after.bus.unplugged == board.bus.unplugged
            &&& name == "ltc2990.tint"@ ==> now.1 == DeviceView::Ltc2990(
                Ltc2990 { tint: x, ..before.1->Ltc2990_0 },
            )
            &&& name == "ltc2990.v1"@ ==> now.1 == DeviceView::Ltc2990(
                Ltc2990 { v1: x, ..before.1->Ltc2990_0 },
            )
            &&& name == "ltc2990.v2"@ ==> now.1 == DeviceView::Ltc2990(
                Ltc2990 { v2: x, ..before.1->Ltc2990_0 },
            )
            &&& name == "ltc2990.external_temp"@ ==> now.1 == DeviceView::Ltc2990(
                Ltc2990 { external_temp: x, ..before.1->Ltc2990_0 },
            )
            &&& name == "ltc2990.vcc"@ ==> now.1 == DeviceView::Ltc2990(
                Ltc2990 { vcc: x, ..before.1->Ltc2990_0 },
            )
            &&& name == "lm75.celsius"@ ==> now.1 == DeviceView::Lm75(
                Lm75 { half_degrees: x, ..before.1->Lm75_0 },
            )
        }),
{
    lemma_channel_names(name);
    assert(board.slots.of(Kind::Ltc2990) == Some(i) || board.slots.of(Kind::Lm75) == Some(i));
}

/// A fan whose rotor a script seizes stands still at once, at whatever duty,
/// until a script frees it; the other devices are not touched.
pub proof fn lemma_rotor_events(board: BoardView, stuck: bool, i: usize)
    requires
        board.slots_hold(),
        board.slots.of(Kind::Fan) == Some(i),
    ensures
        ({
            let after = applied(EventView::SetFanStuck(stuck), board);
            let (before, now) = (board.bus.devices[i as int], after.bus.devices[i as int]);
            &&& now.0 == before.0 && now.1 is Fan
            &&& now.1->Fan_0.fan.stuck == stuck
            &&& now.1->Fan_0.fan.duty == before.1->Fan_0.fan.duty
            &&& stuck ==> now.1->Fan_0.fan.current_rpm == 0
            &&& !stuck ==> now.1->Fan_0.fan.current_rpm == before.1->Fan_0.fan.current_rpm
            &&& now.1->Fan_0.pwmr == before.1->Fan_0.pwmr
            &&& forall|k: int|
                0 <= k < board.bus.devices.len() && k != i ==> #[trigger] after.bus.devices[k]
                    == board.bus.devices[k]
            &&& after == (BoardView { bus: after.bus, ..board })
            &&& after.bus.unplugged == board.bus.unplugged
        }),
{
    assert(board.slots.of(Kind::Fan) == Some(i));
}

/// An event that unplugs a device, or plugs it in, changes whether its address
/// answers, and nothing else.
pub proof fn lemma_unplug_events(board: BoardView, name: Seq<char>, unplugged: bool, a: u8)
    ensures
        ({
            let after = applied(EventView::SetDeviceUnplugged(name, unplugged), board);
            &&& after.bus.devices == board.bus.devices
            &&& after == (BoardView { bus: after.bus, ..board })
            &&& after.bus.active == board.bus.active
            &&& after.bus.unplugged.contains(a) == if address_of(board.names, name) == Some(a) {
                unplugged
            } else {
                board.bus.unplugged.contains(a)
            }
        }),
{
}

/// An event for a device that is not fitted changes nothing.
pub proof fn lemma_events_without_device(board: BoardView, x: i32, stuck: bool)
    ensures
        board.slots.of(Kind::Ltc2990) is None ==> applied(EventView::SetLtc2990Tint(x), board)
            == board && applied(EventView::SetLtc2990V1(x), board) == board && applied(
            EventView::SetLtc2990V2(x),
            board,
        ) == board && applied(EventView::SetLtc2990ExternalTemp(x), board) == board && applied(
            EventView::SetLtc2990Vcc(x),
            board,
        ) == board,
        board.slots.of(Kind::Lm75) is None ==> applied(EventView::SetLm75Celsius(x), board)
            == board,
        board.slots.of(Kind::Fan) is None ==> applied(EventView::SetFanStuck(stuck), board)
            == board,
{
}

/// Events are carried out one after the other, in the order of the timeline:
/// an event comes on top of what those before it did.
pub proof fn lemma_played_in_order(events: Seq<Scheduled>, from: int, to: int, board: BoardView)
    requires
        from <= to,
    ensures
        played(events, from, from, board) == board,
        played(events, from, from + 1, board) == applied(events[from].event, board),
        played(events, from, to + 1, board) == applied(
            events[to].event,
            played(events, from, to, board),
        ),
        from < to ==> played(events, from, to, board) == played(
            events,
            from + 1,
            to,
            applied(events[from].event, board),
        ),
{
    reveal_with_fuel(played, 2);
    if from < to {
        lemma_play_on(events, from, from + 1, to, board);
    }
}

/// Events leave the chip, the places of the devices and what was reported last
/// alone.
pub proof fn lemma_played_keeps(events: Seq<Scheduled>, from: int, to: int, board: BoardView)
    ensures
        ({
            let after = played(events, from, to, board);
            &&& after.pcf == board.pcf && after.slots == board.slots
            &&& after.names == board.names && after.lcd_columns == board.lcd_columns
            &&& after.lcd_last_lines == board.lcd_last_lines
            &&& after.bus.active == board.bus.active
        }),
    decreases to - from,
{
    if from < to {
        lemma_played_keeps(events, from, to - 1, board);
    }
}

/// A `fault` line of any other kind is refused, with the kind as it stands.
pub proof fn lemma_unknown_fault(line: Seq<char>)
    requires
        words(line).len() >= 4,
        spelled_number(words(line)[0], 10, u64::MAX as int) is Some,
        words(line)[1] == "fault"@,
        words(line)[3] != "unplugged"@,
        words(line)[3] != "ok"@,
        words(line)[2] != "fan"@ || (words(line)[3] != "stuck_rotor"@ && words(line)[3]
            != "spinning"@),
    ensures
        line_command(line) == Err::<(u64, CommandView), Seq<char>>(
            "unknown fault kind '"@ + words(line)[3] + "'"@,
        ),
{
    let w = words(line);
    lemma_keywords();
    assert(w.skip(2)[0] == w[2] && w.skip(2)[1] == w[3]);
}

} // verus!
