//! What the host hands the card, and what the card tells the host: settings
//! as text, a script, and lines for the host's log.
//!
//! No bad setting stops the card. One that cannot be read counts as absent,
//! and where it is a time or the script, the log says so.

use crate::board::{lemma_same_start, Board, BoardConfig, BoardView};
use crate::bus_device::Kind;
use crate::rtc_time::{self, lemma_written_parses, parsed, written, WallClock};
use crate::scenario::{
    self, applied, lemma_played_keeps, lemma_rotor_events, listed, played, run_to, EventView,
    Scenario, ScenarioView,
};
use crate::text::{
    all_digits, chars_of, debug_quoted, decimal, digit_value, is_white, lemma_decimal,
    lemma_digits, lemma_one_word, lemma_spelled, lemma_words_apart, lines, number_value,
    parse_number, quote, spelled_number, spells, split_words, texts, unsigned_part, utf8_text,
    words,
};
use vstd::prelude::*;
use vstd::string::*;
use vstd::utf8::*;

verus! {

/// The settings, as the host has them; none for a setting that it has not.
pub struct HostSettings {
    pub pcf8574: Option<String>,
    pub eeprom: Option<String>,
    pub lm75: Option<String>,
    pub ltc2990: Option<String>,
    pub pcf8583: Option<String>,
    pub ds1307: Option<String>,
    pub ds1629: Option<String>,
    pub r2025: Option<String>,
    pub lcd: Option<String>,
    pub bmp280: Option<String>,
    pub bme680: Option<String>,
    pub am2320: Option<String>,
    pub fan: Option<String>,
    pub eeprom_size: Option<String>,
    pub lcd_columns: Option<String>,
    pub ltc2990_address: Option<String>,
    pub pcf8583_address: Option<String>,
    pub fan_address: Option<String>,
    pub pcf8583_time: Option<String>,
    pub ds1307_time: Option<String>,
    pub ds1629_time: Option<String>,
    pub r2025_time: Option<String>,
    /// Initial contents of the memory.
    pub eeprom_image: Option<Vec<u8>>,
}

/// The text of a setting.
pub open spec fn text_of(raw: Option<String>) -> Option<Seq<char>> {
    match raw {
        Some(s) => Some(s@),
        None => None,
    }
}

/// A setting read as yes or no.
pub open spec fn flag(raw: Option<Seq<char>>, default: bool) -> bool {
    match raw {
        Some(s) => if s == "true"@ || s == "1"@ {
            true
        } else if s == "false"@ || s == "0"@ {
            false
        } else {
            default
        },
        None => default,
    }
}

/// A setting read as a decimal number.
pub open spec fn size(raw: Option<Seq<char>>, default: usize) -> usize {
    match raw {
        Some(s) => match spelled_number(s, 10, usize::MAX as int) {
            Some(n) => n as usize,
            None => default,
        },
        None => default,
    }
}

/// A word starts like a hexadecimal number.
pub open spec fn has_hex_prefix(word: Seq<char>) -> bool {
    word.len() >= 2 && word[0] == '0' && (word[1] == 'x' || word[1] == 'X')
}

/// The number that a word stands for: hexadecimal behind `0x` or `0X`,
/// decimal otherwise.
pub open spec fn byte_named(word: Seq<char>) -> Option<int> {
    if has_hex_prefix(word) {
        spelled_number(word.skip(2), 16, 255)
    } else {
        spelled_number(word, 10, 255)
    }
}

/// A setting read as an I2C address. White space round it does not count;
/// white space inside it makes it no address.
pub open spec fn address(raw: Option<Seq<char>>, default: u8) -> u8 {
    match raw {
        Some(s) => if words(s).len() == 1 {
            match byte_named(words(s)[0]) {
                Some(n) => n as u8,
                None => default,
            }
        } else {
            default
        },
        None => default,
    }
}

/// A setting read as a time.
pub open spec fn time(raw: Option<Seq<char>>) -> Option<WallClock> {
    match raw {
        Some(s) => match parsed(s) {
            Ok(w) => Some(w),
            Err(_) => None,
        },
        None => None,
    }
}

/// What is logged of a time that cannot be read.
pub open spec fn time_complaint(key: Seq<char>, message: Seq<char>) -> Seq<char> {
    "cpldicy: "@ + key + " config error: "@ + message
}

/// A log, with a line for a time that cannot be read.
pub open spec fn complained(
    log: Seq<Seq<char>>,
    key: Seq<char>,
    raw: Option<Seq<char>>,
) -> Seq<Seq<char>> {
    match raw {
        Some(s) => match parsed(s) {
            Ok(_) => log,
            Err(message) => log.push(time_complaint(key, message)),
        },
        None => log,
    }
}

/// The configuration that the settings make. What they leave open is as it
/// is by default; some addresses cannot be set.
pub open spec fn configuration(s: HostSettings) -> BoardConfig {
    let d = BoardConfig::defaults();
    BoardConfig {
        pcf8574_enabled: flag(text_of(s.pcf8574), d.pcf8574_enabled),
        eeprom_enabled: flag(text_of(s.eeprom), d.eeprom_enabled),
        lm75_enabled: flag(text_of(s.lm75), d.lm75_enabled),
        ltc2990_enabled: flag(text_of(s.ltc2990), d.ltc2990_enabled),
        pcf8583_enabled: flag(text_of(s.pcf8583), d.pcf8583_enabled),
        ds1307_enabled: flag(text_of(s.ds1307), d.ds1307_enabled),
        ds1629_enabled: flag(text_of(s.ds1629), d.ds1629_enabled),
        r2025_enabled: flag(text_of(s.r2025), d.r2025_enabled),
        lcd_enabled: flag(text_of(s.lcd), d.lcd_enabled),
        bmp280_enabled: flag(text_of(s.bmp280), d.bmp280_enabled),
        bme680_enabled: flag(text_of(s.bme680), d.bme680_enabled),
        am2320_enabled: flag(text_of(s.am2320), d.am2320_enabled),
        fan_enabled: flag(text_of(s.fan), d.fan_enabled),
        eeprom_size: size(text_of(s.eeprom_size), d.eeprom_size),
        lcd_columns: size(text_of(s.lcd_columns), d.lcd_columns),
        ltc2990_address: address(text_of(s.ltc2990_address), d.ltc2990_address),
        pcf8583_address: address(text_of(s.pcf8583_address), d.pcf8583_address),
        fan_address: address(text_of(s.fan_address), d.fan_address),
        pcf8583_time: time(text_of(s.pcf8583_time)),
        ds1307_time: time(text_of(s.ds1307_time)),
        ds1629_time: time(text_of(s.ds1629_time)),
        r2025_time: time(text_of(s.r2025_time)),
        eeprom_image: s.eeprom_image,
        ..d
    }
}

/// The lines that reading the settings logs.
pub open spec fn complaints(s: HostSettings) -> Seq<Seq<char>> {
    let l = Seq::<Seq<char>>::empty();
    let l = complained(l, "pcf8583_time"@, text_of(s.pcf8583_time));
    let l = complained(l, "ds1307_time"@, text_of(s.ds1307_time));
    let l = complained(l, "ds1629_time"@, text_of(s.ds1629_time));
    let l = complained(l, "r2025_time"@, text_of(s.r2025_time));
    l
}

/// What a log holds.
pub open spec fn log_of(log: Seq<String>) -> Seq<Seq<char>> {
    Seq::new(log.len(), |i: int| log[i]@)
}

/// Reads a setting as yes or no.
pub fn config_get_bool(raw: &Option<String>, default: bool) -> (value: bool)
    ensures
        value == flag(text_of(*raw), default),
{
    match raw {
        Some(s) => {
            let chars: Vec<char> = chars_of(s.as_str());
            if spells(&chars, "true") || spells(&chars, "1") {
                true
            } else if spells(&chars, "false") || spells(&chars, "0") {
                false
            } else {
                default
            }
        },
        None => default,
    }
}

/// Reads a setting as a decimal number.
pub fn config_get_usize(raw: &Option<String>, default: usize) -> (value: usize)
    ensures
        value == size(text_of(*raw), default),
{
    match raw {
        Some(s) => match parse_number(&chars_of(s.as_str()), 10, usize::MAX as u64) {
            Some(n) => n as usize,
            None => default,
        },
        None => default,
    }
}

/// Reads a setting as an I2C address, in hexadecimal or decimal.
pub fn config_get_u8_address(raw: &Option<String>, default: u8) -> (value: u8)
    ensures
        value == address(text_of(*raw), default),
{
    match raw {
        Some(s) => {
            let list: Vec<Vec<char>> = split_words(&chars_of(s.as_str()));
            assert(texts(list@).len() == list@.len());
            if list.len() != 1 {
                return default;
            }
            let word: &Vec<char> = &list[0];
            assert(words(s@)[0] == word@);
            let number = if word.len() >= 2 && word[0] == '0' && (word[1] == 'x' || word[1]
                == 'X') {
                let mut digits: Vec<char> = Vec::new();
                let mut i: usize = 2;
                while i < word.len()
                    invariant
                        2 <= i <= word@.len(),
                        digits@ == word@.subrange(2, i as int),
                    decreases word@.len() - i,
                {
                    digits.push(word[i]);
                    i += 1;
                    assert(digits@ =~= word@.subrange(2, i as int));
                }
                assert(digits@ =~= word@.skip(2));
                parse_number(&digits, 16, 255)
            } else {
                parse_number(word, 10, 255)
            };
            match number {
                Some(n) => n as u8,
                None => default,
            }
        },
        None => default,
    }
}

/// The line for a time that cannot be read.
fn time_error(key: &str, message: &str) -> (line: String)
    ensures
        line@ == time_complaint(key@, message@),
{
    let mut line = String::from_str("cpldicy: ");
    line.append(key);
    line.append(" config error: ");
    line.append(message);
    line
}

/// Reads a setting as a time. One that cannot be read counts as absent, and
/// is logged.
pub fn rtc_time_from_host(key: &str, raw: &Option<String>, log: &mut Vec<String>) -> (value: Option<
    WallClock,
>)
    ensures
        value == time(text_of(*raw)),
        value matches Some(w) ==> w.on_calendar(),
        log_of(final(log)@) == complained(log_of(old(log)@), key@, text_of(*raw)),
{
    match raw {
        Some(s) => match rtc_time::parse(s.as_str()) {
            Ok(w) => Some(w),
            Err(message) => {
                let line = time_error(key, message.as_str());
                log.push(line);
                assert(log_of(log@) =~= log_of(old(log)@).push(line@));
                None
            },
        },
        None => None,
    }
}

/// The configuration that the settings make, and the lines that reading them
/// logs. A board can be built from it unless it fits a memory without a
/// size.
pub fn board_config_from_host(settings: HostSettings) -> (r: (BoardConfig, Vec<String>))
    ensures
        r.0 == configuration(settings),
        r.0.buildable() == !(r.0.eeprom_enabled && r.0.eeprom_size == 0),
        log_of(r.1@) == complaints(settings),
{
    let d = BoardConfig::default();
    let mut log: Vec<String> = Vec::new();
    assert(log_of(log@) =~= Seq::<Seq<char>>::empty());
    let pcf8583_time = rtc_time_from_host("pcf8583_time", &settings.pcf8583_time, &mut log);
    let ds1307_time = rtc_time_from_host("ds1307_time", &settings.ds1307_time, &mut log);
    let ds1629_time = rtc_time_from_host("ds1629_time", &settings.ds1629_time, &mut log);
    let r2025_time = rtc_time_from_host("r2025_time", &settings.r2025_time, &mut log);
    let config = BoardConfig {
        pcf8574_enabled: config_get_bool(&settings.pcf8574, d.pcf8574_enabled),
        eeprom_enabled: config_get_bool(&settings.eeprom, d.eeprom_enabled),
        lm75_enabled: config_get_bool(&settings.lm75, d.lm75_enabled),
        ltc2990_enabled: config_get_bool(&settings.ltc2990, d.ltc2990_enabled),
        pcf8583_enabled: config_get_bool(&settings.pcf8583, d.pcf8583_enabled),
        ds1307_enabled: config_get_bool(&settings.ds1307, d.ds1307_enabled),
        ds1629_enabled: config_get_bool(&settings.ds1629, d.ds1629_enabled),
        r2025_enabled: config_get_bool(&settings.r2025, d.r2025_enabled),
        lcd_enabled: config_get_bool(&settings.lcd, d.lcd_enabled),
        bmp280_enabled: config_get_bool(&settings.bmp280, d.bmp280_enabled),
        bme680_enabled: config_get_bool(&settings.bme680, d.bme680_enabled),
        am2320_enabled: config_get_bool(&settings.am2320, d.am2320_enabled),
        fan_enabled: config_get_bool(&settings.fan, d.fan_enabled),
        eeprom_size: config_get_usize(&settings.eeprom_size, d.eeprom_size),
        lcd_columns: config_get_usize(&settings.lcd_columns, d.lcd_columns),
        ltc2990_address: config_get_u8_address(&settings.ltc2990_address, d.ltc2990_address),
        pcf8583_address: config_get_u8_address(&settings.pcf8583_address, d.pcf8583_address),
        fan_address: config_get_u8_address(&settings.fan_address, d.fan_address),
        pcf8583_time,
        ds1307_time,
        ds1629_time,
        r2025_time,
        eeprom_image: settings.eeprom_image,
        ..d
    };
    (config, log)
}

/// The script that the host has.
pub enum ScenarioResource {
    Absent,
    /// One that is no text.
    NotUtf8,
    Text(String),
}

/// Reads the script that the host has, if it has one, as text.
pub fn scenario_resource(bytes: Option<Vec<u8>>) -> (resource: ScenarioResource)
    ensures
        match bytes {
            None => resource is Absent,
            Some(b) => if valid_utf8(b@) {
                resource matches ScenarioResource::Text(text) && text@ == decode_utf8(b@)
            } else {
                resource is NotUtf8
            },
        },
{
    match bytes {
        None => ScenarioResource::Absent,
        Some(b) => match utf8_text(b) {
            Some(text) => ScenarioResource::Text(text),
            None => ScenarioResource::NotUtf8,
        },
    }
}

/// What is logged of a script that is no text.
pub open spec fn not_text() -> Seq<char> {
    "cpldicy: scenario resource is not valid UTF-8"@
}

/// What is logged of a script that cannot be read.
pub open spec fn script_complaint(message: Seq<char>) -> Seq<char> {
    "cpldicy: scenario parse error: "@ + message
}

/// A script without events.
pub open spec fn no_script() -> ScenarioView {
    ScenarioView { events: Seq::empty(), next: 0, elapsed_cck: 0 }
}

/// The script that the host has, given what its values come to, and a line
/// for the log where there is something wrong with it: it is without events
/// then.
pub fn scenario_from_host(resource: &ScenarioResource, values: &Vec<Option<i32>>) -> (r: (
    Scenario,
    Option<String>,
))
    requires
        resource matches ScenarioResource::Text(text) ==> values@.len() >= listed(
            lines(text@),
        ).0.len(),
    ensures
        r.0@.well_formed(),
        r.0.elapsed_cck == 0,
        match resource {
            ScenarioResource::Absent => r.0@ == no_script() && r.1 is None,
            ScenarioResource::NotUtf8 => r.0@ == no_script() && text_of(r.1) == Some(
                not_text(),
            ),
            ScenarioResource::Text(text) => match scenario::parsed(text@, values@) {
                Ok(script) => r.0@ == script && r.1 is None,
                Err(message) => r.0@ == no_script() && text_of(r.1) == Some(
                    script_complaint(message),
                ),
            },
        },
{
    match resource {
        ScenarioResource::Absent => (Scenario::empty(), None),
        ScenarioResource::NotUtf8 => (
            Scenario::empty(),
            Some(String::from_str("cpldicy: scenario resource is not valid UTF-8")),
        ),
        ScenarioResource::Text(text) => match Scenario::parse(text.as_str(), values) {
            Ok(script) => (script, None),
            Err(message) => {
                let mut line = String::from_str("cpldicy: scenario parse error: ");
                line.append(message.as_str());
                (Scenario::empty(), Some(line))
            },
        },
    }
}

/// The card with its script.
pub struct PluginState {
    pub board: Board,
    pub scenario: Scenario,
}

/// What the card and its script hold.
#[verifier::ext_equal]
pub struct PluginView {
    pub board: BoardView,
    pub scenario: ScenarioView,
}

impl View for PluginState {
    type V = PluginView;

    open spec fn view(&self) -> PluginView {
        PluginView { board: self.board@, scenario: self.scenario@ }
    }
}

impl PluginView {
    /// The card and its script after `cck` cycles: first for the board, then
    /// for the script; and then what the LCD shows counts as reported.
    pub open spec fn after_tick(self, cck: u32) -> Self {
        let played = self.scenario.board_after_tick(cck, self.board.after_tick(cck));
        PluginView {
            board: BoardView {
                lcd_last_lines: match played.lcd_lines() {
                    Some(rows) => Some(rows),
                    None => played.lcd_last_lines,
                },
                ..played
            },
            scenario: self.scenario.after_tick(cck),
        }
    }

    /// What is logged after `cck` cycles, if anything: what the LCD shows,
    /// if it has changed.
    pub open spec fn tick_line(self, cck: u32) -> Option<Seq<char>> {
        let played = self.scenario.board_after_tick(cck, self.board.after_tick(cck));
        match played.lcd_lines() {
            Some(rows) => if played.lcd_last_lines == Some(rows) {
                None
            } else {
                Some(lcd_text(debug_quoted(rows.0), debug_quoted(rows.1)))
            },
            None => None,
        }
    }
}

/// A call of the host.
pub enum Call {
    Read { off: u32, size: u32 },
    Write { off: u32, size: u32, value: u32 },
    Tick { cck: u32 },
}

/// What the host gets from a call.
pub enum Answer {
    /// What was read, and the interrupt line behind it.
    Word(int, bool),
    /// A line for the log, if there is one, and the interrupt line.
    Line(Option<Seq<char>>, bool),
}

impl PluginView {
    /// The card after a call.
    pub open spec fn after_call(self, call: Call) -> Self {
        match call {
            Call::Read { off, size } => PluginView {
                board: self.board.after_read(off, size as nat),
                ..self
            },
            Call::Write { off, size, value } => PluginView {
                board: self.board.after_write(off, size as nat, value, size as nat),
                ..self
            },
            Call::Tick { cck } => self.after_tick(cck),
        }
    }

    /// What the host gets from a call.
    pub open spec fn answer(self, call: Call) -> Answer {
        let pulled = self.after_call(call).board.int2();
        match call {
            Call::Read { off, size } => Answer::Word(
                self.board.word_read(off, size as nat),
                pulled,
            ),
            Call::Write { .. } => Answer::Line(None, pulled),
            Call::Tick { cck } => Answer::Line(self.tick_line(cck), pulled),
        }
    }

    /// The card after calls in a row.
    pub open spec fn after_calls(self, calls: Seq<Call>) -> Self
        decreases calls.len(),
    {
        if calls.len() == 0 {
            self
        } else {
            self.after_calls(calls.drop_last()).after_call(calls.last())
        }
    }

    /// What the host gets from calls in a row.
    pub open spec fn answers(self, calls: Seq<Call>) -> Seq<Answer> {
        Seq::new(calls.len(), |i: int| self.after_calls(calls.take(i)).answer(calls[i]))
    }
}

/// A session can be played again exactly: on cards made by one configuration,
/// with one script, the same calls give the same answers and end the same.
pub proof fn lemma_replay(a: PluginView, b: PluginView, config: BoardConfig, calls: Seq<Call>)
    requires
        a.board.configured(config),
        b.board.configured(config),
        a.scenario == b.scenario,
    ensures
        a.answers(calls) == b.answers(calls),
        a.after_calls(calls) == b.after_calls(calls),
{
    lemma_same_start(a.board, b.board, config);
}

/// The line for an LCD text, its rows quoted.
pub open spec fn lcd_text(row0: Seq<char>, row1: Seq<char>) -> Seq<char> {
    "cpldicy: lcd: "@ + row0 + " / "@ + row1
}

/// The line for an LCD text, its rows quoted.
pub fn lcd_line(row0: &str, row1: &str) -> (line: String)
    ensures
        line@ == lcd_text(row0@, row1@),
{
    let mut line = String::from_str("cpldicy: lcd: ");
    line.append(row0);
    line.append(" / ");
    line.append(row1);
    line
}

impl PluginState {
    /// What holds of the card between calls.
    pub open spec fn valid(&self) -> bool {
        self.board.valid() && self.scenario@.well_formed()
    }

    /// A card as a configuration makes it, with a script.
    pub fn new(config: BoardConfig, scenario: Scenario) -> (state: Self)
        requires
            config.buildable(),
            scenario@.well_formed(),
        ensures
            state.valid(),
            state@.board.configured(config),
            state@.scenario == scenario@,
    {
        PluginState { board: Board::with_config(config), scenario }
    }

    /// Lets `cck` cycles pass; returns a line for the log when what the LCD
    /// shows has changed.
    pub fn tick(&mut self, cck: u32) -> (line: Option<String>)
        requires
            old(self).valid(),
            old(self)@.board.bus.can_tick(cck),
            old(self).scenario.elapsed_cck + cck <= u64::MAX,
        ensures
            final(self).valid(),
            final(self)@ == old(self)@.after_tick(cck),
            text_of(line) == old(self)@.tick_line(cck),
    {
        self.board.tick(cck);
        self.scenario.tick(cck, &mut self.board);
        match self.board.lcd_text_if_changed() {
            Some(rows) => {
                let row0 = quote(rows[0].as_str());
                let row1 = quote(rows[1].as_str());
                Some(lcd_line(row0.as_str(), row1.as_str()))
            },
            None => None,
        }
    }
}

/// A setting is yes if it is `true` or `1`, no if it is `false` or `0`, and what
/// it is by default if it is anything else, or absent.
pub proof fn lemma_flag(s: Seq<char>, default: bool)
    ensures
        flag(Some("true"@), default) && flag(Some("1"@), default),
        !flag(Some("false"@), default) && !flag(Some("0"@), default),
        flag(None, default) == default,
        s != "true"@ && s != "1"@ && s != "false"@ && s != "0"@ ==> flag(Some(s), default)
            == default,
{
    reveal_strlit("true");
    reveal_strlit("1");
    reveal_strlit("false");
    reveal_strlit("0");
    assert("true"@.len() == 4 && "1"@.len() == 1 && "false"@.len() == 5 && "0"@.len() == 1);
    assert("1"@[0] == '1' && "0"@[0] == '0');
}

/// A number in decimal is read as that number; what is no number, or too large
/// a one, counts as absent.
pub proof fn lemma_size(n: nat, s: Seq<char>, default: usize)
    ensures
        n <= usize::MAX ==> size(Some(decimal(n)), default) == n,
        n > usize::MAX ==> size(Some(decimal(n)), default) == default,
        s.len() > 0 && s[0] != '+' && digit_value(s[0], 10) is None ==> size(Some(s), default)
            == default,
        size(None, default) == default,
        size(Some(Seq::empty()), default) == default,
{
    lemma_spelled(n, usize::MAX as int);
}

/// The digits of a number are one word.
proof fn lemma_decimal_word(n: nat)
    ensures
        words(decimal(n)) == seq![decimal(n)],
        !has_hex_prefix(decimal(n)),
{
    lemma_decimal(n);
    let s = decimal(n);
    assert forall|i: int| 0 <= i < s.len() implies !is_white(#[trigger] s[i]) by {
        assert(digit_value(s[i], 10) is Some);
    }
    lemma_one_word(s);
    if s.len() >= 2 {
        assert(digit_value(s[1], 10) is Some);
    }
}

/// An address in decimal is read as that number, up to 255; a larger one
/// counts as absent.
pub proof fn lemma_decimal_address(n: nat, default: u8)
    ensures
        n <= 255 ==> address(Some(decimal(n)), default) == n,
        n > 255 ==> address(Some(decimal(n)), default) == default,
        address(None, default) == default,
        address(Some(Seq::empty()), default) == default,
{
    lemma_decimal_word(n);
    lemma_spelled(n, 255);
    assert(words(Seq::<char>::empty()) =~= Seq::<Seq<char>>::empty());
}

/// An address of two hexadecimal digits behind `0x` or `0X` is read as the
/// number that they make, letters in either case.
pub proof fn lemma_hex_address(x: char, high: char, low: char, default: u8)
    requires
        x == 'x' || x == 'X',
        digit_value(high, 16) is Some,
        digit_value(low, 16) is Some,
    ensures
        address(Some(seq!['0', x, high, low]), default) == digit_value(high, 16).unwrap() * 16
            + digit_value(low, 16).unwrap(),
        address(Some(seq!['0', x]), default) == default,
{
    let word = seq!['0', x, high, low];
    lemma_digits(high);
    lemma_digits(low);
    assert forall|i: int| 0 <= i < word.len() implies !is_white(#[trigger] word[i]) by {}
    lemma_one_word(word);
    let digits = seq![high, low];
    assert(word.skip(2) =~= digits);
    reveal_with_fuel(number_value, 3);
    assert(digits.drop_last() =~= seq![high]);
    assert(digits.drop_last().drop_last() =~= Seq::<char>::empty());
    assert(digits.last() == low && digits.drop_last().last() == high);
    assert(unsigned_part(digits) == digits);
    assert(all_digits(digits, 16)) by {
        assert forall|i: int| 0 <= i < digits.len() implies (#[trigger] digit_value(
            digits[i],
            16,
        )) is Some by {}
    }
    let bare = seq!['0', x];
    assert forall|i: int| 0 <= i < bare.len() implies !is_white(#[trigger] bare[i]) by {}
    lemma_one_word(bare);
    assert(bare.skip(2) =~= Seq::<char>::empty());
}

/// White space round an address does not count; white space inside it makes it
/// none.
pub proof fn lemma_address_trimmed(before: char, s: Seq<char>, after: char, t: Seq<char>, default: u8)
    requires
        is_white(before),
        is_white(after),
    ensures
        address(Some(seq![before] + s.push(after)), default) == address(Some(s), default),
        words(s).len() > 0 && words(t).len() > 0 ==> address(Some(s.push(after) + t), default)
            == default,
{
    let none = Seq::<char>::empty();
    assert(none.push(before) + s.push(after) =~= seq![before] + s.push(after));
    assert(words(none) =~= Seq::<Seq<char>>::empty());
    lemma_words_apart(none, before, s.push(after));
    assert(s.push(after) + none =~= s.push(after));
    lemma_words_apart(s, after, none);
    assert(words(seq![before] + s.push(after)) =~= words(s));
    lemma_words_apart(s, after, t);
}

/// A time as it is written is read as that time.
pub proof fn lemma_time(w: WallClock)
    requires
        w.on_calendar(),
        w.year <= 9999,
    ensures
        time(Some(written(w))) == Some(w),
        time(None) is None,
{
    lemma_written_parses(w);
}

/// Each setting decides its own part of the configuration and no other. The
/// port expander, the voltage monitor and the fan controller are fitted unless
/// they are switched off, the others only if they are switched on.
pub proof fn lemma_configuration(s: HostSettings)
    ensures
        ({
            let c = configuration(s);
            &&& c.pcf8574_enabled == flag(text_of(s.pcf8574), true)
            &&& c.eeprom_enabled == flag(text_of(s.eeprom), false)
            &&& c.lm75_enabled == flag(text_of(s.lm75), false)
            &&& c.ltc2990_enabled == flag(text_of(s.ltc2990), true)
            &&& c.pcf8583_enabled == flag(text_of(s.pcf8583), false)
            &&& c.ds1307_enabled == flag(text_of(s.ds1307), false)
            &&& c.ds1629_enabled == flag(text_of(s.ds1629), false)
            &&& c.r2025_enabled == flag(text_of(s.r2025), false)
            &&& c.lcd_enabled == flag(text_of(s.lcd), false)
            &&& c.bmp280_enabled == flag(text_of(s.bmp280), false)
            &&& c.bme680_enabled == flag(text_of(s.bme680), false)
            &&& c.am2320_enabled == flag(text_of(s.am2320), false)
            &&& c.fan_enabled == flag(text_of(s.fan), true)
            &&& c.eeprom_size == size(text_of(s.eeprom_size), 4096)
            &&& c.lcd_columns == size(text_of(s.lcd_columns), 16)
            &&& c.ltc2990_address == address(text_of(s.ltc2990_address), 0x4C)
            &&& c.pcf8583_address == address(text_of(s.pcf8583_address), 0x50)
            &&& c.fan_address == address(text_of(s.fan_address), 0x50)
            &&& c.pcf8583_time == time(text_of(s.pcf8583_time))
            &&& c.ds1307_time == time(text_of(s.ds1307_time))
            &&& c.ds1629_time == time(text_of(s.ds1629_time))
            &&& c.r2025_time == time(text_of(s.r2025_time))
            &&& c.eeprom_image == s.eeprom_image
            &&& c.pcf8574_address == 0x20 && c.eeprom_address == 0x54 && c.lm75_address == 0x48
            &&& c.lcd_address == 0x27
        }),
{
}

/// A host without settings gets the card as it is by default.
pub proof fn lemma_no_settings(s: HostSettings)
    requires
        s == (HostSettings {
            pcf8574: None,
            eeprom: None,
            lm75: None,
            ltc2990: None,
            pcf8583: None,
            ds1307: None,
            ds1629: None,
            r2025: None,
            lcd: None,
            bmp280: None,
            bme680: None,
            am2320: None,
            fan: None,
            eeprom_size: None,
            lcd_columns: None,
            ltc2990_address: None,
            pcf8583_address: None,
            fan_address: None,
            pcf8583_time: None,
            ds1307_time: None,
            ds1629_time: None,
            r2025_time: None,
            eeprom_image: None,
        }),
    ensures
        configuration(s) == BoardConfig::defaults(),
        complaints(s).len() == 0,
{
}

/// A time that can be read, or is absent, is not logged; one that cannot is
/// logged once, under the name of its setting, with what is wrong with it.
pub proof fn lemma_time_logged(s: HostSettings)
    requires
        text_of(s.pcf8583_time) matches Some(t) ==> parsed(t) is Ok,
    ensures
        (text_of(s.ds1307_time) matches Some(t) ==> parsed(t) is Ok) && (text_of(
            s.ds1629_time,
        ) matches Some(t) ==> parsed(t) is Ok) && (text_of(s.r2025_time) matches Some(t)
            ==> parsed(t) is Ok) ==> complaints(s).len() == 0,
        text_of(s.ds1307_time) is None && text_of(s.ds1629_time) is None && (text_of(
            s.r2025_time,
        ) matches Some(t) && parsed(t) is Err) ==> complaints(s) =~= seq![
            "cpldicy: "@ + "r2025_time"@ + " config error: "@ + parsed(
                text_of(s.r2025_time).unwrap(),
            )->Err_0,
        ],
        text_of(s.ds1307_time) is None && text_of(s.r2025_time) is None && (text_of(
            s.ds1629_time,
        ) matches Some(t) && parsed(t) is Err) ==> complaints(s) =~= seq![
            "cpldicy: "@ + "ds1629_time"@ + " config error: "@ + parsed(
                text_of(s.ds1629_time).unwrap(),
            )->Err_0,
        ],
        text_of(s.r2025_time) is None && text_of(s.ds1629_time) is None && (text_of(
            s.ds1307_time,
        ) matches Some(t) && parsed(t) is Err) ==> complaints(s) =~= seq![
            "cpldicy: "@ + "ds1307_time"@ + " config error: "@ + parsed(
                text_of(s.ds1307_time).unwrap(),
            )->Err_0,
        ],
{
}

/// The same for the PCF8583, whose line comes first.
pub proof fn lemma_first_time_logged(s: HostSettings)
    requires
        text_of(s.pcf8583_time) matches Some(t) && parsed(t) is Err,
    ensures
        complaints(s).len() > 0,
        complaints(s)[0] == "cpldicy: "@ + "pcf8583_time"@ + " config error: "@ + parsed(
            text_of(s.pcf8583_time).unwrap(),
        )->Err_0,
{
}

/// What the LCD shows is logged when it is not what was logged last, and then
/// not again until it changes: a tick after which it shows the same logs
/// nothing.
pub proof fn lemma_lcd_logged_once(card: PluginView, a: u32, b: u32)
    ensures
        ({
            let once = card.after_tick(a);
            let twice = once.after_tick(b);
            &&& twice.board.lcd_lines() is Some && twice.board.lcd_lines()
                == once.board.lcd_lines() ==> once.tick_line(b) is None
            &&& twice.board.lcd_lines() is Some && once.board.lcd_lines() is Some
                && twice.board.lcd_lines() != once.board.lcd_lines() ==> once.tick_line(b)
                == Some(
                "cpldicy: lcd: "@ + debug_quoted(twice.board.lcd_lines().unwrap().0) + " / "@
                    + debug_quoted(twice.board.lcd_lines().unwrap().1),
            )
            &&& twice.board.lcd_lines() is None ==> once.tick_line(b) is None
        }),
{
    let once = card.after_tick(a);
    let played = once.scenario.board_after_tick(b, once.board.after_tick(b));
    let first = card.scenario.board_after_tick(a, card.board.after_tick(a));
    lemma_played_keeps(
        once.scenario.events,
        once.scenario.next,
        once.scenario.after_tick(b).next,
        once.board.after_tick(b),
    );
    assert(first.lcd_lines() == once.board.lcd_lines());
    assert(played.lcd_lines() == once.after_tick(b).board.lcd_lines());
    assert(played.lcd_last_lines == once.board.lcd_last_lines);
}

/// A card whose script has nothing due does what its board does.
pub proof fn lemma_quiet_tick(card: PluginView, cck: u32)
    requires
        card.scenario.next >= card.scenario.events.len() || card.scenario.events[
            card.scenario.next
        ].at_cck > card.scenario.elapsed_cck + cck,
    ensures
        card.after_tick(cck).board == (BoardView {
            lcd_last_lines: card.after_tick(cck).board.lcd_last_lines,
            ..card.board.after_tick(cck)
        }),
        card.after_tick(cck).scenario == (ScenarioView {
            elapsed_cck: card.scenario.elapsed_cck + cck,
            ..card.scenario
        }),
{
}

/// An event that falls due is carried out after the board has gone through the
/// cycles: the fan, say, that it seizes stands still at the end of the tick.
pub proof fn lemma_event_after_cycles(card: PluginView, cck: u32, i: usize)
    requires
        0 <= card.scenario.next,
        card.scenario.next + 1 == card.scenario.events.len(),
        card.scenario.events[card.scenario.next].at_cck <= card.scenario.elapsed_cck + cck,
        card.scenario.events[card.scenario.next].event == EventView::SetFanStuck(true),
        card.board.after_tick(cck).slots_hold(),
        card.board.slots.of(Kind::Fan) == Some(i),
    ensures
        ({
            let device = card.after_tick(cck).board.bus.devices[i as int].1;
            device is Fan && device->Fan_0.fan.current_rpm == 0 && device->Fan_0.fan.stuck
        }),
        card.after_tick(cck).scenario.next == card.scenario.next + 1,
{
    let (events, next) = (card.scenario.events, card.scenario.next);
    let ticked = card.board.after_tick(cck);
    reveal_with_fuel(run_to, 3);
    reveal_with_fuel(played, 3);
    assert(ticked.slots.of(Kind::Fan) == Some(i));
    lemma_rotor_events(ticked, true, i);
    assert(played(events, next, next + 1, ticked) == applied(events[next].event, ticked));
}

/// What is logged of a script that cannot be used, and that a card then has
/// none.
pub proof fn lemma_script_messages(message: Seq<char>)
    ensures
        not_text() == "cpldicy: scenario resource is not valid UTF-8"@,
        script_complaint(message) == "cpldicy: scenario parse error: "@ + message,
        no_script().events.len() == 0 && no_script().next == 0 && no_script().elapsed_cck == 0,
{
}

} // verus!
