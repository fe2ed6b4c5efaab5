//! AM2320 temperature and humidity sensor. A three-byte command
//! `[0x03, start, count]` selects which word the next response carries:
//! temperature when `start` is 2, humidity otherwise. The response is
//! `[0x03, 0x04, high, low, 0, 0, ...]`. Wake-up probes (a short read, an
//! empty write) are acknowledged and change nothing that matters.
//!
//! Both words are in tenths. Temperature is sign and magnitude, with the
//! sign in bit 15.

use crate::i2c::I2cDevice;
use vstd::prelude::*;

verus! {

/// I2C address of every AM2320.
pub const AM2320_ADDRESS: u8 = 0x5C;

pub const REG_HUMIDITY: u8 = 0x00;

pub const REG_TEMPERATURE: u8 = 0x02;

/// The sensor.
#[derive(Clone, Copy, Debug, PartialEq, Eq, Structural)]
pub struct Am2320 {
    /// The sensed temperature is below zero.
    pub negative: bool,
    /// Size of the sensed temperature in tenths of a degree Celsius.
    pub tenths: u16,
    /// Sensed relative humidity in tenths of a percent.
    pub humidity_tenths: u16,
    /// How many bytes of a command have come.
    pub command_len: u8,
    /// The start address in the latest command, complete or not.
    pub start_address: u8,
    /// Start address of the last complete command.
    pub selected: u8,
    /// Byte of the response that comes next.
    pub read_pos: u8,
}

/// The word that stands for a temperature.
pub open spec fn signed_tenths(negative: bool, tenths: int) -> int {
    let size = if tenths > 0x7FFF {
        0x7FFF
    } else {
        tenths
    };
    if negative {
        0x8000 + size
    } else {
        size
    }
}

impl Am2320 {
    /// A sensor at 25 degrees and 50 % relative humidity.
    pub open spec fn power_on() -> Self {
        Am2320 {
            negative: false,
            tenths: 250,
            humidity_tenths: 500,
            command_len: 0,
            start_address: 0,
            selected: REG_HUMIDITY,
            read_pos: 0,
        }
    }

    /// The word that a response carries.
    pub open spec fn word(self) -> int {
        if self.selected == REG_TEMPERATURE {
            signed_tenths(self.negative, self.tenths as int)
        } else {
            self.humidity_tenths as int
        }
    }

    /// A byte of the response.
    pub open spec fn response(self, pos: int) -> int {
        if pos == 0 {
            0x03
        } else if pos == 1 {
            0x04
        } else if pos == 2 {
            self.word() / 256
        } else if pos == 3 {
            self.word() % 256
        } else {
            0
        }
    }

    /// The byte that the next read gives.
    pub open spec fn output(self) -> int {
        self.response(self.read_pos as int)
    }

    /// The sensor after an address phase: a response or a command begins.
    pub open spec fn after_start(self, read: bool) -> Self {
        if read {
            Am2320 { read_pos: 0, ..self }
        } else {
            Am2320 { command_len: 0, ..self }
        }
    }

    /// The sensor after a byte was sent to it. The third byte of a command
    /// completes it; further bytes are dropped.
    pub open spec fn after_write(self, byte: u8) -> Self {
        if self.command_len == 0 {
            Am2320 { command_len: 1, ..self }
        } else if self.command_len == 1 {
            Am2320 { start_address: byte, command_len: 2, ..self }
        } else if self.command_len == 2 {
            Am2320 { command_len: 3, selected: self.start_address, ..self }
        } else {
            self
        }
    }

    /// The sensor after a byte was read from it.
    pub open spec fn after_read(self) -> Self {
        Am2320 { read_pos: self.read_pos.wrapping_add(1), ..self }
    }

    /// A sensor at 25 degrees and 50 % relative humidity.
    pub fn new() -> (dev: Self)
        ensures
            dev == Self::power_on(),
    {
        Am2320 {
            negative: false,
            tenths: 250,
            humidity_tenths: 500,
            command_len: 0,
            start_address: 0,
            selected: REG_HUMIDITY,
            read_pos: 0,
        }
    }

    /// Sets the sensed temperature: its sign, and its size in tenths of a
    /// degree Celsius.
    pub fn set_celsius(&mut self, negative: bool, tenths: u16)
        ensures
            *final(self) == (Am2320 { negative, tenths, ..*old(self) }),
    {
        self.negative = negative;
        self.tenths = tenths;
    }

    /// Sets the sensed relative humidity, in tenths of a percent.
    pub fn set_humidity_percent(&mut self, tenths: u16)
        ensures
            *final(self) == (Am2320 { humidity_tenths: tenths, ..*old(self) }),
    {
        self.humidity_tenths = tenths;
    }

    fn selected_word(&self) -> (word: u16)
        ensures
            word as int == self.word(),
    {
        if self.selected == REG_TEMPERATURE {
            let size: u16 = if self.tenths > 0x7FFF {
                0x7FFF
            } else {
                self.tenths
            };
            if self.negative {
                0x8000 + size
            } else {
                size
            }
        } else {
            self.humidity_tenths
        }
    }

    fn response_byte(&self, pos: u8) -> (byte: u8)
        ensures
            byte as int == self.response(pos as int),
    {
        match pos {
            0 => 0x03,
            1 => 0x04,
            2 => (self.selected_word() / 256) as u8,
            3 => (self.selected_word() % 256) as u8,
            _ => 0x00,
        }
    }
}

/// A command for a start address, then four bytes of response: the function
/// code, the byte count, and the selected word, high byte first.
pub proof fn lemma_command_response(dev: Am2320, function: u8, start: u8, count: u8)
    ensures
        ({
            let asked = dev.after_start(false).after_write(function).after_write(start).after_write(
                count,
            );
            let first = asked.after_start(true);
            let third = first.after_read().after_read();
            let word = if start == REG_TEMPERATURE {
                signed_tenths(dev.negative, dev.tenths as int)
            } else {
                dev.humidity_tenths as int
            };
            &&& first.output() == 0x03
            &&& first.after_read().output() == 0x04
            &&& third.output() * 256 + third.after_read().output() == word
        }),
{
}

/// What a driver makes of a response: after a command for start address 2 the
/// third and fourth byte are the temperature in tenths, sign in the top bit,
/// size below it; after one for any other they are the humidity. Behind them
/// the response is zeros.
pub proof fn lemma_response_decoded(dev: Am2320, function: u8, start: u8, count: u8)
    ensures
        ({
            let first = dev.after_start(false).after_write(function).after_write(
                start,
            ).after_write(count).after_start(true);
            let third = first.after_read().after_read();
            let word = third.output() * 256 + third.after_read().output();
            &&& 0 <= word <= 0xFFFF
            &&& first.output() == 3 && first.after_read().output() == 4
            &&& third.after_read().after_read().output() == 0
            &&& start == 2 ==> (word >= 0x8000) == dev.negative
            &&& start == 2 && dev.tenths <= 0x7FFF ==> word % 0x8000 == dev.tenths
            &&& start == 2 && dev.tenths > 0x7FFF ==> word % 0x8000 == 0x7FFF
            &&& start != 2 ==> word == dev.humidity_tenths
        }),
{
}

/// The same of the response as a whole.
pub proof fn lemma_response_bytes(dev: Am2320, function: u8, start: u8, count: u8)
    ensures
        ({
            let asked = dev.after_start(false).after_write(function).after_write(
                start,
            ).after_write(count).after_start(true);
            let word = asked.response(2) * 256 + asked.response(3);
            &&& asked.read_pos == 0
            &&& 0 <= word <= 0xFFFF
            &&& asked.response(0) == 3 && asked.response(1) == 4
            &&& start == 2 ==> (word >= 0x8000) == dev.negative
            &&& start == 2 && dev.tenths <= 0x7FFF ==> word % 0x8000 == dev.tenths
            &&& start != 2 ==> word == dev.humidity_tenths
        }),
{
}

/// A command of fewer than three bytes selects nothing new, and bytes behind
/// the third are dropped.
pub proof fn lemma_command_length(dev: Am2320, function: u8, start: u8, count: u8, more: u8)
    ensures
        ({
            let one = dev.after_start(false).after_write(function);
            let two = one.after_write(start);
            let three = two.after_write(count);
            &&& dev.after_start(false).selected == dev.selected
            &&& one.selected == dev.selected && two.selected == dev.selected
            &&& three.selected == start && three.after_write(more) == three
        }),
{
}

/// The sensor powers up at 25 degrees and 50 % relative humidity, and answers
/// with the humidity if it is asked for nothing.
pub proof fn lemma_power_on_readings()
    ensures
        ({
            let first = Am2320::power_on().after_start(true);
            let third = first.after_read().after_read();
            &&& !Am2320::power_on().negative && Am2320::power_on().tenths == 25 * 10
            &&& third.output() * 256 + third.after_read().output() == 50 * 10
        }),
{
}

/// A wake-up probe, a one-byte read and then an empty write, leaves the next
/// command and its response as they would have been.
pub proof fn lemma_wake_probe_harmless(dev: Am2320, function: u8, start: u8, count: u8)
    ensures
        ({
            let woken = dev.after_start(true).after_read().after_start(false);
            let plain = dev.after_start(false).after_write(function).after_write(start).after_write(
                count,
            );
            let probed = woken.after_start(false).after_write(function).after_write(
                start,
            ).after_write(count);
            plain.after_start(true) == probed.after_start(true)
        }),
{
}

impl I2cDevice for Am2320 {
    open spec fn valid(&self) -> bool {
        self.command_len <= 3
    }

    open spec fn on_start(&self, read: bool, after: &Self, ack: bool) -> bool {
        *after == self.after_start(read) && ack
    }

    open spec fn on_write(&self, byte: u8, after: &Self, ack: bool) -> bool {
        *after == self.after_write(byte) && ack
    }

    open spec fn on_read(&self, master_will_ack: bool, after: &Self, byte: u8) -> bool {
        *after == self.after_read() && byte as int == self.output()
    }

    open spec fn on_stop(&self, after: &Self) -> bool {
        *after == *self
    }

    open spec fn can_tick(&self, cck: u32) -> bool {
        true
    }

    open spec fn on_tick(&self, cck: u32, after: &Self) -> bool {
        *after == *self
    }

    fn start(&mut self, read: bool) -> (ack: bool) {
        if read {
            self.read_pos = 0;
        } else {
            self.command_len = 0;
        }
        true
    }

    fn write(&mut self, byte: u8) -> (ack: bool) {
        match self.command_len {
            0 => {
                self.command_len = 1;
            },
            1 => {
                self.start_address = byte;
                self.command_len = 2;
            },
            2 => {
                self.command_len = 3;
                self.selected = self.start_address;
            },
            _ => {},
        }
        true
    }

    fn read(&mut self, master_will_ack: bool) -> (byte: u8) {
        let byte: u8 = self.response_byte(self.read_pos);
        self.read_pos = self.read_pos.wrapping_add(1);
        byte
    }

    fn stop(&mut self) {
    }

    fn tick(&mut self, cck: u32) {
    }
}

impl Default for Am2320 {
    fn default() -> (dev: Self)
        ensures
            dev == Self::power_on(),
    {
        Self::new()
    }
}

} // verus!
