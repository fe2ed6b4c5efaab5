//! LM75 temperature sensor. Registers: 0 temperature (read-only), 1
//! configuration, 2 hysteresis, 3 overtemperature limit. The two limits are
//! stored and read back; the comparator output that they steer is not
//! wired to anything.
//!
//! Temperatures are nine-bit two's complement in half degrees, at the top
//! of a 16-bit word that goes out high byte first.

use crate::i2c::I2cDevice;
use crate::numeric::{high_byte, low_byte, take_high_byte, take_low_byte};
use vstd::prelude::*;

verus! {

pub const REG_TEMP: u8 = 0x00;

pub const REG_CONFIG: u8 = 0x01;

pub const REG_THYST: u8 = 0x02;

pub const REG_TOS: u8 = 0x03;

/// The sensor.
#[derive(Clone, Copy, Debug, PartialEq, Eq, Structural)]
pub struct Lm75 {
    /// Sensed temperature in half degrees Celsius.
    pub half_degrees: i32,
    pub config: u8,
    /// Hysteresis, encoded as a temperature is.
    pub thyst: i16,
    /// Overtemperature limit, encoded as a temperature is.
    pub tos: i16,
    pub pointer: u8,
    /// Byte of the register that comes next.
    pub byte_pos: u8,
    /// A write phase has begun and its pointer byte is still to come.
    pub awaiting_pointer: bool,
}

/// Half degrees, brought into the nine-bit range.
pub open spec fn limited9(half_degrees: int) -> int {
    if half_degrees < -256 {
        -256
    } else if half_degrees > 255 {
        255
    } else {
        half_degrees
    }
}

/// The word that stands for a temperature.
pub open spec fn temp9(half_degrees: int) -> int {
    limited9(half_degrees) * 128
}

/// The signed word that a high and a low byte make.
pub open spec fn word16(high: int, low: int) -> int {
    let word = high * 256 + low;
    if word >= 0x8000 {
        word - 0x10000
    } else {
        word
    }
}

/// A word with one of its bytes replaced: the high one at position 0, the
/// low one after that.
pub open spec fn patched(word: int, pos: u8, byte: u8) -> int {
    if pos == 0 {
        word16(byte as int, low_byte(word))
    } else {
        word16(high_byte(word), byte as int)
    }
}

/// Encodes half degrees: nine bits, left-justified in the word.
pub fn encode_temp9(half_degrees: i32) -> (word: i16)
    ensures
        word as int == temp9(half_degrees as int),
{
    let clamped: i16 = if half_degrees < -256 {
        -256
    } else if half_degrees > 255 {
        255
    } else {
        half_degrees as i16
    };
    clamped * 128
}

/// Replaces one byte of a word.
fn patch(word: i16, pos: u8, byte: u8) -> (updated: i16)
    ensures
        updated as int == patched(word as int, pos, byte),
{
    let high: u8 = if pos == 0 {
        byte
    } else {
        take_high_byte(word as i32)
    };
    let low: u8 = if pos == 0 {
        take_low_byte(word as i32)
    } else {
        byte
    };
    let joined: i32 = high as i32 * 256 + low as i32;
    if joined >= 0x8000 {
        (joined - 0x10000) as i16
    } else {
        joined as i16
    }
}

impl Lm75 {
    /// A sensor at 25 degrees, with limits of 80 and 75 degrees.
    pub open spec fn power_on() -> Self {
        Lm75 {
            half_degrees: 50,
            config: 0,
            thyst: 20480,
            tos: 19200,
            pointer: REG_TEMP,
            byte_pos: 0,
            awaiting_pointer: false,
        }
    }

    /// The word of a two-byte register.
    pub open spec fn word(self, reg: u8) -> int {
        if reg == REG_TEMP {
            temp9(self.half_degrees as int)
        } else if reg == REG_THYST {
            self.thyst as int
        } else if reg == REG_TOS {
            self.tos as int
        } else {
            0
        }
    }

    /// The byte that comes out at a position of a register. The
    /// configuration register is one byte, repeated; the others go on
    /// giving their low byte.
    pub open spec fn byte_at(self, reg: u8, pos: u8) -> int {
        if reg == REG_CONFIG {
            self.config as int
        } else if pos == 0 {
            high_byte(self.word(reg))
        } else {
            low_byte(self.word(reg))
        }
    }

    /// The byte that the next read gives.
    pub open spec fn output(self) -> int {
        self.byte_at(self.pointer, self.byte_pos)
    }

    /// The sensor after an address phase.
    pub open spec fn after_start(self, read: bool) -> Self {
        Lm75 { awaiting_pointer: self.awaiting_pointer || !read, byte_pos: 0, ..self }
    }

    /// The sensor after a byte was sent to it.
    pub open spec fn after_write(self, byte: u8) -> Self {
        if self.awaiting_pointer {
            Lm75 { pointer: byte % 4, awaiting_pointer: false, ..self }
        } else if self.pointer == REG_CONFIG {
            Lm75 { config: byte, ..self }
        } else if self.pointer == REG_THYST {
            Lm75 {
                thyst: patched(self.thyst as int, self.byte_pos, byte) as i16,
                byte_pos: self.byte_pos.wrapping_add(1),
                ..self
            }
        } else if self.pointer == REG_TOS {
            Lm75 {
                tos: patched(self.tos as int, self.byte_pos, byte) as i16,
                byte_pos: self.byte_pos.wrapping_add(1),
                ..self
            }
        } else {
            self
        }
    }

    /// The sensor after a byte was read from it.
    pub open spec fn after_read(self) -> Self {
        Lm75 { byte_pos: self.byte_pos.wrapping_add(1), ..self }
    }

    /// A sensor at 25 degrees, with limits of 80 and 75 degrees.
    pub fn new() -> (dev: Self)
        ensures
            dev == Self::power_on(),
    {
        Lm75 {
            half_degrees: 50,
            config: 0,
            thyst: encode_temp9(160),
            tos: encode_temp9(150),
            pointer: REG_TEMP,
            byte_pos: 0,
            awaiting_pointer: false,
        }
    }

    /// Sets the sensed temperature, in half degrees Celsius.
    pub fn set_celsius(&mut self, half_degrees: i32)
        ensures
            *final(self) == (Lm75 { half_degrees, ..*old(self) }),
    {
        self.half_degrees = half_degrees;
    }

    fn register_word(&self, reg: u8) -> (word: i16)
        ensures
            word as int == self.word(reg),
    {
        match reg {
            REG_TEMP => encode_temp9(self.half_degrees),
            REG_THYST => self.thyst,
            REG_TOS => self.tos,
            _ => 0,
        }
    }

    fn read_byte_at(&self, reg: u8, pos: u8) -> (byte: u8)
        ensures
            byte as int == self.byte_at(reg, pos),
    {
        if reg == REG_CONFIG {
            return self.config;
        }
        let word: i16 = self.register_word(reg);
        if pos == 0 {
            take_high_byte(word as i32)
        } else {
            take_low_byte(word as i32)
        }
    }
}

/// A driver that points at the temperature and reads two bytes gets the
/// word that stands for the temperature set.
pub proof fn lemma_reads_temperature(dev: Lm75)
    ensures
        ({
            let pointed = dev.after_start(false).after_write(REG_TEMP).after_start(true);
            word16(pointed.output(), pointed.after_read().output()) == temp9(
                dev.half_degrees as int,
            )
        }),
{
}

/// What a driver that decodes register 0 makes of it: the upper nine bits of
/// the two bytes, as two's complement, are the temperature in half degrees,
/// brought into range; the lower seven are clear.
pub proof fn lemma_temperature_decoded(dev: Lm75)
    ensures
        ({
            let pointed = dev.after_start(false).after_write(0x00).after_start(true);
            let raw = pointed.output() * 256 + pointed.after_read().output();
            &&& raw % 128 == 0
            &&& (if raw >= 0x8000 {
                raw / 128 - 512
            } else {
                raw / 128
            }) == if dev.half_degrees < -256 {
                -256
            } else if dev.half_degrees > 255 {
                255
            } else {
                dev.half_degrees as int
            }
        }),
{
}

/// The two limits sit at 2 and 3, the configuration at 1, and the pointer is
/// the low two bits of the byte sent first. A limit that was never written is
/// the one the sensor powers up with: 80 degrees of hysteresis and 75 of
/// overtemperature.
pub proof fn lemma_register_places(dev: Lm75, byte: u8)
    ensures
        ({
            let pointed = dev.after_start(false).after_write(byte).after_start(true);
            let raw = pointed.output() * 256 + pointed.after_read().output();
            &&& byte % 4 == 1 ==> pointed.output() == dev.config && pointed.after_read().output()
                == dev.config
            &&& byte % 4 == 2 ==> raw == dev.thyst as int % 0x10000
            &&& byte % 4 == 3 ==> raw == dev.tos as int % 0x10000
            &&& byte % 4 == 0 ==> pointed.output() == dev.after_start(false).after_write(
                0,
            ).after_start(true).output()
        }),
        Lm75::power_on().half_degrees == 25 * 2,
        Lm75::power_on().thyst == 80 * 2 * 128,
        Lm75::power_on().tos == 75 * 2 * 128,
        Lm75::power_on().config == 0,
{
}

/// The temperature cannot be written: data bytes sent to register 0 change
/// nothing, and those sent to one of the others change that one alone.
pub proof fn lemma_writes_stay_put(dev: Lm75, reg: u8, high: u8, low: u8)
    ensures
        ({
            let after = dev.after_start(false).after_write(reg).after_write(high).after_write(low);
            &&& after.half_degrees == dev.half_degrees
            &&& reg % 4 != 1 ==> after.config == dev.config
            &&& reg % 4 == 1 ==> after.config == low
            &&& reg % 4 != 2 ==> after.thyst == dev.thyst
            &&& reg % 4 != 3 ==> after.tos == dev.tos
        }),
{
}

/// What replacing a byte of a word changes.
proof fn lemma_patched(word: i16, pos: u8, byte: u8)
    ensures
        ({
            let updated = patched(word as int, pos, byte);
            &&& i16::MIN <= updated <= i16::MAX
            &&& pos == 0 ==> high_byte(updated) == byte && low_byte(updated) == low_byte(
                word as int,
            )
            &&& pos != 0 ==> low_byte(updated) == byte && high_byte(updated) == high_byte(
                word as int,
            )
        }),
{
}

/// A limit written as two bytes reads back as those bytes.
pub proof fn lemma_limit_round_trip(dev: Lm75, reg: u8, high: u8, low: u8)
    requires
        reg == REG_THYST || reg == REG_TOS,
    ensures
        ({
            let written = dev.after_start(false).after_write(reg).after_write(high).after_write(low);
            let pointed = written.after_start(false).after_write(reg).after_start(true);
            pointed.output() == high && pointed.after_read().output() == low
        }),
{
    let begun = dev.after_start(false).after_write(reg);
    let before = if reg == REG_THYST {
        begun.thyst
    } else {
        begun.tos
    };
    let half = patched(before as int, 0, high) as i16;
    lemma_patched(before, 0, high);
    lemma_patched(half, 1, low);
    let written = begun.after_write(high).after_write(low);
    let pointed = written.after_start(false).after_write(reg).after_start(true);
    assert(pointed.word(reg) == patched(half as int, 1, low));
}

/// A limit of which only the first byte is written takes it for its high byte
/// and keeps its low one; a third byte takes the place of the second.
pub proof fn lemma_limit_in_parts(dev: Lm75, reg: u8, high: u8, low: u8, more: u8)
    requires
        reg == 2 || reg == 3,
    ensures
        ({
            let begun = dev.after_start(false).after_write(reg);
            let kept = begun.after_start(true).after_read().output();
            let half = begun.after_write(high).after_start(false).after_write(reg).after_start(
                true,
            );
            &&& half.output() == high
            &&& half.after_read().output() == kept
            &&& begun.after_write(high).after_write(low).after_write(more) == (Lm75 {
                byte_pos: 3,
                ..begun.after_write(high).after_write(more)
            })
        }),
{
    let begun = dev.after_start(false).after_write(reg);
    let before = if reg == 2 {
        begun.thyst
    } else {
        begun.tos
    };
    let half = patched(before as int, 0, high) as i16;
    let whole = patched(half as int, 1, low) as i16;
    lemma_patched(before, 0, high);
    lemma_patched(half, 1, low);
    lemma_patched(half, 1, more);
    lemma_patched(whole, 2, more);
    assert(patched(whole as int, 2, more) == patched(half as int, 1, more));
    let after = begun.after_write(high).after_start(false).after_write(reg).after_start(true);
    assert(after.word(reg) == half as int);
    assert(begun.word(reg) == before as int);
}

/// Behind the second byte of a register a read goes on giving the second, and
/// a new read phase starts at the first again.
pub proof fn lemma_reads_on(dev: Lm75, reg: u8)
    ensures
        ({
            let first = dev.after_start(false).after_write(reg).after_start(true);
            let second = first.after_read();
            &&& second.after_read().output() == second.output()
            &&& second.after_read().after_start(true).output() == first.output()
            &&& second.after_read().pointer == reg % 4
        }),
{
}

/// The configuration byte reads back as written.
pub proof fn lemma_config_round_trip(dev: Lm75, byte: u8)
    ensures
        ({
            let written = dev.after_start(false).after_write(REG_CONFIG).after_write(byte);
            written.after_start(false).after_write(REG_CONFIG).after_start(true).output() == byte
        }),
{
}

impl I2cDevice for Lm75 {
    open spec fn valid(&self) -> bool {
        true
    }

    open spec fn on_start(&self, read: bool, after: &Self, ack: bool) -> bool {
        *after == self.after_start(read) && ack
    }

    open spec fn on_write(&self, byte: u8, after: &Self, ack: bool) -> bool {
        *after == self.after_write(byte) && ack
    }

    open spec fn on_read(&self, master_will_ack: bool, after: &Self, byte: u8) -> bool {
        *after == self.after_read() && byte as int == self.output()
    }

    open spec fn on_stop(&self, after: &Self) -> bool {
        *after == *self
    }

    open spec fn can_tick(&self, cck: u32) -> bool {
        true
    }

    open spec fn on_tick(&self, cck: u32, after: &Self) -> bool {
        *after == *self
    }

    fn start(&mut self, read: bool) -> (ack: bool) {
        if !read {
            self.awaiting_pointer = true;
        }
        self.byte_pos = 0;
        true
    }

    fn write(&mut self, byte: u8) -> (ack: bool) {
        if self.awaiting_pointer {
            self.pointer = byte % 4;
            self.awaiting_pointer = false;
            return true;
        }
        match self.pointer {
            REG_CONFIG => {
                self.config = byte;
            },
            REG_THYST => {
                self.thyst = patch(self.thyst, self.byte_pos, byte);
                self.byte_pos = self.byte_pos.wrapping_add(1);
            },
            REG_TOS => {
                self.tos = patch(self.tos, self.byte_pos, byte);
                self.byte_pos = self.byte_pos.wrapping_add(1);
            },
            _ => {},
        }
        true
    }

    fn read(&mut self, master_will_ack: bool) -> (byte: u8) {
        let byte: u8 = self.read_byte_at(self.pointer, self.byte_pos);
        self.byte_pos = self.byte_pos.wrapping_add(1);
        byte
    }

    fn stop(&mut self) {
    }

    fn tick(&mut self, cck: u32) {
    }
}

impl Default for Lm75 {
    fn default() -> (dev: Self)
        ensures
            dev == Self::power_on(),
    {
        Self::new()
    }
}

} // verus!
