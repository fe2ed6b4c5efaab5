//! PCF8574 eight-bit port expander. Each pin is an open-drain output with a
//! weak pull-up: writing 0 drives it low, writing 1 releases it. A read
//! gives the pins themselves, so a released pin reads low while something
//! outside holds it down.

use crate::i2c::I2cDevice;
use vstd::prelude::*;

verus! {

/// The expander.
#[derive(Clone, Copy, Debug, PartialEq, Eq, Structural)]
pub struct Pcf8574 {
    /// What was written last: 1 released, 0 driven low.
    pub output_latch: u8,
    /// Pins that something outside holds low.
    pub external_low: u8,
}

/// Bit `i` of a byte.
pub open spec fn bit_of(byte: u8, i: u8) -> bool {
    (byte >> i) & 1u8 == 1u8
}

impl Pcf8574 {
    /// All pins released, nothing holding any of them.
    pub open spec fn power_on() -> Self {
        Pcf8574 { output_latch: 0xFF, external_low: 0x00 }
    }

    /// The levels of the pins.
    pub open spec fn levels(self) -> u8 {
        self.output_latch & !self.external_low
    }

    /// The byte that the next read gives.
    pub open spec fn output(self) -> int {
        self.levels() as int
    }

    /// The expander after an address phase.
    pub open spec fn after_start(self, read: bool) -> Self {
        self
    }

    /// The expander after a byte was sent to it.
    pub open spec fn after_write(self, byte: u8) -> Self {
        Pcf8574 { output_latch: byte, ..self }
    }

    /// The expander after a byte was read from it.
    pub open spec fn after_read(self) -> Self {
        self
    }

    /// All pins released, nothing holding any of them.
    pub fn new() -> (dev: Self)
        ensures
            dev == Self::power_on(),
    {
        Pcf8574 { output_latch: 0xFF, external_low: 0x00 }
    }

    fn pins(&self) -> (levels: u8)
        ensures
            levels == self.levels(),
    {
        self.output_latch & !self.external_low
    }

    /// Sets which pins something outside holds low.
    pub fn set_external_low(&mut self, mask: u8)
        ensures
            *final(self) == (Pcf8574 { external_low: mask, ..*old(self) }),
    {
        self.external_low = mask;
    }
}

/// A pin reads high exactly when it is released and nothing holds it low.
pub proof fn lemma_pin(dev: Pcf8574, i: u8)
    requires
        i < 8,
    ensures
        bit_of(dev.levels(), i) == (bit_of(dev.output_latch, i) && !bit_of(dev.external_low, i)),
{
    let (latch, low) = (dev.output_latch, dev.external_low);
    assert((((latch & !low) >> i) & 1u8 == 1u8) == ((latch >> i) & 1u8 == 1u8 && !((low >> i) & 1u8
        == 1u8))) by (bit_vector)
        requires
            i < 8,
    ;
}

/// With nothing holding a pin, a read gives back the byte written.
pub proof fn lemma_latch_round_trip(dev: Pcf8574, byte: u8)
    requires
        dev.external_low == 0,
    ensures
        dev.after_write(byte).output() == byte,
{
    assert(byte & !0u8 == byte) by (bit_vector);
}

/// What is sent last is what the pins are driven with, whatever was sent
/// before; reading changes nothing, and neither does an address phase. At
/// power-up every pin reads high.
pub proof fn lemma_last_write_counts(dev: Pcf8574, first: u8, byte: u8, i: u8)
    requires
        i < 8,
    ensures
        dev.after_write(first).after_write(byte) == dev.after_write(byte),
        dev.after_write(byte).after_start(true).after_read() == dev.after_write(byte),
        dev.after_write(byte).external_low == dev.external_low,
        bit_of(dev.after_write(byte).output() as u8, i) == (bit_of(byte, i) && !bit_of(
            dev.external_low,
            i,
        )),
        Pcf8574::power_on().output() == 0xFF,
{
    lemma_pin(dev.after_write(byte), i);
    assert(0xFFu8 & !0x00u8 == 0xFF) by (bit_vector);
}

impl I2cDevice for Pcf8574 {
    open spec fn valid(&self) -> bool {
        true
    }

    open spec fn on_start(&self, read: bool, after: &Self, ack: bool) -> bool {
        *after == self.after_start(read) && ack
    }

    open spec fn on_write(&self, byte: u8, after: &Self, ack: bool) -> bool {
        *after == self.after_write(byte) && ack
    }

    open spec fn on_read(&self, master_will_ack: bool, after: &Self, byte: u8) -> bool {
        *after == self.after_read() && byte as int == self.output()
    }

    open spec fn on_stop(&self, after: &Self) -> bool {
        *after == *self
    }

    open spec fn can_tick(&self, cck: u32) -> bool {
        true
    }

    open spec fn on_tick(&self, cck: u32, after: &Self) -> bool {
        *after == *self
    }

    fn start(&mut self, read: bool) -> (ack: bool) {
        true
    }

    fn write(&mut self, byte: u8) -> (ack: bool) {
        self.output_latch = byte;
        true
    }

    fn read(&mut self, master_will_ack: bool) -> (byte: u8) {
        self.pins()
    }

    fn stop(&mut self) {
    }

    fn tick(&mut self, cck: u32) {
    }
}

impl Default for Pcf8574 {
    fn default() -> (dev: Self)
        ensures
            dev == Self::power_on(),
    {
        Self::new()
    }
}

} // verus!
