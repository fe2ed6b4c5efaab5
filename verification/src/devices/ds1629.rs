//! DS1629 clock. Every write phase opens with a function command. Access
//! Clock (0xC0) is followed by a register number and then by data: 0
//! seconds, 1 minutes, 2 hours, 3 weekday (plain binary), 4 date, 5 month,
//! 6 year, BCD but for weekday, with the pointer running round the seven.
//! Any other command is acknowledged and leads nowhere: it reads as zeros
//! and swallows writes.
//!
//! Time is set as a whole by [`Ds1629::set_time`], and never changes on its
//! own or over the bus.

use crate::bcd::{bcd, bcd_value, lemma_encode_decode, to_bcd};
use crate::i2c::I2cDevice;
use vstd::prelude::*;

verus! {

/// I2C address of every DS1629.
pub const DS1629_ADDRESS: u8 = 0x4F;

/// The command that opens the clock registers.
pub const ACCESS_CLOCK: u8 = 0xC0;

/// What the clock holds, in plain binary.
#[derive(Clone, Copy, Debug, PartialEq, Eq, Structural)]
pub struct DateTime {
    /// 0 to 99.
    pub year: u8,
    /// 1 to 12.
    pub month: u8,
    /// 1 to 31.
    pub date: u8,
    /// 1 to 7.
    pub weekday: u8,
    /// 0 to 23.
    pub hour: u8,
    pub minute: u8,
    pub second: u8,
}

impl DateTime {
    /// The time that the clock powers up with.
    pub open spec fn at_power_on() -> Self {
        DateTime {
            year: 0,
            month: 1,
            date: 1,
            weekday: 1,
            hour: 0,
            minute: 0,
            second: 0,
        }
    }

    /// The time that the clock powers up with.
    pub fn epoch() -> (time: Self)
        ensures
            time == Self::at_power_on(),
    {
        DateTime {
            year: 0,
            month: 1,
            date: 1,
            weekday: 1,
            hour: 0,
            minute: 0,
            second: 0,
        }
    }
}

/// Where a transaction stands.
#[derive(Clone, Copy, Debug, PartialEq, Eq, Structural)]
pub enum State {
    AwaitingCommand,
    AwaitingClockPointer,
    ClockRegisterAccess,
    Unimplemented,
}

/// The clock.
#[derive(Clone, Copy, Debug, PartialEq, Eq, Structural)]
pub struct Ds1629 {
    pub time: DateTime,
    pub pointer: u8,
    pub state: State,
}

impl Ds1629 {
    /// The clock at power-up.
    pub open spec fn power_on() -> Self {
        Ds1629 { time: DateTime::at_power_on(), pointer: 0, state: State::AwaitingCommand }
    }

    /// The byte that a clock register reads as.
    pub open spec fn register(self, reg: u8) -> int {
        if reg == 0x00 {
            bcd(self.time.second as int)
        } else if reg == 0x01 {
            bcd(self.time.minute as int)
        } else if reg == 0x02 {
            bcd(self.time.hour as int)
        } else if reg == 0x03 {
            self.time.weekday as int
        } else if reg == 0x04 {
            bcd(self.time.date as int)
        } else if reg == 0x05 {
            bcd(self.time.month as int)
        } else if reg == 0x06 {
            bcd(self.time.year as int)
        } else {
            0
        }
    }

    /// The byte that the next read gives.
    pub open spec fn output(self) -> int {
        if self.state is ClockRegisterAccess {
            self.register(self.pointer)
        } else {
            0
        }
    }

    /// The clock after an address phase: a write phase expects a command.
    pub open spec fn after_start(self, read: bool) -> Self {
        if read {
            self
        } else {
            Ds1629 { state: State::AwaitingCommand, ..self }
        }
    }

    /// The clock after a byte was sent to it.
    pub open spec fn after_write(self, byte: u8) -> Self {
        match self.state {
            State::AwaitingCommand => if byte == ACCESS_CLOCK {
                Ds1629 { state: State::AwaitingClockPointer, ..self }
            } else {
                Ds1629 { state: State::Unimplemented, ..self }
            },
            State::AwaitingClockPointer => Ds1629 {
                pointer: byte % 7,
                state: State::ClockRegisterAccess,
                ..self
            },
            State::ClockRegisterAccess => self.after_read(),
            State::Unimplemented => self,
        }
    }

    /// The clock after a byte was read from it.
    pub open spec fn after_read(self) -> Self {
        if self.state is ClockRegisterAccess {
            Ds1629 { pointer: ((self.pointer + 1) % 7) as u8, ..self }
        } else {
            self
        }
    }

    /// The device after `n` bytes were read from it in a row.
    pub open spec fn after_reads(self, n: nat) -> Self
        decreases n,
    {
        if n == 0 {
            self
        } else {
            self.after_reads((n - 1) as nat).after_read()
        }
    }

    /// The clock at power-up.
    pub fn new() -> (dev: Self)
        ensures
            dev == Self::power_on(),
            dev.valid(),
    {
        Ds1629 { time: DateTime::epoch(), pointer: 0, state: State::AwaitingCommand }
    }

    /// Sets the clock to any time, a nonsensical one too.
    pub fn set_time(&mut self, time: DateTime)
        ensures
            *final(self) == (Ds1629 { time, ..*old(self) }),
    {
        self.time = time;
    }

    fn register_byte(&self, reg: u8) -> (byte: u8)
        ensures
            byte as int == self.register(reg),
    {
        match reg {
            0x00 => to_bcd(self.time.second),
            0x01 => to_bcd(self.time.minute),
            0x02 => to_bcd(self.time.hour),
            0x03 => self.time.weekday,
            0x04 => to_bcd(self.time.date),
            0x05 => to_bcd(self.time.month),
            0x06 => to_bcd(self.time.year),
            _ => 0x00,
        }
    }
}

/// Byte `n` of a burst read comes from the register `n` places on, counted
/// round the 7 registers, and reading changes nothing but the
/// pointer.
pub proof fn lemma_burst(dev: Ds1629, n: nat)
    requires
        dev.valid(),
        dev.state is ClockRegisterAccess,
    ensures
        dev.after_reads(n) == (Ds1629 {
            pointer: ((dev.pointer + n) % 7) as u8,
            ..dev
        }),
        dev.after_reads(n).output() == dev.register(((dev.pointer + n) % 7) as u8),
    decreases n,
{
    if n > 0 {
        lemma_burst(dev, (n - 1) as nat);
    }
}

/// What a register reads as does not go by the pointer.
proof fn lemma_register_alone(dev: Ds1629, pointer: u8, state: State, reg: u8)
    ensures
        (Ds1629 { pointer, state, ..dev }).register(reg) == dev.register(reg),
{
}

/// Told Access Clock and a register number and then read, the clock gives the
/// registers from that one on, counted round the seven.
pub proof fn lemma_told(dev: Ds1629, byte: u8, n: nat)
    ensures
        dev.after_start(false).after_write(0xC0).after_write(byte).after_start(true).after_reads(
            n,
        ).output() == dev.register(((byte + n) % 7) as u8),
{
    let pointed = dev.after_start(false).after_write(0xC0).after_write(byte).after_start(true);
    lemma_burst(pointed, n);
    assert((byte as int % 7 + n) % 7 == (byte + n) % 7);
    lemma_register_alone(dev, pointed.pointer, pointed.state, ((byte + n) % 7) as u8);
}

/// A time with two-digit fields can be read back from the registers
/// exactly.
pub proof fn lemma_set_time_round_trip(dev: Ds1629)
    requires
        dev.time.second <= 99,
        dev.time.minute <= 99,
        dev.time.hour <= 99,
        dev.time.date <= 99,
        dev.time.month <= 99,
        dev.time.year <= 99,
    ensures
        bcd_value(dev.register(0)) == dev.time.second,
        bcd_value(dev.register(1)) == dev.time.minute,
        bcd_value(dev.register(2)) == dev.time.hour,
        dev.register(3) == dev.time.weekday,
        bcd_value(dev.register(4)) == dev.time.date,
        bcd_value(dev.register(5)) == dev.time.month,
        bcd_value(dev.register(6)) == dev.time.year,
{
    lemma_encode_decode(dev.time.second as int);
    lemma_encode_decode(dev.time.minute as int);
    lemma_encode_decode(dev.time.hour as int);
    lemma_encode_decode(dev.time.date as int);
    lemma_encode_decode(dev.time.month as int);
    lemma_encode_decode(dev.time.year as int);
}

/// No byte sent over the bus changes the time.
pub proof fn lemma_time_not_writable(dev: Ds1629, byte: u8)
    ensures
        dev.after_write(byte).time == dev.time,
{
}

/// A command other than Access Clock reads as zeros, whatever follows it.
pub proof fn lemma_other_command_reads_zero(dev: Ds1629, command: u8, more: u8)
    requires
        command != ACCESS_CLOCK,
    ensures
        ({
            let asked = dev.after_start(false).after_write(command);
            &&& asked.after_write(more) == asked
            &&& asked.after_start(true).output() == 0
            &&& asked.after_start(true).after_read() == asked
        }),
{
}

/// The pointer goes by the byte behind Access Clock, round the seven, and
/// moves on with every byte sent or read; a read phase goes on from where it
/// stands.
pub proof fn lemma_pointer(dev: Ds1629, reg: u8, byte: u8)
    ensures
        ({
            let told = dev.after_start(false).after_write(0xC0).after_write(reg);
            &&& told.pointer as int == reg as int % 7
            &&& told.after_write(byte).pointer as int == (reg + 1) % 7
            &&& told.after_read().pointer as int == (reg + 1) % 7
            &&& told.after_start(true) == told
        }),
{
}

/// The clock powers up at midnight on 1 January of year 0, a Sunday.
pub proof fn lemma_power_on_time()
    ensures
        ({
            let dev = Ds1629::power_on();
            &&& dev.register(0) == 0 && dev.register(1) == 0 && dev.register(2) == 0
            &&& dev.register(3) == 1 && dev.register(4) == 1 && dev.register(5) == 1
            &&& dev.register(6) == 0 && dev.output() == 0
        }),
{
}

impl I2cDevice for Ds1629 {
    open spec fn valid(&self) -> bool {
        self.pointer < 7
    }

    open spec fn on_start(&self, read: bool, after: &Self, ack: bool) -> bool {
        *after == self.after_start(read) && ack
    }

    open spec fn on_write(&self, byte: u8, after: &Self, ack: bool) -> bool {
        *after == self.after_write(byte) && ack
    }

    open spec fn on_read(&self, master_will_ack: bool, after: &Self, byte: u8) -> bool {
        *after == self.after_read() && byte as int == self.output()
    }

    open spec fn on_stop(&self, after: &Self) -> bool {
        *after == *self
    }

    open spec fn can_tick(&self, cck: u32) -> bool {
        true
    }

    open spec fn on_tick(&self, cck: u32, after: &Self) -> bool {
        *after == *self
    }

    fn start(&mut self, read: bool) -> (ack: bool) {
        if !read {
            self.state = State::AwaitingCommand;
        }
        true
    }

    fn write(&mut self, byte: u8) -> (ack: bool) {
        match self.state {
            State::AwaitingCommand => {
                self.state = if byte == ACCESS_CLOCK {
                    State::AwaitingClockPointer
                } else {
                    State::Unimplemented
                };
            },
            State::AwaitingClockPointer => {
                self.pointer = byte % 7;
                self.state = State::ClockRegisterAccess;
            },
            State::ClockRegisterAccess => {
                self.pointer = (self.pointer + 1) % 7;
            },
            State::Unimplemented => {},
        }
        true
    }

    fn read(&mut self, master_will_ack: bool) -> (byte: u8) {
        match self.state {
            State::ClockRegisterAccess => {
                let byte: u8 = self.register_byte(self.pointer);
                self.pointer = (self.pointer + 1) % 7;
                byte
            },
            _ => 0x00,
        }
    }

    fn stop(&mut self) {
    }

    fn tick(&mut self, cck: u32) {
    }
}

impl Default for Ds1629 {
    fn default() -> (dev: Self)
        ensures
            dev == Self::power_on(),
            dev.valid(),
    {
        Self::new()
    }
}

} // verus!
