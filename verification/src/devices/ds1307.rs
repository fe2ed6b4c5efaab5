//! DS1307 clock. Registers: 0 seconds, 1 minutes, 2 hours, 3 weekday (plain
//! binary), 4 date, 5 month, 6 year, 7 control; BCD but for weekday and
//! control. Everything else reads 0. Only control can be written over the
//! bus: time is set as a whole by [`Ds1307::set_time`], and never changes
//! on its own.

use crate::bcd::{bcd, bcd_value, lemma_encode_decode, to_bcd};
use crate::i2c::I2cDevice;
use vstd::prelude::*;

verus! {

/// I2C address of every DS1307.
pub const DS1307_ADDRESS: u8 = 0x68;

/// What the clock holds, in plain binary.
#[derive(Clone, Copy, Debug, PartialEq, Eq, Structural)]
pub struct DateTime {
    /// 0 to 99.
    pub year: u8,
    /// 1 to 12.
    pub month: u8,
    /// 1 to 31.
    pub date: u8,
    /// 1 to 7.
    pub weekday: u8,
    /// 0 to 23.
    pub hour: u8,
    pub minute: u8,
    pub second: u8,
}

impl DateTime {
    /// The time that the clock powers up with.
    pub open spec fn at_power_on() -> Self {
        DateTime {
            year: 0,
            month: 1,
            date: 1,
            weekday: 1,
            hour: 0,
            minute: 0,
            second: 0,
        }
    }

    /// The time that the clock powers up with.
    pub fn epoch() -> (time: Self)
        ensures
            time == Self::at_power_on(),
    {
        DateTime {
            year: 0,
            month: 1,
            date: 1,
            weekday: 1,
            hour: 0,
            minute: 0,
            second: 0,
        }
    }
}

/// The clock.
#[derive(Clone, Copy, Debug, PartialEq, Eq, Structural)]
pub struct Ds1307 {
    pub control: u8,
    pub time: DateTime,
    pub pointer: u8,
    pub awaiting_pointer: bool,
}

impl Ds1307 {
    /// The clock at power-up.
    pub open spec fn power_on() -> Self {
        Ds1307 {
            control: 0,
            time: DateTime::at_power_on(),
            pointer: 0,
            awaiting_pointer: false,
        }
    }

    /// The byte that a register reads as.
    pub open spec fn register(self, reg: u8) -> int {
        if reg == 0x00 {
            bcd(self.time.second as int)
        } else if reg == 0x01 {
            bcd(self.time.minute as int)
        } else if reg == 0x02 {
            bcd(self.time.hour as int)
        } else if reg == 0x03 {
            self.time.weekday as int
        } else if reg == 0x04 {
            bcd(self.time.date as int)
        } else if reg == 0x05 {
            bcd(self.time.month as int)
        } else if reg == 0x06 {
            bcd(self.time.year as int)
        } else if reg == 0x07 {
            self.control as int
        } else {
            0
        }
    }

    /// The byte that the next read gives.
    pub open spec fn output(self) -> int {
        self.register(self.pointer)
    }

    /// The clock after an address phase.
    pub open spec fn after_start(self, read: bool) -> Self {
        Ds1307 { awaiting_pointer: self.awaiting_pointer || !read, ..self }
    }

    /// The clock after a byte was sent to it: the pointer, or data, which
    /// only the control register takes.
    pub open spec fn after_write(self, byte: u8) -> Self {
        if self.awaiting_pointer {
            Ds1307 { pointer: byte, awaiting_pointer: false, ..self }
        } else if self.pointer == 0x07 {
            Ds1307 { control: byte, ..self.after_read() }
        } else {
            self.after_read()
        }
    }

    /// The clock after a byte was read from it.
    pub open spec fn after_read(self) -> Self {
        Ds1307 { pointer: self.pointer.wrapping_add(1), ..self }
    }

    /// The device after `n` bytes were read from it in a row.
    pub open spec fn after_reads(self, n: nat) -> Self
        decreases n,
    {
        if n == 0 {
            self
        } else {
            self.after_reads((n - 1) as nat).after_read()
        }
    }

    /// The clock at power-up.
    pub fn new() -> (dev: Self)
        ensures
            dev == Self::power_on(),
    {
        Ds1307 { control: 0, time: DateTime::epoch(), pointer: 0, awaiting_pointer: false }
    }

    /// Sets the clock to any time, a nonsensical one too.
    pub fn set_time(&mut self, time: DateTime)
        ensures
            *final(self) == (Ds1307 { time, ..*old(self) }),
    {
        self.time = time;
    }

    fn register_byte(&self, reg: u8) -> (byte: u8)
        ensures
            byte as int == self.register(reg),
    {
        match reg {
            0x00 => to_bcd(self.time.second),
            0x01 => to_bcd(self.time.minute),
            0x02 => to_bcd(self.time.hour),
            0x03 => self.time.weekday,
            0x04 => to_bcd(self.time.date),
            0x05 => to_bcd(self.time.month),
            0x06 => to_bcd(self.time.year),
            0x07 => self.control,
            _ => 0x00,
        }
    }

    fn write_register(&mut self, reg: u8, byte: u8)
        ensures
            *final(self) == (if reg == 0x07 {
                Ds1307 { control: byte, ..*old(self) }
            } else {
                *old(self)
            }),
    {
        if reg == 0x07 {
            self.control = byte;
        }
    }
}

/// Byte `n` of a burst read comes from the register `n` places on, counted
/// round the 256 registers, and reading changes nothing but the
/// pointer.
pub proof fn lemma_burst(dev: Ds1307, n: nat)
    ensures
        dev.after_reads(n) == (Ds1307 {
            pointer: ((dev.pointer + n) % 256) as u8,
            ..dev
        }),
        dev.after_reads(n).output() == dev.register(((dev.pointer + n) % 256) as u8),
    decreases n,
{
    if n > 0 {
        lemma_burst(dev, (n - 1) as nat);
    }
}

/// What a register reads as does not go by the pointer.
proof fn lemma_register_alone(dev: Ds1307, pointer: u8, awaiting_pointer: bool, reg: u8)
    ensures
        (Ds1307 { pointer, awaiting_pointer, ..dev }).register(reg) == dev.register(reg),
{
}

/// Told a register number and then read, the clock gives the registers from
/// that one on.
pub proof fn lemma_told(dev: Ds1307, byte: u8, n: nat)
    ensures
        dev.after_start(false).after_write(byte).after_start(true).after_reads(n).output()
            == dev.register(((byte + n) % 256) as u8),
{
    let pointed = dev.after_start(false).after_write(byte).after_start(true);
    lemma_burst(pointed, n);
    lemma_register_alone(
        dev,
        pointed.pointer,
        pointed.awaiting_pointer,
        ((byte + n) % 256) as u8,
    );
}

/// A time with two-digit fields can be read back from the registers
/// exactly.
pub proof fn lemma_set_time_round_trip(dev: Ds1307)
    requires
        dev.time.second <= 99,
        dev.time.minute <= 99,
        dev.time.hour <= 99,
        dev.time.date <= 99,
        dev.time.month <= 99,
        dev.time.year <= 99,
    ensures
        bcd_value(dev.register(0)) == dev.time.second,
        bcd_value(dev.register(1)) == dev.time.minute,
        bcd_value(dev.register(2)) == dev.time.hour,
        dev.register(3) == dev.time.weekday,
        bcd_value(dev.register(4)) == dev.time.date,
        bcd_value(dev.register(5)) == dev.time.month,
        bcd_value(dev.register(6)) == dev.time.year,
{
    lemma_encode_decode(dev.time.second as int);
    lemma_encode_decode(dev.time.minute as int);
    lemma_encode_decode(dev.time.hour as int);
    lemma_encode_decode(dev.time.date as int);
    lemma_encode_decode(dev.time.month as int);
    lemma_encode_decode(dev.time.year as int);
}

/// No byte sent over the bus changes the time.
pub proof fn lemma_time_not_writable(dev: Ds1307, byte: u8)
    ensures
        dev.after_write(byte).time == dev.time,
{
}

/// The control byte reads back as written.
pub proof fn lemma_control_round_trip(dev: Ds1307, byte: u8)
    ensures
        ({
            let written = dev.after_start(false).after_write(0x07).after_write(byte);
            written.after_start(false).after_write(0x07).after_start(true).output() == byte
        }),
{
}

/// Registers past the control register read 0, control itself is what was
/// written to it last, and data sent to any other register changes none. A
/// byte sent or read moves the pointer on, round all 256.
pub proof fn lemma_other_registers(dev: Ds1307, reg: u8, byte: u8)
    ensures
        reg > 7 ==> dev.register(reg) == 0,
        dev.register(7) == dev.control,
        ({
            let after = dev.after_start(false).after_write(reg).after_write(byte);
            &&& after.control == if reg == 7 {
                byte
            } else {
                dev.control
            }
            &&& after.pointer as int == (reg + 1) % 256
            &&& after.after_read().pointer as int == (reg + 2) % 256
        }),
{
}

/// The clock powers up at midnight on 1 January of year 0, a Sunday.
pub proof fn lemma_power_on_time()
    ensures
        ({
            let dev = Ds1307::power_on();
            &&& dev.register(0) == 0 && dev.register(1) == 0 && dev.register(2) == 0
            &&& dev.register(3) == 1 && dev.register(4) == 1 && dev.register(5) == 1
            &&& dev.register(6) == 0 && dev.register(7) == 0 && dev.output() == 0
        }),
{
}

impl I2cDevice for Ds1307 {
    open spec fn valid(&self) -> bool {
        true
    }

    open spec fn on_start(&self, read: bool, after: &Self, ack: bool) -> bool {
        *after == self.after_start(read) && ack
    }

    open spec fn on_write(&self, byte: u8, after: &Self, ack: bool) -> bool {
        *after == self.after_write(byte) && ack
    }

    open spec fn on_read(&self, master_will_ack: bool, after: &Self, byte: u8) -> bool {
        *after == self.after_read() && byte as int == self.output()
    }

    open spec fn on_stop(&self, after: &Self) -> bool {
        *after == *self
    }

    open spec fn can_tick(&self, cck: u32) -> bool {
        true
    }

    open spec fn on_tick(&self, cck: u32, after: &Self) -> bool {
        *after == *self
    }

    fn start(&mut self, read: bool) -> (ack: bool) {
        if !read {
            self.awaiting_pointer = true;
        }
        true
    }

    fn write(&mut self, byte: u8) -> (ack: bool) {
        if self.awaiting_pointer {
            self.pointer = byte;
            self.awaiting_pointer = false;
            return true;
        }
        let reg: u8 = self.pointer;
        self.write_register(reg, byte);
        self.pointer = reg.wrapping_add(1);
        true
    }

    fn read(&mut self, master_will_ack: bool) -> (byte: u8) {
        let byte: u8 = self.register_byte(self.pointer);
        self.pointer = self.pointer.wrapping_add(1);
        byte
    }

    fn stop(&mut self) {
    }

    fn tick(&mut self, cck: u32) {
    }
}

impl Default for Ds1307 {
    fn default() -> (dev: Self)
        ensures
            dev == Self::power_on(),
    {
        Self::new()
    }
}

} // verus!
