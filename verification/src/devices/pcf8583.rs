//! PCF8583 clock. Registers: 0 control and status, 1 hundredths, 2 seconds,
//! 3 minutes, 4 hours, 5 year (two bits) and date, 6 weekday (three bits)
//! and month, all in BCD; 0x10 one byte of free storage, which drivers use
//! to keep the rest of the year. Everything else reads 0.
//!
//! The clock stands still: time changes when it is set, by
//! [`Pcf8583::set_time`] or over the bus, and never on its own. No time is
//! refused, sensible or not.

use crate::bcd::{
    bcd, bcd_value, from_bcd, is_bcd, lemma_decode_encode, lemma_encode_decode, to_bcd,
};
use crate::i2c::I2cDevice;
use vstd::prelude::*;

verus! {

/// What the clock holds, in plain binary.
#[derive(Clone, Copy, Debug, PartialEq, Eq, Structural)]
pub struct DateTime {
    /// Two-bit rolling year.
    pub year_low2: u8,
    /// 1 to 12.
    pub month: u8,
    /// 1 to 31.
    pub date: u8,
    /// 0 to 6.
    pub weekday: u8,
    /// 0 to 23.
    pub hour: u8,
    pub minute: u8,
    pub second: u8,
    pub hundredths: u8,
}

impl DateTime {
    /// The time that the clock powers up with.
    pub open spec fn at_power_on() -> Self {
        DateTime {
            year_low2: 0,
            month: 1,
            date: 1,
            weekday: 0,
            hour: 0,
            minute: 0,
            second: 0,
            hundredths: 0,
        }
    }

    /// The time that the clock powers up with.
    pub fn epoch() -> (time: Self)
        ensures
            time == Self::at_power_on(),
    {
        DateTime {
            year_low2: 0,
            month: 1,
            date: 1,
            weekday: 0,
            hour: 0,
            minute: 0,
            second: 0,
            hundredths: 0,
        }
    }
}

/// The clock.
#[derive(Clone, Copy, Debug, PartialEq, Eq, Structural)]
pub struct Pcf8583 {
    pub control_status: u8,
    pub time: DateTime,
    /// The byte of free storage at 0x10.
    pub year_extra: u8,
    pub pointer: u8,
    pub awaiting_pointer: bool,
}

/// The year and date register.
pub open spec fn year_and_date(year: u8, date: u8) -> u8 {
    (year << 6) | bcd(date as int) as u8
}

/// The weekday and month register.
pub open spec fn weekday_and_month(weekday: u8, month: u8) -> u8 {
    (weekday << 5) | bcd(month as int) as u8
}

impl Pcf8583 {
    /// The clock at power-up.
    pub open spec fn power_on() -> Self {
        Pcf8583 {
            control_status: 0,
            time: DateTime::at_power_on(),
            year_extra: 0,
            pointer: 0,
            awaiting_pointer: false,
        }
    }

    /// The byte that a register reads as.
    pub open spec fn register(self, reg: u8) -> int {
        if reg == 0x00 {
            self.control_status as int
        } else if reg == 0x01 {
            bcd(self.time.hundredths as int)
        } else if reg == 0x02 {
            bcd(self.time.second as int)
        } else if reg == 0x03 {
            bcd(self.time.minute as int)
        } else if reg == 0x04 {
            bcd(self.time.hour as int)
        } else if reg == 0x05 {
            year_and_date(self.time.year_low2, self.time.date) as int
        } else if reg == 0x06 {
            weekday_and_month(self.time.weekday, self.time.month) as int
        } else if reg == 0x10 {
            self.year_extra as int
        } else {
            0
        }
    }

    /// The clock after a register was set.
    pub open spec fn with_register(self, reg: u8, byte: u8) -> Self {
        let value = bcd_value(byte as int) as u8;
        if reg == 0x00 {
            Pcf8583 { control_status: byte, ..self }
        } else if reg == 0x01 {
            Pcf8583 { time: DateTime { hundredths: value, ..self.time }, ..self }
        } else if reg == 0x02 {
            Pcf8583 { time: DateTime { second: value, ..self.time }, ..self }
        } else if reg == 0x03 {
            Pcf8583 { time: DateTime { minute: value, ..self.time }, ..self }
        } else if reg == 0x04 {
            Pcf8583 {
                time: DateTime { hour: bcd_value(byte as int % 64) as u8, ..self.time },
                ..self
            }
        } else if reg == 0x05 {
            Pcf8583 {
                time: DateTime {
                    year_low2: byte / 64,
                    date: bcd_value(byte as int % 64) as u8,
                    ..self.time
                },
                ..self
            }
        } else if reg == 0x06 {
            Pcf8583 {
                time: DateTime {
                    weekday: byte / 32,
                    month: bcd_value(byte as int % 32) as u8,
                    ..self.time
                },
                ..self
            }
        } else if reg == 0x10 {
            Pcf8583 { year_extra: byte, ..self }
        } else {
            self
        }
    }

    /// The byte that the next read gives.
    pub open spec fn output(self) -> int {
        self.register(self.pointer)
    }

    /// The clock after an address phase.
    pub open spec fn after_start(self, read: bool) -> Self {
        Pcf8583 { awaiting_pointer: self.awaiting_pointer || !read, ..self }
    }

    /// The clock after a byte was sent to it: the pointer, or data.
    pub open spec fn after_write(self, byte: u8) -> Self {
        if self.awaiting_pointer {
            Pcf8583 { pointer: byte, awaiting_pointer: false, ..self }
        } else {
            self.with_register(self.pointer, byte).after_read()
        }
    }

    /// The clock after a byte was read from it.
    pub open spec fn after_read(self) -> Self {
        Pcf8583 { pointer: self.pointer.wrapping_add(1), ..self }
    }

    /// The device after `n` bytes were read from it in a row.
    pub open spec fn after_reads(self, n: nat) -> Self
        decreases n,
    {
        if n == 0 {
            self
        } else {
            self.after_reads((n - 1) as nat).after_read()
        }
    }

    /// The clock after `bytes` were sent to it in a row.
    pub open spec fn after_writes(self, bytes: Seq<u8>) -> Self
        decreases bytes.len(),
    {
        if bytes.len() == 0 {
            self
        } else {
            self.after_writes(bytes.drop_last()).after_write(bytes.last())
        }
    }

    /// The clock at power-up.
    pub fn new() -> (dev: Self)
        ensures
            dev == Self::power_on(),
    {
        Pcf8583 {
            control_status: 0,
            time: DateTime::epoch(),
            year_extra: 0,
            pointer: 0,
            awaiting_pointer: false,
        }
    }

    /// Sets the clock to any time, a nonsensical one too.
    pub fn set_time(&mut self, time: DateTime)
        ensures
            *final(self) == (Pcf8583 { time, ..*old(self) }),
    {
        self.time = time;
    }

    fn register_byte(&self, reg: u8) -> (byte: u8)
        ensures
            byte as int == self.register(reg),
    {
        match reg {
            0x00 => self.control_status,
            0x01 => to_bcd(self.time.hundredths),
            0x02 => to_bcd(self.time.second),
            0x03 => to_bcd(self.time.minute),
            0x04 => to_bcd(self.time.hour),
            0x05 => (self.time.year_low2 << 6) | to_bcd(self.time.date),
            0x06 => (self.time.weekday << 5) | to_bcd(self.time.month),
            0x10 => self.year_extra,
            _ => 0x00,
        }
    }

    fn write_register(&mut self, reg: u8, byte: u8)
        ensures
            *final(self) == old(self).with_register(reg, byte),
    {
        match reg {
            0x00 => {
                self.control_status = byte;
            },
            0x01 => {
                self.time.hundredths = from_bcd(byte);
            },
            0x02 => {
                self.time.second = from_bcd(byte);
            },
            0x03 => {
                self.time.minute = from_bcd(byte);
            },
            0x04 => {
                self.time.hour = from_bcd(byte % 64);
            },
            0x05 => {
                self.time.year_low2 = byte / 64;
                self.time.date = from_bcd(byte % 64);
            },
            0x06 => {
                self.time.weekday = byte / 32;
                self.time.month = from_bcd(byte % 32);
            },
            0x10 => {
                self.year_extra = byte;
            },
            _ => {},
        }
    }
}

/// Byte `n` of a burst read comes from the register `n` places on, counted
/// round the 256 registers, and reading changes nothing but the
/// pointer.
pub proof fn lemma_burst(dev: Pcf8583, n: nat)
    ensures
        dev.after_reads(n) == (Pcf8583 {
            pointer: ((dev.pointer + n) % 256) as u8,
            ..dev
        }),
        dev.after_reads(n).output() == dev.register(((dev.pointer + n) % 256) as u8),
    decreases n,
{
    if n > 0 {
        lemma_burst(dev, (n - 1) as nat);
    }
}

/// Told a register number and then read, the clock gives the registers from
/// that one on.
pub proof fn lemma_told(dev: Pcf8583, reg: u8, n: nat)
    ensures
        dev.after_start(false).after_write(reg).after_start(true).after_reads(n).output()
            == dev.register(((reg + n) % 256) as u8),
{
    lemma_burst(dev.after_start(false).after_write(reg).after_start(true), n);
}

/// A byte with decimal digits where a register keeps BCD: in both nibbles of
/// hundredths, seconds and minutes, and in the low one of the registers that
/// keep something else above.
pub open spec fn proper(reg: u8, byte: u8) -> bool {
    if 0x01 <= reg <= 0x03 {
        is_bcd(byte as int)
    } else if 0x04 <= reg <= 0x06 {
        byte % 16 <= 9
    } else {
        true
    }
}

/// What a register keeps of a byte written to it: all of it, but for the
/// hour's two mode bits; a register that is not there keeps nothing.
pub open spec fn kept(reg: u8, byte: u8) -> int {
    if reg == 0x04 {
        byte as int % 64
    } else if reg <= 0x06 || reg == 0x10 {
        byte as int
    } else {
        0
    }
}

/// A shared register holds its two fields side by side.
proof fn lemma_fields(year: u8, date: u8, weekday: u8, month: u8)
    requires
        year <= 3,
        date <= 39,
        weekday <= 7,
        month <= 19,
    ensures
        year_and_date(year, date) == year * 64 + bcd(date as int),
        weekday_and_month(weekday, month) == weekday * 32 + bcd(month as int),
{
    let (d, m) = (bcd(date as int) as u8, bcd(month as int) as u8);
    assert((year << 6) | d == year * 64 + d) by (bit_vector)
        requires
            year <= 3,
            d < 64,
    ;
    assert((weekday << 5) | m == weekday * 32 + m) by (bit_vector)
        requires
            weekday <= 7,
            m < 32,
    ;
}

/// Setting a register leaves what every other register reads as.
pub proof fn lemma_register_frame(dev: Pcf8583, reg: u8, byte: u8, other: u8)
    requires
        other != reg,
    ensures
        dev.with_register(reg, byte).register(other) == dev.register(other),
{
}

/// A stored year and date read back.
proof fn lemma_date_round_trip(byte: u8)
    requires
        is_bcd(byte as int % 64),
    ensures
        year_and_date(byte / 64, bcd_value(byte as int % 64) as u8) == byte,
{
    let field = byte as int % 64;
    lemma_decode_encode(field);
    assert(bcd_value(field) <= 39);
    lemma_fields(byte / 64, bcd_value(field) as u8, 0, 0);
}

/// A stored weekday and month read back.
proof fn lemma_month_round_trip(byte: u8)
    requires
        is_bcd(byte as int % 32),
    ensures
        weekday_and_month(byte / 32, bcd_value(byte as int % 32) as u8) == byte,
{
    let field = byte as int % 32;
    lemma_decode_encode(field);
    assert(bcd_value(field) <= 19);
    lemma_fields(0, 0, byte / 32, bcd_value(field) as u8);
}

/// A register reads as what it keeps of the byte written to it.
pub proof fn lemma_register_round_trip(dev: Pcf8583, reg: u8, byte: u8)
    requires
        proper(reg, byte),
    ensures
        dev.with_register(reg, byte).register(reg) == kept(reg, byte),
{
    if 0x01 <= reg <= 0x03 {
        lemma_decode_encode(byte as int);
    } else if reg == 0x04 {
        assert((byte as int % 64) % 16 == byte % 16);
        lemma_decode_encode(byte as int % 64);
    } else if reg == 0x05 {
        assert((byte as int % 64) % 16 == byte % 16);
        lemma_date_round_trip(byte);
    } else if reg == 0x06 {
        assert((byte as int % 32) % 16 == byte % 16);
        lemma_month_round_trip(byte);
    }
}

/// Writing to a register that is not there changes nothing.
pub proof fn lemma_no_such_register(dev: Pcf8583, reg: u8, byte: u8)
    requires
        reg > 0x06,
        reg != 0x10,
    ensures
        dev.with_register(reg, byte) == dev,
{
}

/// After a byte was written over the bus, its register reads over the bus as
/// what it keeps of the byte, and every other register as before.
pub proof fn lemma_bus_round_trip(dev: Pcf8583, reg: u8, byte: u8, other: u8)
    requires
        proper(reg, byte),
    ensures
        ({
            let written = dev.after_start(false).after_write(reg).after_write(byte);
            let got = written.after_start(false).after_write(other).after_start(true).output();
            got == if other == reg {
                kept(reg, byte)
            } else {
                dev.register(other)
            }
        }),
{
    let begun = dev.after_start(false).after_write(reg);
    lemma_register_round_trip(begun, reg, byte);
    if other != reg {
        lemma_register_frame(begun, reg, byte, other);
    }
}

/// After a burst written from register `reg` on, each register reads as what
/// it keeps of its byte.
proof fn lemma_write_burst(dev: Pcf8583, reg: u8, bytes: Seq<u8>)
    requires
        !dev.awaiting_pointer,
        dev.pointer == reg,
        reg + bytes.len() <= 255,
        forall|i: int| 0 <= i < bytes.len() ==> proper((reg + i) as u8, #[trigger] bytes[i]),
    ensures
        ({
            let d = dev.after_writes(bytes);
            &&& !d.awaiting_pointer
            &&& d.pointer == reg + bytes.len()
            &&& forall|i: int|
                0 <= i < bytes.len() ==> d.register((reg + i) as u8) == kept(
                    (reg + i) as u8,
                    #[trigger] bytes[i],
                )
        }),
    decreases bytes.len(),
{
    if bytes.len() > 0 {
        let rest = bytes.drop_last();
        let before = dev.after_writes(rest);
        let d = dev.after_writes(bytes);
        let last = (reg + rest.len()) as u8;
        assert forall|i: int| 0 <= i < rest.len() implies proper(
            (reg + i) as u8,
            #[trigger] rest[i],
        ) by {
            assert(rest[i] == bytes[i]);
        }
        lemma_write_burst(dev, reg, rest);
        assert(proper(last, bytes[bytes.len() - 1]));
        lemma_register_round_trip(before, last, bytes.last());
        assert forall|i: int| 0 <= i < bytes.len() implies d.register((reg + i) as u8) == kept(
            (reg + i) as u8,
            #[trigger] bytes[i],
        ) by {
            if i < rest.len() {
                assert(rest[i] == bytes[i]);
                lemma_register_frame(before, last, bytes.last(), (reg + i) as u8);
            }
        }
    }
}

/// Time registers, written in one burst from hundredths on, read back in
/// one burst, but for the hour's mode bits.
pub proof fn lemma_time_burst_round_trip(dev: Pcf8583, bytes: Seq<u8>, k: int)
    requires
        bytes.len() <= 6,
        forall|i: int| 0 <= i < bytes.len() ==> proper((i + 1) as u8, #[trigger] bytes[i]),
        0 <= k < bytes.len(),
    ensures
        ({
            let written = dev.after_start(false).after_write(0x01).after_writes(bytes);
            let pointed = written.after_start(false).after_write(0x01).after_start(true);
            pointed.after_reads(k as nat).output() == kept((k + 1) as u8, bytes[k])
        }),
{
    let begun = dev.after_start(false).after_write(0x01);
    lemma_write_burst(begun, 1, bytes);
    let written = begun.after_writes(bytes);
    let pointed = written.after_start(false).after_write(0x01).after_start(true);
    lemma_burst(pointed, k as nat);
    assert(written.register((1 + k) as u8) == kept((1 + k) as u8, bytes[k]));
}

/// The year and date register gives its two fields.
proof fn lemma_date_read(year: u8, date: u8)
    requires
        year <= 3,
        date <= 39,
    ensures
        year_and_date(year, date) as int / 64 == year,
        bcd_value(year_and_date(year, date) as int % 64) == date,
{
    lemma_fields(year, date, 0, 0);
    lemma_encode_decode(date as int);
    assert(0 <= bcd(date as int) < 64);
}

/// The weekday and month register gives its two fields.
proof fn lemma_month_read(weekday: u8, month: u8)
    requires
        weekday <= 7,
        month <= 19,
    ensures
        weekday_and_month(weekday, month) as int / 32 == weekday,
        bcd_value(weekday_and_month(weekday, month) as int % 32) == month,
{
    lemma_fields(0, 0, weekday, month);
    lemma_encode_decode(month as int);
    assert(0 <= bcd(month as int) < 32);
}

/// A time whose fields fit their registers can be read back from them
/// exactly.
pub proof fn lemma_set_time_round_trip(dev: Pcf8583)
    requires
        dev.time.hundredths <= 99,
        dev.time.second <= 99,
        dev.time.minute <= 99,
        dev.time.hour <= 99,
        dev.time.year_low2 <= 3,
        dev.time.date <= 39,
        dev.time.weekday <= 7,
        dev.time.month <= 19,
    ensures
        bcd_value(dev.register(1)) == dev.time.hundredths,
        bcd_value(dev.register(2)) == dev.time.second,
        bcd_value(dev.register(3)) == dev.time.minute,
        bcd_value(dev.register(4)) == dev.time.hour,
        dev.register(5) / 64 == dev.time.year_low2,
        bcd_value(dev.register(5) % 64) == dev.time.date,
        dev.register(6) / 32 == dev.time.weekday,
        bcd_value(dev.register(6) % 32) == dev.time.month,
{
    let t = dev.time;
    lemma_encode_decode(t.hundredths as int);
    lemma_encode_decode(t.second as int);
    lemma_encode_decode(t.minute as int);
    lemma_encode_decode(t.hour as int);
    lemma_date_read(t.year_low2, t.date);
    lemma_month_read(t.weekday, t.month);
}

/// Registers other than the time, control and the free byte read 0. The clock
/// powers up at midnight on 1 January, weekday 0, year 0.
pub proof fn lemma_other_registers(dev: Pcf8583, reg: u8)
    ensures
        reg > 6 && reg != 0x10 ==> dev.register(reg) == 0,
        dev.register(0) == dev.control_status && dev.register(0x10) == dev.year_extra,
        ({
            let fresh = Pcf8583::power_on();
            &&& fresh.register(0) == 0 && fresh.register(1) == 0 && fresh.register(2) == 0
            &&& fresh.register(3) == 0 && fresh.register(4) == 0 && fresh.register(5) == 1
            &&& fresh.register(6) == 1 && fresh.register(0x10) == 0 && fresh.output() == 0
        }),
{
    lemma_fields(0, 1, 0, 1);
}

/// Data sent to a register sets that register.
proof fn lemma_sent_data(dev: Pcf8583, reg: u8, byte: u8)
    ensures
        dev.after_start(false).after_write(reg).after_write(byte).time == dev.with_register(
            reg,
            byte,
        ).time,
{
}

/// The values of a byte with its upper bits cut off.
proof fn lemma_cut_values(byte: u8)
    ensures
        bcd_value(byte as int) == (byte as int / 16) * 10 + byte as int % 16,
        bcd_value(byte as int % 64) == ((byte as int / 16) % 4) * 10 + byte as int % 16,
        bcd_value(byte as int % 32) == ((byte as int / 16) % 2) * 10 + byte as int % 16,
{
    let (high, low) = (byte as int / 16, byte as int % 16);
    let (b6, b5) = (byte as int % 64, byte as int % 32);
    assert(byte as int == 16 * high + low && 0 <= high < 16 && 0 <= low < 16);
    assert(b6 == 16 * (high % 4) + low);
    assert(b5 == 16 * (high % 2) + low);
    assert(b6 / 16 == high % 4 && b6 % 16 == low);
    assert(b5 / 16 == high % 2 && b5 % 16 == low);
}

/// What each register sets of the time when it is written: hundredths,
/// seconds, minutes and hours from 1 on, the hour without its two mode bits;
/// year over date at 5, weekday over month at 6. The others leave it alone.
pub proof fn lemma_written_time(dev: Pcf8583, reg: u8, byte: u8)
    ensures
        ({
            let after = dev.after_start(false).after_write(reg).after_write(byte).time;
            let value = ((byte as int / 16) * 10 + byte as int % 16) as u8;
            let low6 = (((byte as int / 16) % 4) * 10 + byte as int % 16) as u8;
            let low5 = (((byte as int / 16) % 2) * 10 + byte as int % 16) as u8;
            &&& reg == 1 ==> after == (DateTime { hundredths: value, ..dev.time })
            &&& reg == 2 ==> after == (DateTime { second: value, ..dev.time })
            &&& reg == 3 ==> after == (DateTime { minute: value, ..dev.time })
            &&& reg == 4 ==> after == (DateTime { hour: low6, ..dev.time })
            &&& reg == 5 ==> after == (DateTime { year_low2: byte / 64, date: low6, ..dev.time })
            &&& reg == 6 ==> after == (DateTime { weekday: byte / 32, month: low5, ..dev.time })
            &&& reg == 0 || reg > 6 ==> after == dev.time
        }),
{
    lemma_sent_data(dev, reg, byte);
    lemma_cut_values(byte);
}

impl I2cDevice for Pcf8583 {
    open spec fn valid(&self) -> bool {
        true
    }

    open spec fn on_start(&self, read: bool, after: &Self, ack: bool) -> bool {
        *after == self.after_start(read) && ack
    }

    open spec fn on_write(&self, byte: u8, after: &Self, ack: bool) -> bool {
        *after == self.after_write(byte) && ack
    }

    open spec fn on_read(&self, master_will_ack: bool, after: &Self, byte: u8) -> bool {
        *after == self.after_read() && byte as int == self.output()
    }

    open spec fn on_stop(&self, after: &Self) -> bool {
        *after == *self
    }

    open spec fn can_tick(&self, cck: u32) -> bool {
        true
    }

    open spec fn on_tick(&self, cck: u32, after: &Self) -> bool {
        *after == *self
    }

    fn start(&mut self, read: bool) -> (ack: bool) {
        if !read {
            self.awaiting_pointer = true;
        }
        true
    }

    fn write(&mut self, byte: u8) -> (ack: bool) {
        if self.awaiting_pointer {
            self.pointer = byte;
            self.awaiting_pointer = false;
            return true;
        }
        let reg: u8 = self.pointer;
        self.write_register(reg, byte);
        self.pointer = reg.wrapping_add(1);
        true
    }

    fn read(&mut self, master_will_ack: bool) -> (byte: u8) {
        let byte: u8 = self.register_byte(self.pointer);
        self.pointer = self.pointer.wrapping_add(1);
        byte
    }

    fn stop(&mut self) {
    }

    fn tick(&mut self, cck: u32) {
    }
}

impl Default for Pcf8583 {
    fn default() -> (dev: Self)
        ensures
            dev == Self::power_on(),
    {
        Self::new()
    }
}

} // verus!
