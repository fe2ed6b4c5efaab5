//! LTC2990 voltage and temperature monitor. Registers: 0 status, 1 control,
//! 2 trigger (reads as status), then big-endian pairs: 4 internal
//! temperature, 6 the 5 V rail (V1), 8 the 12 V rail (V2), 0xA the external
//! temperature diode (V3), 0xC V4 (unused, reads 0), 0xE supply voltage.
//! Register 3 reads 0xFF.
//!
//! All channels always report; control is stored but selects nothing. Bit 7
//! of every high byte is the data-valid flag. Temperatures are thirteen-bit
//! two's complement in sixteenths of a degree, voltages fourteen-bit counts.

use crate::i2c::I2cDevice;
use vstd::prelude::*;

verus! {

pub const REG_STATUS: u8 = 0x00;

pub const REG_CONTROL: u8 = 0x01;

pub const REG_TRIGGER: u8 = 0x02;

pub const REG_TINT_MSB: u8 = 0x04;

pub const REG_V1_MSB: u8 = 0x06;

pub const REG_V2_MSB: u8 = 0x08;

pub const REG_V3_MSB: u8 = 0x0A;

pub const REG_VCC_MSB: u8 = 0x0E;

/// Not busy; internal temperature, V1, V2, V3 and supply ready, V4 not.
pub const STATUS_READY: u8 = 0b0101_1110;

/// The monitor.
#[derive(Clone, Copy, Debug, PartialEq, Eq, Structural)]
pub struct Ltc2990 {
    pub control: u8,
    /// Internal temperature in sixteenths of a degree Celsius.
    pub tint: i32,
    /// 5 V rail, in counts of 0.61 mV.
    pub v1: i32,
    /// 12 V rail, in counts of 1.22 mV.
    pub v2: i32,
    /// External temperature in sixteenths of a degree Celsius.
    pub external_temp: i32,
    /// Supply voltage above 2.5 V, in counts of 305.18 uV.
    pub vcc: i32,
    pub pointer: u8,
    pub awaiting_pointer: bool,
}

/// `x` brought into `[low, high]`.
pub open spec fn limited(x: int, low: int, high: int) -> int {
    if x < low {
        low
    } else if x > high {
        high
    } else {
        x
    }
}

/// The thirteen bits that stand for a temperature.
pub open spec fn temp13(sixteenths: int) -> int {
    limited(sixteenths, -4096, 4095) % 8192
}

/// The fourteen bits that stand for a voltage.
pub open spec fn voltage14(count: int) -> int {
    limited(count, 0, 16383)
}

/// The high byte of a reading, flagged valid.
pub open spec fn reading_msb(bits: int) -> int {
    0x80 + bits / 256
}

/// The low byte of a reading.
pub open spec fn reading_lsb(bits: int) -> int {
    bits % 256
}

/// The two bytes of a reading.
fn encode_reading(bits: u16) -> (bytes: [u8; 2])
    requires
        bits <= 16383,
    ensures
        bytes@[0] == reading_msb(bits as int),
        bytes@[1] == reading_lsb(bits as int),
{
    [0x80 + (bits / 256) as u8, (bits % 256) as u8]
}

/// Encodes sixteenths of a degree in thirteen bits.
pub fn encode_temp13(sixteenths: i32) -> (bytes: [u8; 2])
    ensures
        bytes@[0] == reading_msb(temp13(sixteenths as int)),
        bytes@[1] == reading_lsb(temp13(sixteenths as int)),
{
    let bits: u16 = if sixteenths < -4096 {
        4096
    } else if sixteenths < 0 {
        (sixteenths + 8192) as u16
    } else if sixteenths > 4095 {
        4095
    } else {
        sixteenths as u16
    };
    encode_reading(bits)
}

/// Encodes a voltage count in fourteen bits.
pub fn encode_voltage14_unsigned(count: i32) -> (bytes: [u8; 2])
    ensures
        bytes@[0] == reading_msb(voltage14(count as int)),
        bytes@[1] == reading_lsb(voltage14(count as int)),
{
    let bits: u16 = if count < 0 {
        0
    } else if count > 16383 {
        16383
    } else {
        count as u16
    };
    encode_reading(bits)
}

impl Ltc2990 {
    /// A monitor at 25 degrees inside and out, with rails at 5 V and 12 V
    /// and a 5 V supply.
    pub open spec fn power_on() -> Self {
        Ltc2990 {
            control: 0,
            tint: 400,
            v1: 8197,
            v2: 9836,
            external_temp: 400,
            vcc: 8192,
            pointer: REG_STATUS,
            awaiting_pointer: false,
        }
    }

    /// The byte that a register reads as.
    pub open spec fn register(self, reg: u8) -> int {
        if reg == REG_STATUS || reg == REG_TRIGGER {
            STATUS_READY as int
        } else if reg == REG_CONTROL {
            self.control as int
        } else if reg == REG_TINT_MSB {
            reading_msb(temp13(self.tint as int))
        } else if reg == 0x05 {
            reading_lsb(temp13(self.tint as int))
        } else if reg == REG_V1_MSB {
            reading_msb(voltage14(self.v1 as int))
        } else if reg == 0x07 {
            reading_lsb(voltage14(self.v1 as int))
        } else if reg == REG_V2_MSB {
            reading_msb(voltage14(self.v2 as int))
        } else if reg == 0x09 {
            reading_lsb(voltage14(self.v2 as int))
        } else if reg == REG_V3_MSB {
            reading_msb(temp13(self.external_temp as int))
        } else if reg == 0x0B {
            reading_lsb(temp13(self.external_temp as int))
        } else if reg == 0x0C || reg == 0x0D {
            0
        } else if reg == REG_VCC_MSB {
            reading_msb(voltage14(self.vcc as int))
        } else if reg == 0x0F {
            reading_lsb(voltage14(self.vcc as int))
        } else {
            0xFF
        }
    }

    /// The byte that the next read gives.
    pub open spec fn output(self) -> int {
        self.register(self.pointer)
    }

    /// The monitor after an address phase.
    pub open spec fn after_start(self, read: bool) -> Self {
        Ltc2990 { awaiting_pointer: self.awaiting_pointer || !read, ..self }
    }

    /// The monitor after a byte was sent to it: the pointer, or data, which
    /// only the control register takes.
    pub open spec fn after_write(self, byte: u8) -> Self {
        if self.awaiting_pointer {
            Ltc2990 { pointer: byte % 16, awaiting_pointer: false, ..self }
        } else if self.pointer == REG_CONTROL {
            Ltc2990 { control: byte, ..self.after_read() }
        } else {
            self.after_read()
        }
    }

    /// The monitor after a byte was read from it.
    pub open spec fn after_read(self) -> Self {
        Ltc2990 { pointer: ((self.pointer + 1) % 16) as u8, ..self }
    }

    /// The device after `n` bytes were read from it in a row.
    pub open spec fn after_reads(self, n: nat) -> Self
        decreases n,
    {
        if n == 0 {
            self
        } else {
            self.after_reads((n - 1) as nat).after_read()
        }
    }

    /// A monitor at 25 degrees inside and out, with rails at 5 V and 12 V
    /// and a 5 V supply.
    pub fn new() -> (dev: Self)
        ensures
            dev == Self::power_on(),
            dev.valid(),
    {
        Ltc2990 {
            control: 0,
            tint: 400,
            v1: 8197,
            v2: 9836,
            external_temp: 400,
            vcc: 8192,
            pointer: REG_STATUS,
            awaiting_pointer: false,
        }
    }

    /// Sets the internal temperature, in sixteenths of a degree Celsius.
    pub fn set_tint(&mut self, sixteenths: i32)
        ensures
            *final(self) == (Ltc2990 { tint: sixteenths, ..*old(self) }),
    {
        self.tint = sixteenths;
    }

    /// Sets the 5 V rail, in counts of 0.61 mV.
    pub fn set_v1(&mut self, count: i32)
        ensures
            *final(self) == (Ltc2990 { v1: count, ..*old(self) }),
    {
        self.v1 = count;
    }

    /// Sets the 12 V rail, in counts of 1.22 mV.
    pub fn set_v2(&mut self, count: i32)
        ensures
            *final(self) == (Ltc2990 { v2: count, ..*old(self) }),
    {
        self.v2 = count;
    }

    /// Sets the external temperature, in sixteenths of a degree Celsius.
    pub fn set_external_temp(&mut self, sixteenths: i32)
        ensures
            *final(self) == (Ltc2990 { external_temp: sixteenths, ..*old(self) }),
    {
        self.external_temp = sixteenths;
    }

    /// Sets the supply voltage, in counts of 305.18 uV above 2.5 V.
    pub fn set_vcc(&mut self, count: i32)
        ensures
            *final(self) == (Ltc2990 { vcc: count, ..*old(self) }),
    {
        self.vcc = count;
    }

    /// The status register.
    pub fn status_byte(&self) -> (byte: u8)
        ensures
            byte == STATUS_READY,
            byte as int == self.register(REG_STATUS),
    {
        STATUS_READY
    }

    /// The byte that a register reads as.
    pub fn register_byte(&self, reg: u8) -> (byte: u8)
        ensures
            byte as int == self.register(reg),
    {
        match reg {
            REG_STATUS => self.status_byte(),
            REG_CONTROL => self.control,
            REG_TRIGGER => self.status_byte(),
            REG_TINT_MSB => encode_temp13(self.tint)[0],
            0x05 => encode_temp13(self.tint)[1],
            REG_V1_MSB => encode_voltage14_unsigned(self.v1)[0],
            0x07 => encode_voltage14_unsigned(self.v1)[1],
            REG_V2_MSB => encode_voltage14_unsigned(self.v2)[0],
            0x09 => encode_voltage14_unsigned(self.v2)[1],
            REG_V3_MSB => encode_temp13(self.external_temp)[0],
            0x0B => encode_temp13(self.external_temp)[1],
            0x0C => 0x00,
            0x0D => 0x00,
            REG_VCC_MSB => encode_voltage14_unsigned(self.vcc)[0],
            0x0F => encode_voltage14_unsigned(self.vcc)[1],
            _ => 0xFF,
        }
    }
}

/// Byte `n` of a burst read comes from the register `n` places on, counted
/// round the 16 registers, and reading changes nothing but the
/// pointer.
pub proof fn lemma_burst(dev: Ltc2990, n: nat)
    requires
        dev.valid(),
    ensures
        dev.after_reads(n) == (Ltc2990 {
            pointer: ((dev.pointer + n) % 16) as u8,
            ..dev
        }),
        dev.after_reads(n).output() == dev.register(((dev.pointer + n) % 16) as u8),
    decreases n,
{
    if n > 0 {
        lemma_burst(dev, (n - 1) as nat);
    }
}

/// What a register reads as does not go by the pointer.
proof fn lemma_register_alone(dev: Ltc2990, pointer: u8, awaiting_pointer: bool, reg: u8)
    ensures
        (Ltc2990 { pointer, awaiting_pointer, ..dev }).register(reg) == dev.register(reg),
{
}

/// Told a register number and then read, the monitor gives the registers from
/// that one on.
pub proof fn lemma_told(dev: Ltc2990, reg: u8, n: nat)
    ensures
        dev.after_start(false).after_write(reg).after_start(true).after_reads(n).output()
            == dev.register(((reg + n) % 16) as u8),
{
    let pointed = dev.after_start(false).after_write(reg).after_start(true);
    lemma_burst(pointed, n);
    assert((reg as int % 16 + n) % 16 == (reg + n) % 16);
    lemma_register_alone(dev, pointed.pointer, pointed.awaiting_pointer, ((reg + n) % 16) as u8);
}

/// The low thirteen bits of a temperature pair, taken as two's complement,
/// give back every temperature in range.
pub proof fn lemma_temp_round_trip(sixteenths: int)
    requires
        -4096 <= sixteenths <= 4095,
    ensures
        ({
            let bits = temp13(sixteenths);
            let raw = (reading_msb(bits) % 32) * 256 + reading_lsb(bits);
            sixteenths == if raw >= 4096 {
                raw - 8192
            } else {
                raw
            }
        }),
{
}

/// The low fourteen bits of a voltage pair give back every count in range.
pub proof fn lemma_voltage_round_trip(count: int)
    requires
        0 <= count <= 16383,
    ensures
        (reading_msb(voltage14(count)) % 64) * 256 + reading_lsb(voltage14(count)) == count,
{
}

/// The temperature that a driver makes of a pair of bytes, in sixteenths of a
/// degree: thirteen bits of two's complement under the flags.
pub open spec fn driver_temp(msb: int, lsb: int) -> int {
    let raw = (msb % 32) * 256 + lsb;
    if raw >= 4096 {
        raw - 8192
    } else {
        raw
    }
}

/// The count that a driver makes of a pair of bytes: fourteen bits under the
/// flags.
pub open spec fn driver_count(msb: int, lsb: int) -> int {
    (msb % 64) * 256 + lsb
}

/// What a driver that decodes the registers makes of them: the internal
/// temperature at 4, the 5 V rail at 6, the 12 V rail at 8, the external
/// temperature at 0xA and the supply at 0xE, each brought into its range and
/// flagged valid; V4, at 0xC, reads 0; status and trigger say that all but
/// V4 are ready.
pub proof fn lemma_registers_decoded(dev: Ltc2990)
    ensures
        driver_temp(dev.register(0x4), dev.register(0x5)) == if dev.tint < -4096 {
            -4096
        } else if dev.tint > 4095 {
            4095
        } else {
            dev.tint as int
        },
        driver_count(dev.register(0x6), dev.register(0x7)) == if dev.v1 < 0 {
            0
        } else if dev.v1 > 16383 {
            16383
        } else {
            dev.v1 as int
        },
        driver_count(dev.register(0x8), dev.register(0x9)) == if dev.v2 < 0 {
            0
        } else if dev.v2 > 16383 {
            16383
        } else {
            dev.v2 as int
        },
        driver_temp(dev.register(0xA), dev.register(0xB)) == if dev.external_temp < -4096 {
            -4096
        } else if dev.external_temp > 4095 {
            4095
        } else {
            dev.external_temp as int
        },
        driver_count(dev.register(0xE), dev.register(0xF)) == if dev.vcc < 0 {
            0
        } else if dev.vcc > 16383 {
            16383
        } else {
            dev.vcc as int
        },
        0x80 <= dev.register(0x4) <= 0x9F && 0x80 <= dev.register(0xA) <= 0x9F,
        0x80 <= dev.register(0x6) <= 0xBF && 0x80 <= dev.register(0x8) <= 0xBF,
        0x80 <= dev.register(0xE) <= 0xBF,
        dev.register(0x0) == 0x5E && dev.register(0x2) == 0x5E,
        dev.register(0x1) == dev.control,
        dev.register(0x3) == 0xFF,
        dev.register(0xC) == 0 && dev.register(0xD) == 0,
{
}

/// The monitor powers up at 25 degrees inside and out, with 5 V at 0.61 mV a
/// count, 12 V at 1.22 mV a count, and a supply of 5 V, which is 2.5 V and
/// then 305.18 uV a count, each to the nearest count.
pub proof fn lemma_power_on_readings()
    ensures
        ({
            let dev = Ltc2990::power_on();
            &&& dev.tint == 25 * 16 && dev.external_temp == 25 * 16
            &&& -61 <= 2 * (dev.v1 * 61 - 500_000) <= 61
            &&& -122 <= 2 * (dev.v2 * 122 - 1_200_000) <= 122
            &&& -30518 <= 2 * (dev.vcc * 30518 - 250_000_000) <= 30518
            &&& dev.control == 0 && dev.output() == 0x5E
        }),
{
}

/// Over the bus only the control register can be written: a data byte sent to
/// any other changes what no register reads as. Each byte sent or read moves
/// the pointer on, round the sixteen.
pub proof fn lemma_only_control_writable(dev: Ltc2990, reg: u8, byte: u8, other: u8)
    requires
        reg % 16 != 1 || other != 1,
        other < 16,
    ensures
        ({
            let after = dev.after_start(false).after_write(reg).after_write(byte);
            &&& after.register(other) == dev.register(other)
            &&& after.pointer as int == (reg + 1) % 16
            &&& after.after_read().pointer as int == (reg + 2) % 16
        }),
{
}

/// The control byte reads back as written.
pub proof fn lemma_control_round_trip(dev: Ltc2990, byte: u8)
    ensures
        ({
            let written = dev.after_start(false).after_write(REG_CONTROL).after_write(byte);
            written.after_start(false).after_write(REG_CONTROL).after_start(true).output() == byte
        }),
{
}

impl I2cDevice for Ltc2990 {
    open spec fn valid(&self) -> bool {
        self.pointer < 16
    }

    open spec fn on_start(&self, read: bool, after: &Self, ack: bool) -> bool {
        *after == self.after_start(read) && ack
    }

    open spec fn on_write(&self, byte: u8, after: &Self, ack: bool) -> bool {
        *after == self.after_write(byte) && ack
    }

    open spec fn on_read(&self, master_will_ack: bool, after: &Self, byte: u8) -> bool {
        *after == self.after_read() && byte as int == self.output()
    }

    open spec fn on_stop(&self, after: &Self) -> bool {
        *after == *self
    }

    open spec fn can_tick(&self, cck: u32) -> bool {
        true
    }

    open spec fn on_tick(&self, cck: u32, after: &Self) -> bool {
        *after == *self
    }

    fn start(&mut self, read: bool) -> (ack: bool) {
        if !read {
            self.awaiting_pointer = true;
        }
        true
    }

    fn write(&mut self, byte: u8) -> (ack: bool) {
        if self.awaiting_pointer {
            self.pointer = byte % 16;
            self.awaiting_pointer = false;
            return true;
        }
        if self.pointer == REG_CONTROL {
            self.control = byte;
        }
        self.pointer = (self.pointer + 1) % 16;
        true
    }

    fn read(&mut self, master_will_ack: bool) -> (byte: u8) {
        let byte: u8 = self.register_byte(self.pointer);
        self.pointer = (self.pointer + 1) % 16;
        byte
    }

    fn stop(&mut self) {
    }

    fn tick(&mut self, cck: u32) {
    }
}

impl Default for Ltc2990 {
    fn default() -> (dev: Self)
        ensures
            dev == Self::power_on(),
            dev.valid(),
    {
        Self::new()
    }
}

} // verus!
