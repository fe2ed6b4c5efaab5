//! MAX31760 fan controller with one virtual fan. Registers: 0x50 ramp rate
//! (stored only), 0x51 duty, 0x52-0x53 tach count of fan 1, 0x54-0x55 the
//! same again for fan 2. Everything else reads 0 and swallows writes.
//!
//! The fan does not jump to the speed that its duty asks for but ramps
//! there, a full sweep taking [`RAMP_CCK_TOTAL`] emulated cycles.

use crate::i2c::I2cDevice;
use vstd::prelude::*;

verus! {

pub const REG_PWMR: u8 = 0x50;

pub const REG_PWMV: u8 = 0x51;

pub const REG_TC1H: u8 = 0x52;

pub const REG_TC1L: u8 = 0x53;

pub const REG_TC2H: u8 = 0x54;

pub const REG_TC2L: u8 = 0x55;

/// I2C address of the board's MAX31760.
pub const MAX31760_ADDRESS: u8 = 0x50;

/// Emulated cycles from standstill to full speed.
pub const RAMP_CCK_TOTAL: u32 = 10_000;

/// Full speed.
pub const MAX_RPM: u32 = 3000;

/// Tach counts per minute of one revolution a minute.
pub const TACH_CONSTANT: u32 = 3_000_000;

/// Most cycles that the ramp arithmetic can take in one step.
pub const MAX_TICK: u32 = 1_431_655;

/// The fan.
#[derive(Clone, Copy, Debug, PartialEq, Eq, Structural)]
pub struct VirtualFan {
    pub duty: u8,
    pub current_rpm: u32,
    /// A seized rotor stands still whatever the duty.
    pub stuck: bool,
}

/// The speed that a duty asks for.
pub open spec fn asked_rpm(duty: int) -> int {
    duty * MAX_RPM / 255
}

/// How far the speed can move in `cck` cycles: in proportion, and by one at
/// least.
pub open spec fn ramp_step(cck: int) -> int {
    let step = MAX_RPM * cck / RAMP_CCK_TOTAL as int;
    if step < 1 {
        1
    } else {
        step
    }
}

/// A speed moved toward another by at most `step`.
pub open spec fn ramped(current: int, target: int, step: int) -> int {
    if current < target {
        if current + step < target {
            current + step
        } else {
            target
        }
    } else if current - step > target {
        current - step
    } else {
        target
    }
}

/// The tach count at a speed: 0xFFFF with no pulses, or too few to count.
pub open spec fn tach(rpm: int) -> int {
    if rpm == 0 || TACH_CONSTANT as int / rpm > 0xFFFF {
        0xFFFF
    } else {
        TACH_CONSTANT as int / rpm
    }
}

impl VirtualFan {
    /// A fan at rest.
    pub open spec fn at_rest() -> Self {
        VirtualFan { duty: 0, current_rpm: 0, stuck: false }
    }

    /// The speed is one that the fan can have.
    pub open spec fn in_range(self) -> bool {
        self.current_rpm <= MAX_RPM
    }

    /// The speed that the fan is heading for.
    pub open spec fn target(self) -> int {
        if self.stuck {
            0
        } else {
            asked_rpm(self.duty as int)
        }
    }

    /// The fan after `cck` cycles.
    pub open spec fn after_tick(self, cck: u32) -> Self {
        VirtualFan {
            current_rpm: ramped(
                self.current_rpm as int,
                self.target(),
                ramp_step(cck as int),
            ) as u32,
            ..self
        }
    }

    /// The fan with its rotor seized or freed: a rotor that seizes stops at
    /// once.
    pub open spec fn with_stuck(self, stuck: bool) -> Self {
        VirtualFan {
            stuck,
            current_rpm: if stuck {
                0
            } else {
                self.current_rpm
            },
            ..self
        }
    }

    /// A fan at rest.
    pub fn new() -> (fan: Self)
        ensures
            fan == Self::at_rest(),
            fan.in_range(),
    {
        VirtualFan { duty: 0, current_rpm: 0, stuck: false }
    }

    fn target_rpm(&self) -> (rpm: u32)
        ensures
            rpm as int == self.target(),
            rpm <= MAX_RPM,
    {
        if self.stuck {
            0
        } else {
            (self.duty as u32 * MAX_RPM) / 255
        }
    }

    /// Sets the duty.
    pub fn set_duty(&mut self, duty: u8)
        ensures
            *final(self) == (VirtualFan { duty, ..*old(self) }),
    {
        self.duty = duty;
    }

    /// The duty.
    pub fn duty(&self) -> (duty: u8)
        ensures
            duty == self.duty,
    {
        self.duty
    }

    /// Seizes or frees the rotor.
    pub fn set_stuck(&mut self, stuck: bool)
        ensures
            *final(self) == old(self).with_stuck(stuck),
    {
        self.stuck = stuck;
        if stuck {
            self.current_rpm = 0;
        }
    }

    /// The speed.
    pub fn rpm(&self) -> (rpm: u32)
        ensures
            rpm == self.current_rpm,
    {
        self.current_rpm
    }

    /// The tach count at the speed.
    pub fn tach_count(&self) -> (count: u16)
        ensures
            count as int == tach(self.current_rpm as int),
    {
        if self.current_rpm == 0 {
            return 0xFFFF;
        }
        let count: u32 = TACH_CONSTANT / self.current_rpm;
        if count > 0xFFFF {
            0xFFFF
        } else {
            count as u16
        }
    }

    /// Lets `cck` cycles pass.
    pub fn tick(&mut self, cck: u32)
        requires
            old(self).in_range(),
            cck <= MAX_TICK,
        ensures
            final(self).in_range(),
            *final(self) == old(self).after_tick(cck),
    {
        let target: u32 = self.target_rpm();
        let whole: u32 = (MAX_RPM * cck) / RAMP_CCK_TOTAL;
        let step: u32 = if whole < 1 {
            1
        } else {
            whole
        };
        if self.current_rpm < target {
            self.current_rpm = if self.current_rpm + step < target {
                self.current_rpm + step
            } else {
                target
            };
        } else if self.current_rpm > target {
            self.current_rpm = if self.current_rpm > target + step {
                self.current_rpm - step
            } else {
                target
            };
        }
    }
}

/// The speed moves toward what the fan heads for and never past it.
pub proof fn lemma_no_overshoot(fan: VirtualFan, cck: u32)
    requires
        fan.in_range(),
    ensures
        ({
            let (now, next) = (fan.current_rpm as int, fan.after_tick(cck).current_rpm as int);
            &&& now < fan.target() ==> now < next <= fan.target()
            &&& now > fan.target() ==> now > next >= fan.target()
            &&& now == fan.target() ==> next == now
        }),
{
}

/// A full sweep's worth of cycles takes the fan where it is heading.
pub proof fn lemma_full_ramp(fan: VirtualFan, cck: u32)
    requires
        fan.in_range(),
        cck >= RAMP_CCK_TOTAL,
    ensures
        fan.after_tick(cck).current_rpm == fan.target(),
{
}

/// Less than a full sweep takes a fan from rest toward full speed, not to
/// it.
pub proof fn lemma_partial_ramp(fan: VirtualFan, cck: u32)
    requires
        fan.current_rpm == 0,
        !fan.stuck,
        fan.duty == 255,
        cck < RAMP_CCK_TOTAL,
    ensures
        0 < fan.after_tick(cck).current_rpm < MAX_RPM,
{
}

/// A seized rotor stays at rest, whatever its duty.
pub proof fn lemma_stuck_stays_at_rest(fan: VirtualFan, duty: u8, cck: u32)
    ensures
        (VirtualFan { duty, ..fan.with_stuck(true) }).after_tick(cck).current_rpm == 0,
        tach(0) == 0xFFFF,
{
}

/// The speed that a duty asks for is that share of 3000, rounded down: nothing
/// at duty 0, full speed at 255. A seized rotor asks for none.
pub proof fn lemma_asked_speed(fan: VirtualFan)
    ensures
        fan.stuck ==> fan.target() == 0,
        !fan.stuck ==> 255 * fan.target() <= 3000 * fan.duty < 255 * fan.target() + 255,
        !fan.stuck && fan.duty == 255 ==> fan.target() == 3000,
{
}

/// A tick moves the speed by 3000 for every 10000 cycles, rounded down but by
/// one at least, or as far as there is to go if that is less; duty and rotor
/// stay as they are.
pub proof fn lemma_ramp_rate(fan: VirtualFan, cck: u32, share: int)
    requires
        fan.in_range(),
        10_000 * share <= 3000 * cck < 10_000 * share + 10_000,
    ensures
        ({
            let (now, next) = (fan.current_rpm as int, fan.after_tick(cck).current_rpm as int);
            let moved = if next > now {
                next - now
            } else {
                now - next
            };
            let away = if fan.target() > now {
                fan.target() - now
            } else {
                now - fan.target()
            };
            let most = if share < 1 {
                1
            } else {
                share
            };
            &&& moved == if away < most {
                away
            } else {
                most
            }
            &&& fan.after_tick(cck).duty == fan.duty && fan.after_tick(cck).stuck == fan.stuck
        }),
{
}

/// The tach count times the speed is three million, as near as a whole count
/// comes from below; at rest, and below the speed that a 16-bit count can
/// show, it is 0xFFFF.
pub proof fn lemma_tach(rpm: int)
    requires
        0 <= rpm,
    ensures
        rpm >= 46 ==> tach(rpm) * rpm <= 3_000_000 < tach(rpm) * rpm + rpm,
        rpm < 46 ==> tach(rpm) == 0xFFFF,
        0 <= tach(rpm) <= 0xFFFF,
{
    if rpm >= 46 {
        let q = 3_000_000int / rpm;
        assert(q * rpm <= 3_000_000 < q * rpm + rpm && 0 <= q <= 65_217) by (nonlinear_arith)
            requires
                q == 3_000_000int / rpm,
                rpm >= 46,
        ;
    } else if rpm > 0 {
        let q = 3_000_000int / rpm;
        assert(q > 0xFFFF) by (nonlinear_arith)
            requires
                q == 3_000_000int / rpm,
                0 < rpm < 46,
        ;
    }
}

/// The most cycles that one step takes is the most that 32 bits hold at 3000
/// to the cycle.
pub proof fn lemma_longest_step()
    ensures
        3000 * MAX_TICK <= u32::MAX < 3000 * (MAX_TICK + 1),
        VirtualFan::at_rest().current_rpm == 0 && VirtualFan::at_rest().duty == 0,
        !VirtualFan::at_rest().stuck,
{
}

/// A rotor that seizes stands still at once; one that is freed starts from
/// where it stands, toward what its duty asks for.
pub proof fn lemma_rotor(fan: VirtualFan)
    ensures
        fan.with_stuck(true).current_rpm == 0 && fan.with_stuck(true).target() == 0,
        fan.with_stuck(true).duty == fan.duty && fan.with_stuck(true).stuck,
        fan.with_stuck(false) == (VirtualFan { stuck: false, ..fan }),
        255 * fan.with_stuck(true).with_stuck(false).target() <= 3000 * fan.duty,
        fan.with_stuck(true).with_stuck(false).target() == (VirtualFan {
            stuck: false,
            ..fan
        }).target(),
{
}

/// The controller.
#[derive(Clone, Copy, Debug, PartialEq, Eq, Structural)]
pub struct Max31760 {
    pub fan: VirtualFan,
    pub pwmr: u8,
    pub pointer: u8,
    pub awaiting_pointer: bool,
}

impl Max31760 {
    /// The controller at power-up.
    pub open spec fn power_on() -> Self {
        Max31760 {
            fan: VirtualFan::at_rest(),
            pwmr: 0,
            pointer: 0,
            awaiting_pointer: false,
        }
    }

    /// The byte that a register reads as.
    pub open spec fn register(self, reg: u8) -> int {
        let count = tach(self.fan.current_rpm as int);
        if reg == REG_PWMR {
            self.pwmr as int
        } else if reg == REG_PWMV {
            self.fan.duty as int
        } else if reg == REG_TC1H || reg == REG_TC2H {
            count / 256
        } else if reg == REG_TC1L || reg == REG_TC2L {
            count % 256
        } else {
            0
        }
    }

    /// The byte that the next read gives.
    pub open spec fn output(self) -> int {
        self.register(self.pointer)
    }

    /// The controller after an address phase.
    pub open spec fn after_start(self, read: bool) -> Self {
        Max31760 { awaiting_pointer: self.awaiting_pointer || !read, ..self }
    }

    /// The controller after a byte was sent to it: the pointer, or data,
    /// which ramp rate and duty take.
    pub open spec fn after_write(self, byte: u8) -> Self {
        if self.awaiting_pointer {
            Max31760 { pointer: byte, awaiting_pointer: false, ..self }
        } else if self.pointer == REG_PWMR {
            Max31760 { pwmr: byte, ..self.after_read() }
        } else if self.pointer == REG_PWMV {
            Max31760 { fan: VirtualFan { duty: byte, ..self.fan }, ..self.after_read() }
        } else {
            self.after_read()
        }
    }

    /// The controller after a byte was read from it.
    pub open spec fn after_read(self) -> Self {
        Max31760 { pointer: self.pointer.wrapping_add(1), ..self }
    }

    /// The controller after `cck` cycles.
    pub open spec fn after_tick(self, cck: u32) -> Self {
        Max31760 { fan: self.fan.after_tick(cck), ..self }
    }

    /// The device after `n` bytes were read from it in a row.
    pub open spec fn after_reads(self, n: nat) -> Self
        decreases n,
    {
        if n == 0 {
            self
        } else {
            self.after_reads((n - 1) as nat).after_read()
        }
    }

    /// The controller at power-up.
    pub fn new() -> (dev: Self)
        ensures
            dev == Self::power_on(),
            dev.valid(),
    {
        Max31760 { fan: VirtualFan::new(), pwmr: 0, pointer: 0, awaiting_pointer: false }
    }

    /// The fan.
    pub fn fan(&self) -> (fan: &VirtualFan)
        ensures
            *fan == self.fan,
    {
        &self.fan
    }

    /// The fan, to be changed.
    pub fn fan_mut(&mut self) -> (fan: &mut VirtualFan)
        ensures
            *fan == old(self).fan,
            *final(self) == (Max31760 { fan: *final(fan), ..*old(self) }),
    {
        &mut self.fan
    }

    fn register_byte(&self, reg: u8) -> (byte: u8)
        ensures
            byte as int == self.register(reg),
    {
        let count: u16 = self.fan.tach_count();
        match reg {
            REG_PWMR => self.pwmr,
            REG_PWMV => self.fan.duty(),
            REG_TC1H => (count / 256) as u8,
            REG_TC2H => (count / 256) as u8,
            REG_TC1L => (count % 256) as u8,
            REG_TC2L => (count % 256) as u8,
            _ => 0x00,
        }
    }
}

/// Byte `n` of a burst read comes from the register `n` places on, counted
/// round the 256 registers, and reading changes nothing but the
/// pointer.
pub proof fn lemma_burst(dev: Max31760, n: nat)
    ensures
        dev.after_reads(n) == (Max31760 {
            pointer: ((dev.pointer + n) % 256) as u8,
            ..dev
        }),
        dev.after_reads(n).output() == dev.register(((dev.pointer + n) % 256) as u8),
    decreases n,
{
    if n > 0 {
        lemma_burst(dev, (n - 1) as nat);
    }
}

/// The duty reads back as written.
pub proof fn lemma_duty_round_trip(dev: Max31760, duty: u8)
    ensures
        ({
            let written = dev.after_start(false).after_write(REG_PWMV).after_write(duty);
            &&& written.fan.duty == duty
            &&& written.after_start(false).after_write(REG_PWMV).after_start(true).output() == duty
        }),
{
}

/// The registers: ramp rate at 0x50, duty at 0x51, and the tach count of the
/// speed, high byte first, at 0x52 and again at 0x54; the rest read 0.
pub proof fn lemma_registers(dev: Max31760, reg: u8)
    ensures
        dev.register(0x50) == dev.pwmr,
        dev.register(0x51) == dev.fan.duty,
        dev.register(0x52) * 256 + dev.register(0x53) == tach(dev.fan.current_rpm as int),
        dev.register(0x54) * 256 + dev.register(0x55) == tach(dev.fan.current_rpm as int),
        0 <= dev.register(0x53) <= 255 && 0 <= dev.register(0x55) <= 255,
        reg < 0x50 || reg > 0x55 ==> dev.register(reg) == 0,
{
    lemma_tach(dev.fan.current_rpm as int);
}

/// Data sent to the ramp rate or the duty sets it, and data sent to any other
/// register changes nothing; each byte moves the pointer on by one.
pub proof fn lemma_writes(dev: Max31760, reg: u8, byte: u8)
    ensures
        ({
            let after = dev.after_start(false).after_write(reg).after_write(byte);
            &&& after.pwmr == if reg == 0x50 {
                byte
            } else {
                dev.pwmr
            }
            &&& after.fan.duty == if reg == 0x51 {
                byte
            } else {
                dev.fan.duty
            }
            &&& after.fan.current_rpm == dev.fan.current_rpm && after.fan.stuck == dev.fan.stuck
            &&& after.pointer as int == (reg + 1) % 256
        }),
{
}

impl I2cDevice for Max31760 {
    open spec fn valid(&self) -> bool {
        self.fan.in_range()
    }

    open spec fn on_start(&self, read: bool, after: &Self, ack: bool) -> bool {
        *after == self.after_start(read) && ack
    }

    open spec fn on_write(&self, byte: u8, after: &Self, ack: bool) -> bool {
        *after == self.after_write(byte) && ack
    }

    open spec fn on_read(&self, master_will_ack: bool, after: &Self, byte: u8) -> bool {
        *after == self.after_read() && byte as int == self.output()
    }

    open spec fn on_stop(&self, after: &Self) -> bool {
        *after == *self
    }

    open spec fn can_tick(&self, cck: u32) -> bool {
        cck <= MAX_TICK
    }

    open spec fn on_tick(&self, cck: u32, after: &Self) -> bool {
        *after == self.after_tick(cck)
    }

    fn start(&mut self, read: bool) -> (ack: bool) {
        if !read {
            self.awaiting_pointer = true;
        }
        true
    }

    fn write(&mut self, byte: u8) -> (ack: bool) {
        if self.awaiting_pointer {
            self.pointer = byte;
            self.awaiting_pointer = false;
            return true;
        }
        match self.pointer {
            REG_PWMR => {
                self.pwmr = byte;
            },
            REG_PWMV => {
                self.fan.set_duty(byte);
            },
            _ => {},
        }
        self.pointer = self.pointer.wrapping_add(1);
        true
    }

    fn read(&mut self, master_will_ack: bool) -> (byte: u8) {
        let byte: u8 = self.register_byte(self.pointer);
        self.pointer = self.pointer.wrapping_add(1);
        byte
    }

    fn stop(&mut self) {
    }

    fn tick(&mut self, cck: u32) {
        self.fan.tick(cck);
    }
}

impl Default for VirtualFan {
    fn default() -> (fan: Self)
        ensures
            fan == Self::at_rest(),
            fan.in_range(),
    {
        Self::new()
    }
}

impl Default for Max31760 {
    fn default() -> (dev: Self)
        ensures
            dev == Self::power_on(),
            dev.valid(),
    {
        Self::new()
    }
}

} // verus!
