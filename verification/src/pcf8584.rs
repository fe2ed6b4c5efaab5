//! PCF8584 byte-oriented I2C bus controller. This is the chip itself: it
//! knows nothing of Zorro addresses or byte lanes, only its two register
//! addresses (S1, and the "A0 area" that ES1/ES2 switch between S0', S3
//! and S2 until ESO selects the data register S0), and it drives an
//! [`I2cBus`] through them.
//!
//! Bus timing is virtual. Each address or data phase completes after
//! [`CCK_PER_BYTE_PHASE`] emulated cycles, so that a poll loop sees the PIN
//! and BB bits change in the right order.

use crate::i2c::I2cBus;
use vstd::prelude::*;

verus! {

/// Emulated cycles of one address or data phase (8 bits and the ACK).
pub const CCK_PER_BYTE_PHASE: u32 = 200;

/// S1 control: pending interrupt not; written alone it resets the status.
pub const CTRL_PIN: u8 = 0x80;

/// S1 control: serial I/O on, the A0 area is S0.
pub const CTRL_ESO: u8 = 0x40;

/// S1 control: register select.
pub const CTRL_ES1: u8 = 0x20;

/// S1 control: register select.
pub const CTRL_ES2: u8 = 0x10;

/// S1 control: interrupt output enabled.
pub const CTRL_ENI: u8 = 0x08;

/// S1 control: START.
pub const CTRL_STA: u8 = 0x04;

/// S1 control: STOP.
pub const CTRL_STO: u8 = 0x02;

/// S1 control: acknowledge received bytes.
pub const CTRL_ACK: u8 = 0x01;

/// S1 status: pending interrupt not.
pub const STATUS_PIN: u8 = 0x80;

/// S1 status: STOP detected as a slave.
pub const STATUS_STS: u8 = 0x20;

/// S1 status: bus error.
pub const STATUS_BER: u8 = 0x10;

/// S1 status: last received bit (0 = acknowledged).
pub const STATUS_LRB_AD0: u8 = 0x08;

/// S1 status: addressed as a slave.
pub const STATUS_AAS: u8 = 0x04;

/// S1 status: lost arbitration.
pub const STATUS_LAB: u8 = 0x02;

/// S1 status: bus free (0 = busy).
pub const STATUS_BB: u8 = 0x01;

/// What A0-area reads as under the undefined ES1/ES2 combination.
pub const UNDEFINED_REGISTER: u8 = 0xFF;

/// Where the chip is in a transaction.
#[derive(Clone, Copy, Debug, PartialEq, Eq, Structural)]
pub enum Mode {
    /// No transaction in progress.
    Idle,
    MasterTx,
    MasterRx,
}

/// What is on the wire, counted down by [`Pcf8584::tick`].
#[derive(Clone, Copy, Debug, PartialEq, Eq, Structural)]
pub enum Pending {
    /// The address byte that was latched in S0 when STA was written.
    Address { addr7: u8, read: bool },
    /// A data byte going out, latched in S0.
    TxByte,
    /// A data byte coming in, armed by an S0 read. `ack` is what the
    /// master will answer it with, sampled when the read armed it.
    RxByte { ack: bool },
}

/// The chip. `pin` and `bb` follow the datasheet's polarity: `pin` false is
/// an active (pending) interrupt condition, `bb` true is a free bus.
#[derive(Clone, Copy, Debug, PartialEq, Eq, Structural)]
pub struct Pcf8584 {
    pub eso: bool,
    pub es1: bool,
    pub es2: bool,
    pub eni: bool,
    pub ack: bool,
    pub pin: bool,
    pub sts: bool,
    pub ber: bool,
    pub lrb_ad0: bool,
    pub aas: bool,
    pub lab: bool,
    pub bb: bool,
    /// S0, write side: what is queued to go out.
    pub s0_shift: u8,
    /// S0, read side: the last byte pulled in.
    pub s0_read_buf: u8,
    /// S0': own address.
    pub s0_own_addr: u8,
    /// S2: clock register.
    pub s2_clock: u8,
    /// S3: interrupt vector.
    pub s3_vector: u8,
    pub mode: Mode,
    pub pending: Option<Pending>,
    pub ticks_remaining: u32,
}

/// The weight that a flag contributes to the status register.
pub open spec fn weight(flag: bool, mask: u8) -> int {
    if flag {
        mask as int
    } else {
        0
    }
}

/// The bit of a control byte that `mask` picks out.
pub open spec fn bit(byte: u8, mask: u8) -> bool {
    byte & mask != 0
}

impl Pcf8584 {
    /// The power-on state: what [`Pcf8584::reset`] sets, and every data
    /// register clear.
    pub open spec fn power_on() -> Self {
        Pcf8584 {
            eso: false,
            es1: false,
            es2: false,
            eni: false,
            ack: false,
            pin: true,
            sts: false,
            ber: false,
            lrb_ad0: false,
            aas: false,
            lab: false,
            bb: true,
            s0_shift: 0,
            s0_read_buf: 0,
            s0_own_addr: 0,
            s2_clock: 0,
            s3_vector: 0,
            mode: Mode::Idle,
            pending: None,
            ticks_remaining: 0,
        }
    }

    /// The status register S1 as the host reads it. Bit 6 reads 0.
    pub open spec fn status(self) -> int {
        weight(self.pin, STATUS_PIN) + weight(self.sts, STATUS_STS) + weight(self.ber, STATUS_BER)
            + weight(self.lrb_ad0, STATUS_LRB_AD0) + weight(self.aas, STATUS_AAS) + weight(
            self.lab,
            STATUS_LAB,
        ) + weight(self.bb, STATUS_BB)
    }

    /// The INT pin is asserted: PIN active, and the output enabled.
    pub open spec fn interrupting(self) -> bool {
        !self.pin && self.eni
    }

    /// PIN written alone: the fault bits clear and PIN is inactive; the
    /// rest stays.
    pub open spec fn soft_reset(self) -> Self {
        Pcf8584 { ber: false, sts: false, aas: false, lab: false, pin: true, ..self }
    }

    /// The control latch loaded from `byte`.
    pub open spec fn latched(self, byte: u8) -> Self {
        Pcf8584 {
            eso: bit(byte, CTRL_ESO),
            es1: bit(byte, CTRL_ES1),
            es2: bit(byte, CTRL_ES2),
            eni: bit(byte, CTRL_ENI),
            ack: bit(byte, CTRL_ACK),
            ..self
        }
    }

    /// START issued: the bus is busy, PIN is inactive, and the byte in S0
    /// is on the wire as address and R/W bit.
    pub open spec fn starting(self) -> Self {
        Pcf8584 {
            bb: false,
            pin: true,
            pending: Some(
                Pending::Address { addr7: self.s0_shift >> 1, read: bit(self.s0_shift, 1) },
            ),
            ticks_remaining: CCK_PER_BYTE_PHASE,
            ..self
        }
    }

    /// STOP issued: the bus is free, PIN is inactive, nothing is on the
    /// wire.
    pub open spec fn stopped(self) -> Self {
        Pcf8584 {
            bb: true,
            pin: true,
            mode: Mode::Idle,
            pending: None,
            ticks_remaining: 0,
            ..self
        }
    }

    /// Whether writing `byte` to S1 puts a STOP on the bus.
    pub open spec fn control_stops(byte: u8) -> bool {
        byte != CTRL_PIN && bit(byte, CTRL_STO)
    }

    /// The chip after `byte` was written to S1: the soft reset for PIN
    /// alone; otherwise the latch is loaded and then STOP, START, or STOP
    /// followed by START, as the STO and STA bits say.
    pub open spec fn after_control(self, byte: u8) -> Self {
        if byte == CTRL_PIN {
            self.soft_reset()
        } else {
            let latched = self.latched(byte);
            let halted = if bit(byte, CTRL_STO) {
                latched.stopped()
            } else {
                latched
            };
            if bit(byte, CTRL_STA) {
                halted.starting()
            } else {
                halted
            }
        }
    }

    /// What the A0 area reads as.
    pub open spec fn a0_value(self) -> u8 {
        if self.eso {
            self.s0_read_buf
        } else if !self.es1 && !self.es2 {
            self.s0_own_addr
        } else if !self.es1 {
            self.s3_vector
        } else if !self.es2 {
            self.s2_clock
        } else {
            UNDEFINED_REGISTER
        }
    }

    /// The chip after the A0 area was read. Reading S0 in master-receive
    /// mode with PIN active arms the next byte, with the acknowledge that
    /// the control latch holds now.
    pub open spec fn after_a0_read(self) -> Self {
        if self.eso && self.mode == Mode::MasterRx && !self.pin {
            Pcf8584 {
                pin: true,
                pending: Some(Pending::RxByte { ack: self.ack }),
                ticks_remaining: CCK_PER_BYTE_PHASE,
                ..self
            }
        } else {
            self
        }
    }

    /// The chip after `value` was written to the A0 area. Writing S0 loads
    /// the shift register; in master-transmit mode it also puts the byte on
    /// the wire.
    pub open spec fn after_a0_write(self, value: u8) -> Self {
        if self.eso {
            let loaded = Pcf8584 { s0_shift: value, ..self };
            if self.mode == Mode::MasterTx {
                Pcf8584 {
                    pin: true,
                    pending: Some(Pending::TxByte),
                    ticks_remaining: CCK_PER_BYTE_PHASE,
                    ..loaded
                }
            } else {
                loaded
            }
        } else if !self.es1 && !self.es2 {
            Pcf8584 { s0_own_addr: value, ..self }
        } else if !self.es1 {
            Pcf8584 { s3_vector: value, ..self }
        } else if !self.es2 {
            Pcf8584 { s2_clock: value, ..self }
        } else {
            self
        }
    }

    /// The phase that completes when `cck` cycles pass, if one does.
    pub open spec fn due(self, cck: u32) -> Option<Pending> {
        if cck >= self.ticks_remaining {
            self.pending
        } else {
            None
        }
    }

    /// The chip after `cck` cycles in which no phase completes.
    pub open spec fn waiting(self, cck: u32) -> Self {
        match self.pending {
            None => self,
            Some(_) => Pcf8584 { ticks_remaining: (self.ticks_remaining - cck) as u32, ..self },
        }
    }

    /// The chip once its pending phase is over: nothing on the wire, PIN
    /// active, and LRB showing the acknowledge.
    pub open spec fn phase_over(self, ack: bool) -> Self {
        Pcf8584 { pending: None, ticks_remaining: 0, pin: false, lrb_ad0: !ack, ..self }
    }

    /// The chip once an address phase is over.
    pub open spec fn addressed(self, read: bool, ack: bool) -> Self {
        Pcf8584 {
            aas: false,
            mode: if read {
                Mode::MasterRx
            } else {
                Mode::MasterTx
            },
            ..self.phase_over(ack)
        }
    }

    /// The chip once a byte has been clocked in.
    pub open spec fn received(self, byte: u8, ack: bool) -> Self {
        Pcf8584 { s0_read_buf: byte, ..self.phase_over(ack) }
    }

    /// What a tick of `cck` cycles does to the chip and to the bus: the
    /// phase that completes is carried out on the bus, once, and its
    /// outcome is latched; without one the bus is left alone.
    pub open spec fn on_tick<B: I2cBus>(
        self,
        bus: B,
        cck: u32,
        chip_after: Self,
        bus_after: B,
    ) -> bool {
        match self.due(cck) {
            None => chip_after == self.waiting(cck) && bus_after == bus,
            Some(Pending::Address { addr7, read }) => exists|ack: bool| #[trigger]
                bus.on_start(addr7, read, &bus_after, ack) && chip_after == self.addressed(
                    read,
                    ack,
                ),
            Some(Pending::TxByte) => exists|ack: bool| #[trigger]
                bus.on_write(self.s0_shift, &bus_after, ack) && chip_after == self.phase_over(ack),
            Some(Pending::RxByte { ack }) => exists|byte: u8| #[trigger]
                bus.on_read(ack, &bus_after, byte) && chip_after == self.received(byte, ack),
        }
    }

    /// The chip after the RESET pin: every S1 flag clears but PIN and BB,
    /// which set; S0' and S3 clear. S2 and the two sides of S0 keep what they
    /// hold.
    pub open spec fn after_reset(self) -> Self {
        Pcf8584 {
            s0_shift: self.s0_shift,
            s0_read_buf: self.s0_read_buf,
            s2_clock: self.s2_clock,
            ..Self::power_on()
        }
    }

    /// What holds of a chip from power-on: none of the slave-side and fault
    /// flags is up; the bus is free exactly when no transaction is open or
    /// opening; a phase on the wire has cycles to go, PIN inactive, and the
    /// mode that fits it; PIN is active only on a busy bus.
    pub open spec fn consistent(self) -> bool {
        &&& !self.sts && !self.ber && !self.aas && !self.lab
        &&& self.bb == (self.mode == Mode::Idle && self.pending is None)
        &&& self.pending is Some ==> self.pin && 0 < self.ticks_remaining <= CCK_PER_BYTE_PHASE
        &&& self.pending is None ==> self.ticks_remaining == 0
        &&& self.pending == Some(Pending::TxByte) ==> self.mode == Mode::MasterTx
        &&& self.pending matches Some(Pending::RxByte { .. }) ==> self.mode == Mode::MasterRx
        &&& !self.pin ==> !self.bb
    }

    /// A chip at power-on.
    pub fn new() -> (chip: Self)
        ensures
            chip == Self::power_on(),
    {
        let mut chip = Pcf8584 {
            eso: false,
            es1: false,
            es2: false,
            eni: false,
            ack: false,
            pin: true,
            sts: false,
            ber: false,
            lrb_ad0: false,
            aas: false,
            lab: false,
            bb: true,
            s0_shift: 0,
            s0_read_buf: 0,
            s0_own_addr: 0,
            s2_clock: 0,
            s3_vector: 0,
            mode: Mode::Idle,
            pending: None,
            ticks_remaining: 0,
        };
        chip.reset();
        chip
    }

    /// The RESET pin: every S1 flag clears but PIN and BB, which set; S0'
    /// and S3 clear. S2 and the two sides of S0 keep what they hold.
    pub fn reset(&mut self)
        ensures
            *final(self) == old(self).after_reset(),
    {
        self.eso = false;
        self.es1 = false;
        self.es2 = false;
        self.eni = false;
        self.ack = false;
        self.pin = true;
        self.sts = false;
        self.ber = false;
        self.lrb_ad0 = false;
        self.aas = false;
        self.lab = false;
        self.bb = true;
        self.s0_own_addr = 0;
        self.s3_vector = 0;
        self.mode = Mode::Idle;
        self.pending = None;
        self.ticks_remaining = 0;
    }

    /// Whether the INT pin is asserted: PIN active and the output enabled.
    pub fn int_asserted(&self) -> (asserted: bool)
        ensures
            asserted == self.interrupting(),
    {
        !self.pin && self.eni
    }

    /// Reads S1, or the A0 area when `s1` is false. Reading S1 changes
    /// nothing, and neither read moves the bus.
    pub fn read<B: I2cBus>(&mut self, s1: bool, bus: &mut B) -> (value: u8)
        requires
            old(bus).valid(),
        ensures
            *final(bus) == *old(bus),
            s1 ==> value as int == old(self).status() && *final(self) == *old(self),
            !s1 ==> value == old(self).a0_value() && *final(self) == old(self).after_a0_read(),
    {
        if s1 {
            self.read_s1()
        } else {
            self.read_a0_area()
        }
    }

    /// Writes S1, or the A0 area when `s1` is false. Only a STOP moves the
    /// bus at once; a START or a data byte goes out as cycles pass.
    pub fn write<B: I2cBus>(&mut self, s1: bool, value: u8, bus: &mut B)
        requires
            old(bus).valid(),
        ensures
            final(bus).valid(),
            *final(self) == if s1 {
                old(self).after_control(value)
            } else {
                old(self).after_a0_write(value)
            },
            if s1 && Self::control_stops(value) {
                old(bus).on_stop(final(bus))
            } else {
                *final(bus) == *old(bus)
            },
    {
        if s1 {
            self.write_s1(value, bus);
        } else {
            self.write_a0_area(value);
        }
    }

    /// The status register.
    pub fn read_s1(&self) -> (value: u8)
        ensures
            value as int == self.status(),
    {
        let pin: u8 = if self.pin {
            STATUS_PIN
        } else {
            0
        };
        let sts: u8 = if self.sts {
            STATUS_STS
        } else {
            0
        };
        let ber: u8 = if self.ber {
            STATUS_BER
        } else {
            0
        };
        let lrb: u8 = if self.lrb_ad0 {
            STATUS_LRB_AD0
        } else {
            0
        };
        let aas: u8 = if self.aas {
            STATUS_AAS
        } else {
            0
        };
        let lab: u8 = if self.lab {
            STATUS_LAB
        } else {
            0
        };
        let bb: u8 = if self.bb {
            STATUS_BB
        } else {
            0
        };
        assert((pin | sts | ber | lrb | aas | lab | bb) == pin + sts + ber + lrb + aas + lab + bb)
            by (bit_vector)
            requires
                pin == 0 || pin == 0x80,
                sts == 0 || sts == 0x20,
                ber == 0 || ber == 0x10,
                lrb == 0 || lrb == 0x08,
                aas == 0 || aas == 0x04,
                lab == 0 || lab == 0x02,
                bb == 0 || bb == 0x01,
        ;
        pin | sts | ber | lrb | aas | lab | bb
    }

    fn write_s1<B: I2cBus>(&mut self, byte: u8, bus: &mut B)
        requires
            old(bus).valid(),
        ensures
            final(bus).valid(),
            *final(self) == old(self).after_control(byte),
            if Self::control_stops(byte) {
                old(bus).on_stop(final(bus))
            } else {
                *final(bus) == *old(bus)
            },
    {
        if byte == CTRL_PIN {
            self.clear_faults();
            return;
        }
        self.latch(byte);
        // STOP and START together chain a new transaction to the old one.
        if byte & CTRL_STO != 0 {
            self.handle_stop(bus);
        }
        if byte & CTRL_STA != 0 {
            self.handle_start();
        }
    }

    fn clear_faults(&mut self)
        ensures
            *final(self) == old(self).soft_reset(),
    {
        self.ber = false;
        self.sts = false;
        self.aas = false;
        self.lab = false;
        self.pin = true;
    }

    fn latch(&mut self, byte: u8)
        ensures
            *final(self) == old(self).latched(byte),
    {
        self.eso = byte & CTRL_ESO != 0;
        self.es1 = byte & CTRL_ES1 != 0;
        self.es2 = byte & CTRL_ES2 != 0;
        self.eni = byte & CTRL_ENI != 0;
        self.ack = byte & CTRL_ACK != 0;
    }

    fn handle_start(&mut self)
        ensures
            *final(self) == old(self).starting(),
    {
        self.bb = false;
        self.pin = true;
        let byte: u8 = self.s0_shift;
        self.pending = Some(Pending::Address { addr7: byte >> 1, read: byte & 1 != 0 });
        self.ticks_remaining = CCK_PER_BYTE_PHASE;
    }

    fn handle_stop<B: I2cBus>(&mut self, bus: &mut B)
        requires
            old(bus).valid(),
        ensures
            final(bus).valid(),
            *final(self) == old(self).stopped(),
            old(bus).on_stop(final(bus)),
    {
        bus.stop();
        self.bb = true;
        self.pin = true;
        self.mode = Mode::Idle;
        self.pending = None;
        self.ticks_remaining = 0;
    }

    fn read_a0_area(&mut self) -> (value: u8)
        ensures
            value == old(self).a0_value(),
            *final(self) == old(self).after_a0_read(),
    {
        if self.eso {
            self.read_s0()
        } else {
            match (self.es1, self.es2) {
                (false, false) => self.s0_own_addr,
                (false, true) => self.s3_vector,
                (true, false) => self.s2_clock,
                (true, true) => UNDEFINED_REGISTER,
            }
        }
    }

    fn write_a0_area(&mut self, value: u8)
        ensures
            *final(self) == old(self).after_a0_write(value),
    {
        if self.eso {
            self.write_s0(value);
        } else {
            match (self.es1, self.es2) {
                (false, false) => {
                    self.s0_own_addr = value;
                },
                (false, true) => {
                    self.s3_vector = value;
                },
                (true, false) => {
                    self.s2_clock = value;
                },
                (true, true) => {},
            }
        }
    }

    /// Reading S0 returns the byte clocked in before and, with PIN active
    /// in master-receive mode, arms the next one: the first read after the
    /// address phase is a dummy.
    fn read_s0(&mut self) -> (value: u8)
        requires
            old(self).eso,
        ensures
            value == old(self).s0_read_buf,
            *final(self) == old(self).after_a0_read(),
    {
        let value: u8 = self.s0_read_buf;
        if self.mode == Mode::MasterRx && !self.pin {
            self.pin = true;
            self.pending = Some(Pending::RxByte { ack: self.ack });
            self.ticks_remaining = CCK_PER_BYTE_PHASE;
        }
        value
    }

    fn write_s0(&mut self, byte: u8)
        requires
            old(self).eso,
        ensures
            *final(self) == old(self).after_a0_write(byte),
    {
        self.s0_shift = byte;
        if self.mode == Mode::MasterTx {
            self.pin = true;
            self.pending = Some(Pending::TxByte);
            self.ticks_remaining = CCK_PER_BYTE_PHASE;
        }
    }

    /// Passes `cck` emulated cycles.
    pub fn tick<B: I2cBus>(&mut self, cck: u32, bus: &mut B)
        requires
            old(bus).valid(),
        ensures
            final(bus).valid(),
            old(self).on_tick(*old(bus), cck, *final(self), *final(bus)),
    {
        if self.pending.is_none() {
            return;
        }
        if cck >= self.ticks_remaining {
            self.ticks_remaining = 0;
            self.complete_pending(bus);
        } else {
            self.ticks_remaining = self.ticks_remaining - cck;
        }
    }

    fn complete_pending<B: I2cBus>(&mut self, bus: &mut B)
        requires
            old(bus).valid(),
            old(self).pending is Some,
            old(self).ticks_remaining == 0,
        ensures
            final(bus).valid(),
            old(self).on_tick(*old(bus), 0, *final(self), *final(bus)),
    {
        match self.pending {
            None => {},
            Some(Pending::Address { addr7, read }) => {
                let acked = bus.start(addr7, read);
                self.finish_address(read, acked);
            },
            Some(Pending::TxByte) => {
                let acked = bus.write(self.s0_shift);
                self.finish_phase(acked);
            },
            Some(Pending::RxByte { ack }) => {
                let byte: u8 = bus.read(ack);
                self.finish_receive(byte, ack);
            },
        }
    }

    fn finish_address(&mut self, read: bool, ack: bool)
        ensures
            *final(self) == old(self).addressed(read, ack),
    {
        self.finish_phase(ack);
        self.aas = false;
        self.mode = if read {
            Mode::MasterRx
        } else {
            Mode::MasterTx
        };
    }

    fn finish_receive(&mut self, byte: u8, ack: bool)
        ensures
            *final(self) == old(self).received(byte, ack),
    {
        self.finish_phase(ack);
        self.s0_read_buf = byte;
    }

    fn finish_phase(&mut self, ack: bool)
        ensures
            *final(self) == old(self).phase_over(ack),
    {
        self.pending = None;
        self.ticks_remaining = 0;
        self.lrb_ad0 = !ack;
        self.pin = false;
    }
}

impl Default for Pcf8584 {
    fn default() -> (chip: Self)
        ensures
            chip == Self::power_on(),
    {
        Self::new()
    }
}

/// Each bit of the status register shows its flag, and bit 6 reads 0.
pub proof fn lemma_status_flags(chip: Pcf8584)
    ensures
        0 <= chip.status() <= 255,
        chip.status() / 0x80 == 1 <==> chip.pin,
        (chip.status() / 0x40) % 2 == 0,
        (chip.status() / 0x20) % 2 == 1 <==> chip.sts,
        (chip.status() / 0x10) % 2 == 1 <==> chip.ber,
        (chip.status() / 0x08) % 2 == 1 <==> chip.lrb_ad0,
        (chip.status() / 0x04) % 2 == 1 <==> chip.aas,
        (chip.status() / 0x02) % 2 == 1 <==> chip.lab,
        chip.status() % 2 == 1 <==> chip.bb,
{
}

/// At power-on S1 reads as PIN inactive and bus free, nothing else.
pub proof fn lemma_power_on_status()
    ensures
        Pcf8584::power_on().status() == 0x81,
{
}

/// Every chip is consistent: power-on is, and nothing that the host, the bus
/// or time does to a chip changes it.
pub proof fn lemma_stays_consistent(chip: Pcf8584, byte: u8, read: bool, ack: bool, cck: u32)
    requires
        chip.consistent(),
    ensures
        Pcf8584::power_on().consistent(),
        chip.after_control(byte).consistent(),
        chip.after_a0_write(byte).consistent(),
        chip.after_a0_read().consistent(),
        chip.due(cck) is None ==> chip.waiting(cck).consistent(),
        chip.pending is Some ==> chip.addressed(read, ack).consistent(),
        chip.pending == Some(Pending::TxByte) ==> chip.phase_over(ack).consistent(),
        chip.pending == Some(Pending::RxByte { ack }) ==> chip.received(byte, ack).consistent(),
{
}

/// A poll loop sees a phase go by: from the moment it is on the wire PIN reads
/// inactive, with no interrupt, until its cycles have passed; then PIN is
/// active, and the interrupt is up exactly if it is enabled.
pub proof fn lemma_phase_is_seen(
    chip: Pcf8584,
    cck: u32,
    read: bool,
    ack: bool,
    byte: u8,
    ready: Pcf8584,
)
    requires
        chip.consistent(),
        chip.pending is Some,
        ready == chip.addressed(read, ack) || ready == chip.phase_over(ack) || ready
            == chip.received(byte, ack),
    ensures
        chip.pin && chip.status() >= 0x80 && !chip.interrupting(),
        chip.due(0) is None,
        cck < chip.ticks_remaining ==> chip.due(cck) is None && chip.waiting(cck).pin
            && chip.waiting(cck).pending == chip.pending,
        cck >= chip.ticks_remaining ==> chip.due(cck) == chip.pending,
        !ready.pin && ready.status() < 0x80,
        ready.pending is None && ready.interrupting() == chip.eni,
        ready.lrb_ad0 == !ack,
{
}

/// Waiting in two steps is waiting in one: the phase on the wire completes
/// when its cycles have passed, however they are cut up.
pub proof fn lemma_wait_split(chip: Pcf8584, a: u32, b: u32)
    requires
        a + b <= u32::MAX,
        a < chip.ticks_remaining,
    ensures
        chip.due(a) is None,
        chip.waiting(a).due(b) == chip.due((a + b) as u32),
        a + b < chip.ticks_remaining ==> chip.waiting(a).waiting(b) == chip.waiting((a + b) as u32),
{
}

/// The three set-up registers behind the A0 area, S0', S3 and S2, are
/// independent of each other: what is written under one selection reads back
/// under that selection, and the others keep what they hold.
pub proof fn lemma_registers_independent(chip: Pcf8584, value: u8, es1: bool, es2: bool)
    requires
        !chip.eso,
        !(chip.es1 && chip.es2),
    ensures
        ({
            let written = chip.after_a0_write(value);
            let seen = Pcf8584 { es1, es2, ..written };
            seen.a0_value() == if es1 == chip.es1 && es2 == chip.es2 {
                value
            } else {
                (Pcf8584 { es1, es2, ..chip }).a0_value()
            }
        }),
{
}

/// A busy bus stays busy until a STOP: neither the other control writes, nor
/// the A0 area, nor time, free it.
pub proof fn lemma_busy_until_stop(chip: Pcf8584, byte: u8, read: bool, ack: bool, cck: u32)
    requires
        !chip.bb,
    ensures
        !Pcf8584::control_stops(byte) ==> !chip.after_control(byte).bb,
        Pcf8584::control_stops(byte) && !bit(byte, CTRL_STA) ==> chip.after_control(byte).bb,
        !chip.after_a0_write(byte).bb,
        !chip.after_a0_read().bb,
        !chip.waiting(cck).bb,
        !chip.addressed(read, ack).bb,
        !chip.phase_over(ack).bb,
        !chip.received(byte, ack).bb,
{
}

/// STOP and START in one control byte end the old transaction and begin a
/// new one: the bus is busy, with the address byte in S0 on the wire.
pub proof fn lemma_stop_then_start(chip: Pcf8584, byte: u8)
    requires
        byte != CTRL_PIN,
        bit(byte, CTRL_STO),
        bit(byte, CTRL_STA),
    ensures
        Pcf8584::control_stops(byte),
        chip.after_control(byte) == chip.latched(byte).stopped().starting(),
        !chip.after_control(byte).bb,
        chip.after_control(byte).mode == Mode::Idle,
        chip.after_control(byte).pending is Some,
{
}

/// PIN written alone clears the faults and leaves the transaction and the
/// control latch as they are.
pub proof fn lemma_soft_reset_keeps(chip: Pcf8584)
    ensures
        ({
            let after = chip.after_control(CTRL_PIN);
            &&& after.pin && !after.ber && !after.sts && !after.aas && !after.lab
            &&& after.eso == chip.eso && after.es1 == chip.es1 && after.es2 == chip.es2
            &&& after.eni == chip.eni && after.ack == chip.ack
            &&& after.bb == chip.bb && after.mode == chip.mode && after.pending == chip.pending
            &&& !Pcf8584::control_stops(CTRL_PIN)
        }),
{
}

/// The bits of a byte, by their weights.
proof fn lemma_bits(byte: u8)
    ensures
        bit(byte, 0x40) == ((byte / 0x40) % 2 == 1),
        bit(byte, 0x20) == ((byte / 0x20) % 2 == 1),
        bit(byte, 0x10) == ((byte / 0x10) % 2 == 1),
        bit(byte, 0x08) == ((byte / 0x08) % 2 == 1),
        bit(byte, 0x04) == ((byte / 0x04) % 2 == 1),
        bit(byte, 0x02) == ((byte / 0x02) % 2 == 1),
        bit(byte, 0x01) == (byte % 2 == 1),
        byte >> 1 == byte / 2,
{
    assert((byte & 0x40 != 0) == ((byte / 0x40) % 2 == 1) && (byte & 0x20 != 0) == ((byte / 0x20)
        % 2 == 1) && (byte & 0x10 != 0) == ((byte / 0x10) % 2 == 1) && (byte & 0x08 != 0) == ((byte
        / 0x08) % 2 == 1) && (byte & 0x04 != 0) == ((byte / 0x04) % 2 == 1) && (byte & 0x02 != 0)
        == ((byte / 0x02) % 2 == 1) && (byte & 0x01 != 0) == (byte % 2 == 1) && byte >> 1 == byte
        / 2) by (bit_vector);
}

/// A control byte with STA set, any but 0x80 itself, issues a START, whatever
/// its other bits (PIN among them) and whatever the chip is doing: the bus is
/// busy, PIN is inactive, and the byte in S0 is on the wire for a whole phase,
/// its upper seven bits the address and its lowest the direction. Without STO
/// the transaction that was open goes on into the new one; with it, it is
/// ended first.
pub proof fn lemma_start_is_issued(chip: Pcf8584, byte: u8)
    requires
        byte != 0x80,
        (byte / 4) % 2 == 1,
    ensures
        ({
            let after = chip.after_control(byte);
            &&& !after.bb && after.pin
            &&& after.status() % 2 == 0 && after.status() >= 0x80
            &&& after.pending == Some(
                Pending::Address { addr7: chip.s0_shift / 2, read: chip.s0_shift % 2 == 1 },
            )
            &&& after.ticks_remaining == 200
            &&& (byte / 2) % 2 == 0 ==> after.mode == chip.mode && !Pcf8584::control_stops(byte)
            &&& (byte / 2) % 2 == 1 ==> after.mode == Mode::Idle && Pcf8584::control_stops(byte)
        }),
{
    lemma_bits(byte);
    lemma_bits(chip.s0_shift);
}

/// A control byte with STO set and STA clear issues a STOP and no more: the
/// bus is free, PIN is inactive, and nothing is on the wire.
pub proof fn lemma_stop_is_issued(chip: Pcf8584, byte: u8)
    requires
        (byte / 4) % 2 == 0,
        (byte / 2) % 2 == 1,
    ensures
        ({
            let after = chip.after_control(byte);
            &&& Pcf8584::control_stops(byte)
            &&& after.bb && after.pin && !after.interrupting()
            &&& after.mode == Mode::Idle && after.pending is None
            &&& forall|cck: u32| #[trigger] after.due(cck) is None
        }),
{
    lemma_bits(byte);
}

/// A control byte with neither STA nor STO set, any but 0x80 itself, loads the
/// control latch and touches neither the bus nor what is on the wire.
pub proof fn lemma_latch_alone(chip: Pcf8584, byte: u8)
    requires
        byte != 0x80,
        (byte / 4) % 2 == 0,
        (byte / 2) % 2 == 0,
    ensures
        ({
            let after = chip.after_control(byte);
            &&& !Pcf8584::control_stops(byte)
            &&& after.bb == chip.bb && after.pin == chip.pin && after.mode == chip.mode
            &&& after.pending == chip.pending && after.ticks_remaining == chip.ticks_remaining
            &&& after.status() == chip.status()
        }),
{
    lemma_bits(byte);
}

/// Every control byte but 0x80 loads the five latch bits, each from its own
/// place, START and STOP or not; none changes a data register, LRB or a fault
/// flag.
pub proof fn lemma_control_latch(chip: Pcf8584, byte: u8)
    requires
        byte != 0x80,
    ensures
        ({
            let after = chip.after_control(byte);
            &&& after.eso == ((byte / 0x40) % 2 == 1)
            &&& after.es1 == ((byte / 0x20) % 2 == 1)
            &&& after.es2 == ((byte / 0x10) % 2 == 1)
            &&& after.eni == ((byte / 0x08) % 2 == 1)
            &&& after.ack == (byte % 2 == 1)
            &&& after.s0_shift == chip.s0_shift && after.s0_read_buf == chip.s0_read_buf
            &&& after.s0_own_addr == chip.s0_own_addr && after.s2_clock == chip.s2_clock
            &&& after.s3_vector == chip.s3_vector && after.lrb_ad0 == chip.lrb_ad0
            &&& after.sts == chip.sts && after.ber == chip.ber
            &&& after.aas == chip.aas && after.lab == chip.lab
        }),
{
    lemma_bits(byte);
}

/// Which register the control byte puts behind the A0 area: with ESO clear
/// 0x00 selects the own address, 0x10 the interrupt vector, 0x20 the clock
/// register and 0x30 none of them, which reads 0xFF and drops what is
/// written; with ESO set it is the data register, whatever ES1 and ES2 say. A
/// write reaches the selected register alone.
pub proof fn lemma_register_selection(chip: Pcf8584, byte: u8, value: u8)
    requires
        byte != 0x80,
    ensures
        ({
            let selected = chip.after_control(byte);
            let after = selected.after_a0_write(value);
            let select = (byte / 0x10) % 8;
            &&& select == 0 ==> selected.a0_value() == chip.s0_own_addr && after == (Pcf8584 {
                s0_own_addr: value,
                ..selected
            })
            &&& select == 1 ==> selected.a0_value() == chip.s3_vector && after == (Pcf8584 {
                s3_vector: value,
                ..selected
            })
            &&& select == 2 ==> selected.a0_value() == chip.s2_clock && after == (Pcf8584 {
                s2_clock: value,
                ..selected
            })
            &&& select == 3 ==> selected.a0_value() == 0xFF && after == selected
            &&& select >= 4 ==> selected.a0_value() == chip.s0_read_buf && after.s0_shift == value
            &&& select >= 4 ==> after.s0_own_addr == chip.s0_own_addr && after.s2_clock
                == chip.s2_clock && after.s3_vector == chip.s3_vector && after.s0_read_buf
                == chip.s0_read_buf
            &&& select < 4 ==> selected.after_a0_read() == selected
        }),
{
    lemma_bits(byte);
}

/// Writing the data register of a transmit transaction puts the byte on the
/// wire for a whole phase with PIN inactive; outside one it only loads S0, for
/// the next START to send.
pub proof fn lemma_data_write(chip: Pcf8584, value: u8)
    requires
        chip.eso,
    ensures
        ({
            let after = chip.after_a0_write(value);
            &&& after.s0_shift == value
            &&& chip.mode == Mode::MasterTx ==> after.pin && after.pending == Some(Pending::TxByte)
                && after.ticks_remaining == 200
            &&& chip.mode != Mode::MasterTx ==> after == (Pcf8584 { s0_shift: value, ..chip })
            &&& after.mode == chip.mode && after.bb == chip.bb && after.lrb_ad0 == chip.lrb_ad0
        }),
{
}

/// Reading the data register of a receive transaction gives the byte clocked
/// in last. With PIN active it also puts the next one on the wire, to be
/// answered as the control latch says now; with PIN inactive, or outside a
/// receive transaction, it moves nothing.
pub proof fn lemma_data_read(chip: Pcf8584)
    requires
        chip.eso,
    ensures
        ({
            let after = chip.after_a0_read();
            let arms = chip.mode == Mode::MasterRx && chip.status() < 0x80;
            &&& chip.a0_value() == chip.s0_read_buf
            &&& arms ==> after.pin && after.ticks_remaining == 200 && after.pending == Some(
                Pending::RxByte { ack: chip.ack },
            )
            &&& !arms ==> after == chip
            &&& after.s0_read_buf == chip.s0_read_buf && after.mode == chip.mode && after.bb
                == chip.bb
        }),
{
    lemma_status_flags(chip);
}

/// What completing a phase does: an address phase is one START on the bus,
/// with the address and the direction on the wire, and leaves the chip
/// transmitting or receiving; a byte going out is one write of S0; a byte
/// coming in is one read, and is then in S0. Each leaves PIN active, the bus as
/// busy as it was, and LRB clear exactly if the byte was acknowledged.
pub proof fn lemma_phase_outcome<B: I2cBus>(
    chip: Pcf8584,
    bus: B,
    cck: u32,
    after: Pcf8584,
    bus_after: B,
)
    requires
        chip.on_tick(bus, cck, after, bus_after),
        cck >= chip.ticks_remaining,
        chip.pending is Some,
    ensures
        chip.pending matches Some(Pending::Address { addr7, read }) ==> bus.on_start(
            addr7,
            read,
            &bus_after,
            !after.lrb_ad0,
        ) && after.mode == (if read {
            Mode::MasterRx
        } else {
            Mode::MasterTx
        }) && after.s0_read_buf == chip.s0_read_buf,
        chip.pending == Some(Pending::TxByte) ==> bus.on_write(
            chip.s0_shift,
            &bus_after,
            !after.lrb_ad0,
        ) && after.mode == chip.mode && after.s0_read_buf == chip.s0_read_buf,
        chip.pending matches Some(Pending::RxByte { ack }) ==> bus.on_read(
            ack,
            &bus_after,
            after.s0_read_buf,
        ) && after.lrb_ad0 == !ack && after.mode == chip.mode,
        !after.pin && after.pending is None && after.bb == chip.bb,
        after.s0_shift == chip.s0_shift,
{
}

/// While no phase completes a tick leaves the bus alone and takes the cycles
/// off those that the phase on the wire has to go.
pub proof fn lemma_phase_goes_on<B: I2cBus>(
    chip: Pcf8584,
    bus: B,
    cck: u32,
    after: Pcf8584,
    bus_after: B,
)
    requires
        chip.on_tick(bus, cck, after, bus_after),
        cck < chip.ticks_remaining || chip.pending is None,
    ensures
        bus_after == bus,
        chip.pending is None ==> after == chip,
        chip.pending is Some ==> after == (Pcf8584 {
            ticks_remaining: (chip.ticks_remaining - cck) as u32,
            ..chip
        }),
{
}

/// After the RESET pin the status reads 0x81 and nothing is on the wire; the
/// own address and the vector are clear, the clock register is not; no
/// interrupt is up, and the A0 area is the own address.
pub proof fn lemma_reset(chip: Pcf8584)
    ensures
        ({
            let after = chip.after_reset();
            &&& after.status() == 0x81 && !after.interrupting() && after.consistent()
            &&& after.mode == Mode::Idle && after.pending is None
            &&& after.a0_value() == 0 && after.s0_own_addr == 0 && after.s3_vector == 0
            &&& after.s2_clock == chip.s2_clock && after.s0_shift == chip.s0_shift
            &&& after.s0_read_buf == chip.s0_read_buf
            &&& !after.eso && !after.es1 && !after.es2 && !after.eni && !after.ack
        }),
{
}

} // verus!
