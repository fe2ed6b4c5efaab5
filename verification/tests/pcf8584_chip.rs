//! The bus controller, driving a bus with one stub device.

use cpldicy_plugin::i2c::{I2cBusEngine, I2cDevice};
use cpldicy_plugin::pcf8584::{
    Mode, Pcf8584, CCK_PER_BYTE_PHASE, CTRL_ACK, CTRL_ENI, CTRL_ES1, CTRL_ES2, CTRL_ESO, CTRL_PIN,
    CTRL_STA, CTRL_STO, STATUS_BB, STATUS_LRB_AD0, STATUS_PIN,
};

/// A device that ACKs everything and echoes a fixed byte.
struct Stub {
    read_byte: u8,
}

impl I2cDevice for Stub {
    // Relations between calls: any outcome is allowed.
    fn valid(&self) -> bool {
        true
    }
    fn on_start(&self, _read: bool, _after: &Self, _ack: bool) -> bool {
        true
    }
    fn on_write(&self, _byte: u8, _after: &Self, _ack: bool) -> bool {
        true
    }
    fn on_read(&self, _master_will_ack: bool, _after: &Self, _byte: u8) -> bool {
        true
    }
    fn on_stop(&self, _after: &Self) -> bool {
        true
    }
    fn can_tick(&self, _cck: u32) -> bool {
        true
    }
    fn on_tick(&self, _cck: u32, _after: &Self) -> bool {
        true
    }

    fn start(&mut self, _read: bool) -> bool {
        true
    }
    fn write(&mut self, _byte: u8) -> bool {
        true
    }
    fn read(&mut self, _master_will_ack: bool) -> u8 {
        self.read_byte
    }
    fn stop(&mut self) {}
    fn tick(&mut self, _cck: u32) {}
}

fn empty_bus() -> I2cBusEngine<Stub> {
    I2cBusEngine::new()
}

fn bus_with_device(addr7: u8, read_byte: u8) -> I2cBusEngine<Stub> {
    let mut bus = I2cBusEngine::new();
    bus.attach(addr7, Stub { read_byte });
    bus
}

#[test]
fn reset_matches_documented_defaults() {
    let chip = Pcf8584::new();
    assert_eq!(chip.read_s1(), STATUS_PIN | STATUS_BB);
}

#[test]
fn pin_alone_write_is_the_soft_reset_trick_and_reads_back_pin_only_low7_zero() {
    let mut chip = Pcf8584::new();
    let mut bus = empty_bus();
    // Poison some status bits first so the trick has something to clear.
    chip.ber = true;
    chip.sts = true;
    chip.aas = true;
    chip.lab = true;

    chip.write(true, CTRL_PIN, &mut bus);

    let status = chip.read_s1();
    assert_eq!(
        status & 0x7F,
        STATUS_BB,
        "low 7 bits should read back with only BB possibly set (bus wasn't started)"
    );
    assert_ne!(status & STATUS_PIN, 0, "PIN should read back set (inactive)");
}

#[test]
fn register_mux_reaches_own_address_vector_and_clock_registers() {
    let mut chip = Pcf8584::new();
    let mut bus = empty_bus();

    // ESO=0, ES1=0, ES2=0 -> S0' (own address).
    chip.write(true, 0x00, &mut bus);
    chip.write(false, 0xAA, &mut bus);
    assert_eq!(chip.read(false, &mut bus), 0xAA);

    // ESO=0, ES1=0, ES2=1 -> S3 (interrupt vector).
    chip.write(true, CTRL_ES2, &mut bus);
    chip.write(false, 0x0F, &mut bus);
    assert_eq!(chip.read(false, &mut bus), 0x0F);

    // ESO=0, ES1=1, ES2=0 -> S2 (clock register).
    chip.write(true, CTRL_ES1, &mut bus);
    chip.write(false, 0x1C, &mut bus);
    assert_eq!(chip.read(false, &mut bus), 0x1C);

    // Values are latched independently: switching back to S0' shouldn't
    // have been disturbed by writing S2/S3.
    chip.write(true, 0x00, &mut bus);
    assert_eq!(chip.read(false, &mut bus), 0xAA);
}

#[test]
fn master_transmit_full_sequence_acks_and_completes() {
    let mut bus = bus_with_device(0x20, 0);
    let mut chip = Pcf8584::new();

    // Poll BB: should read free before anything starts.
    assert_ne!(chip.read_s1() & STATUS_BB, 0);

    chip.write(true, CTRL_PIN | CTRL_ESO | CTRL_ACK, &mut bus);

    // Write address+W (0x20<<1 | 0) to S0, then START.
    chip.write(false, 0x20 << 1, &mut bus);
    chip.write(true, CTRL_PIN | CTRL_ESO | CTRL_STA | CTRL_ACK, &mut bus);

    assert_ne!(chip.read_s1() & STATUS_PIN, 0);
    assert_eq!(chip.read_s1() & STATUS_BB, 0, "bus should read busy once STA is issued");

    // Advance past the address phase.
    chip.tick(CCK_PER_BYTE_PHASE, &mut bus);
    let status_after_addr = chip.read_s1();
    assert_eq!(
        status_after_addr & STATUS_PIN,
        0,
        "PIN should be active (0) once the address phase completes"
    );
    assert_eq!(status_after_addr & STATUS_LRB_AD0, 0, "LRB should read ACK'd (0)");

    // Send one data byte.
    chip.write(false, 0x42, &mut bus);
    assert_ne!(
        chip.read_s1() & STATUS_PIN,
        0,
        "writing S0 should re-arm PIN=1 (inactive) while clocking"
    );
    chip.tick(CCK_PER_BYTE_PHASE, &mut bus);
    assert_eq!(
        chip.read_s1() & STATUS_PIN,
        0,
        "PIN should go active again once the byte finishes"
    );
    assert_eq!(chip.read_s1() & STATUS_LRB_AD0, 0, "byte should have been ACK'd");

    // STOP.
    chip.write(true, CTRL_PIN | CTRL_ESO | CTRL_STO | CTRL_ACK, &mut bus);
    let final_status = chip.read_s1();
    assert_ne!(final_status & STATUS_BB, 0, "bus should read free after STOP");
    assert_ne!(final_status & STATUS_PIN, 0, "PIN should read inactive after STOP");
}

#[test]
fn master_transmit_to_unaddressed_device_naks() {
    let mut bus = empty_bus(); // nothing attached
    let mut chip = Pcf8584::new();

    chip.write(true, CTRL_PIN | CTRL_ESO | CTRL_ACK, &mut bus);
    chip.write(false, 0x20 << 1, &mut bus);
    chip.write(true, CTRL_PIN | CTRL_ESO | CTRL_STA | CTRL_ACK, &mut bus);
    chip.tick(CCK_PER_BYTE_PHASE, &mut bus);

    assert_ne!(chip.read_s1() & STATUS_LRB_AD0, 0, "an empty bus should NAK the address");
}

#[test]
fn master_receive_dummy_read_then_real_bytes() {
    let mut bus = bus_with_device(0x20, 0x99);
    let mut chip = Pcf8584::new();

    chip.write(true, CTRL_PIN | CTRL_ESO | CTRL_ACK, &mut bus);

    // Address+R.
    chip.write(false, (0x20 << 1) | 1, &mut bus);
    chip.write(true, CTRL_PIN | CTRL_ESO | CTRL_STA | CTRL_ACK, &mut bus);
    chip.tick(CCK_PER_BYTE_PHASE, &mut bus);
    assert_eq!(chip.read_s1() & STATUS_PIN, 0, "address phase should have completed");

    // Dummy read: arms the first real byte, returns stale content.
    let _dummy = chip.read(false, &mut bus);
    assert_ne!(
        chip.read_s1() & STATUS_PIN,
        0,
        "dummy read should re-arm PIN=1 while clocking the first byte"
    );

    chip.tick(CCK_PER_BYTE_PHASE, &mut bus);
    assert_eq!(chip.read_s1() & STATUS_PIN, 0, "first real byte should be ready");

    // Real read: returns the first byte, arms the second (which is
    // NACKed by clearing ACK first, as if this were the last one wanted).
    let first = chip.read(false, &mut bus);
    assert_eq!(first, 0x99);

    chip.write(true, CTRL_ESO, &mut bus); // clear ACK bit before the arming read
    let _ = chip.read(false, &mut bus); // arms the final byte with NACK
    chip.tick(CCK_PER_BYTE_PHASE, &mut bus);

    // STOP, then fetch the final buffered byte.
    chip.write(true, CTRL_PIN | CTRL_ESO | CTRL_STO | CTRL_ACK, &mut bus);
    let last = chip.read(false, &mut bus);
    assert_eq!(last, 0x99);
}

#[test]
fn interrupt_asserts_only_when_eni_set_and_pin_active() {
    let mut bus = bus_with_device(0x20, 0);
    let mut chip = Pcf8584::new();
    assert!(!chip.int_asserted(), "should be deasserted at reset");

    chip.write(true, CTRL_PIN | CTRL_ESO | CTRL_ACK, &mut bus);
    chip.write(false, 0x20 << 1, &mut bus);
    // START with ENI clear: no interrupt even once the phase completes.
    chip.write(true, CTRL_PIN | CTRL_ESO | CTRL_STA | CTRL_ACK, &mut bus);
    chip.tick(CCK_PER_BYTE_PHASE, &mut bus);
    assert!(!chip.int_asserted(), "ENI was never set");

    // Send a byte with ENI now set.
    chip.write(true, CTRL_PIN | CTRL_ESO | CTRL_ENI | CTRL_ACK, &mut bus); // just latches ENI
    chip.write(false, 0x11, &mut bus);
    chip.tick(CCK_PER_BYTE_PHASE, &mut bus);
    assert!(chip.int_asserted(), "PIN active + ENI set should assert INT2");

    // Reading status doesn't clear PIN by itself.
    let _ = chip.read_s1();
    assert!(chip.int_asserted());

    chip.write(true, CTRL_PIN | CTRL_ESO | CTRL_STO | CTRL_ACK, &mut bus);
    assert!(!chip.int_asserted(), "STOP should deassert (PIN inactive again)");
}

#[test]
fn a_phase_takes_its_cycles_however_they_are_cut_up() {
    let mut bus = bus_with_device(0x20, 0);
    let mut chip = Pcf8584::new();
    chip.write(true, CTRL_PIN | CTRL_ESO | CTRL_ACK, &mut bus);
    chip.write(false, 0x20 << 1, &mut bus);
    chip.write(true, CTRL_PIN | CTRL_ESO | CTRL_STA | CTRL_ACK, &mut bus);
    chip.tick(CCK_PER_BYTE_PHASE - 1, &mut bus);
    assert_ne!(chip.read_s1() & STATUS_PIN, 0);
    assert_eq!(chip.mode, Mode::Idle);
    chip.tick(1, &mut bus);
    assert_eq!(chip.read_s1() & STATUS_PIN, 0);
    assert_eq!(chip.mode, Mode::MasterTx);
}

#[test]
fn stop_and_start_together_chain_a_new_transaction() {
    let mut bus = bus_with_device(0x20, 0);
    let mut chip = Pcf8584::new();
    chip.write(true, CTRL_PIN | CTRL_ESO | CTRL_ACK, &mut bus);
    chip.write(false, 0x20 << 1, &mut bus);
    chip.write(true, CTRL_PIN | CTRL_ESO | CTRL_STA | CTRL_ACK, &mut bus);
    chip.tick(CCK_PER_BYTE_PHASE, &mut bus);
    chip.write(true, CTRL_PIN | CTRL_ESO | CTRL_STA | CTRL_STO | CTRL_ACK, &mut bus);
    assert_eq!(chip.read_s1() & STATUS_BB, 0, "busy with the new transaction");
    assert_eq!(bus.active, None, "the old one was stopped");
    chip.tick(CCK_PER_BYTE_PHASE, &mut bus);
    assert_eq!(bus.active, Some(0));
}

#[test]
fn the_undefined_register_selection_reads_ff_and_swallows_writes() {
    let mut chip = Pcf8584::default();
    let mut bus = empty_bus();
    chip.write(true, CTRL_ES1 | CTRL_ES2, &mut bus);
    chip.write(false, 0x12, &mut bus);
    assert_eq!(chip.read(false, &mut bus), 0xFF);
    chip.write(true, 0x00, &mut bus);
    assert_eq!(chip.read(false, &mut bus), 0x00);
}

#[test]
fn the_reset_pin_keeps_the_clock_register_and_both_sides_of_s0() {
    let mut chip = Pcf8584::new();
    chip.s2_clock = 0x1C;
    chip.s0_shift = 0x11;
    chip.s0_read_buf = 0x22;
    chip.s3_vector = 0x33;
    chip.s0_own_addr = 0x44;
    chip.bb = false;
    chip.reset();
    assert_eq!((chip.s2_clock, chip.s0_shift, chip.s0_read_buf), (0x1C, 0x11, 0x22));
    assert_eq!((chip.s3_vector, chip.s0_own_addr), (0, 0));
    assert_eq!(chip.read_s1(), 0x81);
}

#[test]
fn every_status_flag_has_its_bit() {
    let mut chip = Pcf8584::new();
    chip.sts = true;
    chip.ber = true;
    chip.lrb_ad0 = true;
    chip.aas = true;
    chip.lab = true;
    assert_eq!(chip.read_s1(), 0xBF);
    chip.pin = false;
    chip.bb = false;
    assert_eq!(chip.read_s1(), 0x3E);
}
