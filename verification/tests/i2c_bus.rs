//! The bus registry, with devices that record what reaches them.

use cpldicy_plugin::i2c::{I2cBus, I2cBusEngine, I2cDevice, OPEN_BUS};

struct Recorder {
    acked_start: bool,
    acked_write: bool,
    last_write: Option<u8>,
    read_value: u8,
    stopped: bool,
}

impl I2cDevice for Recorder {
    // Relations between calls: any outcome is allowed.
    fn valid(&self) -> bool {
        true
    }
    fn on_start(&self, _read: bool, _after: &Self, _ack: bool) -> bool {
        true
    }
    fn on_write(&self, _byte: u8, _after: &Self, _ack: bool) -> bool {
        true
    }
    fn on_read(&self, _master_will_ack: bool, _after: &Self, _byte: u8) -> bool {
        true
    }
    fn on_stop(&self, _after: &Self) -> bool {
        true
    }
    fn can_tick(&self, _cck: u32) -> bool {
        true
    }
    fn on_tick(&self, _cck: u32, _after: &Self) -> bool {
        true
    }

    fn start(&mut self, _read: bool) -> bool {
        self.acked_start
    }
    fn write(&mut self, byte: u8) -> bool {
        self.last_write = Some(byte);
        self.acked_write
    }
    fn read(&mut self, _master_will_ack: bool) -> u8 {
        self.read_value
    }
    fn stop(&mut self) {
        self.stopped = true;
    }
    fn tick(&mut self, cck: u32) {
        self.read_value = self.read_value.wrapping_add(cck as u8);
    }
}

fn recorder(read_value: u8) -> Recorder {
    Recorder { acked_start: true, acked_write: true, last_write: None, read_value, stopped: false }
}

#[test]
fn unaddressed_bus_naks_and_reads_open_bus() {
    let mut bus: I2cBusEngine<Recorder> = I2cBusEngine::new();
    assert!(!bus.start(0x20, false));
    assert_eq!(bus.read(true), 0xFF);
}

#[test]
fn start_selects_device_by_address_and_routes_subsequent_calls() {
    let mut bus = I2cBusEngine::new();
    bus.attach(0x20, recorder(0xAB));
    // A different address on the same bus should not be selected.
    bus.attach(0x50, recorder(0x00));

    assert!(bus.start(0x20, false));
    assert!(bus.write(0x42));
    assert_eq!(bus.read(true), 0xAB);
    bus.stop();
    assert_eq!(bus.devices[0].1.last_write, Some(0x42));
    assert_eq!(bus.devices[1].1.last_write, None);
}

#[test]
fn stop_deselects_the_active_device() {
    let mut bus = I2cBusEngine::new();
    bus.attach(0x20, recorder(0));
    bus.start(0x20, false);
    bus.stop();
    // With no active device, a further write should just NAK.
    assert!(!bus.write(0x01));
    assert!(bus.devices[0].1.stopped);
}

#[test]
fn a_repeated_start_elsewhere_stops_the_device_it_leaves() {
    let mut bus = I2cBusEngine::new();
    bus.attach(0x20, recorder(1));
    bus.attach(0x21, recorder(2));
    assert!(bus.start(0x20, false));
    assert!(bus.start(0x21, true));
    assert!(bus.devices[0].1.stopped);
    assert!(!bus.devices[1].1.stopped);
    assert_eq!(bus.read(false), 2);
}

#[test]
fn a_repeated_start_at_the_same_address_stops_nothing() {
    let mut bus = I2cBusEngine::new();
    bus.attach(0x20, recorder(1));
    assert!(bus.start(0x20, false));
    assert!(bus.start(0x20, true));
    assert!(!bus.devices[0].1.stopped);
}

#[test]
fn the_device_attached_first_wins_a_collision() {
    let mut bus = I2cBusEngine::new();
    bus.attach(0x50, recorder(0x11));
    bus.attach(0x50, recorder(0x22));
    assert!(bus.start(0x50, true));
    assert_eq!(bus.read(true), 0x11);
}

#[test]
fn an_unplugged_address_naks_until_plugged_in_again() {
    let mut bus = I2cBusEngine::new();
    bus.attach(0x20, recorder(7));
    bus.set_unplugged(0x20, true);
    bus.set_unplugged(0x20, true);
    bus.set_unplugged(0x30, true);
    assert!(bus.is_unplugged(0x20));
    assert!(!bus.start(0x20, true));
    assert_eq!(bus.read(true), OPEN_BUS);
    bus.set_unplugged(0x20, false);
    assert!(bus.start(0x20, true));
    assert_eq!(bus.read(true), 7);
    assert!(bus.is_unplugged(0x30));
}

#[test]
fn a_tick_reaches_every_device() {
    let mut bus: I2cBusEngine<Recorder> = I2cBusEngine::default();
    bus.attach(0x20, recorder(1));
    bus.attach(0x21, recorder(2));
    bus.tick(10);
    assert_eq!(bus.devices[0].1.read_value, 11);
    assert_eq!(bus.devices[1].1.read_value, 12);
}

#[test]
fn a_device_may_refuse_its_address_and_its_bytes() {
    let mut bus = I2cBusEngine::new();
    bus.attach(
        0x20,
        Recorder {
            acked_start: false,
            acked_write: false,
            last_write: None,
            read_value: 0,
            stopped: false,
        },
    );
    assert!(!bus.start(0x20, false));
    assert!(!bus.write(0x05));
    assert_eq!(bus.devices[0].1.last_write, Some(0x05));
}
