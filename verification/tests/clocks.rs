//! The four clocks.

use cpldicy_plugin::bcd::{from_bcd, to_bcd};
use cpldicy_plugin::devices::ds1307::{self, Ds1307};
use cpldicy_plugin::devices::ds1629::{self, Ds1629, ACCESS_CLOCK};
use cpldicy_plugin::devices::pcf8583::{self, Pcf8583};
use cpldicy_plugin::devices::r2025::{self, R2025};
use cpldicy_plugin::i2c::I2cDevice;

#[test]
fn bcd_takes_values_apart_by_tens() {
    assert_eq!(to_bcd(0), 0x00);
    assert_eq!(to_bcd(59), 0x59);
    assert_eq!(to_bcd(99), 0x99);
    assert_eq!(to_bcd(255), 0x95, "tens beyond a nibble are lost");
    assert_eq!(from_bcd(0x59), 59);
    assert_eq!(from_bcd(0xFF), 165);
    for value in 0..=99 {
        assert_eq!(from_bcd(to_bcd(value)), value);
    }
}

fn pcf8583_reg(dev: &mut Pcf8583, reg: u8) -> u8 {
    dev.start(false);
    dev.write(reg);
    dev.start(true);
    dev.read(true)
}

#[test]
fn pcf8583_defaults_to_the_epoch() {
    let mut dev = Pcf8583::new();
    assert_eq!(pcf8583_reg(&mut dev, 0x02), 0x00); // seconds
    assert_eq!(pcf8583_reg(&mut dev, 0x03), 0x00); // minutes
    assert_eq!(pcf8583_reg(&mut dev, 0x04), 0x00); // hours
}

#[test]
fn pcf8583_set_time_round_trips_through_bcd_registers() {
    let mut dev = Pcf8583::new();
    dev.set_time(pcf8583::DateTime {
        year_low2: 2,
        month: 12,
        date: 31,
        weekday: 3,
        hour: 23,
        minute: 59,
        second: 58,
        hundredths: 12,
    });

    assert_eq!(pcf8583_reg(&mut dev, 0x01), 0x12); // hundredths BCD
    assert_eq!(pcf8583_reg(&mut dev, 0x02), 0x58); // seconds BCD
    assert_eq!(pcf8583_reg(&mut dev, 0x03), 0x59); // minutes BCD
    assert_eq!(pcf8583_reg(&mut dev, 0x04), 0x23); // hours BCD, 24h mode
    assert_eq!(pcf8583_reg(&mut dev, 0x05), (2 << 6) | 0x31); // year<<6 | date BCD
    assert_eq!(pcf8583_reg(&mut dev, 0x06), (3 << 5) | 0x12); // weekday<<5 | month BCD
}

#[test]
fn a_deliberately_wrong_time_reads_back_exactly_as_set() {
    let mut dev = Pcf8583::new();
    dev.set_time(pcf8583::DateTime { month: 13, date: 39, ..pcf8583::DateTime::epoch() });
    assert_eq!(pcf8583_reg(&mut dev, 0x06) & 0x1F, to_bcd(13));
    assert_eq!(pcf8583_reg(&mut dev, 0x05) & 0x3F, to_bcd(39));
}

#[test]
fn control_status_register_is_writable() {
    let mut dev = Pcf8583::new();
    dev.start(false);
    dev.write(0x00);
    dev.write(0x80); // e.g. STOP bit

    assert_eq!(pcf8583_reg(&mut dev, 0x00), 0x80);
}

#[test]
fn a_bus_write_to_the_time_registers_round_trips_through_a_read() {
    let mut dev = Pcf8583::new();
    dev.start(false);
    dev.write(0x01); // pointer -> hundredths
    for byte in [0x12, 0x58, 0x59, 0x23, (2 << 6) | 0x31, (3 << 5) | 0x12] {
        dev.write(byte); // hundredths, seconds, minutes, hours, year<<6|date, weekday<<5|month
    }

    assert_eq!(pcf8583_reg(&mut dev, 0x01), 0x12);
    assert_eq!(pcf8583_reg(&mut dev, 0x02), 0x58);
    assert_eq!(pcf8583_reg(&mut dev, 0x03), 0x59);
    assert_eq!(pcf8583_reg(&mut dev, 0x04), 0x23);
    assert_eq!(pcf8583_reg(&mut dev, 0x05), (2 << 6) | 0x31);
    assert_eq!(pcf8583_reg(&mut dev, 0x06), (3 << 5) | 0x12);
}

#[test]
fn the_year_extra_byte_is_plain_persisted_storage() {
    let mut dev = Pcf8583::new();
    assert_eq!(pcf8583_reg(&mut dev, 0x10), 0x00);
    dev.start(false);
    dev.write(0x10);
    dev.write(0xA7);
    assert_eq!(pcf8583_reg(&mut dev, 0x10), 0xA7);
}

#[test]
fn pcf8583_time_never_advances_on_its_own() {
    let mut dev = Pcf8583::new();
    dev.set_time(pcf8583::DateTime { second: 30, ..pcf8583::DateTime::epoch() });
    dev.tick(1_000_000_000);
    assert_eq!(pcf8583_reg(&mut dev, 0x02), to_bcd(30));
}

#[test]
fn pcf8583_drops_the_hour_mode_bits_and_the_free_registers() {
    let mut dev = Pcf8583::default();
    dev.start(false);
    dev.write(0x04);
    dev.write(0xC0 | 0x21);
    assert_eq!(pcf8583_reg(&mut dev, 0x04), 0x21);
    dev.start(false);
    dev.write(0x20);
    assert!(dev.write(0x77));
    assert_eq!(pcf8583_reg(&mut dev, 0x20), 0x00);
    // The pointer comes round from 0xFF to 0x00.
    dev.control_status = 0x5A;
    dev.start(false);
    dev.write(0xFF);
    dev.start(true);
    assert_eq!(dev.read(true), 0x00);
    assert_eq!(dev.read(true), 0x5A);
}

fn ds1307_reg(dev: &mut Ds1307, reg: u8) -> u8 {
    dev.start(false);
    dev.write(reg);
    dev.start(true);
    dev.read(true)
}

#[test]
fn ds1307_defaults_to_the_epoch() {
    let mut dev = Ds1307::new();
    assert_eq!(ds1307_reg(&mut dev, 0x00), 0x00); // seconds
    assert_eq!(ds1307_reg(&mut dev, 0x01), 0x00); // minutes
    assert_eq!(ds1307_reg(&mut dev, 0x02), 0x00); // hours
    assert_eq!(ds1307_reg(&mut dev, 0x03), 0x01); // weekday
}

#[test]
fn ds1307_set_time_round_trips_through_bcd_registers() {
    let mut dev = Ds1307::new();
    dev.set_time(ds1307::DateTime {
        year: 99,
        month: 12,
        date: 31,
        weekday: 5,
        hour: 23,
        minute: 59,
        second: 58,
    });

    assert_eq!(ds1307_reg(&mut dev, 0x00), 0x58); // seconds BCD
    assert_eq!(ds1307_reg(&mut dev, 0x01), 0x59); // minutes BCD
    assert_eq!(ds1307_reg(&mut dev, 0x02), 0x23); // hours BCD, 24h mode
    assert_eq!(ds1307_reg(&mut dev, 0x03), 0x05); // weekday, plain binary
    assert_eq!(ds1307_reg(&mut dev, 0x04), 0x31); // date BCD
    assert_eq!(ds1307_reg(&mut dev, 0x05), 0x12); // month BCD
    assert_eq!(ds1307_reg(&mut dev, 0x06), 0x99); // year BCD
}

#[test]
fn control_register_is_writable() {
    let mut dev = Ds1307::new();
    dev.start(false);
    dev.write(0x07);
    dev.write(0x10); // e.g. SQWE bit

    assert_eq!(ds1307_reg(&mut dev, 0x07), 0x10);
}

#[test]
fn ds1307_writes_to_time_registers_are_ignored() {
    let mut dev = Ds1307::new();
    dev.start(false);
    dev.write(0x00);
    dev.write(0x58); // attempt to set seconds directly

    assert_eq!(
        ds1307_reg(&mut dev, 0x00),
        0x00,
        "time is set wholesale via set_time, not per-register writes"
    );
}

#[test]
fn ds1307_time_never_advances_on_its_own() {
    let mut dev = Ds1307::new();
    dev.set_time(ds1307::DateTime { second: 30, ..ds1307::DateTime::epoch() });
    dev.tick(1_000_000_000);
    assert_eq!(ds1307_reg(&mut dev, 0x00), to_bcd(30));
}

fn ds1629_reg(dev: &mut Ds1629, reg: u8) -> u8 {
    dev.start(false);
    dev.write(ACCESS_CLOCK);
    dev.write(reg);
    dev.start(true);
    dev.read(true)
}

#[test]
fn ds1629_defaults_to_the_epoch() {
    let mut dev = Ds1629::new();
    assert_eq!(ds1629_reg(&mut dev, 0x00), 0x00); // seconds
    assert_eq!(ds1629_reg(&mut dev, 0x01), 0x00); // minutes
    assert_eq!(ds1629_reg(&mut dev, 0x02), 0x00); // hours
    assert_eq!(ds1629_reg(&mut dev, 0x03), 0x01); // weekday
}

#[test]
fn ds1629_set_time_round_trips_through_bcd_registers() {
    let mut dev = Ds1629::new();
    dev.set_time(ds1629::DateTime {
        year: 99,
        month: 12,
        date: 31,
        weekday: 5,
        hour: 23,
        minute: 59,
        second: 58,
    });

    assert_eq!(ds1629_reg(&mut dev, 0x00), 0x58); // seconds BCD
    assert_eq!(ds1629_reg(&mut dev, 0x01), 0x59); // minutes BCD
    assert_eq!(ds1629_reg(&mut dev, 0x02), 0x23); // hours BCD, 24h mode
    assert_eq!(ds1629_reg(&mut dev, 0x03), 0x05); // weekday, plain binary
    assert_eq!(ds1629_reg(&mut dev, 0x04), 0x31); // date BCD
    assert_eq!(ds1629_reg(&mut dev, 0x05), 0x12); // month BCD
    assert_eq!(ds1629_reg(&mut dev, 0x06), 0x99); // year BCD
}

#[test]
fn an_unimplemented_command_is_acked_but_reads_back_zero() {
    let mut dev = Ds1629::new();
    dev.start(false);
    assert!(dev.write(0xAA)); // Read Temperature, not modeled
    dev.start(true);
    assert_eq!(dev.read(true), 0x00);
}

#[test]
fn a_sequential_read_walks_the_seven_clock_registers_and_wraps() {
    let mut dev = Ds1629::new();
    dev.set_time(ds1629::DateTime { second: 58, ..ds1629::DateTime::epoch() });
    dev.start(false);
    dev.write(ACCESS_CLOCK);
    dev.write(0x00); // start at seconds
    dev.start(true);
    assert_eq!(dev.read(true), 0x58); // seconds
    assert_eq!(dev.read(true), 0x00); // minutes
    for _ in 0..5 {
        dev.read(true); // hours, weekday, date, month, year
    }
    assert_eq!(dev.read(true), 0x58, "pointer wraps back to seconds after year");
}

#[test]
fn ds1629_time_never_advances_on_its_own() {
    let mut dev = Ds1629::new();
    dev.set_time(ds1629::DateTime { second: 30, ..ds1629::DateTime::epoch() });
    dev.tick(1_000_000_000);
    assert_eq!(ds1629_reg(&mut dev, 0x00), to_bcd(30));
}

#[test]
fn ds1629_clock_writes_move_the_pointer_and_nothing_else() {
    let mut dev = Ds1629::default();
    dev.start(false);
    dev.write(ACCESS_CLOCK);
    dev.write(0x0A); // 10 % 7 == 3
    assert_eq!(dev.pointer, 3);
    assert!(dev.write(0x55));
    assert_eq!(dev.pointer, 4);
    assert_eq!(dev.time, ds1629::DateTime::epoch());
    // Before a pointer has come, reads give zero.
    dev.start(false);
    dev.write(ACCESS_CLOCK);
    dev.start(true);
    assert_eq!(dev.read(true), 0x00);
}

fn r2025_reg(dev: &mut R2025, reg: u8) -> u8 {
    dev.start(false);
    dev.write(reg << 4); // pointer nibble | format 0000
    dev.start(true);
    dev.read(true)
}

#[test]
fn r2025_defaults_to_the_epoch() {
    let mut dev = R2025::new();
    assert_eq!(r2025_reg(&mut dev, 0x00), 0x00); // seconds
    assert_eq!(r2025_reg(&mut dev, 0x01), 0x00); // minutes
    assert_eq!(r2025_reg(&mut dev, 0x02), 0x00); // hours
    assert_eq!(r2025_reg(&mut dev, 0x03), 0x00); // weekday
}

#[test]
fn r2025_set_time_round_trips_through_bcd_registers() {
    let mut dev = R2025::new();
    dev.set_time(r2025::DateTime {
        year: 99,
        month: 12,
        date: 31,
        weekday: 6,
        hour: 23,
        minute: 59,
        second: 58,
    });

    assert_eq!(r2025_reg(&mut dev, 0x00), 0x58); // seconds BCD
    assert_eq!(r2025_reg(&mut dev, 0x01), 0x59); // minutes BCD
    assert_eq!(r2025_reg(&mut dev, 0x02), 0x23); // hours BCD, 24h mode
    assert_eq!(r2025_reg(&mut dev, 0x03), 0x06); // weekday, plain binary
    assert_eq!(r2025_reg(&mut dev, 0x04), 0x31); // date BCD
    assert_eq!(r2025_reg(&mut dev, 0x05), 0x12); // month BCD
    assert_eq!(r2025_reg(&mut dev, 0x06), 0x99); // year BCD
}

#[test]
fn pointer_auto_increments_across_a_burst_read_and_wraps_at_the_nibble_boundary() {
    let mut dev = R2025::new();
    dev.set_time(r2025::DateTime { second: 58, ..r2025::DateTime::epoch() });
    dev.start(false);
    dev.write(0x00); // pointer=0x0, format=0000
    dev.start(true);
    assert_eq!(dev.read(true), 0x58); // seconds
    assert_eq!(dev.read(true), 0x00); // minutes
    for _ in 0..14 {
        dev.read(true); // walk through hours..0xF
    }
    assert_eq!(dev.read(true), 0x58, "pointer wraps 0xF -> 0x0 back to seconds");
}

#[test]
fn r2025_writes_to_time_registers_are_ignored() {
    let mut dev = R2025::new();
    dev.start(false);
    dev.write(0x00); // pointer=0x0 (seconds), format=0000
    dev.write(0x58); // attempt to set seconds directly

    assert_eq!(
        r2025_reg(&mut dev, 0x00),
        0x00,
        "time is set wholesale via set_time, not per-register writes"
    );
}

#[test]
fn r2025_time_never_advances_on_its_own() {
    let mut dev = R2025::new();
    dev.set_time(r2025::DateTime { second: 30, ..r2025::DateTime::epoch() });
    dev.tick(1_000_000_000);
    assert_eq!(r2025_reg(&mut dev, 0x00), to_bcd(30));
}

#[test]
fn pcf8583_drops_the_mode_bits_of_the_hour() {
    let mut dev = Pcf8583::new();
    for (byte, kept) in [(0x23, 0x23), (0xE3, 0x23), (0x92, 0x12), (0x79, 0x39)] {
        dev.start(false);
        dev.write(0x04);
        dev.write(byte);
        assert_eq!(pcf8583_reg(&mut dev, 0x04), kept);
    }
}

#[test]
fn pcf8583_keeps_nothing_where_there_is_no_register() {
    let mut dev = Pcf8583::new();
    dev.set_time(pcf8583::DateTime { second: 42, hour: 7, ..pcf8583::DateTime::epoch() });
    let mut before = dev;
    for reg in (0x07..=0x0F).chain(0x11..=0xFF) {
        dev.start(false);
        dev.write(reg);
        dev.write(0x55);
        assert_eq!(pcf8583_reg(&mut dev, reg), 0);
    }
    for reg in 0x00..=0xFF {
        assert_eq!(pcf8583_reg(&mut dev, reg), pcf8583_reg(&mut before, reg));
    }
}
