//! The board through its window.

use cpldicy_plugin::board::{
    ds1307_datetime, ds1629_datetime, pcf8583_datetime, r2025_datetime, Board, BoardConfig,
    OPEN_BUS_BYTE,
};
use cpldicy_plugin::devices::hd44780_pcf8574::HD44780_PCF8574_DEFAULT_ADDRESS;
use cpldicy_plugin::devices::{ds1307, ds1629, pcf8583, r2025};
use cpldicy_plugin::fan::MAX31760_ADDRESS;
use cpldicy_plugin::pcf8584::CCK_PER_BYTE_PHASE;
use cpldicy_plugin::rtc_time::parse;

const PIN: u32 = 0x80;
const ESO: u32 = 0x40;
const STA: u32 = 0x04;
const STO: u32 = 0x02;
const ACK: u32 = 0x01;

const PCF8574_ADDRESS: u8 = 0x20;

/// Opens a transaction; returns whether the address was acknowledged.
fn open(board: &mut Board, addr7: u8, read: bool) -> bool {
    board.write(2, 1, PIN | ESO | ACK);
    board.write(0, 1, (u32::from(addr7) << 1) | u32::from(read));
    board.write(2, 1, PIN | ESO | STA | ACK);
    board.tick(CCK_PER_BYTE_PHASE);
    board.read(2, 1) & 0x08 == 0
}

fn send(board: &mut Board, addr7: u8, bytes: &[u8]) -> bool {
    let acked = open(board, addr7, false);
    for &byte in bytes {
        board.write(0, 1, u32::from(byte));
        board.tick(CCK_PER_BYTE_PHASE);
    }
    board.write(2, 1, PIN | ESO | STO | ACK);
    acked
}

fn fetch(board: &mut Board, addr7: u8, n: usize) -> Vec<u8> {
    open(board, addr7, true);
    board.read(0, 1); // dummy
    let mut bytes = Vec::new();
    for _ in 0..n {
        board.tick(CCK_PER_BYTE_PHASE);
        bytes.push(board.read(0, 1) as u8);
    }
    board.write(2, 1, PIN | ESO | STO | ACK);
    bytes
}

#[test]
fn wallclock_conversions_truncate_the_year_and_remap_the_weekday_per_device() {
    // 2026-08-16 is a Sunday (weekday_sun0() == 0).
    let w = parse("2026-08-16 14:30:05").unwrap();

    let pcf = pcf8583_datetime(&w);
    assert_eq!(pcf.year_low2, (2026u32 % 4) as u8);
    assert_eq!(pcf.weekday, 0);
    assert_eq!((pcf.month, pcf.date, pcf.hour, pcf.minute, pcf.second), (8, 16, 14, 30, 5));

    let ds1307 = ds1307_datetime(&w);
    assert_eq!(ds1307.year, 26);
    assert_eq!(ds1307.weekday, 1, "DS1307 weekday is 1-7, Sunday=1");

    let ds1629 = ds1629_datetime(&w);
    assert_eq!(ds1629.year, 26);
    assert_eq!(ds1629.weekday, 1, "DS1629 weekday is 1-7, Sunday=1");

    let r2025 = r2025_datetime(&w);
    assert_eq!(r2025.year, 26);
    assert_eq!(r2025.weekday, 0, "R2025 weekday is 0-6, Sunday=0");
}

#[test]
fn a_configured_initial_time_is_readable_over_the_bus() {
    let mut board = Board::with_config(BoardConfig {
        pcf8583_enabled: true,
        pcf8583_time: Some(parse("2026-08-16 14:30:05").unwrap()),
        ..BoardConfig::default()
    });
    let pcf8583_address = BoardConfig::default().pcf8583_address;

    board.write(2, 1, PIN | ESO | ACK);
    board.write(0, 1, u32::from(pcf8583_address) << 1);
    board.write(2, 1, PIN | ESO | STA | ACK);
    board.tick(CCK_PER_BYTE_PHASE);
    board.write(0, 1, 0x02); // pointer -> seconds register
    board.tick(CCK_PER_BYTE_PHASE);
    board.write(2, 1, PIN | ESO | STO | ACK);

    board.write(0, 1, (u32::from(pcf8583_address) << 1) | 1);
    board.write(2, 1, PIN | ESO | STA | ACK);
    board.tick(CCK_PER_BYTE_PHASE);
    let _dummy = board.read(0, 1);
    board.tick(CCK_PER_BYTE_PHASE);
    let seconds = board.read(0, 1);
    board.write(2, 1, PIN | ESO | STO | ACK);

    assert_eq!(seconds, 0x05, "seconds BCD for :05, read back from a configured initial time");
}

#[test]
fn ltc2990_and_fan_addresses_are_configurable() {
    let board = Board::with_config(BoardConfig {
        ltc2990_address: 0x4D,
        fan_address: 0x51,
        ..BoardConfig::default()
    });
    assert!(board.device_addresses.contains(&("ltc2990", 0x4D)));
    assert!(board.device_addresses.contains(&("fan", 0x51)));
}

#[test]
fn moving_pcf8583_off_fans_default_address_lets_both_coexist() {
    let mut board = Board::with_config(BoardConfig {
        pcf8583_enabled: true,
        pcf8583_address: 0x51, // moved off fan's default (0x50)
        ..BoardConfig::default()
    });

    // The fan is still reachable at its own (default) address.
    board.write(2, 1, PIN | ESO | ACK);
    board.write(0, 1, u32::from(MAX31760_ADDRESS) << 1);
    board.write(2, 1, PIN | ESO | STA | ACK);
    board.tick(CCK_PER_BYTE_PHASE);
    let status = board.read(2, 1);
    assert_eq!(
        status & 0x08,
        0,
        "MAX31760 should ACK its own address once pcf8583 has moved off it"
    );
    board.write(2, 1, PIN | ESO | STO | ACK);
}

#[test]
fn even_word_offset_0_reaches_the_a0_area_and_offset_2_reaches_s1() {
    let mut board = Board::new();

    // S1 lives at offset 2: a plain status read should show PIN=1,
    // BB=1 (reset defaults) in the high byte of a word read.
    let s1 = board.read(2, 2);
    assert_eq!(s1, 0x81FF, "S1 in the high byte, open bus (0xFF) in the low byte");

    // Offset 0 reaches the A0 area (S0' at reset, since ESO=0):
    // writing and reading back an own-address value should round-trip.
    board.write(0, 1, 0x55);
    assert_eq!(board.read(0, 1), 0x55);
}

#[test]
fn odd_byte_addresses_never_reach_the_chip() {
    let mut board = Board::new();
    board.write(0, 1, 0x55); // S0' = 0x55, via the even (UDS) address
    assert_eq!(board.read(1, 1), OPEN_BUS_BYTE as u32, "odd address is /LDS-only: open bus");

    board.write(1, 1, 0xAB); // should be silently dropped
    assert_eq!(board.read(0, 1), 0x55, "the S0' write above must be unaffected");
}

#[test]
fn register_select_mirrors_every_four_bytes_across_the_window() {
    let mut board = Board::new();
    // Only A1 is decoded, so offsets 4/6 alias offsets 0/2.
    board.write(4, 1, 0x33); // aliases offset 0 (A0 area)
    assert_eq!(board.read(0, 1), 0x33);
    assert_eq!(board.read(4, 1), 0x33);

    let s1_direct = board.read(2, 1);
    let s1_aliased = board.read(6, 1);
    assert_eq!(s1_direct, s1_aliased);
}

#[test]
fn size_four_access_composes_both_registers() {
    let mut board = Board::new();
    board.write(0, 1, 0x77); // S0'
    // A long read at offset 0 covers bytes 0..4: A0 area (even),
    // open bus (odd), S1 (even), open bus (odd).
    let long_read = board.read(0, 4);
    assert_eq!(long_read, 0x77_FF_81_FF, "A0-area byte, open bus, S1 byte, open bus");
}

#[test]
fn a_full_master_transmit_transaction_through_the_board_window_acks() {
    let mut board = Board::new();

    // Select S0 for transfers.
    board.write(2, 1, PIN | ESO | ACK);
    // Address+W for the PCF8574 at 0x20.
    board.write(0, 1, u32::from(PCF8574_ADDRESS) << 1);
    board.write(2, 1, PIN | ESO | STA | ACK);
    board.tick(CCK_PER_BYTE_PHASE);

    let status_after_addr = board.read(2, 1);
    assert_eq!(status_after_addr & 0x08, 0, "PCF8574 should ACK its address (LRB=0)");

    // Write a data byte (the new output-latch value) and complete it.
    board.write(0, 1, 0b1010_0101);
    board.tick(CCK_PER_BYTE_PHASE);
    let status_after_data = board.read(2, 1);
    assert_eq!(status_after_data & 0x08, 0, "PCF8574 should ACK the data byte too");

    board.write(2, 1, PIN | ESO | STO | ACK);

    // Read it back through a fresh master-receive transaction.
    board.write(0, 1, (u32::from(PCF8574_ADDRESS) << 1) | 1);
    board.write(2, 1, PIN | ESO | STA | ACK);
    board.tick(CCK_PER_BYTE_PHASE);
    let _dummy = board.read(0, 1);
    board.tick(CCK_PER_BYTE_PHASE);
    let readback = board.read(0, 1);
    board.write(2, 1, PIN | ESO | STO | ACK);
    assert_eq!(readback, 0b1010_0101, "should read back exactly what was written");
}

#[test]
fn int2_asserts_and_deasserts_following_the_pcf8584_pin_bit() {
    let mut board = Board::new();
    assert!(!board.int2_asserted());

    board.write(2, 1, PIN | ESO | ACK);
    board.write(0, 1, u32::from(PCF8574_ADDRESS) << 1);
    // ENI bit is 0x08; include it alongside STA this time.
    board.write(2, 1, PIN | ESO | 0x08 | STA | ACK);
    board.tick(CCK_PER_BYTE_PHASE);

    assert!(board.int2_asserted(), "PIN active + ENI set should raise INT2");

    board.write(2, 1, PIN | ESO | STO | ACK);
    assert!(!board.int2_asserted(), "STOP should deassert INT2");
}

#[test]
fn default_config_enables_pcf8574_ltc2990_and_fan_but_not_the_opt_in_devices() {
    let board = Board::new();
    assert!(board.slots.pcf8574.is_some());
    assert!(board.slots.ltc2990.is_some());
    assert!(board.slots.fan.is_some());
    assert!(board.slots.eeprom.is_none());
    assert!(board.slots.lm75.is_none());
    assert!(board.slots.pcf8583.is_none());
    assert!(board.slots.ds1307.is_none());
    assert!(board.slots.ds1629.is_none());
    assert!(board.slots.r2025.is_none());
    assert!(board.slots.lcd.is_none());
    assert!(board.slots.bmp280.is_none());
    assert!(board.slots.bme680.is_none());
    assert!(board.slots.am2320.is_none());
}

#[test]
fn lcd_text_if_changed_reports_only_on_change_and_none_when_disabled() {
    let mut disabled = Board::new();
    assert_eq!(disabled.lcd_text_if_changed(), None);

    let mut board =
        Board::with_config(BoardConfig { lcd_enabled: true, ..BoardConfig::default() });
    let lcd_address = HD44780_PCF8574_DEFAULT_ADDRESS;

    // First call always reports (blank -> blank is still a change
    // from "no report yet").
    assert_eq!(board.lcd_text_if_changed(), Some([" ".repeat(16), " ".repeat(16)]));
    // Nothing changed since: no report.
    assert_eq!(board.lcd_text_if_changed(), None);

    // Drive "Hi" onto the display over the bus: select S0, address+W the
    // LCD, then send RS=1/EN-pulsed nibbles for 'H' and 'i'.
    board.write(2, 1, PIN | ESO | ACK);
    board.write(0, 1, u32::from(lcd_address) << 1);
    board.write(2, 1, PIN | ESO | STA | ACK);
    board.tick(CCK_PER_BYTE_PHASE);
    for &ch in b"Hi" {
        for nibble in [ch >> 4, ch & 0x0F] {
            let base = 0x01 | (u32::from(nibble) << 4) | 0x08; // RS=1, backlight=1
            board.write(0, 1, base | 0x04); // EN=1
            board.tick(CCK_PER_BYTE_PHASE);
            board.write(0, 1, base); // EN=0: falling edge latches the nibble
            board.tick(CCK_PER_BYTE_PHASE);
        }
    }
    board.write(2, 1, PIN | ESO | STO | ACK);

    let mut expected_row0 = "Hi".to_string();
    expected_row0.push_str(&" ".repeat(14));
    assert_eq!(board.lcd_text_if_changed(), Some([expected_row0, " ".repeat(16)]));
    assert_eq!(board.lcd_text_if_changed(), None, "unchanged since the last report");
}

#[test]
fn scenario_setters_are_a_no_op_when_the_device_is_disabled() {
    let mut board =
        Board::with_config(BoardConfig { ltc2990_enabled: false, ..BoardConfig::default() });
    // Should not panic even though there's no LTC2990 to set.
    board.set_ltc2990_tint((50.0f32 * 16.0).round() as i32);
    assert_eq!(board.bus.devices.len(), 2);
}

#[test]
fn unplugged_fault_makes_a_configured_device_stop_acking() {
    let mut board = Board::new();
    board.write(2, 1, PIN | ESO | ACK);

    board.set_address_unplugged(PCF8574_ADDRESS, true);
    board.write(0, 1, u32::from(PCF8574_ADDRESS) << 1);
    board.write(2, 1, PIN | ESO | STA | ACK);
    board.tick(CCK_PER_BYTE_PHASE);
    let status = board.read(2, 1);
    assert_ne!(status & 0x08, 0, "unplugged device should NAK its address");

    board.write(2, 1, PIN | ESO | STO | ACK);
    board.set_address_unplugged(PCF8574_ADDRESS, false);
    board.write(0, 1, u32::from(PCF8574_ADDRESS) << 1);
    board.write(2, 1, PIN | ESO | STA | ACK);
    board.tick(CCK_PER_BYTE_PHASE);
    let status = board.read(2, 1);
    assert_eq!(status & 0x08, 0, "re-plugging should restore the ACK");
}

fn everything() -> BoardConfig {
    BoardConfig {
        eeprom_enabled: true,
        eeprom_size: 64,
        eeprom_image: Some(vec![0xE0, 0xE1]),
        lm75_enabled: true,
        pcf8583_enabled: true,
        pcf8583_address: 0x51,
        ds1307_enabled: true,
        ds1307_time: Some(parse("1999-12-31 23:59:58").unwrap()),
        ds1629_enabled: true,
        ds1629_time: Some(parse("2004-02-29 01:02:03").unwrap()),
        r2025_enabled: true,
        r2025_time: Some(parse("2010-10-10 10:10:10").unwrap()),
        lcd_enabled: true,
        bmp280_enabled: true,
        bme680_enabled: true,
        am2320_enabled: true,
        ..BoardConfig::default()
    }
}

#[test]
fn a_full_board_answers_at_every_address_and_nowhere_else() {
    let mut board = Board::with_config(everything());
    let expected = [
        ("pcf8574", 0x20),
        ("eeprom", 0x54),
        ("lm75", 0x48),
        ("ltc2990", 0x4C),
        ("pcf8583", 0x51),
        ("ds1307", 0x68),
        ("ds1629", 0x4F),
        ("r2025", 0x32),
        ("lcd", 0x27),
        ("bmp280", 0x76),
        ("bme680", 0x77),
        ("am2320", 0x5C),
        ("fan", 0x50),
    ];
    assert_eq!(board.device_addresses, expected);
    for addr7 in 0..128u8 {
        let acked = open(&mut board, addr7, false);
        board.write(2, 1, PIN | ESO | STO | ACK);
        assert_eq!(acked, expected.iter().any(|(_, a)| *a == addr7), "address {addr7:#x}");
    }
}

#[test]
fn devices_of_a_full_board_give_what_they_hold() {
    let mut board = Board::with_config(everything());
    assert!(send(&mut board, 0x54, &[0x00]));
    assert_eq!(fetch(&mut board, 0x54, 3), [0xE0, 0xE1, 0x00]);
    assert!(send(&mut board, 0x68, &[0x00]));
    assert_eq!(fetch(&mut board, 0x68, 7), [0x58, 0x59, 0x23, 0x06, 0x31, 0x12, 0x99]);
    assert!(send(&mut board, 0x4F, &[0xC0, 0x00]));
    assert_eq!(fetch(&mut board, 0x4F, 7), [0x03, 0x02, 0x01, 0x01, 0x29, 0x02, 0x04]);
    assert!(send(&mut board, 0x32, &[0x00]));
    assert_eq!(fetch(&mut board, 0x32, 7), [0x10, 0x10, 0x10, 0x00, 0x10, 0x10, 0x10]);
    assert!(send(&mut board, 0x5C, &[0x03, 0x02, 0x02]));
    assert_eq!(fetch(&mut board, 0x5C, 4), [0x03, 0x04, 0x00, 0xFA]);
    assert!(send(&mut board, 0x48, &[0x00]));
    assert_eq!(fetch(&mut board, 0x48, 2), [25, 0]);
    assert!(send(&mut board, 0x76, &[0x88]));
    assert_eq!(fetch(&mut board, 0x76, 2), [0x70, 0x6B]); // 27504
    assert!(send(&mut board, 0x77, &[0xE9]));
    assert_eq!(fetch(&mut board, 0x77, 2), [0x90, 0x65]); // 26000
    assert_eq!(fetch(&mut board, 0x11, 2), [0xFF, 0xFF], "nobody home");
}

#[test]
fn setters_reach_the_devices_of_a_full_board() {
    let mut board = Board::with_config(everything());
    board.set_lm75_celsius(-41);
    board.set_ltc2990_v1(100);
    board.set_ltc2990_v2(200);
    board.set_ltc2990_external_temp(-16);
    board.set_ltc2990_vcc(300);
    board.set_pcf8583_time(pcf8583::DateTime { second: 11, ..pcf8583::DateTime::epoch() });
    board.set_ds1307_time(ds1307::DateTime { second: 22, ..ds1307::DateTime::epoch() });
    board.set_ds1629_time(ds1629::DateTime { second: 33, ..ds1629::DateTime::epoch() });
    board.set_r2025_time(r2025::DateTime { second: 44, ..r2025::DateTime::epoch() });
    board.set_am2320_celsius(true, 12);
    board.set_am2320_humidity_percent(345);
    board.set_bmp280_celsius(-1000);
    board.set_bmp280_pressure_hpa(90_000);
    board.set_bme680_celsius(3000);
    board.set_bme680_pressure_hpa(100_000);
    board.set_bme680_humidity_percent(65_536 * 30);

    send(&mut board, 0x48, &[0x00]);
    assert_eq!(fetch(&mut board, 0x48, 2), [0xEB, 0x80]); // -41 half degrees
    send(&mut board, 0x4C, &[0x06]);
    assert_eq!(
        fetch(&mut board, 0x4C, 10),
        [0x80, 100, 0x80, 200, 0x9F, 0xF0, 0, 0, 0x81, 44]
    );
    for (addr7, pointer, seconds) in [
        (0x51, vec![0x02], 0x11),
        (0x68, vec![0x00], 0x22),
        (0x4F, vec![0xC0, 0x00], 0x33),
        (0x32, vec![0x00], 0x44),
    ] {
        send(&mut board, addr7, &pointer);
        assert_eq!(fetch(&mut board, addr7, 1), [seconds]);
    }
    send(&mut board, 0x5C, &[0x03, 0x02, 0x02]);
    assert_eq!(fetch(&mut board, 0x5C, 4)[2..], [0x80, 12]);
    send(&mut board, 0x5C, &[0x03, 0x00, 0x02]);
    assert_eq!(fetch(&mut board, 0x5C, 4)[2..], [0x01, 0x59]);
    // The counts of the compensated sensors have moved from their defaults.
    let mut fresh = Board::with_config(everything());
    for (addr7, reg) in [(0x76, 0xF7), (0x76, 0xFA), (0x77, 0x1F), (0x77, 0x22), (0x77, 0x25)] {
        send(&mut board, addr7, &[reg]);
        send(&mut fresh, addr7, &[reg]);
        assert_ne!(fetch(&mut board, addr7, 2), fetch(&mut fresh, addr7, 2), "register {reg:#x}");
    }
}

#[test]
fn on_a_shared_address_the_device_attached_first_answers() {
    // The clock and the fan controller share 0x50 by default.
    let mut board =
        Board::with_config(BoardConfig { pcf8583_enabled: true, ..BoardConfig::default() });
    send(&mut board, 0x50, &[0x10, 0xA7]);
    send(&mut board, 0x50, &[0x10]);
    assert_eq!(fetch(&mut board, 0x50, 1), [0xA7], "the clock's storage byte");
}

#[test]
fn names_unplug_devices_and_unknown_names_do_nothing() {
    let mut board = Board::new();
    assert!(!board.set_device_unplugged("lm75", true));
    assert!(!board.set_device_unplugged("", true));
    assert!(board.set_device_unplugged("fan", true));
    assert!(!open(&mut board, 0x50, false));
    assert!(board.set_device_unplugged("fan", false));
    assert!(open(&mut board, 0x50, false));
}

#[test]
fn the_fan_of_the_board_spins_up_and_seizes() {
    let mut board = Board::default();
    assert!(send(&mut board, 0x50, &[0x51, 0xFF]));
    assert_eq!(board.fan_duty(), Some(255));
    board.tick(10_000);
    assert_eq!(board.fan_rpm(), Some(3000));
    board.set_fan_stuck(true);
    board.tick(10_000);
    assert_eq!(board.fan_rpm(), Some(0));
    let mut bare = Board::with_config(BoardConfig { fan_enabled: false, ..BoardConfig::default() });
    bare.set_fan_stuck(true);
    assert_eq!((bare.fan_duty(), bare.fan_rpm()), (None, None));
}

#[test]
fn words_and_longs_are_written_high_byte_first() {
    let mut board = Board::new();
    board.write(0, 2, 0x12_34); // the low byte is lost
    assert_eq!(board.read(0, 1), 0x12);
    board.write(0, 4, 0xAB_00_10_00); // A0 area, then S1: select S3
    assert_eq!(board.read(0, 1), 0x00, "the vector register");
    board.write(2, 1, 0x00);
    assert_eq!(board.read(0, 1), 0xAB);
    assert_eq!(board.read(0, 0), 0);
    board.write(0, 0, 0xFFFF_FFFF);
    assert_eq!(board.read(0, 1), 0xAB);
    assert_eq!(board.read(0xFFFF_FFFC, 1), 0xAB);
    assert_eq!(board.read(0xFFFF_FFFE, 4), 0x81_FF_AB_FF, "the address space comes round");
}

#[test]
fn a_twenty_column_display_reports_twenty_characters_a_row() {
    let mut board = Board::with_config(BoardConfig {
        lcd_enabled: true,
        lcd_columns: 20,
        ..BoardConfig::default()
    });
    assert_eq!(board.lcd_text_if_changed(), Some([" ".repeat(20), " ".repeat(20)]));
}

#[test]
fn the_last_byte_of_a_reception_is_refused_and_read_after_the_stop() {
    let mut board = Board::with_config(everything());
    send(&mut board, 0x54, &[0x00]); // two bytes and then zeros
    assert!(open(&mut board, 0x54, true));
    board.read(0, 1); // dummy
    board.tick(CCK_PER_BYTE_PHASE);
    assert_eq!(board.read(2, 1) & 0x08, 0, "the first byte is acknowledged");
    board.write(2, 1, ESO); // acknowledge off: the next byte is the last
    assert_eq!(board.read(0, 1), 0xE0);
    board.tick(CCK_PER_BYTE_PHASE);
    assert_ne!(board.read(2, 1) & 0x08, 0, "the last byte is refused");
    board.write(2, 1, PIN | ESO | STO | ACK);
    assert_eq!(board.read(2, 1) & 0x81, 0x81, "bus free");
    assert_eq!(board.read(0, 1), 0xE1);
    assert_eq!(board.read(0, 1), 0xE1, "nothing moves any more");
    assert_eq!(board.bus.active, None);
}

#[test]
fn a_poll_loop_sees_the_phase_go_by() {
    let mut board = Board::new();
    board.write(2, 1, PIN | ESO | ACK);
    board.write(0, 1, u32::from(PCF8574_ADDRESS) << 1);
    board.write(2, 1, PIN | ESO | 0x08 | STA | ACK);
    for _ in 0..CCK_PER_BYTE_PHASE {
        assert_eq!(board.read(2, 1), 0x80, "busy, and not there yet");
        assert!(!board.int2_asserted());
        board.tick(1);
    }
    assert_eq!(board.read(2, 1), 0x00, "busy, acknowledged, PIN active");
    assert!(board.int2_asserted());
}

#[test]
fn every_device_can_be_unplugged_and_plugged_in_by_name() {
    let mut board = Board::with_config(everything());
    for (name, addr7) in board.device_addresses.clone() {
        assert!(board.set_device_unplugged(name, true));
        assert!(!open(&mut board, addr7, false), "{name} is unplugged");
        board.write(2, 1, PIN | ESO | STO | ACK);
        assert!(board.set_device_unplugged(name, false));
        assert!(open(&mut board, addr7, false), "{name} answers again");
        board.write(2, 1, PIN | ESO | STO | ACK);
    }
}
