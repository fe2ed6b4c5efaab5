//! The EEPROM and the character display.

use cpldicy_plugin::devices::eeprom24::{addr_bytes_for_size, Eeprom24};
use cpldicy_plugin::devices::hd44780_pcf8574::{Hd44780Pcf8574, BACKLIGHT, EN, RS};
use cpldicy_plugin::i2c::I2cDevice;

#[test]
fn defaults_to_erased_0xff_and_reports_the_configured_size() {
    let mut dev = Eeprom24::new(64);
    dev.start(false);
    dev.write(0x00); // address byte (1-byte addressing under 256)
    dev.start(true);
    assert_eq!(dev.read(true), 0xFF);
    assert_eq!(dev.dump().len(), 64);
}

#[test]
fn single_byte_write_then_random_read_round_trips() {
    let mut dev = Eeprom24::new(64);
    dev.start(false);
    dev.write(0x05); // address
    dev.write(0xAB); // data

    dev.start(false);
    dev.write(0x05); // re-point the address for the read
    dev.start(true);
    assert_eq!(dev.read(true), 0xAB);
}

#[test]
fn sequential_write_auto_increments_the_address() {
    let mut dev = Eeprom24::new(64);
    dev.start(false);
    dev.write(0x00);
    dev.write(0x11);
    dev.write(0x22);
    dev.write(0x33);

    dev.start(false);
    dev.write(0x00);
    dev.start(true);
    assert_eq!(dev.read(true), 0x11);
    assert_eq!(dev.read(true), 0x22);
    assert_eq!(dev.read(true), 0x33);
}

#[test]
fn address_wraps_at_the_end_of_memory() {
    let mut dev = Eeprom24::new(4);
    dev.start(false);
    dev.write(0x03); // last valid address
    dev.write(0xAA);
    dev.write(0xBB); // should wrap to address 0

    dev.start(false);
    dev.write(0x00);
    dev.start(true);
    assert_eq!(dev.read(true), 0xBB);
}

#[test]
fn two_byte_addressing_kicks_in_above_256_bytes() {
    let mut dev = Eeprom24::new(4096); // 24C32-class
    dev.start(false);
    dev.write(0x01); // address high byte
    dev.write(0x00); // address low byte -> 0x0100
    dev.write(0x7E);

    dev.start(false);
    dev.write(0x01);
    dev.write(0x00);
    dev.start(true);
    assert_eq!(dev.read(true), 0x7E);
}

#[test]
fn load_image_seeds_initial_contents_and_truncates_to_size() {
    let mut dev = Eeprom24::new(4);
    dev.load_image(&[1, 2, 3, 4, 5, 6]);
    dev.start(false);
    dev.write(0x00);
    dev.start(true);
    assert_eq!(dev.read(true), 1);
    assert_eq!(dev.read(true), 2);
    assert_eq!(dev.read(true), 3);
    assert_eq!(dev.read(true), 4);
}

#[test]
fn a_short_image_is_filled_up_with_zeros() {
    let mut dev = Eeprom24::new(5);
    dev.load_image(&[9, 8]);
    assert_eq!(dev.dump(), &[9, 8, 0, 0, 0]);
    dev.load_image(&[]);
    assert_eq!(dev.dump(), &[0; 5]);
}

#[test]
fn addresses_beyond_the_memory_come_round_and_reads_go_on_where_they_stopped() {
    assert_eq!(addr_bytes_for_size(256), 1);
    assert_eq!(addr_bytes_for_size(257), 2);
    let mut dev = Eeprom24::new(10);
    dev.load_image(&[0, 1, 2, 3, 4, 5, 6, 7, 8, 9]);
    dev.start(false);
    dev.write(23); // 23 % 10 == 3
    dev.start(true);
    assert_eq!(dev.read(true), 3);
    dev.stop();
    dev.start(true);
    assert_eq!(dev.read(true), 4);
    // A write phase cut off in its address leaves the address alone.
    let mut wide = Eeprom24::new(300);
    wide.start(false);
    wide.write(0x01);
    wide.start(true);
    assert_eq!(wide.addr, 0);
}

/// Drives one nibble transfer the way a backpack driver does: write with
/// EN high, then the same byte with EN low.
fn send_nibble(dev: &mut Hd44780Pcf8574, rs: bool, nibble: u8, backlight: u8) {
    let base = (if rs { RS } else { 0 }) | (nibble << 4) | backlight;
    dev.write(base | EN);
    dev.write(base);
}

fn send_byte(dev: &mut Hd44780Pcf8574, rs: bool, byte: u8) {
    send_nibble(dev, rs, byte >> 4, BACKLIGHT);
    send_nibble(dev, rs, byte & 0x0F, BACKLIGHT);
}

#[test]
fn defaults_to_blank_display_off_and_backlight_on() {
    let dev = Hd44780Pcf8574::new();
    assert_eq!(dev.line(0, 16), " ".repeat(16));
    assert!(!dev.is_display_on());
    assert!(dev.is_backlight_on());
}

#[test]
fn writing_a_data_byte_advances_the_cursor_and_appears_on_the_line() {
    let mut dev = Hd44780Pcf8574::new();
    for &b in b"Hi" {
        send_byte(&mut dev, true, b);
    }
    assert_eq!(dev.line(0, 16), "Hi              ");
}

#[test]
fn set_ddram_address_selects_row_1() {
    let mut dev = Hd44780Pcf8574::new();
    send_byte(&mut dev, false, 0x80 | 0x40); // Set DDRAM address 0x40: row 1
    for &b in b"Row2" {
        send_byte(&mut dev, true, b);
    }
    assert_eq!(dev.line(1, 16), "Row2            ");
    assert_eq!(dev.line(0, 16), " ".repeat(16), "row 0 is untouched");
}

#[test]
fn clear_display_blanks_ddram_and_resets_the_cursor() {
    let mut dev = Hd44780Pcf8574::new();
    send_byte(&mut dev, true, b'X');
    send_byte(&mut dev, false, 0x01); // Clear Display
    assert_eq!(dev.line(0, 16), " ".repeat(16));
    send_byte(&mut dev, true, b'Y');
    assert_eq!(
        dev.line(0, 16),
        "Y".to_string() + &" ".repeat(15),
        "cursor is back at address 0 after clear"
    );
}

#[test]
fn display_on_off_control_is_tracked() {
    let mut dev = Hd44780Pcf8574::new();
    assert!(!dev.is_display_on());
    send_byte(&mut dev, false, 0x0C); // Display On/Off: D=1
    assert!(dev.is_display_on());
    send_byte(&mut dev, false, 0x08); // D=0
    assert!(!dev.is_display_on());
}

#[test]
fn entry_mode_decrement_moves_the_cursor_backwards() {
    let mut dev = Hd44780Pcf8574::new();
    send_byte(&mut dev, false, 0x80 | 5); // Set DDRAM address 5
    send_byte(&mut dev, false, 0x04); // Entry Mode Set: I/D=0 (decrement)
    send_byte(&mut dev, true, b'Z');
    send_byte(&mut dev, true, b'A');
    let line = dev.line(0, 16);
    assert_eq!(&line[4..6], "AZ", "cursor moved 5 -> 4 -> 3 while writing");
}

#[test]
fn set_cgram_address_diverts_data_writes_away_from_ddram() {
    let mut dev = Hd44780Pcf8574::new();
    send_byte(&mut dev, false, 0x80); // Set DDRAM address 0
    send_byte(&mut dev, false, 0x40); // Set CGRAM address 0: switches mode
    send_byte(&mut dev, true, 0xFF); // would corrupt DDRAM[0] if not diverted
    send_byte(&mut dev, false, 0x80); // Set DDRAM address 0 again
    assert_eq!(dev.line(0, 1), " ", "CGRAM writes never touched DDRAM");
}

#[test]
fn backlight_bit_is_tracked_independently_of_lcd_instructions() {
    let mut dev = Hd44780Pcf8574::new();
    dev.write(BACKLIGHT); // no EN edge: just the output latch
    assert!(dev.is_backlight_on());
    dev.write(0x00);
    assert!(!dev.is_backlight_on());
}

#[test]
fn hd44780_pcf8574_always_acks_its_address() {
    let mut dev = Hd44780Pcf8574::new();
    assert!(dev.start(false));
    assert!(dev.start(true));
}

#[test]
fn rows_are_filled_up_with_blanks_past_their_memory() {
    let mut dev = Hd44780Pcf8574::default();
    dev.write(0); // enable low, so that every falling edge below is a driver's
    dev.pending_high_nibble = None;
    send_byte(&mut dev, false, 0x80 | 0x40);
    for &b in b"0123456789ABCDEF" {
        send_byte(&mut dev, true, b);
    }
    assert_eq!(dev.line(1, 20), "0123456789ABCDEF    ");
    assert_eq!(dev.line(1, 16), "0123456789ABCDEF");
    assert_eq!(dev.line(0, 82).len(), 82);
    assert_eq!(dev.line(0, 0), "");
}

#[test]
fn what_is_not_printable_shows_as_a_question_mark() {
    let mut dev = Hd44780Pcf8574::new();
    for byte in [0x1F, 0x20, 0x7E, 0x7F, 0xFF] {
        send_byte(&mut dev, true, byte);
    }
    assert_eq!(dev.line(0, 6), "? ~?? ");
}

#[test]
fn home_shift_and_function_set_leave_the_text() {
    let mut dev = Hd44780Pcf8574::new();
    send_byte(&mut dev, true, b'A');
    for cmd in [0x02, 0x14, 0x28] {
        send_byte(&mut dev, false, cmd); // home, shift, function set
    }
    send_byte(&mut dev, true, b'B');
    assert_eq!(dev.line(0, 2), "B ");
    assert_eq!(dev.read(true), BACKLIGHT | RS | (0x2 << 4), "the port reads back its latch");
}

#[test]
fn zero_is_no_instruction() {
    let mut dev = Hd44780Pcf8574::new();
    send_byte(&mut dev, true, 0x41);
    send_byte(&mut dev, false, 0x00);
    send_byte(&mut dev, true, 0x42);
    assert_eq!(dev.line(0, 2), "AB");
    send_byte(&mut dev, false, 0x40); // data goes to character memory now
    send_byte(&mut dev, false, 0x00);
    send_byte(&mut dev, true, 0x43);
    assert_eq!(dev.line(0, 3), "AB ");
    send_byte(&mut dev, false, 0x80);
    send_byte(&mut dev, true, 0x44);
    assert_eq!(dev.line(0, 2), "DB");
}
