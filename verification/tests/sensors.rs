//! The plain sensors: LM75, LTC2990, AM2320, and the PCF8574 port expander.

use cpldicy_plugin::devices::am2320::{Am2320, REG_HUMIDITY, REG_TEMPERATURE};
use cpldicy_plugin::devices::lm75::{encode_temp9, Lm75, REG_CONFIG, REG_TEMP, REG_THYST, REG_TOS};
use cpldicy_plugin::devices::ltc2990::{
    encode_temp13, encode_voltage14_unsigned, Ltc2990, REG_CONTROL, REG_TINT_MSB, REG_TRIGGER,
    REG_V1_MSB, REG_V2_MSB, REG_V3_MSB, REG_VCC_MSB,
};
use cpldicy_plugin::devices::pcf8574::Pcf8574;
use cpldicy_plugin::i2c::I2cDevice;

const VCC_LSB: f32 = 0.00030518;
const V1_LSB: f32 = 0.00061;
const V2_LSB: f32 = 0.00122;
const VCC_OFFSET: f32 = 2.5;

fn half_degrees(celsius: f32) -> i32 {
    (celsius * 2.0).round() as i32
}

fn sixteenths(celsius: f32) -> i32 {
    (celsius * 16.0).round() as i32
}

fn counts(volts: f32, lsb: f32) -> i32 {
    (volts / lsb).round() as i32
}

fn am2320_celsius(dev: &mut Am2320, celsius: f32) {
    dev.set_celsius(celsius < 0.0, (celsius.abs() * 10.0).round() as u16);
}

fn read_temp_word(dev: &mut Lm75) -> u16 {
    dev.start(false);
    dev.write(REG_TEMP);
    dev.start(true);
    let msb = dev.read(true);
    let lsb = dev.read(true);
    ((msb as u16) << 8) | lsb as u16
}

#[test]
fn encodes_a_positive_half_degree_temperature() {
    let mut dev = Lm75::new();
    dev.set_celsius(half_degrees(25.5));
    // 25.5C -> raw 9-bit value 51 (25.5 / 0.5), left-justified: 51 << 7.
    assert_eq!(read_temp_word(&mut dev), (51i16 << 7) as u16);
}

#[test]
fn encodes_a_negative_temperature_as_twos_complement() {
    let mut dev = Lm75::new();
    dev.set_celsius(half_degrees(-10.0));
    let word = read_temp_word(&mut dev) as i16;
    // -10.0C -> raw -20, left-justified: -20 << 7 = -2560.
    assert_eq!(word, -2560);
}

#[test]
fn config_register_is_one_byte_and_round_trips() {
    let mut dev = Lm75::new();
    dev.start(false);
    dev.write(REG_CONFIG);
    dev.write(0x03);

    dev.start(false);
    dev.write(REG_CONFIG);
    dev.start(true);
    assert_eq!(dev.read(true), 0x03);
}

#[test]
fn pointer_persists_across_repeated_start_for_current_register_reads() {
    let mut dev = Lm75::new();
    dev.set_celsius(half_degrees(30.0));
    dev.start(false);
    dev.write(REG_TEMP);
    // Repeated START straight into a read, no new pointer byte.
    dev.start(true);
    let msb = dev.read(true);
    // 30.0C -> raw 60, left-justified 60<<7 = 0x1E00; top byte 0x1E = 30.
    assert_eq!(msb, 30);
}

#[test]
fn lm75_temperatures_beyond_nine_bits_are_cut_off() {
    assert_eq!(encode_temp9(1000), 255 << 7);
    assert_eq!(encode_temp9(255), 255 << 7);
    assert_eq!(encode_temp9(-1000), -256 << 7);
    assert_eq!(encode_temp9(-1), -128);
    assert_eq!(encode_temp9(0), 0);
}

#[test]
fn lm75_limits_read_back_as_written_and_start_at_their_defaults() {
    let mut dev = Lm75::default();
    for (reg, high) in [(REG_THYST, 80), (REG_TOS, 75)] {
        dev.start(false);
        dev.write(reg);
        dev.start(true);
        assert_eq!(dev.read(true), high);
        assert_eq!(dev.read(true), 0);
    }
    for reg in [REG_THYST, REG_TOS] {
        dev.start(false);
        dev.write(reg);
        dev.write(0xE7);
        dev.write(0x80);
        dev.start(false);
        dev.write(reg);
        dev.start(true);
        assert_eq!(dev.read(true), 0xE7);
        assert_eq!(dev.read(true), 0x80);
        assert_eq!(dev.read(true), 0x80, "past the word its low byte repeats");
    }
    assert_eq!(dev.thyst, 0xE780u16 as i16);
}

#[test]
fn lm75_pointer_uses_two_bits_and_temperature_cannot_be_written() {
    let mut dev = Lm75::new();
    dev.start(false);
    dev.write(0xFC); // 0xFC & 3 == 0
    dev.write(0x55);
    assert_eq!(dev.pointer, REG_TEMP);
    assert_eq!(read_temp_word(&mut dev), 25 << 8);
}

fn read_word(dev: &mut Ltc2990, reg: u8) -> (u8, u8) {
    dev.start(false);
    dev.write(reg);
    dev.start(true);
    (dev.read(true), dev.read(true))
}

#[test]
fn tint_encodes_as_thirteen_bit_with_data_valid_flag() {
    let mut dev = Ltc2990::new();
    dev.set_tint(sixteenths(45.0));
    let (msb, lsb) = read_word(&mut dev, REG_TINT_MSB);
    assert_ne!(msb & 0x80, 0, "DATA_VALID should be set");
    let raw = (((msb & 0x1F) as i32) << 8) | lsb as i32;
    let raw = if raw & 0x1000 != 0 { raw - 0x2000 } else { raw };
    assert_eq!(raw, (45.0 * 16.0) as i32);
}

#[test]
fn v1_and_v2_encode_the_configured_rail_voltages() {
    let mut dev = Ltc2990::new();
    dev.set_v1(counts(5.05, V1_LSB));
    dev.set_v2(counts(12.3, V2_LSB));

    let (msb, lsb) = read_word(&mut dev, REG_V1_MSB);
    let raw = (((msb & 0x3F) as u32) << 8) | lsb as u32; // unsigned: no sign extension
    let volts = raw as f32 * V1_LSB;
    assert!((volts - 5.05).abs() < 0.001);

    let (msb, lsb) = read_word(&mut dev, REG_V2_MSB);
    let raw = (((msb & 0x3F) as u32) << 8) | lsb as u32;
    let volts = raw as f32 * V2_LSB;
    assert!((volts - 12.3).abs() < 0.001);
}

#[test]
fn vcc_applies_the_two_point_five_volt_offset() {
    let mut dev = Ltc2990::new();
    dev.set_vcc(counts(5.0 - VCC_OFFSET, VCC_LSB));
    let (msb, lsb) = read_word(&mut dev, REG_VCC_MSB);
    let raw = (((msb & 0x3F) as u32) << 8) | lsb as u32; // unsigned
    let volts = raw as f32 * VCC_LSB + VCC_OFFSET;
    assert!((volts - 5.0).abs() < 0.001);
}

#[test]
fn pointer_auto_increments_across_a_burst_read() {
    let mut dev = Ltc2990::new();
    dev.set_tint(sixteenths(10.0));
    dev.set_v1(counts(5.0, V1_LSB));

    // A burst read starting at Tint should walk straight into V1's
    // registers without a new pointer write in between.
    dev.start(false);
    dev.write(REG_TINT_MSB);
    dev.start(true);
    let burst: Vec<u8> = (0..4).map(|_| dev.read(true)).collect();

    let mut reference = Ltc2990::new();
    reference.set_tint(sixteenths(10.0));
    reference.set_v1(counts(5.0, V1_LSB));
    let expected = [
        reference.register_byte(REG_TINT_MSB),
        reference.register_byte(0x05),
        reference.register_byte(REG_V1_MSB),
        reference.register_byte(0x07),
    ];
    assert_eq!(burst, expected);
}

#[test]
fn trigger_register_read_returns_status() {
    let mut dev = Ltc2990::new();
    dev.start(false);
    dev.write(REG_TRIGGER);
    dev.start(true);
    assert_eq!(dev.read(true), dev.status_byte());
}

#[test]
fn control_register_round_trips() {
    let mut dev = Ltc2990::new();
    dev.start(false);
    dev.write(REG_CONTROL);
    dev.write(0x18);

    dev.start(false);
    dev.write(REG_CONTROL);
    dev.start(true);
    assert_eq!(dev.read(true), 0x18);
}

#[test]
fn the_monitor_powers_up_with_the_counts_of_its_nominal_readings() {
    let dev = Ltc2990::default();
    assert_eq!(dev.tint, sixteenths(25.0));
    assert_eq!(dev.external_temp, sixteenths(25.0));
    assert_eq!(dev.v1, counts(5.0, V1_LSB));
    assert_eq!(dev.v2, counts(12.0, V2_LSB));
    assert_eq!(dev.vcc, counts(5.0 - VCC_OFFSET, VCC_LSB));
}

#[test]
fn ltc2990_readings_are_cut_off_at_their_width() {
    assert_eq!(encode_temp13(5000), [0x80 | 0x0F, 0xFF]);
    assert_eq!(encode_temp13(-5000), [0x80 | 0x10, 0x00]);
    assert_eq!(encode_temp13(-1), [0x80 | 0x1F, 0xFF]);
    assert_eq!(encode_temp13(720), [0x82, 0xD0]);
    assert_eq!(encode_voltage14_unsigned(-3), [0x80, 0x00]);
    assert_eq!(encode_voltage14_unsigned(20000), [0x80 | 0x3F, 0xFF]);
    assert_eq!(encode_voltage14_unsigned(8279), [0x80 | 0x20, 0x57]);
}

#[test]
fn ltc2990_external_temperature_and_unused_registers() {
    let mut dev = Ltc2990::new();
    dev.set_external_temp(sixteenths(-40.0));
    assert_eq!(read_word(&mut dev, REG_V3_MSB), (0x80 | 0x1D, 0x80));
    assert_eq!(read_word(&mut dev, 0x0C), (0, 0));
    assert_eq!(dev.register_byte(0x03), 0xFF);
    assert_eq!(dev.register_byte(0x10), 0xFF);
    // A write to a reading is acknowledged and lost.
    dev.start(false);
    dev.write(REG_V3_MSB);
    assert!(dev.write(0x00));
    assert_eq!(read_word(&mut dev, REG_V3_MSB), (0x80 | 0x1D, 0x80));
}

fn read_command(dev: &mut Am2320, start_addr: u8, count: u8) -> u16 {
    dev.start(false);
    dev.write(0x03);
    dev.write(start_addr);
    dev.write(count);
    dev.start(true);
    let _func = dev.read(true);
    let _byte_count = dev.read(true);
    (u16::from(dev.read(true)) << 8) | u16::from(dev.read(true))
}

#[test]
fn defaults_to_room_temperature_and_fifty_percent_humidity() {
    let mut dev = Am2320::new();
    assert_eq!(read_command(&mut dev, REG_TEMPERATURE, 2), 250); // 25.0C -> 250 (0.1C units)
    assert_eq!(read_command(&mut dev, REG_HUMIDITY, 2), 500); // 50.0% -> 500 (0.1% units)
}

#[test]
fn negative_temperature_is_sign_magnitude_not_twos_complement() {
    let mut dev = Am2320::new();
    am2320_celsius(&mut dev, -5.3);
    let word = read_command(&mut dev, REG_TEMPERATURE, 2);
    assert_eq!(word, 0x8000 | 53, "sign bit set, magnitude 53 (5.3C in 0.1C units)");
}

#[test]
fn response_echoes_function_code_and_byte_count_first() {
    let mut dev = Am2320::new();
    dev.start(false);
    dev.write(0x03);
    dev.write(REG_HUMIDITY);
    dev.write(0x02);
    dev.start(true);
    assert_eq!(dev.read(true), 0x03);
    assert_eq!(dev.read(true), 0x04);
}

#[test]
fn a_wake_probe_is_harmless_and_does_not_desync_the_following_command() {
    let mut dev = Am2320::new();
    // 1-byte master-receive (wake), then 0-byte master-transmit (wake).
    dev.start(true);
    let _dummy = dev.read(true);
    dev.stop();
    dev.start(false);
    dev.stop();

    assert_eq!(read_command(&mut dev, REG_TEMPERATURE, 2), 250);
}

#[test]
fn am2320_large_values_overlong_commands_and_trailing_bytes() {
    let mut dev = Am2320::default();
    dev.set_celsius(false, 40_000);
    assert_eq!(read_command(&mut dev, REG_TEMPERATURE, 2), 0x7FFF);
    dev.set_celsius(true, 0);
    assert_eq!(read_command(&mut dev, REG_TEMPERATURE, 2), 0x8000);
    dev.set_humidity_percent(1000);
    assert_eq!(read_command(&mut dev, 0x07, 2), 1000, "any start but 2 is humidity");
    // A fourth byte does not reach the command.
    dev.start(false);
    for byte in [0x03, REG_TEMPERATURE, 0x02, 0x00] {
        assert!(dev.write(byte));
    }
    dev.start(true);
    let response: Vec<u8> = (0..7).map(|_| dev.read(true)).collect();
    assert_eq!(response, [0x03, 0x04, 0x80, 0x00, 0, 0, 0]);
    // Two bytes are no command: the selection stays.
    dev.start(false);
    dev.write(0x03);
    dev.write(REG_HUMIDITY);
    dev.start(true);
    let response: Vec<u8> = (0..4).map(|_| dev.read(true)).collect();
    assert_eq!(response, [0x03, 0x04, 0x80, 0x00]);
}

#[test]
fn defaults_to_all_pins_released_high() {
    let mut dev = Pcf8574::new();
    assert_eq!(dev.read(true), 0xFF);
}

#[test]
fn write_sets_the_output_latch_which_read_reflects() {
    let mut dev = Pcf8574::new();
    assert!(dev.write(0b1010_0101));
    assert_eq!(dev.read(true), 0b1010_0101);
}

#[test]
fn externally_held_low_bits_read_low_regardless_of_output_latch() {
    let mut dev = Pcf8574::new();
    dev.write(0xFF); // all released
    dev.set_external_low(0b0000_0001); // e.g. a button on bit 0
    assert_eq!(dev.read(true), 0b1111_1110);
}

#[test]
fn a_driven_low_output_bit_wins_over_external_state() {
    let mut dev = Pcf8574::new();
    dev.write(0b1111_1110); // bit 0 driven low by the master
    dev.set_external_low(0b0000_0000); // nothing external pulling anything
    assert_eq!(dev.read(true), 0b1111_1110);
}

#[test]
fn pcf8574_always_acks_its_address() {
    let mut dev = Pcf8574::new();
    assert!(dev.start(false));
    assert!(dev.start(true));
}
