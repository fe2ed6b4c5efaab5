//! The two compensated sensors.

use cpldicy_plugin::devices::bme680::{self, Bme680};
use cpldicy_plugin::devices::bmp280::{self, Bmp280};
use cpldicy_plugin::i2c::I2cDevice;

fn centidegrees(celsius: f32) -> i64 {
    (celsius * 100.0).round() as i64
}

fn pascals(hpa: f32) -> i64 {
    (hpa * 100.0).round() as i64
}

fn humidity(percent: f32) -> i64 {
    (f64::from(percent) * 65536.0).round() as i64
}

fn bme680_reg(dev: &mut Bme680, reg: u8) -> u8 {
    dev.start(false);
    dev.write(reg);
    dev.start(true);
    dev.read(true)
}

#[test]
fn bme680_set_celsius_round_trips_through_the_real_compensation_formula() {
    let mut dev = Bme680::new();
    dev.set_celsius(centidegrees(25.0));
    let (_, t) = bme680::compensate_temp(dev.par_t1, dev.par_t2, dev.par_t3, dev.adc_t);
    assert!((t - 2500).abs() <= 1, "expected ~25.00C, got {t}");
}

#[test]
fn bme680_set_pressure_hpa_round_trips_through_the_real_compensation_formula() {
    let mut dev = Bme680::new();
    dev.set_celsius(centidegrees(25.0));
    dev.set_pressure_hpa(pascals(1013.25));
    let (t_fine, _) = dev.temp_fine_and_centidegrees();
    let p_pa = bme680::compensate_pressure(dev.par_p1, dev.par_p, t_fine, dev.adc_p);
    assert!((p_pa - 101_325).abs() <= 100, "expected ~101325 Pa, got {p_pa}");
}

#[test]
fn set_humidity_percent_round_trips_through_the_real_compensation_formula() {
    let mut dev = Bme680::new();
    dev.set_celsius(centidegrees(25.0));
    dev.set_humidity_percent(humidity(45.0));
    let (_, t_centi) = dev.temp_fine_and_centidegrees();
    let h = bme680::compensate_humidity(dev.par_h, t_centi, dev.hum_adc);
    let percent = h as f64 / 65536.0;
    assert!((percent - 45.0).abs() <= 0.1, "expected ~45.0%, got {percent}");
}

#[test]
fn humidity_calibration_nibble_packing_round_trips() {
    let mut dev = Bme680::new();
    // par_h1/par_h2 are 12-bit unsigned, packed across regs 0xE1-0xE3.
    let e1 = u32::from(bme680_reg(&mut dev, 0xE1));
    let e2 = u32::from(bme680_reg(&mut dev, 0xE2));
    let e3 = u32::from(bme680_reg(&mut dev, 0xE3));
    let par_h1 = (e3 << 4) + (e2 & 0xF);
    let par_h2 = (e1 << 4) + (e2 >> 4);
    assert_eq!(par_h1 as i32, dev.par_h[0]);
    assert_eq!(par_h2 as i32, dev.par_h[1]);
}

#[test]
fn bme680_compensate_temp_is_monotonic_across_the_full_adc_range() {
    let dev = Bme680::new();
    let mut last = bme680::compensate_temp(dev.par_t1, dev.par_t2, dev.par_t3, 0).1;
    for adc_t in (0..=0xFFFFFu32).step_by(4096) {
        let t = bme680::compensate_temp(dev.par_t1, dev.par_t2, dev.par_t3, adc_t).1;
        assert!(t >= last, "compensate_temp decreased at adc_t={adc_t}");
        last = t;
    }
}

#[test]
fn compensate_pressure_is_monotonic_across_the_full_adc_range() {
    let dev = Bme680::new();
    let (t_fine, _) = dev.temp_fine_and_centidegrees();
    let mut last = bme680::compensate_pressure(dev.par_p1, dev.par_p, t_fine, 0);
    let mut decreased_at_least_once = false;
    for adc_p in (0..=0xFFFFFu32).step_by(4096) {
        let p = bme680::compensate_pressure(dev.par_p1, dev.par_p, t_fine, adc_p);
        assert!(p <= last, "compensate_pressure increased at adc_p={adc_p}");
        decreased_at_least_once |= p < last;
        last = p;
    }
    assert!(decreased_at_least_once);
}

#[test]
fn compensate_humidity_is_monotonic_across_the_full_adc_range() {
    let dev = Bme680::new();
    let (_, t_centi) = dev.temp_fine_and_centidegrees();
    let mut last = bme680::compensate_humidity(dev.par_h, t_centi, 0);
    for hum_adc in (0..=0xFFFFu32).step_by(256) {
        let h = bme680::compensate_humidity(dev.par_h, t_centi, hum_adc);
        assert!(h >= last, "compensate_humidity decreased at hum_adc={hum_adc}");
        last = h;
    }
}

#[test]
fn bme680_temperature_adc_registers_are_20_bit_msb_first() {
    let mut dev = Bme680::new();
    dev.adc_t = 0x8_1234;
    assert_eq!(bme680_reg(&mut dev, 0x22), 0x81);
    assert_eq!(bme680_reg(&mut dev, 0x23), 0x23);
    assert_eq!(bme680_reg(&mut dev, 0x24), 0x40);
}

#[test]
fn bme680_writes_are_accepted_but_do_not_change_any_reading() {
    let mut dev = Bme680::new();
    dev.set_celsius(centidegrees(25.0));
    let before = bme680_reg(&mut dev, 0x22);
    dev.start(false);
    dev.write(0x74); // ctrl_meas
    assert!(dev.write(0x25));
    assert_eq!(bme680_reg(&mut dev, 0x22), before);
}

#[test]
fn bme680_registers_hold_the_calibration_and_the_counts() {
    let mut dev = Bme680::default();
    let word = |lo: u8, hi: u8| u16::from(lo) | (u16::from(hi) << 8);
    let (lo, hi) = (bme680_reg(&mut dev, 0xE9), bme680_reg(&mut dev, 0xEA));
    assert_eq!(word(lo, hi), 26000);
    let (lo, hi) = (bme680_reg(&mut dev, 0x8A), bme680_reg(&mut dev, 0x8B));
    assert_eq!(word(lo, hi), 26000);
    assert_eq!(bme680_reg(&mut dev, 0x8C), 3);
    let (lo, hi) = (bme680_reg(&mut dev, 0x8E), bme680_reg(&mut dev, 0x8F));
    assert_eq!(word(lo, hi), 34000);
    let (lo, hi) = (bme680_reg(&mut dev, 0x90), bme680_reg(&mut dev, 0x91));
    assert_eq!(word(lo, hi) as i16, -10685);
    assert_eq!(bme680_reg(&mut dev, 0x92), 88);
    assert_eq!(bme680_reg(&mut dev, 0x93), 0);
    let (lo, hi) = (bme680_reg(&mut dev, 0x96), bme680_reg(&mut dev, 0x97));
    assert_eq!(word(lo, hi) as i16, -7);
    assert_eq!(bme680_reg(&mut dev, 0x98) as i8, -20);
    assert_eq!(bme680_reg(&mut dev, 0x99), 100);
    let (lo, hi) = (bme680_reg(&mut dev, 0x9C), bme680_reg(&mut dev, 0x9D));
    assert_eq!(word(lo, hi), 6000);
    assert_eq!(bme680_reg(&mut dev, 0xA0), 30);
    assert_eq!(bme680_reg(&mut dev, 0xE1), 12);
    assert_eq!(bme680_reg(&mut dev, 0xE2), 0x84);
    assert_eq!(bme680_reg(&mut dev, 0xE3), 31);
    assert_eq!(bme680_reg(&mut dev, 0xE7), 120);
    dev.adc_p = 0xA_BCDE;
    dev.hum_adc = 0x1234;
    assert_eq!(bme680_reg(&mut dev, 0x1F), 0xAB);
    assert_eq!(bme680_reg(&mut dev, 0x20), 0xCD);
    assert_eq!(bme680_reg(&mut dev, 0x21), 0xE0);
    assert_eq!(bme680_reg(&mut dev, 0x25), 0x12);
    assert_eq!(bme680_reg(&mut dev, 0x26), 0x34);
    assert_eq!(bme680_reg(&mut dev, 0xD0), 0x00);
}

#[test]
fn bme680_formulas_give_known_values() {
    assert_eq!(bme680::compensate_temp(26000, 26000, 3, 0), (-659_674, -12_884));
    assert_eq!(bme680::compensate_temp(26000, 26000, 3, 0xFFFFF), (1_004_948, 19_628));
    let h = [500, 200, 0, 30, 20, 120, 30];
    assert_eq!(bme680::compensate_humidity(h, 2500, 8000), 0);
    assert_eq!(bme680::compensate_humidity(h, 2500, 30000), 1_321_656);
    assert_eq!(bme680::compensate_humidity(h, 19700, 65535), 6_553_600, "cut off at 100 %");
    let p = [-10685, 88, 20, -7, 100, -20, 6000, 5, 30];
    assert_eq!(bme680::compensate_pressure(0, p, 128_000, 500_000), 0, "a vanishing divisor");
}

#[test]
fn bme680_settings_out_of_range_end_at_the_ends() {
    let mut dev = Bme680::new();
    dev.set_celsius(-1_000_000);
    assert_eq!(dev.adc_t, 0);
    dev.set_celsius(1_000_000);
    assert_eq!(dev.adc_t, 0xFFFFF);
    dev.set_humidity_percent(-5);
    assert_eq!(dev.hum_adc, 0);
    dev.set_celsius(0);
    dev.set_humidity_percent(humidity(99.0));
    assert_eq!(dev.hum_adc, 0xFFFF, "not reached at this temperature");
}

fn bmp280_reg(dev: &mut Bmp280, reg: u8) -> u8 {
    dev.start(false);
    dev.write(reg);
    dev.start(true);
    dev.read(true)
}

fn bmp280_le16(dev: &mut Bmp280, reg: u8) -> u16 {
    u16::from(bmp280_reg(dev, reg)) | (u16::from(bmp280_reg(dev, reg + 1)) << 8)
}

#[test]
fn calibration_registers_round_trip_the_fixed_coefficients() {
    let mut dev = Bmp280::new();
    assert_eq!(bmp280_le16(&mut dev, 0x88), dev.dig_t1);
    assert_eq!(bmp280_le16(&mut dev, 0x8A) as i16, dev.dig_t2);
    assert_eq!(bmp280_le16(&mut dev, 0x8C) as i16, dev.dig_t3);
    assert_eq!(bmp280_le16(&mut dev, 0x8E), dev.dig_p1);
    for (i, &expected) in dev.dig_p.to_vec().iter().enumerate() {
        assert_eq!(bmp280_le16(&mut dev, 0x90 + 2 * i as u8) as i16, expected);
    }
}

#[test]
fn bmp280_set_celsius_round_trips_through_the_real_compensation_formula() {
    let mut dev = Bmp280::new();
    dev.set_celsius(centidegrees(25.0));
    let (_, t) = bmp280::compensate_temp(dev.dig_t1, dev.dig_t2, dev.dig_t3, dev.adc_t);
    assert!((t - 2500).abs() <= 1, "expected ~25.00C (2500 in 0.01C units), got {t}");

    dev.set_celsius(centidegrees(-10.0));
    let (_, t) = bmp280::compensate_temp(dev.dig_t1, dev.dig_t2, dev.dig_t3, dev.adc_t);
    assert!((t - -1000).abs() <= 1, "expected ~-10.00C, got {t}");
}

#[test]
fn bmp280_set_pressure_hpa_round_trips_through_the_real_compensation_formula() {
    let mut dev = Bmp280::new();
    dev.set_celsius(centidegrees(25.0));
    dev.set_pressure_hpa(pascals(1013.25));
    let t_fine = bmp280::compensate_temp(dev.dig_t1, dev.dig_t2, dev.dig_t3, dev.adc_t).0;
    let p_pa = bmp280::compensate_pressure(dev.dig_p1, dev.dig_p, t_fine, dev.adc_p);
    assert!((p_pa - 101_325).abs() <= 100, "expected ~101325 Pa (1013.25 hPa), got {p_pa}");
}

#[test]
fn bmp280_temperature_adc_registers_are_20_bit_msb_first() {
    let mut dev = Bmp280::new();
    dev.adc_t = 0x8_1234;
    assert_eq!(bmp280_reg(&mut dev, 0xFA), 0x81);
    assert_eq!(bmp280_reg(&mut dev, 0xFB), 0x23);
    assert_eq!(bmp280_reg(&mut dev, 0xFC), 0x40);
}

#[test]
fn bmp280_compensate_temp_is_monotonic_across_the_full_adc_range() {
    let dev = Bmp280::new();
    let mut last = bmp280::compensate_temp(dev.dig_t1, dev.dig_t2, dev.dig_t3, 0).1;
    for adc_t in (0..=0xFFFFFu32).step_by(4096) {
        let t = bmp280::compensate_temp(dev.dig_t1, dev.dig_t2, dev.dig_t3, adc_t).1;
        assert!(t >= last, "compensate_temp decreased at adc_t={adc_t}");
        last = t;
    }
}

#[test]
fn bmp280_writes_are_accepted_but_do_not_change_any_reading() {
    let mut dev = Bmp280::new();
    dev.set_celsius(centidegrees(25.0));
    let before = bmp280_reg(&mut dev, 0xFA);
    dev.start(false);
    dev.write(0xF4); // ctrl_meas
    assert!(dev.write(0x6F)); // ACKed
    assert_eq!(bmp280_reg(&mut dev, 0xFA), before);
}

#[test]
fn bmp280_every_pressure_in_range_is_met_to_within_six_pascals() {
    let mut dev = Bmp280::new();
    for target in (30_000..=110_000).step_by(777) {
        dev.set_pressure_hpa(target);
        let t_fine = bmp280::compensate_temp(dev.dig_t1, dev.dig_t2, dev.dig_t3, dev.adc_t).0;
        let got = bmp280::compensate_pressure(dev.dig_p1, dev.dig_p, t_fine, dev.adc_p);
        assert!((got - target).abs() <= 6, "asked {target}, got {got}");
    }
}

#[test]
fn bmp280_datasheet_example() {
    // The compensation example of the data sheet: 25.08 degrees.
    assert_eq!(bmp280::compensate_temp(27504, 26435, -1000, 519_888), (128_422, 2508));
    let p = [-10685, 3024, 2855, 140, -7, 15500, -14600, 6000];
    let pa = bmp280::compensate_pressure(36477, p, 128_422, 415_148);
    assert!((pa - 100_653).abs() <= 3, "got {pa}");
    assert_eq!(bmp280::compensate_pressure(0, p, 128_422, 415_148), 0);
}

#[test]
fn pressure_falls_as_the_count_rises() {
    let (low, high) = (Bmp280::new(), Bme680::new());
    for fine in [-400_000i64, 128_422, 200_000, 800_000] {
        let bmp = |count: u32| bmp280::compensate_pressure(low.dig_p1, low.dig_p, fine, count);
        let bme = |count: u32| bme680::compensate_pressure(high.par_p1, high.par_p, fine, count);
        for count in (0..0xFFFFFu32 - 64).step_by(101) {
            assert!(bmp(count + 10) <= bmp(count) && bmp(count + 64) < bmp(count));
            assert!(bme(count + 10) <= bme(count) && bme(count + 64) < bme(count));
        }
    }
    // Between these two counts the formula changes branch.
    let bmp = |count: u32| bmp280::compensate_pressure(low.dig_p1, low.dig_p, 200_000, count);
    assert_eq!(bmp(315_104), bmp(315_103) + 1);
    assert!(bmp(315_113) <= bmp(315_103));
}
