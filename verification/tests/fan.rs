//! The fan controller and its fan.

use cpldicy_plugin::fan::{
    Max31760, VirtualFan, MAX_RPM, RAMP_CCK_TOTAL, REG_PWMR, REG_PWMV, REG_TC1H, REG_TC1L,
    REG_TC2H, REG_TC2L, TACH_CONSTANT,
};
use cpldicy_plugin::i2c::I2cDevice;

fn write_reg(dev: &mut Max31760, reg: u8, value: u8) {
    dev.start(false);
    dev.write(reg);
    dev.write(value);
}

fn read_reg(dev: &mut Max31760, reg: u8) -> u8 {
    dev.start(false);
    dev.write(reg);
    dev.start(true);
    dev.read(true)
}

#[test]
fn pwmv_write_and_read_round_trip() {
    let mut dev = Max31760::new();
    write_reg(&mut dev, REG_PWMV, 0x80);
    assert_eq!(read_reg(&mut dev, REG_PWMV), 0x80);
}

#[test]
fn a_stopped_fan_reports_zero_rpm_and_no_signal_tach() {
    let dev = Max31760::new();
    assert_eq!(dev.fan().rpm(), 0);
    assert_eq!(dev.fan().tach_count(), 0xFFFF);
}

#[test]
fn spinning_up_is_gradual_not_instantaneous() {
    let mut dev = Max31760::new();
    write_reg(&mut dev, REG_PWMV, 0xFF); // full duty
    dev.tick(RAMP_CCK_TOTAL / 10);
    let partial_rpm = dev.fan().rpm();
    assert!(partial_rpm > 0, "should have started spinning up");
    assert!(partial_rpm < MAX_RPM, "shouldn't be at full speed yet");
}

#[test]
fn full_duty_converges_to_max_rpm_and_the_tach_registers_reflect_it() {
    let mut dev = Max31760::new();
    write_reg(&mut dev, REG_PWMV, 0xFF);
    dev.tick(RAMP_CCK_TOTAL * 2); // well past full ramp

    assert_eq!(dev.fan().rpm(), MAX_RPM);

    let expected_tach = (TACH_CONSTANT / MAX_RPM) as u16;
    let tc1h = read_reg(&mut dev, REG_TC1H);
    let tc1l = read_reg(&mut dev, REG_TC1L);
    let tach = (u16::from(tc1h) << 8) | u16::from(tc1l);
    assert_eq!(tach, expected_tach);
}

#[test]
fn stuck_rotor_fault_keeps_rpm_at_zero_regardless_of_duty() {
    let mut dev = Max31760::new();
    write_reg(&mut dev, REG_PWMV, 0xFF);
    dev.fan_mut().set_stuck(true);
    dev.tick(RAMP_CCK_TOTAL * 2);

    assert_eq!(dev.fan().rpm(), 0);
    assert_eq!(dev.fan().tach_count(), 0xFFFF);
}

#[test]
fn fan_spins_down_gradually_when_duty_drops() {
    let mut dev = Max31760::new();
    write_reg(&mut dev, REG_PWMV, 0xFF);
    dev.tick(RAMP_CCK_TOTAL * 2);
    assert_eq!(dev.fan().rpm(), MAX_RPM);

    write_reg(&mut dev, REG_PWMV, 0x00);
    dev.tick(RAMP_CCK_TOTAL / 10);
    let spinning_down_rpm = dev.fan().rpm();
    assert!(spinning_down_rpm < MAX_RPM);
    assert!(spinning_down_rpm > 0);

    dev.tick(RAMP_CCK_TOTAL * 2);
    assert_eq!(dev.fan().rpm(), 0);
}

#[test]
fn the_ramp_moves_in_proportion_and_by_one_at_least() {
    let mut fan = VirtualFan::default();
    fan.set_duty(255);
    assert_eq!(fan.duty(), 255);
    fan.tick(1000);
    assert_eq!(fan.rpm(), 300);
    fan.tick(1);
    assert_eq!(fan.rpm(), 301);
    fan.tick(0);
    assert_eq!(fan.rpm(), 302);
    fan.set_duty(128);
    fan.tick(RAMP_CCK_TOTAL);
    assert_eq!(fan.rpm(), 1505);
    assert_eq!(fan.tach_count(), 1993);
}

#[test]
fn a_seized_rotor_stops_at_once_and_spins_up_again_when_freed() {
    let mut dev = Max31760::default();
    write_reg(&mut dev, REG_PWMV, 0xFF);
    dev.tick(RAMP_CCK_TOTAL);
    dev.fan_mut().set_stuck(true);
    assert_eq!(dev.fan().rpm(), 0);
    dev.fan_mut().set_stuck(false);
    dev.tick(1000);
    assert_eq!(dev.fan().rpm(), 300);
}

#[test]
fn slow_fans_and_both_tach_pairs() {
    let mut dev = Max31760::new();
    dev.fan_mut().set_duty(1);
    dev.tick(RAMP_CCK_TOTAL);
    assert_eq!(dev.fan().rpm(), 11);
    assert_eq!(dev.fan().tach_count(), 0xFFFF, "too few pulses to count");
    write_reg(&mut dev, REG_PWMR, 0x21);
    assert_eq!(read_reg(&mut dev, REG_PWMR), 0x21);
    write_reg(&mut dev, REG_PWMV, 0xFF);
    dev.tick(RAMP_CCK_TOTAL);
    assert_eq!(read_reg(&mut dev, REG_TC2H), read_reg(&mut dev, REG_TC1H));
    assert_eq!(read_reg(&mut dev, REG_TC2L), read_reg(&mut dev, REG_TC1L));
    write_reg(&mut dev, 0x00, 0x99);
    assert_eq!(read_reg(&mut dev, 0x00), 0x00);
}
