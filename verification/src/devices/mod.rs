//! The devices that can sit on the bus.

pub mod am2320;
pub mod bme680;
pub mod bmp280;
pub mod compensation;
pub mod ds1307;
pub mod ds1629;
pub mod eeprom24;
pub mod hd44780_pcf8574;
pub mod lm75;
pub mod ltc2990;
pub mod pcf8574;
pub mod pcf8583;
pub mod r2025;
