//! CPLDIcy I2C card: a PCF8584 bus controller behind a Zorro II window,
//! with a virtual I2C bus of peripherals on it, proved to do what its
//! contracts say.
//!
//! - [`pcf8584`]: the chip, its registers and its transactions;
//! - [`i2c`]: the bus that the chip drives, and what a device on it is;
//! - [`devices`] and [`fan`]: the devices, over [`bcd`] and [`numeric`];
//! - [`bus_device`]: the devices that a board can carry, as one type;
//! - [`board`]: the window, the chip, the bus and its devices together;
//! - [`transactions`] and [`readings`]: what a driver achieves through the
//!   window, and what it gets to see of each device, as laws;
//! - [`rtc_time`], [`scenario`] and [`host`]: times, scripts and settings,
//!   read from text with [`text`].
//!
//! Every operation is stated over views ([`board::BoardView`] for the board)
//! as a function of what was before, so that the same calls always give the
//! same outcome. Sensor readings are integers in the units of their chips.

pub mod bcd;
pub mod board;
pub mod bus_device;
pub mod devices;
pub mod fan;
pub mod host;
pub mod i2c;
pub mod numeric;
pub mod pcf8584;
pub mod readings;
pub mod rtc_time;
pub mod scenario;
pub mod text;
pub mod transactions;
