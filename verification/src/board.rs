//! The board: a PCF8584 behind a Zorro II window, the bus that it drives,
//! and the devices that a configuration fits to that bus.
//!
//! The window decodes next to nothing. Address bit A1 is the chip's register
//! select, so the two registers repeat every four bytes; the chip's data bus
//! sits on the upper byte lane only, so odd addresses never reach it: they
//! read 0xFF, and writes to them are lost.

use crate::bus_device::{
    bus_view, kind_name, lemma_bus_read, lemma_bus_start, lemma_bus_stop, lemma_bus_write,
    view_addresses, BusDevice, BusView, DeviceView, Kind,
};
use crate::devices::am2320::{Am2320, AM2320_ADDRESS};
use crate::devices::bme680::{self, Bme680, BME680_ADDRESS};
use crate::devices::bmp280::{self, Bmp280, BMP280_ADDRESS};
use crate::devices::ds1307::{self, Ds1307, DS1307_ADDRESS};
use crate::devices::ds1629::{self, Ds1629, DS1629_ADDRESS};
use crate::devices::eeprom24::{Eeprom24, EepromView};
use crate::devices::hd44780_pcf8574::{
    Hd44780Pcf8574, LcdView, HD44780_PCF8574_DEFAULT_ADDRESS,
};
use crate::devices::lm75::Lm75;
use crate::devices::ltc2990::Ltc2990;
use crate::devices::pcf8574::Pcf8574;
use crate::devices::pcf8583::{self, Pcf8583};
use crate::devices::r2025::{self, R2025, R2025_ADDRESS};
use crate::fan::{Max31760, MAX31760_ADDRESS};
use crate::i2c::{I2cBus, I2cBusEngine, I2cDevice};
use crate::numeric::{crossing, nearest};
use crate::pcf8584::{Pcf8584, Pending};
use crate::rtc_time::WallClock;
use crate::text::{chars_of, spells};
use vstd::prelude::*;
use vstd::string::*;

verus! {

/// What an address that the board does not drive reads as.
pub const OPEN_BUS_BYTE: u8 = 0xFF;

/// Which devices are fitted, and where.
pub struct BoardConfig {
    pub pcf8574_enabled: bool,
    pub pcf8574_address: u8,
    pub eeprom_enabled: bool,
    pub eeprom_address: u8,
    pub eeprom_size: usize,
    pub eeprom_image: Option<Vec<u8>>,
    pub lm75_enabled: bool,
    pub lm75_address: u8,
    pub ltc2990_enabled: bool,
    pub ltc2990_address: u8,
    pub pcf8583_enabled: bool,
    /// By default that of the fan controller: to fit both, move one.
    pub pcf8583_address: u8,
    pub pcf8583_time: Option<WallClock>,
    pub ds1307_enabled: bool,
    pub ds1307_time: Option<WallClock>,
    pub ds1629_enabled: bool,
    pub ds1629_time: Option<WallClock>,
    pub r2025_enabled: bool,
    pub r2025_time: Option<WallClock>,
    pub lcd_enabled: bool,
    pub lcd_address: u8,
    pub lcd_columns: usize,
    pub bmp280_enabled: bool,
    pub bme680_enabled: bool,
    pub am2320_enabled: bool,
    pub fan_enabled: bool,
    pub fan_address: u8,
}

impl BoardConfig {
    /// The port expander, the voltage monitor and the fan controller are
    /// fitted; the rest is not.
    pub open spec fn defaults() -> Self {
        BoardConfig {
            pcf8574_enabled: true,
            pcf8574_address: 0x20,
            eeprom_enabled: false,
            eeprom_address: 0x54,
            eeprom_size: 4096,
            eeprom_image: None,
            lm75_enabled: false,
            lm75_address: 0x48,
            ltc2990_enabled: true,
            ltc2990_address: 0x4C,
            pcf8583_enabled: false,
            pcf8583_address: 0x50,
            pcf8583_time: None,
            ds1307_enabled: false,
            ds1307_time: None,
            ds1629_enabled: false,
            ds1629_time: None,
            r2025_enabled: false,
            r2025_time: None,
            lcd_enabled: false,
            lcd_address: HD44780_PCF8574_DEFAULT_ADDRESS,
            lcd_columns: 16,
            bmp280_enabled: false,
            bme680_enabled: false,
            am2320_enabled: false,
            fan_enabled: true,
            fan_address: MAX31760_ADDRESS,
        }
    }

    /// A board can be built: a memory has a size, and a clock is given a
    /// time whose month exists and that has a day of the week.
    pub open spec fn buildable(self) -> bool {
        &&& self.eeprom_enabled ==> self.eeprom_size > 0
        &&& self.pcf8583_enabled && self.pcf8583_time is Some ==> datable(self.pcf8583_time.unwrap())
        &&& self.ds1307_enabled && self.ds1307_time is Some ==> dated(self.ds1307_time.unwrap())
        &&& self.ds1629_enabled && self.ds1629_time is Some ==> dated(self.ds1629_time.unwrap())
        &&& self.r2025_enabled && self.r2025_time is Some ==> datable(self.r2025_time.unwrap())
    }
}

/// A time whose month exists.
pub open spec fn datable(w: WallClock) -> bool {
    1 <= w.month <= 12
}

/// A time whose month exists and that has a day of the week.
pub open spec fn dated(w: WallClock) -> bool {
    datable(w) && w.weekday() <= 6
}

impl Default for BoardConfig {
    fn default() -> (config: Self)
        ensures
            config == BoardConfig::defaults(),
    {
        BoardConfig {
            pcf8574_enabled: true,
            pcf8574_address: 0x20,
            eeprom_enabled: false,
            eeprom_address: 0x54,
            eeprom_size: 4096,
            eeprom_image: None,
            lm75_enabled: false,
            lm75_address: 0x48,
            ltc2990_enabled: true,
            ltc2990_address: 0x4C,
            pcf8583_enabled: false,
            pcf8583_address: 0x50,
            pcf8583_time: None,
            ds1307_enabled: false,
            ds1307_time: None,
            ds1629_enabled: false,
            ds1629_time: None,
            r2025_enabled: false,
            r2025_time: None,
            lcd_enabled: false,
            lcd_address: HD44780_PCF8574_DEFAULT_ADDRESS,
            lcd_columns: 16,
            bmp280_enabled: false,
            bme680_enabled: false,
            am2320_enabled: false,
            fan_enabled: true,
            fan_address: MAX31760_ADDRESS,
        }
    }
}

/// A time as the PCF8583 keeps it: two bits of year, Sunday 0.
pub open spec fn pcf8583_time(w: WallClock) -> pcf8583::DateTime {
    pcf8583::DateTime {
        year_low2: (w.year % 4) as u8,
        month: w.month,
        date: w.date,
        weekday: w.weekday() as u8,
        hour: w.hour,
        minute: w.minute,
        second: w.second,
        hundredths: 0,
    }
}

/// A time as the PCF8583 keeps it: two bits of year, Sunday 0.
pub fn pcf8583_datetime(w: &WallClock) -> (time: pcf8583::DateTime)
    requires
        1 <= w.month <= 12,
    ensures
        time == pcf8583_time(*w),
{
    pcf8583::DateTime {
        year_low2: (w.year % 4) as u8,
        month: w.month,
        date: w.date,
        weekday: w.weekday_sun0(),
        hour: w.hour,
        minute: w.minute,
        second: w.second,
        hundredths: 0,
    }
}

/// A time as the DS1307 keeps it: two digits of year, Sunday 1.
pub open spec fn ds1307_time(w: WallClock) -> ds1307::DateTime {
    ds1307::DateTime {
        year: (w.year % 100) as u8,
        month: w.month,
        date: w.date,
        weekday: (w.weekday() + 1) as u8,
        hour: w.hour,
        minute: w.minute,
        second: w.second,
    }
}

/// A time as the DS1307 keeps it: two digits of year, Sunday 1.
pub fn ds1307_datetime(w: &WallClock) -> (time: ds1307::DateTime)
    requires
        1 <= w.month <= 12,
        w.weekday() <= 6,
    ensures
        time == ds1307_time(*w),
{
    ds1307::DateTime {
        year: (w.year % 100) as u8,
        month: w.month,
        date: w.date,
        weekday: w.weekday_sun0() + 1,
        hour: w.hour,
        minute: w.minute,
        second: w.second,
    }
}

/// A time as the DS1629 keeps it: two digits of year, Sunday 1.
pub open spec fn ds1629_time(w: WallClock) -> ds1629::DateTime {
    ds1629::DateTime {
        year: (w.year % 100) as u8,
        month: w.month,
        date: w.date,
        weekday: (w.weekday() + 1) as u8,
        hour: w.hour,
        minute: w.minute,
        second: w.second,
    }
}

/// A time as the DS1629 keeps it: two digits of year, Sunday 1.
pub fn ds1629_datetime(w: &WallClock) -> (time: ds1629::DateTime)
    requires
        1 <= w.month <= 12,
        w.weekday() <= 6,
    ensures
        time == ds1629_time(*w),
{
    ds1629::DateTime {
        year: (w.year % 100) as u8,
        month: w.month,
        date: w.date,
        weekday: w.weekday_sun0() + 1,
        hour: w.hour,
        minute: w.minute,
        second: w.second,
    }
}

/// A time as the R2025 keeps it: two digits of year, Sunday 0.
pub open spec fn r2025_time(w: WallClock) -> r2025::DateTime {
    r2025::DateTime {
        year: (w.year % 100) as u8,
        month: w.month,
        date: w.date,
        weekday: w.weekday() as u8,
        hour: w.hour,
        minute: w.minute,
        second: w.second,
    }
}

/// A time as the R2025 keeps it: two digits of year, Sunday 0.
pub fn r2025_datetime(w: &WallClock) -> (time: r2025::DateTime)
    requires
        1 <= w.month <= 12,
    ensures
        time == r2025_time(*w),
{
    r2025::DateTime {
        year: (w.year % 100) as u8,
        month: w.month,
        date: w.date,
        weekday: w.weekday_sun0(),
        hour: w.hour,
        minute: w.minute,
        second: w.second,
    }
}

/// Where on the bus each device sits; none for a device that is not fitted.
#[derive(Clone, Copy, Debug, PartialEq, Eq, Structural)]
pub struct Slots {
    pub pcf8574: Option<usize>,
    pub eeprom: Option<usize>,
    pub lm75: Option<usize>,
    pub ltc2990: Option<usize>,
    pub pcf8583: Option<usize>,
    pub ds1307: Option<usize>,
    pub ds1629: Option<usize>,
    pub r2025: Option<usize>,
    pub lcd: Option<usize>,
    pub bmp280: Option<usize>,
    pub bme680: Option<usize>,
    pub am2320: Option<usize>,
    pub fan: Option<usize>,
}

impl Slots {
    /// Nothing fitted.
    pub open spec fn none() -> Self {
        Slots {
            pcf8574: None,
            eeprom: None,
            lm75: None,
            ltc2990: None,
            pcf8583: None,
            ds1307: None,
            ds1629: None,
            r2025: None,
            lcd: None,
            bmp280: None,
            bme680: None,
            am2320: None,
            fan: None,
        }
    }

    /// Where a device sits.
    pub open spec fn of(self, kind: Kind) -> Option<usize> {
        match kind {
            Kind::Pcf8574 => self.pcf8574,
            Kind::Eeprom => self.eeprom,
            Kind::Lm75 => self.lm75,
            Kind::Ltc2990 => self.ltc2990,
            Kind::Pcf8583 => self.pcf8583,
            Kind::Ds1307 => self.ds1307,
            Kind::Ds1629 => self.ds1629,
            Kind::R2025 => self.r2025,
            Kind::Lcd => self.lcd,
            Kind::Bmp280 => self.bmp280,
            Kind::Bme680 => self.bme680,
            Kind::Am2320 => self.am2320,
            Kind::Fan => self.fan,
        }
    }

    /// The slots with a device put in place `i`.
    pub open spec fn with(self, kind: Kind, i: usize) -> Self {
        match kind {
            Kind::Pcf8574 => Slots { pcf8574: Some(i), ..self },
            Kind::Eeprom => Slots { eeprom: Some(i), ..self },
            Kind::Lm75 => Slots { lm75: Some(i), ..self },
            Kind::Ltc2990 => Slots { ltc2990: Some(i), ..self },
            Kind::Pcf8583 => Slots { pcf8583: Some(i), ..self },
            Kind::Ds1307 => Slots { ds1307: Some(i), ..self },
            Kind::Ds1629 => Slots { ds1629: Some(i), ..self },
            Kind::R2025 => Slots { r2025: Some(i), ..self },
            Kind::Lcd => Slots { lcd: Some(i), ..self },
            Kind::Bmp280 => Slots { bmp280: Some(i), ..self },
            Kind::Bme680 => Slots { bme680: Some(i), ..self },
            Kind::Am2320 => Slots { am2320: Some(i), ..self },
            Kind::Fan => Slots { fan: Some(i), ..self },
        }
    }

    fn empty() -> (slots: Self)
        ensures
            slots == Self::none(),
    {
        Slots {
            pcf8574: None,
            eeprom: None,
            lm75: None,
            ltc2990: None,
            pcf8583: None,
            ds1307: None,
            ds1629: None,
            r2025: None,
            lcd: None,
            bmp280: None,
            bme680: None,
            am2320: None,
            fan: None,
        }
    }

    fn set(&mut self, kind: Kind, i: usize)
        ensures
            *final(self) == old(self).with(kind, i),
    {
        match kind {
            Kind::Pcf8574 => {
                self.pcf8574 = Some(i);
            },
            Kind::Eeprom => {
                self.eeprom = Some(i);
            },
            Kind::Lm75 => {
                self.lm75 = Some(i);
            },
            Kind::Ltc2990 => {
                self.ltc2990 = Some(i);
            },
            Kind::Pcf8583 => {
                self.pcf8583 = Some(i);
            },
            Kind::Ds1307 => {
                self.ds1307 = Some(i);
            },
            Kind::Ds1629 => {
                self.ds1629 = Some(i);
            },
            Kind::R2025 => {
                self.r2025 = Some(i);
            },
            Kind::Lcd => {
                self.lcd = Some(i);
            },
            Kind::Bmp280 => {
                self.bmp280 = Some(i);
            },
            Kind::Bme680 => {
                self.bme680 = Some(i);
            },
            Kind::Am2320 => {
                self.am2320 = Some(i);
            },
            Kind::Fan => {
                self.fan = Some(i);
            },
        }
    }
}

/// A list of devices and addresses, with one more if it is fitted.
pub open spec fn fit_if(list: Seq<(Kind, u8)>, fitted: bool, kind: Kind, address: u8) -> Seq<
    (Kind, u8),
> {
    if fitted {
        list.push((kind, address))
    } else {
        list
    }
}

/// A list with the port expander, the memory and the two monitors that a
/// configuration fits behind it.
pub open spec fn fitted_ports(s: Seq<(Kind, u8)>, config: BoardConfig) -> Seq<(Kind, u8)> {
    let s = fit_if(s, config.pcf8574_enabled, Kind::Pcf8574, config.pcf8574_address);
    let s = fit_if(s, config.eeprom_enabled, Kind::Eeprom, config.eeprom_address);
    let s = fit_if(s, config.lm75_enabled, Kind::Lm75, config.lm75_address);
    let s = fit_if(s, config.ltc2990_enabled, Kind::Ltc2990, config.ltc2990_address);
    s
}

/// A list with the clocks that a configuration fits behind it.
pub open spec fn fitted_clocks(s: Seq<(Kind, u8)>, config: BoardConfig) -> Seq<(Kind, u8)> {
    let s = fit_if(s, config.pcf8583_enabled, Kind::Pcf8583, config.pcf8583_address);
    let s = fit_if(s, config.ds1307_enabled, Kind::Ds1307, DS1307_ADDRESS);
    let s = fit_if(s, config.ds1629_enabled, Kind::Ds1629, DS1629_ADDRESS);
    let s = fit_if(s, config.r2025_enabled, Kind::R2025, R2025_ADDRESS);
    s
}

/// A list with the display, the environment sensors and the fan controller
/// that a configuration fits behind it.
pub open spec fn fitted_rest(s: Seq<(Kind, u8)>, config: BoardConfig) -> Seq<(Kind, u8)> {
    let s = fit_if(s, config.lcd_enabled, Kind::Lcd, config.lcd_address);
    let s = fit_if(s, config.bmp280_enabled, Kind::Bmp280, BMP280_ADDRESS);
    let s = fit_if(s, config.bme680_enabled, Kind::Bme680, BME680_ADDRESS);
    let s = fit_if(s, config.am2320_enabled, Kind::Am2320, AM2320_ADDRESS);
    let s = fit_if(s, config.fan_enabled, Kind::Fan, config.fan_address);
    s
}

/// The devices that a configuration fits, with their addresses, in the order
/// in which they are attached.
pub open spec fn fitted(config: BoardConfig) -> Seq<(Kind, u8)> {
    fitted_rest(fitted_clocks(fitted_ports(Seq::empty(), config), config), config)
}

/// A device is what the configuration makes of a new one of its kind.
pub open spec fn fresh(kind: Kind, config: BoardConfig, device: DeviceView) -> bool {
    match kind {
        Kind::Pcf8574 => device == DeviceView::Pcf8574(Pcf8574::power_on()),
        Kind::Eeprom => device == DeviceView::Eeprom(
            match config.eeprom_image {
                Some(image) => EepromView::blank(config.eeprom_size as nat).with_image(image@),
                None => EepromView::blank(config.eeprom_size as nat),
            },
        ),
        Kind::Lm75 => device == DeviceView::Lm75(Lm75::power_on()),
        Kind::Ltc2990 => device == DeviceView::Ltc2990(Ltc2990::power_on()),
        Kind::Pcf8583 => device == DeviceView::Pcf8583(
            match config.pcf8583_time {
                Some(w) => Pcf8583 { time: pcf8583_time(w), ..Pcf8583::power_on() },
                None => Pcf8583::power_on(),
            },
        ),
        Kind::Ds1307 => device == DeviceView::Ds1307(
            match config.ds1307_time {
                Some(w) => Ds1307 { time: ds1307_time(w), ..Ds1307::power_on() },
                None => Ds1307::power_on(),
            },
        ),
        Kind::Ds1629 => device == DeviceView::Ds1629(
            match config.ds1629_time {
                Some(w) => Ds1629 { time: ds1629_time(w), ..Ds1629::power_on() },
                None => Ds1629::power_on(),
            },
        ),
        Kind::R2025 => device == DeviceView::R2025(
            match config.r2025_time {
                Some(w) => R2025 { time: r2025_time(w), ..R2025::power_on() },
                None => R2025::power_on(),
            },
        ),
        Kind::Lcd => device == DeviceView::Lcd(LcdView::power_on()),
        Kind::Bmp280 => device matches DeviceView::Bmp280(d) && d.fresh(),
        Kind::Bme680 => device matches DeviceView::Bme680(d) && d.fresh(),
        Kind::Am2320 => device == DeviceView::Am2320(Am2320::power_on()),
        Kind::Fan => device == DeviceView::Fan(Max31760::power_on()),
    }
}

/// The board.
pub struct Board {
    pub pcf: Pcf8584,
    pub bus: I2cBusEngine<BusDevice>,
    pub slots: Slots,
    /// Name and address of each device fitted.
    pub device_addresses: Vec<(&'static str, u8)>,
    pub lcd_columns: usize,
    /// The LCD text reported last.
    pub lcd_last_lines: Option<[String; 2]>,
}

/// What a board holds.
#[verifier::ext_equal]
pub struct BoardView {
    pub pcf: Pcf8584,
    pub bus: BusView,
    pub slots: Slots,
    pub names: Seq<(Seq<char>, u8)>,
    pub lcd_columns: nat,
    pub lcd_last_lines: Option<(Seq<char>, Seq<char>)>,
}

impl View for Board {
    type V = BoardView;

    open spec fn view(&self) -> BoardView {
        BoardView {
            pcf: self.pcf,
            bus: bus_view(&self.bus),
            slots: self.slots,
            names: Seq::new(
                self.device_addresses@.len(),
                |i: int| (self.device_addresses@[i].0@, self.device_addresses@[i].1),
            ),
            lcd_columns: self.lcd_columns as nat,
            lcd_last_lines: match self.lcd_last_lines {
                Some(lines) => Some((lines@[0]@, lines@[1]@)),
                None => None,
            },
        }
    }
}

impl BoardView {
    /// Each device sits in the slot of its kind.
    pub open spec fn slots_hold(self) -> bool {
        forall|kind: Kind|
            (#[trigger] self.slots.of(kind)) matches Some(i) ==> i < self.bus.devices.len()
                && self.bus.devices[i as int].1.kind() == kind
    }

    /// The names are those of the devices, each with the address of its own.
    pub open spec fn names_hold(self) -> bool {
        &&& self.names.len() == self.bus.devices.len()
        &&& forall|i: int|
            0 <= i < self.names.len() ==> #[trigger] self.names[i] == (
                kind_name(self.bus.devices[i].1.kind()),
                self.bus.devices[i].0,
            )
    }

    /// The devices, names and slots are those of a list, new as the
    /// configuration makes them.
    pub open spec fn carries(self, list: Seq<(Kind, u8)>, config: BoardConfig) -> bool {
        &&& self.bus.devices.len() == list.len()
        &&& self.names.len() == list.len()
        &&& forall|i: int|
            #![trigger list[i]]
            0 <= i < list.len() ==> {
                &&& self.bus.devices[i].0 == list[i].1
                &&& fresh(list[i].0, config, self.bus.devices[i].1)
                &&& self.names[i] == (kind_name(list[i].0), list[i].1)
                &&& self.slots.of(list[i].0) == Some(i as usize)
            }
        &&& forall|kind: Kind|
            (#[trigger] self.slots.of(kind)) matches Some(i) ==> i < list.len() && list[i as int].0
                == kind
    }

    /// The same as `before` but for the devices, their names and slots.
    pub open spec fn same_but_devices(self, before: Self) -> bool {
        &&& self.pcf == before.pcf
        &&& self.bus.active == before.bus.active
        &&& self.bus.unplugged == before.bus.unplugged
        &&& self.lcd_columns == before.lcd_columns
        &&& self.lcd_last_lines == before.lcd_last_lines
    }

    /// A board as a configuration makes it: the chip at power-on, no
    /// transaction, nothing unplugged, no text reported.
    pub open spec fn configured(self, config: BoardConfig) -> bool {
        &&& self.pcf == Pcf8584::power_on()
        &&& self.bus.active is None
        &&& self.bus.unplugged == Set::<u8>::empty()
        &&& self.lcd_columns == config.lcd_columns
        &&& self.lcd_last_lines is None
        &&& self.carries(fitted(config), config)
    }
}

/// The address `i` places on, round the 32-bit address space.
pub open spec fn place(off: u32, i: nat) -> u32 {
    ((off + i) % 0x1_0000_0000) as u32
}

/// What the byte `k` places from the low end of a word counts for.
pub open spec fn unit(k: int) -> int {
    if k == 0 {
        1
    } else if k == 1 {
        0x100
    } else if k == 2 {
        0x1_0000
    } else {
        0x100_0000
    }
}

/// Byte `i` of the low `size` bytes of a word, counted from the high end.
pub open spec fn byte_of(value: u32, size: nat, i: nat) -> u8 {
    ((value as int / unit(size - 1 - i)) % 256) as u8
}

/// The chip and the bus after `cck` cycles for the chip: a phase that
/// completes is carried out on the bus.
pub open spec fn ticked(chip: Pcf8584, bus: BusView, cck: u32) -> (Pcf8584, BusView) {
    match chip.due(cck) {
        None => (chip.waiting(cck), bus),
        Some(Pending::Address { addr7, read }) => (
            chip.addressed(read, bus.selected(addr7) is Some),
            bus.after_start(addr7, read),
        ),
        Some(Pending::TxByte) => (
            chip.phase_over(bus.active is Some),
            bus.after_write(chip.s0_shift),
        ),
        Some(Pending::RxByte { ack }) => (
            chip.received(bus.output() as u8, ack),
            bus.after_read(),
        ),
    }
}

/// The address of the first device of that name.
pub open spec fn address_of(names: Seq<(Seq<char>, u8)>, name: Seq<char>) -> Option<u8>
    decreases names.len(),
{
    if names.len() == 0 {
        None
    } else if names[0].0 == name {
        Some(names[0].1)
    } else {
        address_of(names.drop_first(), name)
    }
}

impl BoardView {
    /// What the byte at an address reads as: nothing at an odd one, S1 where
    /// A1 is set, the A0 area where it is not.
    pub open spec fn byte_value(self, addr: u32) -> int {
        if addr % 2 == 1 {
            OPEN_BUS_BYTE as int
        } else if addr % 4 == 2 {
            self.pcf.status()
        } else {
            self.pcf.a0_value() as int
        }
    }

    /// The board after the byte at an address was read.
    pub open spec fn after_byte_read(self, addr: u32) -> Self {
        if addr % 4 == 0 {
            BoardView { pcf: self.pcf.after_a0_read(), ..self }
        } else {
            self
        }
    }

    /// The board after the byte at an address was written.
    pub open spec fn after_byte_write(self, addr: u32, value: u8) -> Self {
        if addr % 2 == 1 {
            self
        } else if addr % 4 == 2 {
            BoardView {
                pcf: self.pcf.after_control(value),
                bus: if Pcf8584::control_stops(value) {
                    self.bus.after_stop()
                } else {
                    self.bus
                },
                ..self
            }
        } else {
            BoardView { pcf: self.pcf.after_a0_write(value), ..self }
        }
    }

    /// The board after `n` bytes from `off` on were read, in order.
    pub open spec fn after_read(self, off: u32, n: nat) -> Self
        decreases n,
    {
        if n == 0 {
            self
        } else {
            let m = (n - 1) as nat;
            self.after_read(off, m).after_byte_read(place(off, m))
        }
    }

    /// The word that `n` bytes from `off` on make, high byte first; of more
    /// than four, the last four.
    pub open spec fn word_read(self, off: u32, n: nat) -> int
        decreases n,
    {
        if n == 0 {
            0
        } else {
            let m = (n - 1) as nat;
            (self.word_read(off, m) * 256 + self.after_read(off, m).byte_value(place(off, m)))
                % 0x1_0000_0000
        }
    }

    /// The board after the first `n` of the low `size` bytes of a word were
    /// written from `off` on, high byte first.
    pub open spec fn after_write(self, off: u32, size: nat, value: u32, n: nat) -> Self
        decreases n,
    {
        if n == 0 {
            self
        } else {
            let m = (n - 1) as nat;
            self.after_write(off, size, value, m).after_byte_write(
                place(off, m),
                byte_of(value, size, m),
            )
        }
    }

    /// The board after `cck` cycles: first for the chip, then for the
    /// devices.
    pub open spec fn after_tick(self, cck: u32) -> Self {
        let (pcf, bus) = ticked(self.pcf, self.bus, cck);
        BoardView { pcf, bus: bus.after_tick(cck), ..self }
    }

    /// The interrupt line.
    pub open spec fn int2(self) -> bool {
        self.pcf.interrupting()
    }

    /// The device of a kind, if it is fitted.
    pub open spec fn device(self, kind: Kind) -> Option<DeviceView> {
        match self.slots.of(kind) {
            Some(i) => Some(self.bus.devices[i as int].1),
            None => None,
        }
    }

    /// The board with another device in the slot of a kind.
    pub open spec fn with_device(self, kind: Kind, device: DeviceView) -> Self {
        match self.slots.of(kind) {
            Some(i) => BoardView { bus: self.bus.with_device(i as int, device), ..self },
            None => self,
        }
    }

    /// The board with its PCF8583 set to a time; the same board if it has none.
    pub open spec fn with_pcf8583_time(self, time: pcf8583::DateTime) -> Self {
        match self.device(Kind::Pcf8583) {
            Some(DeviceView::Pcf8583(d)) => self.with_device(
                Kind::Pcf8583,
                DeviceView::Pcf8583(Pcf8583 { time, ..d }),
            ),
            _ => self,
        }
    }

    /// The board with its DS1307 set to a time; the same board if it has none.
    pub open spec fn with_ds1307_time(self, time: ds1307::DateTime) -> Self {
        match self.device(Kind::Ds1307) {
            Some(DeviceView::Ds1307(d)) => self.with_device(
                Kind::Ds1307,
                DeviceView::Ds1307(Ds1307 { time, ..d }),
            ),
            _ => self,
        }
    }

    /// The board with its DS1629 set to a time; the same board if it has none.
    pub open spec fn with_ds1629_time(self, time: ds1629::DateTime) -> Self {
        match self.device(Kind::Ds1629) {
            Some(DeviceView::Ds1629(d)) => self.with_device(
                Kind::Ds1629,
                DeviceView::Ds1629(Ds1629 { time, ..d }),
            ),
            _ => self,
        }
    }

    /// The board with its R2025 set to a time; the same board if it has none.
    pub open spec fn with_r2025_time(self, time: r2025::DateTime) -> Self {
        match self.device(Kind::R2025) {
            Some(DeviceView::R2025(d)) => self.with_device(
                Kind::R2025,
                DeviceView::R2025(R2025 { time, ..d }),
            ),
            _ => self,
        }
    }

    /// The board with its AM2320 set to a temperature, by its sign and its
    /// size in tenths of a degree; the same board if it has none.
    pub open spec fn with_am2320_celsius(self, negative: bool, tenths: u16) -> Self {
        match self.device(Kind::Am2320) {
            Some(DeviceView::Am2320(d)) => self.with_device(
                Kind::Am2320,
                DeviceView::Am2320(Am2320 { negative, tenths, ..d }),
            ),
            _ => self,
        }
    }

    /// The board with its AM2320 set to a relative humidity, in tenths of a
    /// percent; the same board if it has none.
    pub open spec fn with_am2320_humidity(self, tenths: u16) -> Self {
        match self.device(Kind::Am2320) {
            Some(DeviceView::Am2320(d)) => self.with_device(
                Kind::Am2320,
                DeviceView::Am2320(Am2320 { humidity_tenths: tenths, ..d }),
            ),
            _ => self,
        }
    }

    /// The board with an address unplugged or plugged in again.
    pub open spec fn with_unplugged(self, addr7: u8, unplugged: bool) -> Self {
        BoardView { bus: self.bus.with_unplugged(addr7, unplugged), ..self }
    }

    /// A device of that name is fitted.
    pub open spec fn has_device(self, name: Seq<char>) -> bool {
        exists|i: int|
            0 <= i < self.bus.devices.len() && kind_name(
                (#[trigger] self.bus.devices[i]).1.kind(),
            ) == name
    }

    /// What the LCD shows, if one is fitted.
    pub open spec fn lcd_lines(self) -> Option<(Seq<char>, Seq<char>)> {
        match self.device(Kind::Lcd) {
            Some(DeviceView::Lcd(lcd)) => Some(
                (lcd.row(0, self.lcd_columns), lcd.row(1, self.lcd_columns)),
            ),
            _ => None,
        }
    }
}

/// The chip's tick, carried out on a bus, is its tick on what the bus holds.
proof fn lemma_chip_tick(
    chip: Pcf8584,
    bus: I2cBusEngine<BusDevice>,
    cck: u32,
    chip_after: Pcf8584,
    bus_after: I2cBusEngine<BusDevice>,
)
    requires
        bus.valid(),
        chip.on_tick(bus, cck, chip_after, bus_after),
    ensures
        (chip_after, bus_view(&bus_after)) == ticked(chip, bus_view(&bus), cck),
{
    match chip.due(cck) {
        None => {},
        Some(Pending::Address { addr7, read }) => {
            let ack = choose|ack: bool| #[trigger]
                bus.on_start(addr7, read, &bus_after, ack) && chip_after == chip.addressed(
                    read,
                    ack,
                );
            lemma_bus_start(&bus, addr7, read, &bus_after, ack);
        },
        Some(Pending::TxByte) => {
            let ack = choose|ack: bool| #[trigger]
                bus.on_write(chip.s0_shift, &bus_after, ack) && chip_after == chip.phase_over(ack);
            lemma_bus_write(&bus, chip.s0_shift, &bus_after, ack);
        },
        Some(Pending::RxByte { ack }) => {
            let byte = choose|byte: u8| #[trigger]
                bus.on_read(ack, &bus_after, byte) && chip_after == chip.received(byte, ack);
            lemma_bus_read(&bus, ack, &bus_after, byte);
        },
    }
}

/// A tick of the chip leaves every device in its place, at its address and
/// of its kind.
pub proof fn lemma_ticked_places(chip: Pcf8584, bus: BusView, cck: u32)
    requires
        bus.well_formed(),
    ensures
        ({
            let after = ticked(chip, bus, cck).1;
            &&& after.well_formed()
            &&& after.devices.len() == bus.devices.len()
            &&& after.unplugged == bus.unplugged
            &&& forall|i: int|
                #![trigger after.devices[i]]
                0 <= i < bus.devices.len() ==> after.devices[i].0 == bus.devices[i].0
                    && after.devices[i].1.kind() == bus.devices[i].1.kind()
        }),
{
    match chip.due(cck) {
        Some(Pending::Address { addr7, .. }) => {
            view_addresses(bus.devices).index_of_first_ensures(addr7);
        },
        _ => {},
    }
}

impl Board {
    /// What holds of a board between calls.
    pub open spec fn valid(&self) -> bool {
        self.bus.valid() && self@.slots_hold() && self@.names_hold()
    }

    /// Puts a device on the bus behind those already there.
    fn fit(
        &mut self,
        kind: Kind,
        address: u8,
        device: BusDevice,
        Ghost(list): Ghost<Seq<(Kind, u8)>>,
        Ghost(config): Ghost<BoardConfig>,
    )
        requires
            old(self).valid(),
            device.valid(),
            fresh(kind, config, device@),
            device@.kind() == kind,
            old(self)@.carries(list, config),
            old(self).slots.of(kind) is None,
        ensures
            final(self).valid(),
            final(self)@.carries(list.push((kind, address)), config),
            final(self).slots == old(self).slots.with(kind, list.len() as usize),
            final(self)@.same_but_devices(old(self)@),
    {
        let ghost before = self@;
        let slot: usize = self.bus.devices.len();
        self.slots.set(kind, slot);
        self.device_addresses.push((kind.name(), address));
        self.bus.attach(address, device);
        proof {
            let now = list.push((kind, address));
            assert(self@.bus.devices =~= before.bus.devices.push((address, device@)));
            assert(self@.names =~= before.names.push((kind_name(kind), address)));
            assert forall|i: int| #![trigger now[i]] 0 <= i < now.len() implies {
                &&& self@.bus.devices[i].0 == now[i].1
                &&& fresh(now[i].0, config, self@.bus.devices[i].1)
                &&& self@.names[i] == (kind_name(now[i].0), now[i].1)
                &&& self@.slots.of(now[i].0) == Some(i as usize)
            } by {
                if i < list.len() {
                    assert(list[i] == now[i]);
                    assert(list[i].0 != kind);
                }
            }
            assert forall|k: Kind| (#[trigger] self@.slots.of(k)) is Some implies {
                let i = self@.slots.of(k).unwrap();
                &&& i < now.len()
                &&& now[i as int].0 == k
                &&& self@.bus.devices[i as int].1.kind() == k
            } by {
                if k != kind {
                    assert(before.slots.of(k) == self@.slots.of(k));
                    let i = self@.slots.of(k).unwrap();
                    assert(now[i as int] == list[i as int]);
                }
            }
        }
    }

    /// A board with the default devices.
    pub fn new() -> (board: Self)
        ensures
            board.valid(),
            board@.configured(BoardConfig::defaults()),
    {
        Self::with_config(BoardConfig::default())
    }

    /// Fits the port expander, the memory and the two monitors.
    fn fit_ports(&mut self, config: &BoardConfig, Ghost(list): Ghost<Seq<(Kind, u8)>>)
        requires
            old(self).valid(),
            config.buildable(),
            old(self)@.carries(list, *config),
            old(self).slots.pcf8574 is None,
            old(self).slots.eeprom is None,
            old(self).slots.lm75 is None,
            old(self).slots.ltc2990 is None,
        ensures
            final(self).valid(),
            final(self)@.carries(fitted_ports(list, *config), *config),
            final(self)@.same_but_devices(old(self)@),
            final(self).slots.pcf8583 == old(self).slots.pcf8583,
            final(self).slots.ds1307 == old(self).slots.ds1307,
            final(self).slots.ds1629 == old(self).slots.ds1629,
            final(self).slots.r2025 == old(self).slots.r2025,
            final(self).slots.lcd == old(self).slots.lcd,
            final(self).slots.bmp280 == old(self).slots.bmp280,
            final(self).slots.bme680 == old(self).slots.bme680,
            final(self).slots.am2320 == old(self).slots.am2320,
            final(self).slots.fan == old(self).slots.fan,
    {
        let ghost mut s = list;
        if config.pcf8574_enabled {
            self.fit(
                Kind::Pcf8574,
                config.pcf8574_address,
                BusDevice::Pcf8574(Pcf8574::new()),
                Ghost(s),
                Ghost(*config),
            );
            proof {
                s = s.push((Kind::Pcf8574, config.pcf8574_address));
            }
        }
        if config.eeprom_enabled {
            let mut dev = Eeprom24::new(config.eeprom_size);
            if let Some(image) = &config.eeprom_image {
                dev.load_image(image.as_slice());
            }
            self.fit(
                Kind::Eeprom,
                config.eeprom_address,
                BusDevice::Eeprom(dev),
                Ghost(s),
                Ghost(*config),
            );
            proof {
                s = s.push((Kind::Eeprom, config.eeprom_address));
            }
        }
        if config.lm75_enabled {
            self.fit(
                Kind::Lm75,
                config.lm75_address,
                BusDevice::Lm75(Lm75::new()),
                Ghost(s),
                Ghost(*config),
            );
            proof {
                s = s.push((Kind::Lm75, config.lm75_address));
            }
        }
        if config.ltc2990_enabled {
            self.fit(
                Kind::Ltc2990,
                config.ltc2990_address,
                BusDevice::Ltc2990(Ltc2990::new()),
                Ghost(s),
                Ghost(*config),
            );
            proof {
                s = s.push((Kind::Ltc2990, config.ltc2990_address));
            }
        }
    }

    /// Fits the clocks.
    fn fit_clocks(&mut self, config: &BoardConfig, Ghost(list): Ghost<Seq<(Kind, u8)>>)
        requires
            old(self).valid(),
            config.buildable(),
            old(self)@.carries(list, *config),
            old(self).slots.pcf8583 is None,
            old(self).slots.ds1307 is None,
            old(self).slots.ds1629 is None,
            old(self).slots.r2025 is None,
        ensures
            final(self).valid(),
            final(self)@.carries(fitted_clocks(list, *config), *config),
            final(self)@.same_but_devices(old(self)@),
            final(self).slots.lcd == old(self).slots.lcd,
            final(self).slots.bmp280 == old(self).slots.bmp280,
            final(self).slots.bme680 == old(self).slots.bme680,
            final(self).slots.am2320 == old(self).slots.am2320,
            final(self).slots.fan == old(self).slots.fan,
    {
        let ghost mut s = list;
        if config.pcf8583_enabled {
            let mut dev = Pcf8583::new();
            if let Some(w) = &config.pcf8583_time {
                dev.set_time(pcf8583_datetime(w));
            }
            self.fit(
                Kind::Pcf8583,
                config.pcf8583_address,
                BusDevice::Pcf8583(dev),
                Ghost(s),
                Ghost(*config),
            );
            proof {
                s = s.push((Kind::Pcf8583, config.pcf8583_address));
            }
        }
        if config.ds1307_enabled {
            let mut dev = Ds1307::new();
            if let Some(w) = &config.ds1307_time {
                dev.set_time(ds1307_datetime(w));
            }
            self.fit(
                Kind::Ds1307,
                DS1307_ADDRESS,
                BusDevice::Ds1307(dev),
                Ghost(s),
                Ghost(*config),
            );
            proof {
                s = s.push((Kind::Ds1307, DS1307_ADDRESS));
            }
        }
        if config.ds1629_enabled {
            let mut dev = Ds1629::new();
            if let Some(w) = &config.ds1629_time {
                dev.set_time(ds1629_datetime(w));
            }
            self.fit(
                Kind::Ds1629,
                DS1629_ADDRESS,
                BusDevice::Ds1629(dev),
                Ghost(s),
                Ghost(*config),
            );
            proof {
                s = s.push((Kind::Ds1629, DS1629_ADDRESS));
            }
        }
        if config.r2025_enabled {
            let mut dev = R2025::new();
            if let Some(w) = &config.r2025_time {
                dev.set_time(r2025_datetime(w));
            }
            self.fit(
                Kind::R2025,
                R2025_ADDRESS,
                BusDevice::R2025(dev),
                Ghost(s),
                Ghost(*config),
            );
            proof {
                s = s.push((Kind::R2025, R2025_ADDRESS));
            }
        }
    }

    /// Fits the display, the environment sensors and the fan controller.
    fn fit_rest(&mut self, config: &BoardConfig, Ghost(list): Ghost<Seq<(Kind, u8)>>)
        requires
            old(self).valid(),
            config.buildable(),
            old(self)@.carries(list, *config),
            old(self).slots.lcd is None,
            old(self).slots.bmp280 is None,
            old(self).slots.bme680 is None,
            old(self).slots.am2320 is None,
            old(self).slots.fan is None,
        ensures
            final(self).valid(),
            final(self)@.carries(fitted_rest(list, *config), *config),
            final(self)@.same_but_devices(old(self)@),
    {
        let ghost mut s = list;
        if config.lcd_enabled {
            self.fit(
                Kind::Lcd,
                config.lcd_address,
                BusDevice::Lcd(Hd44780Pcf8574::new()),
                Ghost(s),
                Ghost(*config),
            );
            proof {
                s = s.push((Kind::Lcd, config.lcd_address));
            }
        }
        if config.bmp280_enabled {
            self.fit(
                Kind::Bmp280,
                BMP280_ADDRESS,
                BusDevice::Bmp280(Bmp280::new()),
                Ghost(s),
                Ghost(*config),
            );
            proof {
                s = s.push((Kind::Bmp280, BMP280_ADDRESS));
            }
        }
        if config.bme680_enabled {
            self.fit(
                Kind::Bme680,
                BME680_ADDRESS,
                BusDevice::Bme680(Bme680::new()),
                Ghost(s),
                Ghost(*config),
            );
            proof {
                s = s.push((Kind::Bme680, BME680_ADDRESS));
            }
        }
        if config.am2320_enabled {
            self.fit(
                Kind::Am2320,
                AM2320_ADDRESS,
                BusDevice::Am2320(Am2320::new()),
                Ghost(s),
                Ghost(*config),
            );
            proof {
                s = s.push((Kind::Am2320, AM2320_ADDRESS));
            }
        }
        if config.fan_enabled {
            self.fit(
                Kind::Fan,
                config.fan_address,
                BusDevice::Fan(Max31760::new()),
                Ghost(s),
                Ghost(*config),
            );
            proof {
                s = s.push((Kind::Fan, config.fan_address));
            }
        }
    }

    /// A board with the devices that a configuration fits.
    pub fn with_config(config: BoardConfig) -> (board: Self)
        requires
            config.buildable(),
        ensures
            board.valid(),
            board@.configured(config),
    {
        let mut board = Board {
            pcf: Pcf8584::new(),
            bus: I2cBusEngine::new(),
            slots: Slots::empty(),
            device_addresses: Vec::new(),
            lcd_columns: config.lcd_columns,
            lcd_last_lines: None,
        };
        let ghost none = Seq::<(Kind, u8)>::empty();
        let ghost ports = fitted_ports(none, config);
        assert(board@.bus.unplugged =~= Set::<u8>::empty());
        board.fit_ports(&config, Ghost(none));
        board.fit_clocks(&config, Ghost(ports));
        board.fit_rest(&config, Ghost(fitted_clocks(ports, config)));
        board
    }
}

/// A word moved up by a byte, with a byte behind it.
fn shifted_in(word: u32, byte: u8) -> (longer: u32)
    ensures
        longer as int == (word * 256 + byte) % 0x1_0000_0000,
{
    word.wrapping_mul(256).wrapping_add(byte as u32)
}

impl Board {
    fn read_byte(&mut self, byte_addr: u32) -> (byte: u8)
        requires
            old(self).valid(),
        ensures
            final(self).valid(),
            byte as int == old(self)@.byte_value(byte_addr),
            final(self)@ == old(self)@.after_byte_read(byte_addr),
    {
        if byte_addr % 2 != 0 {
            return OPEN_BUS_BYTE;
        }
        let s1 = (byte_addr / 2) % 2 == 1;
        self.pcf.read(s1, &mut self.bus)
    }

    fn write_byte(&mut self, byte_addr: u32, value: u8)
        requires
            old(self).valid(),
        ensures
            final(self).valid(),
            final(self)@ == old(self)@.after_byte_write(byte_addr, value),
    {
        if byte_addr % 2 != 0 {
            return;
        }
        let s1 = (byte_addr / 2) % 2 == 1;
        let ghost before = self.bus;
        self.pcf.write(s1, value, &mut self.bus);
        proof {
            if s1 && Pcf8584::control_stops(value) {
                lemma_bus_stop(&before, &self.bus);
            }
        }
    }

    /// Reads `size` bytes from `off` on, as a big-endian word.
    pub fn read(&mut self, off: u32, size: u32) -> (word: u32)
        requires
            old(self).valid(),
        ensures
            final(self).valid(),
            word as int == old(self)@.word_read(off, size as nat),
            final(self)@ == old(self)@.after_read(off, size as nat),
    {
        let mut result: u32 = 0;
        let mut i: u32 = 0;
        while i < size
            invariant
                i <= size,
                self.valid(),
                result as int == old(self)@.word_read(off, i as nat),
                self@ == old(self)@.after_read(off, i as nat),
            decreases size - i,
        {
            let byte: u8 = self.read_byte(off.wrapping_add(i));
            result = shifted_in(result, byte);
            i += 1;
        }
        result
    }

    /// Writes the low `size` bytes of a big-endian word from `off` on.
    pub fn write(&mut self, off: u32, size: u32, value: u32)
        requires
            old(self).valid(),
            size <= 4,
        ensures
            final(self).valid(),
            final(self)@ == old(self)@.after_write(off, size as nat, value, size as nat),
    {
        let mut i: u32 = 0;
        while i < size
            invariant
                i <= size <= 4,
                self.valid(),
                self@ == old(self)@.after_write(off, size as nat, value, i as nat),
            decreases size - i,
        {
            let unit: u32 = match size - 1 - i {
                0 => 1,
                1 => 0x100,
                2 => 0x1_0000,
                _ => 0x100_0000,
            };
            self.write_byte(off.wrapping_add(i), ((value / unit) % 256) as u8);
            i += 1;
        }
    }

    /// Lets `cck` cycles pass, for the chip and then for the devices.
    pub fn tick(&mut self, cck: u32)
        requires
            old(self).valid(),
            old(self)@.bus.can_tick(cck),
        ensures
            final(self).valid(),
            final(self)@ == old(self)@.after_tick(cck),
    {
        self.pcf.tick(cck, &mut self.bus);
        let ghost phased = self@.bus;
        proof {
            lemma_chip_tick(old(self).pcf, old(self).bus, cck, self.pcf, self.bus);
            lemma_ticked_places(old(self).pcf, old(self)@.bus, cck);
            assert forall|i: int| 0 <= i < self.bus.devices@.len() implies (
            #[trigger] self.bus.devices@[i]).1.can_tick(cck) by {
                assert(phased.devices[i].1.kind() == old(self)@.bus.devices[i].1.kind());
                assert(old(self)@.bus.devices[i].1.can_tick(cck));
            }
        }
        self.bus.tick(cck);
        assert(self@.bus.devices =~= phased.after_tick(cck).devices);
        assert forall|kind: Kind| (#[trigger] self@.slots.of(kind)) is Some implies {
            let i = self@.slots.of(kind).unwrap();
            i < self@.bus.devices.len() && self@.bus.devices[i as int].1.kind() == kind
        } by {
            assert(old(self)@.slots.of(kind) == self@.slots.of(kind));
            let i = self@.slots.of(kind).unwrap();
            assert(phased.devices[i as int].1.kind() == old(
                self,
            )@.bus.devices[i as int].1.kind());
        }
    }

    /// Whether the interrupt line is asserted.
    pub fn int2_asserted(&self) -> (asserted: bool)
        ensures
            asserted == self@.int2(),
    {
        self.pcf.int_asserted()
    }

    /// Sets what the voltage monitor senses inside, in sixteenths of a degree
    /// Celsius. Like every setter here, it does nothing on a board without
    /// the device.
    pub fn set_ltc2990_tint(&mut self, sixteenths: i32)
        requires
            old(self).valid(),
        ensures
            final(self).valid(),
            final(self)@ == match old(self)@.device(Kind::Ltc2990) {
                Some(DeviceView::Ltc2990(d)) => old(self)@.with_device(
                    Kind::Ltc2990,
                    DeviceView::Ltc2990(Ltc2990 { tint: sixteenths, ..d }),
                ),
                _ => old(self)@,
            },
    {
        if let Some(i) = self.slots.ltc2990 {
            assert(self@.slots.of(Kind::Ltc2990) == Some(i));
            if let BusDevice::Ltc2990(d) = &mut self.bus.devices[i].1 {
                d.set_tint(sixteenths);
            }
            proof {
                lemma_device_set(old(self)@, self@, Kind::Ltc2990);
            }
        }
    }

    /// Sets the 5 V rail that the voltage monitor senses, in counts of
    /// 0.61 mV.
    pub fn set_ltc2990_v1(&mut self, count: i32)
        requires
            old(self).valid(),
        ensures
            final(self).valid(),
            final(self)@ == match old(self)@.device(Kind::Ltc2990) {
                Some(DeviceView::Ltc2990(d)) => old(self)@.with_device(
                    Kind::Ltc2990,
                    DeviceView::Ltc2990(Ltc2990 { v1: count, ..d }),
                ),
                _ => old(self)@,
            },
    {
        if let Some(i) = self.slots.ltc2990 {
            assert(self@.slots.of(Kind::Ltc2990) == Some(i));
            if let BusDevice::Ltc2990(d) = &mut self.bus.devices[i].1 {
                d.set_v1(count);
            }
            proof {
                lemma_device_set(old(self)@, self@, Kind::Ltc2990);
            }
        }
    }

    /// Sets the 12 V rail that the voltage monitor senses, in counts of
    /// 1.22 mV.
    pub fn set_ltc2990_v2(&mut self, count: i32)
        requires
            old(self).valid(),
        ensures
            final(self).valid(),
            final(self)@ == match old(self)@.device(Kind::Ltc2990) {
                Some(DeviceView::Ltc2990(d)) => old(self)@.with_device(
                    Kind::Ltc2990,
                    DeviceView::Ltc2990(Ltc2990 { v2: count, ..d }),
                ),
                _ => old(self)@,
            },
    {
        if let Some(i) = self.slots.ltc2990 {
            assert(self@.slots.of(Kind::Ltc2990) == Some(i));
            if let BusDevice::Ltc2990(d) = &mut self.bus.devices[i].1 {
                d.set_v2(count);
            }
            proof {
                lemma_device_set(old(self)@, self@, Kind::Ltc2990);
            }
        }
    }

    /// Sets what the voltage monitor senses at its diode, in sixteenths of a
    /// degree Celsius.
    pub fn set_ltc2990_external_temp(&mut self, sixteenths: i32)
        requires
            old(self).valid(),
        ensures
            final(self).valid(),
            final(self)@ == match old(self)@.device(Kind::Ltc2990) {
                Some(DeviceView::Ltc2990(d)) => old(self)@.with_device(
                    Kind::Ltc2990,
                    DeviceView::Ltc2990(Ltc2990 { external_temp: sixteenths, ..d }),
                ),
                _ => old(self)@,
            },
    {
        if let Some(i) = self.slots.ltc2990 {
            assert(self@.slots.of(Kind::Ltc2990) == Some(i));
            if let BusDevice::Ltc2990(d) = &mut self.bus.devices[i].1 {
                d.set_external_temp(sixteenths);
            }
            proof {
                lemma_device_set(old(self)@, self@, Kind::Ltc2990);
            }
        }
    }

    /// Sets the supply voltage that the voltage monitor senses, in counts of
    /// 305.18 uV above 2.5 V.
    pub fn set_ltc2990_vcc(&mut self, count: i32)
        requires
            old(self).valid(),
        ensures
            final(self).valid(),
            final(self)@ == match old(self)@.device(Kind::Ltc2990) {
                Some(DeviceView::Ltc2990(d)) => old(self)@.with_device(
                    Kind::Ltc2990,
                    DeviceView::Ltc2990(Ltc2990 { vcc: count, ..d }),
                ),
                _ => old(self)@,
            },
    {
        if let Some(i) = self.slots.ltc2990 {
            assert(self@.slots.of(Kind::Ltc2990) == Some(i));
            if let BusDevice::Ltc2990(d) = &mut self.bus.devices[i].1 {
                d.set_vcc(count);
            }
            proof {
                lemma_device_set(old(self)@, self@, Kind::Ltc2990);
            }
        }
    }

    /// Sets what the LM75 senses, in half degrees Celsius.
    pub fn set_lm75_celsius(&mut self, half_degrees: i32)
        requires
            old(self).valid(),
        ensures
            final(self).valid(),
            final(self)@ == match old(self)@.device(Kind::Lm75) {
                Some(DeviceView::Lm75(d)) => old(self)@.with_device(
                    Kind::Lm75,
                    DeviceView::Lm75(Lm75 { half_degrees, ..d }),
                ),
                _ => old(self)@,
            },
    {
        if let Some(i) = self.slots.lm75 {
            assert(self@.slots.of(Kind::Lm75) == Some(i));
            if let BusDevice::Lm75(d) = &mut self.bus.devices[i].1 {
                d.set_celsius(half_degrees);
            }
            proof {
                lemma_device_set(old(self)@, self@, Kind::Lm75);
            }
        }
    }

    /// Sets the PCF8583.
    pub fn set_pcf8583_time(&mut self, time: pcf8583::DateTime)
        requires
            old(self).valid(),
        ensures
            final(self).valid(),
            final(self)@ == old(self)@.with_pcf8583_time(time),
    {
        if let Some(i) = self.slots.pcf8583 {
            assert(self@.slots.of(Kind::Pcf8583) == Some(i));
            if let BusDevice::Pcf8583(d) = &mut self.bus.devices[i].1 {
                d.set_time(time);
            }
            proof {
                lemma_device_set(old(self)@, self@, Kind::Pcf8583);
            }
        }
    }

    /// Sets the DS1307.
    pub fn set_ds1307_time(&mut self, time: ds1307::DateTime)
        requires
            old(self).valid(),
        ensures
            final(self).valid(),
            final(self)@ == old(self)@.with_ds1307_time(time),
    {
        if let Some(i) = self.slots.ds1307 {
            assert(self@.slots.of(Kind::Ds1307) == Some(i));
            if let BusDevice::Ds1307(d) = &mut self.bus.devices[i].1 {
                d.set_time(time);
            }
            proof {
                lemma_device_set(old(self)@, self@, Kind::Ds1307);
            }
        }
    }

    /// Sets the DS1629.
    pub fn set_ds1629_time(&mut self, time: ds1629::DateTime)
        requires
            old(self).valid(),
        ensures
            final(self).valid(),
            final(self)@ == old(self)@.with_ds1629_time(time),
    {
        if let Some(i) = self.slots.ds1629 {
            assert(self@.slots.of(Kind::Ds1629) == Some(i));
            if let BusDevice::Ds1629(d) = &mut self.bus.devices[i].1 {
                d.set_time(time);
            }
            proof {
                lemma_device_set(old(self)@, self@, Kind::Ds1629);
            }
        }
    }

    /// Sets the R2025.
    pub fn set_r2025_time(&mut self, time: r2025::DateTime)
        requires
            old(self).valid(),
        ensures
            final(self).valid(),
            final(self)@ == old(self)@.with_r2025_time(time),
    {
        if let Some(i) = self.slots.r2025 {
            assert(self@.slots.of(Kind::R2025) == Some(i));
            if let BusDevice::R2025(d) = &mut self.bus.devices[i].1 {
                d.set_time(time);
            }
            proof {
                lemma_device_set(old(self)@, self@, Kind::R2025);
            }
        }
    }

    /// Sets what the BMP280 senses, in hundredths of a degree Celsius.
    pub fn set_bmp280_celsius(&mut self, centidegrees: i64)
        requires
            old(self).valid(),
        ensures
            final(self).valid(),
            match (old(self)@.device(Kind::Bmp280), final(self)@.device(Kind::Bmp280)) {
                (Some(DeviceView::Bmp280(d)), Some(DeviceView::Bmp280(e))) => {
                    &&& final(self)@ == old(self)@.with_device(
                        Kind::Bmp280,
                        DeviceView::Bmp280(Bmp280 { adc_t: e.adc_t, ..d }),
                    )
                    &&& bmp280::is_temp_count(centidegrees as int, e.adc_t as int)
                    &&& bmp280::reading_temp(0) <= centidegrees <= bmp280::reading_temp(
                        bmp280::COUNT_MAX as int,
                    ) ==> bmp280::reading_temp(e.adc_t as int) == centidegrees
                },
                (None, None) => final(self)@ == old(self)@,
                _ => false,
            },
    {
        if let Some(i) = self.slots.bmp280 {
            assert(self@.slots.of(Kind::Bmp280) == Some(i));
            if let BusDevice::Bmp280(d) = &mut self.bus.devices[i].1 {
                d.set_celsius(centidegrees);
            }
            proof {
                lemma_device_set(old(self)@, self@, Kind::Bmp280);
            }
        }
    }

    /// Sets the pressure that the BMP280 senses, in pascals.
    pub fn set_bmp280_pressure_hpa(&mut self, pascals: i64)
        requires
            old(self).valid(),
        ensures
            final(self).valid(),
            match (old(self)@.device(Kind::Bmp280), final(self)@.device(Kind::Bmp280)) {
                (Some(DeviceView::Bmp280(d)), Some(DeviceView::Bmp280(e))) => {
                    &&& final(self)@ == old(self)@.with_device(
                        Kind::Bmp280,
                        DeviceView::Bmp280(Bmp280 { adc_p: e.adc_p, ..d }),
                    )
                    &&& e.adc_p as int == nearest(
                        bmp280::reading_pressure(bmp280::reading_fine(d.adc_t as int)),
                        pascals as int,
                        bmp280::COUNT_MAX as int,
                    )
                },
                (None, None) => final(self)@ == old(self)@,
                _ => false,
            },
    {
        if let Some(i) = self.slots.bmp280 {
            assert(self@.slots.of(Kind::Bmp280) == Some(i));
            if let BusDevice::Bmp280(d) = &mut self.bus.devices[i].1 {
                d.set_pressure_hpa(pascals);
            }
            proof {
                lemma_device_set(old(self)@, self@, Kind::Bmp280);
            }
        }
    }

    /// Sets what the BME680 senses, in hundredths of a degree Celsius.
    pub fn set_bme680_celsius(&mut self, centidegrees: i64)
        requires
            old(self).valid(),
        ensures
            final(self).valid(),
            match (old(self)@.device(Kind::Bme680), final(self)@.device(Kind::Bme680)) {
                (Some(DeviceView::Bme680(d)), Some(DeviceView::Bme680(e))) => {
                    &&& final(self)@ == old(self)@.with_device(
                        Kind::Bme680,
                        DeviceView::Bme680(Bme680 { adc_t: e.adc_t, ..d }),
                    )
                    &&& bme680::is_temp_count(centidegrees as int, e.adc_t as int)
                    &&& bme680::reading_temp(0) <= centidegrees <= bme680::reading_temp(
                        bme680::COUNT_MAX as int,
                    ) ==> bme680::reading_temp(e.adc_t as int) == centidegrees
                },
                (None, None) => final(self)@ == old(self)@,
                _ => false,
            },
    {
        if let Some(i) = self.slots.bme680 {
            assert(self@.slots.of(Kind::Bme680) == Some(i));
            if let BusDevice::Bme680(d) = &mut self.bus.devices[i].1 {
                d.set_celsius(centidegrees);
            }
            proof {
                lemma_device_set(old(self)@, self@, Kind::Bme680);
            }
        }
    }

    /// Sets the pressure that the BME680 senses, in pascals.
    pub fn set_bme680_pressure_hpa(&mut self, pascals: i64)
        requires
            old(self).valid(),
        ensures
            final(self).valid(),
            match (old(self)@.device(Kind::Bme680), final(self)@.device(Kind::Bme680)) {
                (Some(DeviceView::Bme680(d)), Some(DeviceView::Bme680(e))) => {
                    &&& final(self)@ == old(self)@.with_device(
                        Kind::Bme680,
                        DeviceView::Bme680(Bme680 { adc_p: e.adc_p, ..d }),
                    )
                    &&& e.adc_p as int == crossing(
                        bme680::reading_pressure(bme680::reading_fine(d.adc_t as int)),
                        pascals as int,
                        bme680::COUNT_MAX as int,
                    )
                },
                (None, None) => final(self)@ == old(self)@,
                _ => false,
            },
    {
        if let Some(i) = self.slots.bme680 {
            assert(self@.slots.of(Kind::Bme680) == Some(i));
            if let BusDevice::Bme680(d) = &mut self.bus.devices[i].1 {
                d.set_pressure_hpa(pascals);
            }
            proof {
                lemma_device_set(old(self)@, self@, Kind::Bme680);
            }
        }
    }

    /// Sets the relative humidity that the BME680 senses, in units of
    /// 1/65536 %, as far as its counts reach.
    pub fn set_bme680_humidity_percent(&mut self, humidity: i64)
        requires
            old(self).valid(),
        ensures
            final(self).valid(),
            match (old(self)@.device(Kind::Bme680), final(self)@.device(Kind::Bme680)) {
                (Some(DeviceView::Bme680(d)), Some(DeviceView::Bme680(e))) => {
                    &&& final(self)@ == old(self)@.with_device(
                        Kind::Bme680,
                        DeviceView::Bme680(Bme680 { hum_adc: e.hum_adc, ..d }),
                    )
                    &&& bme680::is_humidity_count(
                        bme680::reading_temp(d.adc_t as int),
                        humidity as int,
                        e.hum_adc as int,
                    )
                    &&& ({
                        let t = bme680::reading_temp(d.adc_t as int);
                        0 <= humidity <= bme680::reading_humidity(
                            t,
                            bme680::HUMIDITY_COUNT_MAX as int,
                        ) ==> humidity <= bme680::reading_humidity(t, e.hum_adc as int)
                            <= humidity + 1_000
                    })
                },
                (None, None) => final(self)@ == old(self)@,
                _ => false,
            },
    {
        if let Some(i) = self.slots.bme680 {
            assert(self@.slots.of(Kind::Bme680) == Some(i));
            if let BusDevice::Bme680(d) = &mut self.bus.devices[i].1 {
                d.set_humidity_percent(humidity);
            }
            proof {
                lemma_device_set(old(self)@, self@, Kind::Bme680);
            }
        }
    }

    /// Sets what the AM2320 senses: the sign, and the size in tenths of a
    /// degree Celsius.
    pub fn set_am2320_celsius(&mut self, negative: bool, tenths: u16)
        requires
            old(self).valid(),
        ensures
            final(self).valid(),
            final(self)@ == old(self)@.with_am2320_celsius(negative, tenths),
    {
        if let Some(i) = self.slots.am2320 {
            assert(self@.slots.of(Kind::Am2320) == Some(i));
            if let BusDevice::Am2320(d) = &mut self.bus.devices[i].1 {
                d.set_celsius(negative, tenths);
            }
            proof {
                lemma_device_set(old(self)@, self@, Kind::Am2320);
            }
        }
    }

    /// Sets the relative humidity that the AM2320 senses, in tenths of a
    /// percent.
    pub fn set_am2320_humidity_percent(&mut self, tenths: u16)
        requires
            old(self).valid(),
        ensures
            final(self).valid(),
            final(self)@ == old(self)@.with_am2320_humidity(tenths),
    {
        if let Some(i) = self.slots.am2320 {
            assert(self@.slots.of(Kind::Am2320) == Some(i));
            if let BusDevice::Am2320(d) = &mut self.bus.devices[i].1 {
                d.set_humidity_percent(tenths);
            }
            proof {
                lemma_device_set(old(self)@, self@, Kind::Am2320);
            }
        }
    }

    /// Seizes or frees the rotor of the fan.
    pub fn set_fan_stuck(&mut self, stuck: bool)
        requires
            old(self).valid(),
        ensures
            final(self).valid(),
            final(self)@ == match old(self)@.device(Kind::Fan) {
                Some(DeviceView::Fan(d)) => old(self)@.with_device(
                    Kind::Fan,
                    DeviceView::Fan(Max31760 { fan: d.fan.with_stuck(stuck), ..d }),
                ),
                _ => old(self)@,
            },
    {
        if let Some(i) = self.slots.fan {
            assert(self@.slots.of(Kind::Fan) == Some(i));
            if let BusDevice::Fan(d) = &mut self.bus.devices[i].1 {
                d.fan_mut().set_stuck(stuck);
            }
            proof {
                lemma_device_set(old(self)@, self@, Kind::Fan);
            }
        }
    }

    /// The duty of the fan, if there is a fan controller.
    pub fn fan_duty(&self) -> (duty: Option<u8>)
        requires
            self.valid(),
        ensures
            duty == match self@.device(Kind::Fan) {
                Some(DeviceView::Fan(d)) => Some(d.fan.duty),
                _ => None,
            },
    {
        match self.slots.fan {
            Some(i) => {
                assert(self@.slots.of(Kind::Fan) == Some(i));
                match &self.bus.devices[i].1 {
                    BusDevice::Fan(d) => Some(d.fan().duty()),
                    _ => None,
                }
            },
            None => None,
        }
    }

    /// The speed of the fan, if there is a fan controller.
    pub fn fan_rpm(&self) -> (rpm: Option<u32>)
        requires
            self.valid(),
        ensures
            rpm == match self@.device(Kind::Fan) {
                Some(DeviceView::Fan(d)) => Some(d.fan.current_rpm),
                _ => None,
            },
    {
        match self.slots.fan {
            Some(i) => {
                assert(self@.slots.of(Kind::Fan) == Some(i));
                match &self.bus.devices[i].1 {
                    BusDevice::Fan(d) => Some(d.fan().rpm()),
                    _ => None,
                }
            },
            None => None,
        }
    }

    /// What the LCD shows, if there is one and it does not show what was
    /// reported last.
    pub fn lcd_text_if_changed(&mut self) -> (lines: Option<[String; 2]>)
        requires
            old(self).valid(),
        ensures
            final(self).valid(),
            match lines {
                Some(rows) => {
                    &&& old(self)@.lcd_lines() == Some((rows@[0]@, rows@[1]@))
                    &&& old(self)@.lcd_last_lines != old(self)@.lcd_lines()
                    &&& final(self)@ == (BoardView {
                        lcd_last_lines: old(self)@.lcd_lines(),
                        ..old(self)@
                    })
                },
                None => {
                    &&& old(self)@.lcd_lines() is None || old(self)@.lcd_last_lines == old(
                        self,
                    )@.lcd_lines()
                    &&& final(self)@ == old(self)@
                },
            },
    {
        let slot = match self.slots.lcd {
            Some(i) => i,
            None => {
                assert(self@.slots.of(Kind::Lcd) is None);
                return None;
            },
        };
        assert(self@.slots.of(Kind::Lcd) == Some(slot));
        let (row0, row1) = match &self.bus.devices[slot].1 {
            BusDevice::Lcd(lcd) => (lcd.line(0, self.lcd_columns), lcd.line(1, self.lcd_columns)),
            _ => {
                return None;
            },
        };
        if let Some(last) = &self.lcd_last_lines {
            if last[0] == row0 && last[1] == row1 {
                return None;
            }
        }
        self.lcd_last_lines = Some([row0.clone(), row1.clone()]);
        Some([row0, row1])
    }

    /// Unplugs an address, or plugs it in again: nothing answers at an
    /// unplugged one, whatever is attached there.
    pub fn set_address_unplugged(&mut self, addr: u8, unplugged: bool)
        requires
            old(self).valid(),
        ensures
            final(self).valid(),
            final(self)@ == old(self)@.with_unplugged(addr, unplugged),
    {
        self.bus.set_unplugged(addr, unplugged);
        proof {
            let expected = old(self)@.with_unplugged(addr, unplugged).bus.unplugged;
            assert forall|a: u8| self@.bus.unplugged.contains(a) == expected.contains(a) by {
                assert(self.bus.unplugged@.contains(a) == if a == addr {
                    unplugged
                } else {
                    old(self).bus.unplugged@.contains(a)
                });
            }
            assert(self@.bus.unplugged =~= expected);
            assert(self@.bus.devices =~= old(self)@.bus.devices);
        }
    }

    /// Unplugs a device by its name, or plugs it in again: nothing answers at
    /// its address while it is unplugged, and something does again after.
    /// Returns whether the board has a device of that name.
    pub fn set_device_unplugged(&mut self, name: &str, unplugged: bool) -> (found: bool)
        requires
            old(self).valid(),
        ensures
            final(self).valid(),
            found == old(self)@.has_device(name@),
            match address_of(old(self)@.names, name@) {
                Some(addr) => {
                    &&& found
                    &&& final(self)@ == old(self)@.with_unplugged(addr, unplugged)
                    &&& final(self)@.bus.selected(addr) is None <==> unplugged
                },
                None => !found && final(self)@ == old(self)@,
            },
    {
        let mut i: usize = 0;
        assert(self@.names.skip(0) =~= self@.names);
        while i < self.device_addresses.len()
            invariant
                i <= self.device_addresses@.len(),
                *self == *old(self),
                self.valid(),
                address_of(self@.names, name@) == address_of(self@.names.skip(i as int), name@),
            decreases self.device_addresses@.len() - i,
        {
            let (candidate, addr) = self.device_addresses[i];
            let ghost rest = self@.names.skip(i as int);
            assert(rest[0] == (candidate@, addr));
            assert(rest.drop_first() =~= self@.names.skip(i as int + 1));
            if spells(&chars_of(candidate), name) {
                self.set_address_unplugged(addr, unplugged);
                proof {
                    lemma_named_device(old(self)@, name@);
                }
                return true;
            }
            i += 1;
        }
        assert(self@.names.skip(i as int).len() == 0);
        proof {
            lemma_named_device(self@, name@);
        }
        false
    }
}

/// A device changed in its slot leaves the board what it was otherwise.
proof fn lemma_device_set(before: BoardView, after: BoardView, kind: Kind)
    requires
        before.slots_hold(),
        before.names_hold(),
        before.slots.of(kind) is Some,
        ({
            let i = before.slots.of(kind).unwrap() as int;
            &&& after.bus.devices.len() == before.bus.devices.len()
            &&& after.bus.devices[i].0 == before.bus.devices[i].0
            &&& after.bus.devices[i].1.kind() == before.bus.devices[i].1.kind()
            &&& forall|k: int|
                0 <= k < before.bus.devices.len() && k != i ==> after.bus.devices[k]
                    == before.bus.devices[k]
            &&& after == (BoardView {
                bus: BusView { devices: after.bus.devices, ..before.bus },
                ..before
            })
        }),
    ensures
        after.slots_hold(),
        after.names_hold(),
        after == before.with_device(
            kind,
            after.bus.devices[before.slots.of(kind).unwrap() as int].1,
        ),
{
    let i = before.slots.of(kind).unwrap() as int;
    assert forall|k: Kind| (#[trigger] after.slots.of(k)) is Some implies {
        let j = after.slots.of(k).unwrap();
        j < after.bus.devices.len() && after.bus.devices[j as int].1.kind() == k
    } by {
        assert(before.slots.of(k) == after.slots.of(k));
    }
    assert(after.bus.devices =~= before.bus.devices.update(
        i,
        (before.bus.devices[i].0, after.bus.devices[i].1),
    ));
    assert forall|j: int| 0 <= j < after.names.len() implies #[trigger] after.names[j] == (
        kind_name(after.bus.devices[j].1.kind()),
        after.bus.devices[j].0,
    ) by {
        assert(before.names[j] == after.names[j]);
    }
}

/// The address of a name is the one that stands with it, where it stands
/// first; a name that does not occur has none.
pub proof fn lemma_address_of(names: Seq<(Seq<char>, u8)>, name: Seq<char>)
    ensures
        match address_of(names, name) {
            Some(addr) => exists|i: int|
                0 <= i < names.len() && #[trigger] names[i] == (name, addr) && forall|j: int|
                    0 <= j < i ==> (#[trigger] names[j]).0 != name,
            None => forall|i: int| 0 <= i < names.len() ==> (#[trigger] names[i]).0 != name,
        },
    decreases names.len(),
{
    if names.len() > 0 {
        let rest = names.drop_first();
        if names[0].0 == name {
            assert(names[0] == (name, names[0].1));
        } else {
            lemma_address_of(rest, name);
            match address_of(names, name) {
                Some(addr) => {
                    let i = choose|i: int|
                        0 <= i < rest.len() && #[trigger] rest[i] == (name, addr) && forall|j: int|
                            0 <= j < i ==> (#[trigger] rest[j]).0 != name;
                    assert(names[i + 1] == (name, addr));
                    assert forall|j: int| 0 <= j < i + 1 implies (#[trigger] names[j]).0 != name by {
                        if j > 0 {
                            assert(rest[j - 1] == names[j]);
                        }
                    }
                },
                None => {
                    assert forall|i: int| 0 <= i < names.len() implies (#[trigger] names[i]).0
                        != name by {
                        if i > 0 {
                            assert(rest[i - 1] == names[i]);
                        }
                    }
                },
            }
        }
    }
}

/// A name is found exactly if a device of that name is fitted. Its address is
/// then that of the device: once it is unplugged nothing answers there, and
/// once it is plugged in again a device there answers, the first attached.
/// What answers at any other address stays the same.
pub proof fn lemma_named_device(board: BoardView, name: Seq<char>)
    requires
        board.names_hold(),
    ensures
        address_of(board.names, name) is Some <==> board.has_device(name),
        address_of(board.names, name) matches Some(addr) ==> {
            &&& board.with_unplugged(addr, true).bus.selected(addr) is None
            &&& board.with_unplugged(addr, false).bus.selected(addr) matches Some(i)
                && 0 <= i < board.bus.devices.len() && board.bus.devices[i].0 == addr
            &&& forall|other: u8, unplugged: bool|
                other != addr ==> #[trigger] board.with_unplugged(addr, unplugged).bus.selected(
                    other,
                ) == board.bus.selected(other)
        },
{
    lemma_address_of(board.names, name);
    match address_of(board.names, name) {
        Some(addr) => {
            let i = choose|i: int|
                0 <= i < board.names.len() && #[trigger] board.names[i] == (name, addr)
                    && forall|j: int| 0 <= j < i ==> (#[trigger] board.names[j]).0 != name;
            let all = view_addresses(board.bus.devices);
            assert(kind_name(board.bus.devices[i].1.kind()) == name);
            assert(all[i] == addr);
            all.index_of_first_ensures(addr);
        },
        None => {
            assert forall|i: int| 0 <= i < board.bus.devices.len() implies kind_name(
                (#[trigger] board.bus.devices[i]).1.kind(),
            ) != name by {
                assert(board.names[i].0 != name);
            }
        },
    }
}

impl Default for Board {
    fn default() -> (board: Self)
        ensures
            board.valid(),
            board@.configured(BoardConfig::defaults()),
    {
        Self::new()
    }
}

/// New devices of one kind, made by one configuration, hold the same.
proof fn lemma_fresh_unique(kind: Kind, config: BoardConfig, a: DeviceView, b: DeviceView)
    requires
        fresh(kind, config, a),
        fresh(kind, config, b),
    ensures
        a == b,
{
    match kind {
        Kind::Bmp280 => {
            bmp280::lemma_fresh_unique(a->Bmp280_0, b->Bmp280_0);
        },
        Kind::Bme680 => {
            bme680::lemma_fresh_unique(a->Bme680_0, b->Bme680_0);
        },
        _ => {},
    }
}

/// Two boards that one configuration makes hold the same.
pub proof fn lemma_same_start(a: BoardView, b: BoardView, config: BoardConfig)
    requires
        a.configured(config),
        b.configured(config),
    ensures
        a == b,
{
    let list = fitted(config);
    assert forall|i: int| 0 <= i < list.len() implies #[trigger] a.bus.devices[i]
        == b.bus.devices[i] by {
        let kind = list[i].0;
        lemma_fresh_unique(kind, config, a.bus.devices[i].1, b.bus.devices[i].1);
    }
    assert(a.bus.devices =~= b.bus.devices);
    assert forall|i: int| 0 <= i < list.len() implies #[trigger] a.names[i] == b.names[i] by {
        assert(list[i].1 == b.names[i].1);
    }
    assert(a.names =~= b.names);
    assert forall|kind: Kind| #[trigger] a.slots.of(kind) == b.slots.of(kind) by {
        if let Some(i) = a.slots.of(kind) {
            assert(list[i as int].0 == kind);
        }
        if let Some(i) = b.slots.of(kind) {
            assert(list[i as int].0 == kind);
        }
    }
    assert(a.slots.of(Kind::Pcf8574) == b.slots.of(Kind::Pcf8574));
    assert(a.slots.of(Kind::Eeprom) == b.slots.of(Kind::Eeprom));
    assert(a.slots.of(Kind::Lm75) == b.slots.of(Kind::Lm75));
    assert(a.slots.of(Kind::Ltc2990) == b.slots.of(Kind::Ltc2990));
    assert(a.slots.of(Kind::Pcf8583) == b.slots.of(Kind::Pcf8583));
    assert(a.slots.of(Kind::Ds1307) == b.slots.of(Kind::Ds1307));
    assert(a.slots.of(Kind::Ds1629) == b.slots.of(Kind::Ds1629));
    assert(a.slots.of(Kind::R2025) == b.slots.of(Kind::R2025));
    assert(a.slots.of(Kind::Lcd) == b.slots.of(Kind::Lcd));
    assert(a.slots.of(Kind::Bmp280) == b.slots.of(Kind::Bmp280));
    assert(a.slots.of(Kind::Bme680) == b.slots.of(Kind::Bme680));
    assert(a.slots.of(Kind::Am2320) == b.slots.of(Kind::Am2320));
    assert(a.slots.of(Kind::Fan) == b.slots.of(Kind::Fan));
}

/// What stands where in the window: the A0 area at every multiple of four, S1
/// two bytes behind it, and nothing at odd addresses.
pub proof fn lemma_window(board: BoardView, addr: u32, value: u8)
    ensures
        addr % 4 == 0 ==> board.byte_value(addr) == board.pcf.a0_value() && board.after_byte_read(
            addr,
        ) == (BoardView { pcf: board.pcf.after_a0_read(), ..board }) && board.after_byte_write(
            addr,
            value,
        ) == (BoardView { pcf: board.pcf.after_a0_write(value), ..board }),
        addr % 4 == 2 ==> board.byte_value(addr) == board.pcf.status() && board.after_byte_read(
            addr,
        ) == board && board.after_byte_write(addr, value).pcf == board.pcf.after_control(value),
        addr % 4 == 2 && (value / 2) % 2 == 1 ==> board.after_byte_write(addr, value).bus
            == board.bus.after_stop(),
        addr % 4 == 2 && (value / 2) % 2 == 0 ==> board.after_byte_write(addr, value).bus
            == board.bus,
        addr % 2 == 1 ==> board.byte_value(addr) == 0xFF && board.after_byte_read(addr) == board
            && board.after_byte_write(addr, value) == board,
{
    assert((value & 0x02 != 0) == ((value / 0x02) % 2 == 1)) by (bit_vector);
    assert(value == 0x80 ==> (value / 2) % 2 == 0);
}

/// A write of more than one byte goes out high byte first: of a word at an
/// even address the register takes the high byte, and the low one is lost; of
/// a long at the start of the window the A0 area takes the highest byte, and
/// S1 the second lowest.
pub proof fn lemma_wide_writes(board: BoardView, off: u32, value: u32)
    requires
        off % 2 == 0,
        off < 0xFFFF_FFF0,
    ensures
        board.after_write(off, 2, value, 2) == board.after_byte_write(
            off,
            ((value / 0x100) % 0x100) as u8,
        ),
        off % 4 == 0 ==> board.after_write(off, 4, value, 4) == board.after_byte_write(
            off,
            (value / 0x100_0000) as u8,
        ).after_byte_write((off + 2) as u32, ((value / 0x100) % 0x100) as u8),
{
    reveal_with_fuel(BoardView::after_write, 5);
    assert(place(off, 0) == off && place(off, 1) == off + 1);
    assert(place(off, 2) == off + 2 && place(off, 3) == off + 3);
    assert((value as int / 0x100_0000) % 256 == value as int / 0x100_0000);
}

/// The interrupt line is up exactly while the status shows PIN active and the
/// interrupt is enabled.
pub proof fn lemma_interrupt_line(board: BoardView)
    ensures
        board.int2() <==> board.pcf.status() < 0x80 && board.pcf.eni,
{
}

/// What is fitted unless the host says otherwise, and where things that can be
/// moved sit unless it moves them.
pub proof fn lemma_defaults()
    ensures
        ({
            let d = BoardConfig::defaults();
            &&& d.pcf8574_enabled && d.ltc2990_enabled && d.fan_enabled
            &&& !d.eeprom_enabled && !d.lm75_enabled && !d.pcf8583_enabled && !d.ds1307_enabled
            &&& !d.ds1629_enabled && !d.r2025_enabled && !d.lcd_enabled && !d.bmp280_enabled
            &&& !d.bme680_enabled && !d.am2320_enabled
            &&& d.pcf8574_address == 0x20 && d.eeprom_address == 0x54 && d.lm75_address == 0x48
            &&& d.ltc2990_address == 0x4C && d.pcf8583_address == 0x50 && d.fan_address == 0x50
            &&& d.lcd_address == 0x27 && d.lcd_columns == 16
            &&& d.eeprom_size == 4096 && d.eeprom_image is None
            &&& d.pcf8583_time is None && d.ds1307_time is None && d.ds1629_time is None
            &&& d.r2025_time is None
            &&& d.buildable()
        }),
{
}

/// What one more device adds to a list.
proof fn lemma_fit_if(
    list: Seq<(Kind, u8)>,
    fitted: bool,
    kind: Kind,
    address: u8,
    wanted: (Kind, u8),
)
    ensures
        fit_if(list, fitted, kind, address).contains(wanted) == (list.contains(wanted) || (fitted
            && wanted == (kind, address))),
{
    let now = fit_if(list, fitted, kind, address);
    if fitted {
        if now.contains(wanted) {
            let i = choose|i: int| 0 <= i < now.len() && now[i] == wanted;
            if i < list.len() {
                assert(list[i] == wanted);
            }
        }
        if list.contains(wanted) {
            let i = choose|i: int| 0 <= i < list.len() && list[i] == wanted;
            assert(now[i] == wanted);
        }
        assert(now[list.len() as int] == (kind, address));
    }
}

/// What the port expander, the memory and the monitors add to a list.
proof fn lemma_fitted_ports(s: Seq<(Kind, u8)>, config: BoardConfig, k: Kind, a: u8)
    ensures
        fitted_ports(s, config).contains((k, a)) == (s.contains((k, a)) || match k {
            Kind::Pcf8574 => config.pcf8574_enabled && a == config.pcf8574_address,
            Kind::Eeprom => config.eeprom_enabled && a == config.eeprom_address,
            Kind::Lm75 => config.lm75_enabled && a == config.lm75_address,
            Kind::Ltc2990 => config.ltc2990_enabled && a == config.ltc2990_address,
            _ => false,
        }),
{
    let s1 = fit_if(s, config.pcf8574_enabled, Kind::Pcf8574, config.pcf8574_address);
    let s2 = fit_if(s1, config.eeprom_enabled, Kind::Eeprom, config.eeprom_address);
    let s3 = fit_if(s2, config.lm75_enabled, Kind::Lm75, config.lm75_address);
    lemma_fit_if(s, config.pcf8574_enabled, Kind::Pcf8574, config.pcf8574_address, (k, a));
    lemma_fit_if(s1, config.eeprom_enabled, Kind::Eeprom, config.eeprom_address, (k, a));
    lemma_fit_if(s2, config.lm75_enabled, Kind::Lm75, config.lm75_address, (k, a));
    lemma_fit_if(s3, config.ltc2990_enabled, Kind::Ltc2990, config.ltc2990_address, (k, a));
}

/// What the clocks add to a list.
proof fn lemma_fitted_clocks(s: Seq<(Kind, u8)>, config: BoardConfig, k: Kind, a: u8)
    ensures
        fitted_clocks(s, config).contains((k, a)) == (s.contains((k, a)) || match k {
            Kind::Pcf8583 => config.pcf8583_enabled && a == config.pcf8583_address,
            Kind::Ds1307 => config.ds1307_enabled && a == 0x68,
            Kind::Ds1629 => config.ds1629_enabled && a == 0x4F,
            Kind::R2025 => config.r2025_enabled && a == 0x32,
            _ => false,
        }),
{
    let s1 = fit_if(s, config.pcf8583_enabled, Kind::Pcf8583, config.pcf8583_address);
    let s2 = fit_if(s1, config.ds1307_enabled, Kind::Ds1307, DS1307_ADDRESS);
    let s3 = fit_if(s2, config.ds1629_enabled, Kind::Ds1629, DS1629_ADDRESS);
    lemma_fit_if(s, config.pcf8583_enabled, Kind::Pcf8583, config.pcf8583_address, (k, a));
    lemma_fit_if(s1, config.ds1307_enabled, Kind::Ds1307, DS1307_ADDRESS, (k, a));
    lemma_fit_if(s2, config.ds1629_enabled, Kind::Ds1629, DS1629_ADDRESS, (k, a));
    lemma_fit_if(s3, config.r2025_enabled, Kind::R2025, R2025_ADDRESS, (k, a));
}

/// What the display, the environment sensors and the fan controller add to a
/// list.
proof fn lemma_fitted_rest(s: Seq<(Kind, u8)>, config: BoardConfig, k: Kind, a: u8)
    ensures
        fitted_rest(s, config).contains((k, a)) == (s.contains((k, a)) || match k {
            Kind::Lcd => config.lcd_enabled && a == config.lcd_address,
            Kind::Bmp280 => config.bmp280_enabled && a == 0x76,
            Kind::Bme680 => config.bme680_enabled && a == 0x77,
            Kind::Am2320 => config.am2320_enabled && a == 0x5C,
            Kind::Fan => config.fan_enabled && a == config.fan_address,
            _ => false,
        }),
{
    let s1 = fit_if(s, config.lcd_enabled, Kind::Lcd, config.lcd_address);
    let s2 = fit_if(s1, config.bmp280_enabled, Kind::Bmp280, BMP280_ADDRESS);
    let s3 = fit_if(s2, config.bme680_enabled, Kind::Bme680, BME680_ADDRESS);
    let s4 = fit_if(s3, config.am2320_enabled, Kind::Am2320, AM2320_ADDRESS);
    lemma_fit_if(s, config.lcd_enabled, Kind::Lcd, config.lcd_address, (k, a));
    lemma_fit_if(s1, config.bmp280_enabled, Kind::Bmp280, BMP280_ADDRESS, (k, a));
    lemma_fit_if(s2, config.bme680_enabled, Kind::Bme680, BME680_ADDRESS, (k, a));
    lemma_fit_if(s3, config.am2320_enabled, Kind::Am2320, AM2320_ADDRESS, (k, a));
    lemma_fit_if(s4, config.fan_enabled, Kind::Fan, config.fan_address, (k, a));
}

/// Exactly the devices that are switched on are fitted, each at its own
/// address: the configured one where it can be moved, and otherwise 0x68 for
/// the DS1307, 0x4F for the DS1629, 0x32 for the R2025, 0x76 for the BMP280,
/// 0x77 for the BME680 and 0x5C for the AM2320.
pub proof fn lemma_fitted(config: BoardConfig, k: Kind, a: u8)
    ensures
        fitted(config).contains((k, a)) == match k {
            Kind::Pcf8574 => config.pcf8574_enabled && a == config.pcf8574_address,
            Kind::Eeprom => config.eeprom_enabled && a == config.eeprom_address,
            Kind::Lm75 => config.lm75_enabled && a == config.lm75_address,
            Kind::Ltc2990 => config.ltc2990_enabled && a == config.ltc2990_address,
            Kind::Pcf8583 => config.pcf8583_enabled && a == config.pcf8583_address,
            Kind::Ds1307 => config.ds1307_enabled && a == 0x68,
            Kind::Ds1629 => config.ds1629_enabled && a == 0x4F,
            Kind::R2025 => config.r2025_enabled && a == 0x32,
            Kind::Lcd => config.lcd_enabled && a == config.lcd_address,
            Kind::Bmp280 => config.bmp280_enabled && a == 0x76,
            Kind::Bme680 => config.bme680_enabled && a == 0x77,
            Kind::Am2320 => config.am2320_enabled && a == 0x5C,
            Kind::Fan => config.fan_enabled && a == config.fan_address,
        },
{
    let none = Seq::<(Kind, u8)>::empty();
    let ports = fitted_ports(none, config);
    let clocks = fitted_clocks(ports, config);
    lemma_fitted_ports(none, config, k, a);
    lemma_fitted_clocks(ports, config, k, a);
    lemma_fitted_rest(clocks, config, k, a);
    assert(!none.contains((k, a)));
}

/// The place of a kind in the order of attachment.
pub open spec fn rank(kind: Kind) -> int {
    match kind {
        Kind::Pcf8574 => 0,
        Kind::Eeprom => 1,
        Kind::Lm75 => 2,
        Kind::Ltc2990 => 3,
        Kind::Pcf8583 => 4,
        Kind::Ds1307 => 5,
        Kind::Ds1629 => 6,
        Kind::R2025 => 7,
        Kind::Lcd => 8,
        Kind::Bmp280 => 9,
        Kind::Bme680 => 10,
        Kind::Am2320 => 11,
        Kind::Fan => 12,
    }
}

/// A list is in the order of attachment, and none of it comes at `below` or
/// later.
pub open spec fn ranked(list: Seq<(Kind, u8)>, below: int) -> bool {
    &&& forall|i: int| 0 <= i < list.len() ==> rank((#[trigger] list[i]).0) < below
    &&& forall|i: int, j: int|
        0 <= i < j < list.len() ==> rank((#[trigger] list[i]).0) < rank((#[trigger] list[j]).0)
}

proof fn lemma_fit_ranked(list: Seq<(Kind, u8)>, fitted: bool, kind: Kind, address: u8)
    requires
        ranked(list, rank(kind)),
    ensures
        ranked(fit_if(list, fitted, kind, address), rank(kind) + 1),
{
}

/// The devices are attached in one order whatever the configuration: where two
/// share an address, the one that comes first in it answers. The clocks come
/// before the fan controller.
pub proof fn lemma_attachment_order(config: BoardConfig)
    ensures
        ranked(fitted(config), 13),
{
    let s = Seq::<(Kind, u8)>::empty();
    let s1 = fit_if(s, config.pcf8574_enabled, Kind::Pcf8574, config.pcf8574_address);
    let s2 = fit_if(s1, config.eeprom_enabled, Kind::Eeprom, config.eeprom_address);
    let s3 = fit_if(s2, config.lm75_enabled, Kind::Lm75, config.lm75_address);
    let s4 = fit_if(s3, config.ltc2990_enabled, Kind::Ltc2990, config.ltc2990_address);
    let s5 = fit_if(s4, config.pcf8583_enabled, Kind::Pcf8583, config.pcf8583_address);
    let s6 = fit_if(s5, config.ds1307_enabled, Kind::Ds1307, DS1307_ADDRESS);
    let s7 = fit_if(s6, config.ds1629_enabled, Kind::Ds1629, DS1629_ADDRESS);
    let s8 = fit_if(s7, config.r2025_enabled, Kind::R2025, R2025_ADDRESS);
    let s9 = fit_if(s8, config.lcd_enabled, Kind::Lcd, config.lcd_address);
    let s10 = fit_if(s9, config.bmp280_enabled, Kind::Bmp280, BMP280_ADDRESS);
    let s11 = fit_if(s10, config.bme680_enabled, Kind::Bme680, BME680_ADDRESS);
    let s12 = fit_if(s11, config.am2320_enabled, Kind::Am2320, AM2320_ADDRESS);
    assert(ranked(s, 0));
    lemma_fit_ranked(s, config.pcf8574_enabled, Kind::Pcf8574, config.pcf8574_address);
    lemma_fit_ranked(s1, config.eeprom_enabled, Kind::Eeprom, config.eeprom_address);
    lemma_fit_ranked(s2, config.lm75_enabled, Kind::Lm75, config.lm75_address);
    lemma_fit_ranked(s3, config.ltc2990_enabled, Kind::Ltc2990, config.ltc2990_address);
    lemma_fit_ranked(s4, config.pcf8583_enabled, Kind::Pcf8583, config.pcf8583_address);
    lemma_fit_ranked(s5, config.ds1307_enabled, Kind::Ds1307, DS1307_ADDRESS);
    lemma_fit_ranked(s6, config.ds1629_enabled, Kind::Ds1629, DS1629_ADDRESS);
    lemma_fit_ranked(s7, config.r2025_enabled, Kind::R2025, R2025_ADDRESS);
    lemma_fit_ranked(s8, config.lcd_enabled, Kind::Lcd, config.lcd_address);
    lemma_fit_ranked(s9, config.bmp280_enabled, Kind::Bmp280, BMP280_ADDRESS);
    lemma_fit_ranked(s10, config.bme680_enabled, Kind::Bme680, BME680_ADDRESS);
    lemma_fit_ranked(s11, config.am2320_enabled, Kind::Am2320, AM2320_ADDRESS);
    lemma_fit_ranked(s12, config.fan_enabled, Kind::Fan, config.fan_address);
}

/// The names that scripts use.
pub proof fn lemma_names()
    ensures
        kind_name(Kind::Pcf8574) == "pcf8574"@,
        kind_name(Kind::Eeprom) == "eeprom"@,
        kind_name(Kind::Lm75) == "lm75"@,
        kind_name(Kind::Ltc2990) == "ltc2990"@,
        kind_name(Kind::Pcf8583) == "pcf8583"@,
        kind_name(Kind::Ds1307) == "ds1307"@,
        kind_name(Kind::Ds1629) == "ds1629"@,
        kind_name(Kind::R2025) == "r2025"@,
        kind_name(Kind::Lcd) == "lcd"@,
        kind_name(Kind::Bmp280) == "bmp280"@,
        kind_name(Kind::Bme680) == "bme680"@,
        kind_name(Kind::Am2320) == "am2320"@,
        kind_name(Kind::Fan) == "fan"@,
{
}

} // verus!
