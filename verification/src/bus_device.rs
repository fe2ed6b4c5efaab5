//! The devices of the board's bus as one type, and what the bus as a whole
//! holds.

use crate::devices::am2320::Am2320;
use crate::devices::bme680::Bme680;
use crate::devices::bmp280::Bmp280;
use crate::devices::ds1307::Ds1307;
use crate::devices::ds1629::Ds1629;
use crate::devices::eeprom24::{Eeprom24, EepromView};
use crate::devices::hd44780_pcf8574::{Hd44780Pcf8574, LcdView};
use crate::devices::lm75::Lm75;
use crate::devices::ltc2990::Ltc2990;
use crate::devices::pcf8574::Pcf8574;
use crate::devices::pcf8583::Pcf8583;
use crate::devices::r2025::R2025;
use crate::fan::{Max31760, MAX_TICK};
use crate::i2c::{addresses, I2cBus, I2cBusEngine, I2cDevice, OPEN_BUS};
use vstd::prelude::*;

verus! {

/// The kinds of device that the board can carry, one of each at most.
#[derive(Clone, Copy, Debug, PartialEq, Eq, Structural)]
pub enum Kind {
    Pcf8574,
    Eeprom,
    Lm75,
    Ltc2990,
    Pcf8583,
    Ds1307,
    Ds1629,
    R2025,
    Lcd,
    Bmp280,
    Bme680,
    Am2320,
    Fan,
}

/// The name of a device, as scripts use it.
pub open spec fn kind_name(kind: Kind) -> Seq<char> {
    match kind {
        Kind::Pcf8574 => "pcf8574"@,
        Kind::Eeprom => "eeprom"@,
        Kind::Lm75 => "lm75"@,
        Kind::Ltc2990 => "ltc2990"@,
        Kind::Pcf8583 => "pcf8583"@,
        Kind::Ds1307 => "ds1307"@,
        Kind::Ds1629 => "ds1629"@,
        Kind::R2025 => "r2025"@,
        Kind::Lcd => "lcd"@,
        Kind::Bmp280 => "bmp280"@,
        Kind::Bme680 => "bme680"@,
        Kind::Am2320 => "am2320"@,
        Kind::Fan => "fan"@,
    }
}

impl Kind {
    /// The name of a device, as scripts use it.
    pub fn name(self) -> (name: &'static str)
        ensures
            name@ == kind_name(self),
    {
        match self {
            Kind::Pcf8574 => "pcf8574",
            Kind::Eeprom => "eeprom",
            Kind::Lm75 => "lm75",
            Kind::Ltc2990 => "ltc2990",
            Kind::Pcf8583 => "pcf8583",
            Kind::Ds1307 => "ds1307",
            Kind::Ds1629 => "ds1629",
            Kind::R2025 => "r2025",
            Kind::Lcd => "lcd",
            Kind::Bmp280 => "bmp280",
            Kind::Bme680 => "bme680",
            Kind::Am2320 => "am2320",
            Kind::Fan => "fan",
        }
    }
}

/// A device on the board's bus.
pub enum BusDevice {
    Pcf8574(Pcf8574),
    Eeprom(Eeprom24),
    Lm75(Lm75),
    Ltc2990(Ltc2990),
    Pcf8583(Pcf8583),
    Ds1307(Ds1307),
    Ds1629(Ds1629),
    R2025(R2025),
    Lcd(Hd44780Pcf8574),
    Bmp280(Bmp280),
    Bme680(Bme680),
    Am2320(Am2320),
    Fan(Max31760),
}

/// What a device on the board's bus holds.
#[verifier::ext_equal]
pub enum DeviceView {
    Pcf8574(Pcf8574),
    Eeprom(EepromView),
    Lm75(Lm75),
    Ltc2990(Ltc2990),
    Pcf8583(Pcf8583),
    Ds1307(Ds1307),
    Ds1629(Ds1629),
    R2025(R2025),
    Lcd(LcdView),
    Bmp280(Bmp280),
    Bme680(Bme680),
    Am2320(Am2320),
    Fan(Max31760),
}

impl View for BusDevice {
    type V = DeviceView;

    open spec fn view(&self) -> DeviceView {
        match self {
            BusDevice::Pcf8574(d) => DeviceView::Pcf8574(*d),
            BusDevice::Eeprom(d) => DeviceView::Eeprom(d@),
            BusDevice::Lm75(d) => DeviceView::Lm75(*d),
            BusDevice::Ltc2990(d) => DeviceView::Ltc2990(*d),
            BusDevice::Pcf8583(d) => DeviceView::Pcf8583(*d),
            BusDevice::Ds1307(d) => DeviceView::Ds1307(*d),
            BusDevice::Ds1629(d) => DeviceView::Ds1629(*d),
            BusDevice::R2025(d) => DeviceView::R2025(*d),
            BusDevice::Lcd(d) => DeviceView::Lcd(d@),
            BusDevice::Bmp280(d) => DeviceView::Bmp280(*d),
            BusDevice::Bme680(d) => DeviceView::Bme680(*d),
            BusDevice::Am2320(d) => DeviceView::Am2320(*d),
            BusDevice::Fan(d) => DeviceView::Fan(*d),
        }
    }
}

impl DeviceView {
    /// The kind of the device.
    pub open spec fn kind(self) -> Kind {
        match self {
            DeviceView::Pcf8574(_) => Kind::Pcf8574,
            DeviceView::Eeprom(_) => Kind::Eeprom,
            DeviceView::Lm75(_) => Kind::Lm75,
            DeviceView::Ltc2990(_) => Kind::Ltc2990,
            DeviceView::Pcf8583(_) => Kind::Pcf8583,
            DeviceView::Ds1307(_) => Kind::Ds1307,
            DeviceView::Ds1629(_) => Kind::Ds1629,
            DeviceView::R2025(_) => Kind::R2025,
            DeviceView::Lcd(_) => Kind::Lcd,
            DeviceView::Bmp280(_) => Kind::Bmp280,
            DeviceView::Bme680(_) => Kind::Bme680,
            DeviceView::Am2320(_) => Kind::Am2320,
            DeviceView::Fan(_) => Kind::Fan,
        }
    }

    /// The device after an address phase.
    pub open spec fn after_start(self, read: bool) -> Self {
        match self {
            DeviceView::Pcf8574(d) => DeviceView::Pcf8574(d.after_start(read)),
            DeviceView::Eeprom(d) => DeviceView::Eeprom(d.after_start(read)),
            DeviceView::Lm75(d) => DeviceView::Lm75(d.after_start(read)),
            DeviceView::Ltc2990(d) => DeviceView::Ltc2990(d.after_start(read)),
            DeviceView::Pcf8583(d) => DeviceView::Pcf8583(d.after_start(read)),
            DeviceView::Ds1307(d) => DeviceView::Ds1307(d.after_start(read)),
            DeviceView::Ds1629(d) => DeviceView::Ds1629(d.after_start(read)),
            DeviceView::R2025(d) => DeviceView::R2025(d.after_start(read)),
            DeviceView::Lcd(d) => DeviceView::Lcd(d.after_start(read)),
            DeviceView::Bmp280(d) => DeviceView::Bmp280(d.after_start(read)),
            DeviceView::Bme680(d) => DeviceView::Bme680(d.after_start(read)),
            DeviceView::Am2320(d) => DeviceView::Am2320(d.after_start(read)),
            DeviceView::Fan(d) => DeviceView::Fan(d.after_start(read)),
        }
    }

    /// The device after a byte was sent to it.
    pub open spec fn after_write(self, byte: u8) -> Self {
        match self {
            DeviceView::Pcf8574(d) => DeviceView::Pcf8574(d.after_write(byte)),
            DeviceView::Eeprom(d) => DeviceView::Eeprom(d.after_write(byte)),
            DeviceView::Lm75(d) => DeviceView::Lm75(d.after_write(byte)),
            DeviceView::Ltc2990(d) => DeviceView::Ltc2990(d.after_write(byte)),
            DeviceView::Pcf8583(d) => DeviceView::Pcf8583(d.after_write(byte)),
            DeviceView::Ds1307(d) => DeviceView::Ds1307(d.after_write(byte)),
            DeviceView::Ds1629(d) => DeviceView::Ds1629(d.after_write(byte)),
            DeviceView::R2025(d) => DeviceView::R2025(d.after_write(byte)),
            DeviceView::Lcd(d) => DeviceView::Lcd(d.after_write(byte)),
            DeviceView::Bmp280(d) => DeviceView::Bmp280(d.after_write(byte)),
            DeviceView::Bme680(d) => DeviceView::Bme680(d.after_write(byte)),
            DeviceView::Am2320(d) => DeviceView::Am2320(d.after_write(byte)),
            DeviceView::Fan(d) => DeviceView::Fan(d.after_write(byte)),
        }
    }

    /// The device after a byte was read from it.
    pub open spec fn after_read(self) -> Self {
        match self {
            DeviceView::Pcf8574(d) => DeviceView::Pcf8574(d.after_read()),
            DeviceView::Eeprom(d) => DeviceView::Eeprom(d.after_read()),
            DeviceView::Lm75(d) => DeviceView::Lm75(d.after_read()),
            DeviceView::Ltc2990(d) => DeviceView::Ltc2990(d.after_read()),
            DeviceView::Pcf8583(d) => DeviceView::Pcf8583(d.after_read()),
            DeviceView::Ds1307(d) => DeviceView::Ds1307(d.after_read()),
            DeviceView::Ds1629(d) => DeviceView::Ds1629(d.after_read()),
            DeviceView::R2025(d) => DeviceView::R2025(d.after_read()),
            DeviceView::Lcd(d) => DeviceView::Lcd(d.after_read()),
            DeviceView::Bmp280(d) => DeviceView::Bmp280(d.after_read()),
            DeviceView::Bme680(d) => DeviceView::Bme680(d.after_read()),
            DeviceView::Am2320(d) => DeviceView::Am2320(d.after_read()),
            DeviceView::Fan(d) => DeviceView::Fan(d.after_read()),
        }
    }

    /// The byte that the next read gives.
    pub open spec fn output(self) -> int {
        match self {
            DeviceView::Pcf8574(d) => d.output(),
            DeviceView::Eeprom(d) => d.output(),
            DeviceView::Lm75(d) => d.output(),
            DeviceView::Ltc2990(d) => d.output(),
            DeviceView::Pcf8583(d) => d.output(),
            DeviceView::Ds1307(d) => d.output(),
            DeviceView::Ds1629(d) => d.output(),
            DeviceView::R2025(d) => d.output(),
            DeviceView::Lcd(d) => d.output(),
            DeviceView::Bmp280(d) => d.output(),
            DeviceView::Bme680(d) => d.output(),
            DeviceView::Am2320(d) => d.output(),
            DeviceView::Fan(d) => d.output(),
        }
    }

    /// The device can take `cck` cycles in one step.
    pub open spec fn can_tick(self, cck: u32) -> bool {
        self is Fan ==> cck <= MAX_TICK
    }

    /// The device after `cck` cycles. Only the fan moves with time.
    pub open spec fn after_tick(self, cck: u32) -> Self {
        match self {
            DeviceView::Fan(d) => DeviceView::Fan(d.after_tick(cck)),
            _ => self,
        }
    }
}

impl I2cDevice for BusDevice {
    open spec fn valid(&self) -> bool {
        match self {
            BusDevice::Pcf8574(d) => d.valid(),
            BusDevice::Eeprom(d) => d.valid(),
            BusDevice::Lm75(d) => d.valid(),
            BusDevice::Ltc2990(d) => d.valid(),
            BusDevice::Pcf8583(d) => d.valid(),
            BusDevice::Ds1307(d) => d.valid(),
            BusDevice::Ds1629(d) => d.valid(),
            BusDevice::R2025(d) => d.valid(),
            BusDevice::Lcd(d) => d.valid(),
            BusDevice::Bmp280(d) => d.valid(),
            BusDevice::Bme680(d) => d.valid(),
            BusDevice::Am2320(d) => d.valid(),
            BusDevice::Fan(d) => d.valid(),
        }
    }

    open spec fn on_start(&self, read: bool, after: &Self, ack: bool) -> bool {
        after@ == self@.after_start(read) && ack
    }

    open spec fn on_write(&self, byte: u8, after: &Self, ack: bool) -> bool {
        after@ == self@.after_write(byte) && ack
    }

    open spec fn on_read(&self, master_will_ack: bool, after: &Self, byte: u8) -> bool {
        after@ == self@.after_read() && byte as int == self@.output()
    }

    open spec fn on_stop(&self, after: &Self) -> bool {
        after@ == self@
    }

    open spec fn can_tick(&self, cck: u32) -> bool {
        self@.can_tick(cck)
    }

    open spec fn on_tick(&self, cck: u32, after: &Self) -> bool {
        after@ == self@.after_tick(cck)
    }

    fn start(&mut self, read: bool) -> (ack: bool) {
        match self {
            BusDevice::Pcf8574(d) => d.start(read),
            BusDevice::Eeprom(d) => d.start(read),
            BusDevice::Lm75(d) => d.start(read),
            BusDevice::Ltc2990(d) => d.start(read),
            BusDevice::Pcf8583(d) => d.start(read),
            BusDevice::Ds1307(d) => d.start(read),
            BusDevice::Ds1629(d) => d.start(read),
            BusDevice::R2025(d) => d.start(read),
            BusDevice::Lcd(d) => d.start(read),
            BusDevice::Bmp280(d) => d.start(read),
            BusDevice::Bme680(d) => d.start(read),
            BusDevice::Am2320(d) => d.start(read),
            BusDevice::Fan(d) => d.start(read),
        }
    }

    fn write(&mut self, byte: u8) -> (ack: bool) {
        match self {
            BusDevice::Pcf8574(d) => d.write(byte),
            BusDevice::Eeprom(d) => d.write(byte),
            BusDevice::Lm75(d) => d.write(byte),
            BusDevice::Ltc2990(d) => d.write(byte),
            BusDevice::Pcf8583(d) => d.write(byte),
            BusDevice::Ds1307(d) => d.write(byte),
            BusDevice::Ds1629(d) => d.write(byte),
            BusDevice::R2025(d) => d.write(byte),
            BusDevice::Lcd(d) => d.write(byte),
            BusDevice::Bmp280(d) => d.write(byte),
            BusDevice::Bme680(d) => d.write(byte),
            BusDevice::Am2320(d) => d.write(byte),
            BusDevice::Fan(d) => d.write(byte),
        }
    }

    fn read(&mut self, master_will_ack: bool) -> (byte: u8) {
        match self {
            BusDevice::Pcf8574(d) => d.read(master_will_ack),
            BusDevice::Eeprom(d) => d.read(master_will_ack),
            BusDevice::Lm75(d) => d.read(master_will_ack),
            BusDevice::Ltc2990(d) => d.read(master_will_ack),
            BusDevice::Pcf8583(d) => d.read(master_will_ack),
            BusDevice::Ds1307(d) => d.read(master_will_ack),
            BusDevice::Ds1629(d) => d.read(master_will_ack),
            BusDevice::R2025(d) => d.read(master_will_ack),
            BusDevice::Lcd(d) => d.read(master_will_ack),
            BusDevice::Bmp280(d) => d.read(master_will_ack),
            BusDevice::Bme680(d) => d.read(master_will_ack),
            BusDevice::Am2320(d) => d.read(master_will_ack),
            BusDevice::Fan(d) => d.read(master_will_ack),
        }
    }

    fn stop(&mut self) {
        match self {
            BusDevice::Pcf8574(d) => d.stop(),
            BusDevice::Eeprom(d) => d.stop(),
            BusDevice::Lm75(d) => d.stop(),
            BusDevice::Ltc2990(d) => d.stop(),
            BusDevice::Pcf8583(d) => d.stop(),
            BusDevice::Ds1307(d) => d.stop(),
            BusDevice::Ds1629(d) => d.stop(),
            BusDevice::R2025(d) => d.stop(),
            BusDevice::Lcd(d) => d.stop(),
            BusDevice::Bmp280(d) => d.stop(),
            BusDevice::Bme680(d) => d.stop(),
            BusDevice::Am2320(d) => d.stop(),
            BusDevice::Fan(d) => d.stop(),
        }
    }

    fn tick(&mut self, cck: u32) {
        match self {
            BusDevice::Pcf8574(d) => d.tick(cck),
            BusDevice::Eeprom(d) => d.tick(cck),
            BusDevice::Lm75(d) => d.tick(cck),
            BusDevice::Ltc2990(d) => d.tick(cck),
            BusDevice::Pcf8583(d) => d.tick(cck),
            BusDevice::Ds1307(d) => d.tick(cck),
            BusDevice::Ds1629(d) => d.tick(cck),
            BusDevice::R2025(d) => d.tick(cck),
            BusDevice::Lcd(d) => d.tick(cck),
            BusDevice::Bmp280(d) => d.tick(cck),
            BusDevice::Bme680(d) => d.tick(cck),
            BusDevice::Am2320(d) => d.tick(cck),
            BusDevice::Fan(d) => d.tick(cck),
        }
    }
}

/// What the board's bus holds.
#[verifier::ext_equal]
pub struct BusView {
    /// Address and device, in the order of attachment.
    pub devices: Seq<(u8, DeviceView)>,
    /// The device that the transaction in progress talks to.
    pub active: Option<int>,
    /// Addresses that nothing answers at.
    pub unplugged: Set<u8>,
}

/// What a bus holds.
pub open spec fn bus_view(bus: &I2cBusEngine<BusDevice>) -> BusView {
    BusView {
        devices: Seq::new(
            bus.devices@.len(),
            |i: int| (bus.devices@[i].0, bus.devices@[i].1@),
        ),
        active: match bus.active {
            Some(i) => Some(i as int),
            None => None,
        },
        unplugged: bus.unplugged@.to_set(),
    }
}

/// The addresses of a bus, in order.
pub open spec fn view_addresses(devices: Seq<(u8, DeviceView)>) -> Seq<u8> {
    Seq::new(devices.len(), |i: int| devices[i].0)
}

impl BusView {
    /// The transaction in progress talks to a device that is there.
    pub open spec fn well_formed(self) -> bool {
        self.active matches Some(i) ==> 0 <= i < self.devices.len()
    }

    /// The device that answers at `addr7`: the first attached there, unless
    /// the address is unplugged.
    pub open spec fn selected(self, addr7: u8) -> Option<int> {
        if self.unplugged.contains(addr7) {
            None
        } else {
            view_addresses(self.devices).index_of_first(addr7)
        }
    }

    /// The bus with another device in a place.
    pub open spec fn with_device(self, i: int, device: DeviceView) -> Self {
        BusView { devices: self.devices.update(i, (self.devices[i].0, device)), ..self }
    }

    /// The bus after a START: the device that answers takes the address
    /// phase, and is the one that the transaction talks to from now on.
    pub open spec fn after_start(self, addr7: u8, read: bool) -> Self {
        match self.selected(addr7) {
            Some(i) => BusView {
                active: Some(i),
                ..self.with_device(i, self.devices[i].1.after_start(read))
            },
            None => BusView { active: None, ..self },
        }
    }

    /// The bus after a byte was sent over it.
    pub open spec fn after_write(self, byte: u8) -> Self {
        match self.active {
            Some(i) => self.with_device(i, self.devices[i].1.after_write(byte)),
            None => self,
        }
    }

    /// The bus after a byte was read over it.
    pub open spec fn after_read(self) -> Self {
        match self.active {
            Some(i) => self.with_device(i, self.devices[i].1.after_read()),
            None => self,
        }
    }

    /// The byte that the next read gives.
    pub open spec fn output(self) -> int {
        match self.active {
            Some(i) => self.devices[i].1.output(),
            None => OPEN_BUS as int,
        }
    }

    /// The bus after a STOP.
    pub open spec fn after_stop(self) -> Self {
        BusView { active: None, ..self }
    }

    /// Every device can take `cck` cycles in one step.
    pub open spec fn can_tick(self, cck: u32) -> bool {
        forall|i: int| 0 <= i < self.devices.len() ==> (#[trigger] self.devices[i]).1.can_tick(cck)
    }

    /// The bus after `cck` cycles.
    pub open spec fn after_tick(self, cck: u32) -> Self {
        BusView {
            devices: Seq::new(
                self.devices.len(),
                |i: int| (self.devices[i].0, self.devices[i].1.after_tick(cck)),
            ),
            ..self
        }
    }

    /// The bus with an address unplugged or plugged in again.
    pub open spec fn with_unplugged(self, addr7: u8, unplugged: bool) -> Self {
        BusView {
            unplugged: if unplugged {
                self.unplugged.insert(addr7)
            } else {
                self.unplugged.remove(addr7)
            },
            ..self
        }
    }
}

/// Which device answers is the same on a bus and on what it holds, and it is
/// one that is there.
pub proof fn lemma_selected(bus: &I2cBusEngine<BusDevice>, addr7: u8)
    ensures
        bus.selected(addr7) == bus_view(bus).selected(addr7),
        bus.selected(addr7) matches Some(i) ==> 0 <= i < bus.devices@.len() && bus.devices@[i].0
            == addr7,
{
    assert(addresses(bus.devices@) =~= view_addresses(bus_view(bus).devices));
    addresses(bus.devices@).index_of_first_ensures(addr7);
}

/// A START does to a bus what it does to what the bus holds.
pub proof fn lemma_bus_start(
    before: &I2cBusEngine<BusDevice>,
    addr7: u8,
    read: bool,
    after: &I2cBusEngine<BusDevice>,
    ack: bool,
)
    requires
        before.valid(),
        before.on_start(addr7, read, after, ack),
    ensures
        bus_view(after) == bus_view(before).after_start(addr7, read),
        ack == bus_view(before).selected(addr7) is Some,
{
    lemma_selected(before, addr7);
    let expected = bus_view(before).after_start(addr7, read);
    assert(before.devices@.len() == before.devices.len());
    assert(bus_view(after).devices =~= expected.devices);
}

/// A byte sent does to a bus what it does to what the bus holds.
pub proof fn lemma_bus_write(
    before: &I2cBusEngine<BusDevice>,
    byte: u8,
    after: &I2cBusEngine<BusDevice>,
    ack: bool,
)
    requires
        before.valid(),
        before.on_write(byte, after, ack),
    ensures
        bus_view(after) == bus_view(before).after_write(byte),
        ack == bus_view(before).active is Some,
{
    assert(bus_view(after).devices =~= bus_view(before).after_write(byte).devices);
}

/// A byte read does to a bus what it does to what the bus holds.
pub proof fn lemma_bus_read(
    before: &I2cBusEngine<BusDevice>,
    master_will_ack: bool,
    after: &I2cBusEngine<BusDevice>,
    byte: u8,
)
    requires
        before.valid(),
        before.on_read(master_will_ack, after, byte),
    ensures
        bus_view(after) == bus_view(before).after_read(),
        byte as int == bus_view(before).output(),
{
    assert(bus_view(after).devices =~= bus_view(before).after_read().devices);
}

/// A STOP does to a bus what it does to what the bus holds.
pub proof fn lemma_bus_stop(before: &I2cBusEngine<BusDevice>, after: &I2cBusEngine<BusDevice>)
    requires
        before.valid(),
        before.on_stop(after),
    ensures
        bus_view(after) == bus_view(before).after_stop(),
{
    assert(bus_view(after).devices =~= bus_view(before).devices);
}

} // verus!
