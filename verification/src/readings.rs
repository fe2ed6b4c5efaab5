//! What a driver gets to see of each device through the window: the time that
//! a clock was given, the readings that a sensor was set to, the bytes that a
//! memory was loaded with, each decoded as a driver decodes it.

use crate::bcd::bcd_value;
use crate::board::{fitted, fresh, BoardConfig, BoardView};
use crate::bus_device::{kind_name, view_addresses, DeviceView, Kind};
use crate::devices::am2320::{self, Am2320};
use crate::devices::bme680::{self, Bme680};
use crate::devices::bmp280::{self, Bmp280};
use crate::devices::ds1307::{self, Ds1307};
use crate::devices::ds1629::{self, Ds1629};
use crate::devices::eeprom24::{self, EepromView};
use crate::devices::hd44780_pcf8574::{
    after_text, lemma_row_shows_text, port_byte, LcdView,
};
use crate::devices::lm75;
use crate::devices::ltc2990::{self, driver_count, driver_temp, Ltc2990};
use crate::devices::pcf8574::{self, bit_of, Pcf8574};
use crate::devices::pcf8583::{self, Pcf8583};
use crate::devices::r2025::{self, R2025};
use crate::rtc_time::WallClock;
use crate::scenario::{
    applied, lemma_channel_names, lemma_events_hit_one_device, sets, EventView,
};
use crate::transactions::{
    lemma_clock_read, lemma_monitor_read, lemma_random_read, lemma_timeless, lemma_transmit,
    lemma_transmit_frame, transmitted,
};
use vstd::prelude::*;

verus! {

/// Byte `k` of those that a driver reads from the device at an address after
/// it has sent some bytes to it and closed.
#[verifier::opaque]
pub open spec fn driver_reads(board: BoardView, addr7: u8, told: Seq<u8>, k: nat) -> int {
    transmitted(board, addr7, told).opened(addr7, true).fetched(k + 1).word_read(0, 1)
}

/// The device that answers at an address, if one does.
pub open spec fn answering(board: BoardView, addr7: u8) -> Option<DeviceView> {
    match board.bus.selected(addr7) {
        Some(i) => Some(board.bus.devices[i].1),
        None => None,
    }
}

/// What a driver reads comes from the device that answers, told what it was
/// told; the time that passes meanwhile changes nothing, but for the fan.
proof fn lemma_driver_reads(board: BoardView, addr7: u8, told: Seq<u8>, k: nat)
    requires
        addr7 < 128,
        answering(board, addr7) is Some,
        !(answering(board, addr7).unwrap() is Fan),
    ensures
        driver_reads(board, addr7, told, k) == answering(board, addr7).unwrap().after_start(
            false,
        ).after_writes(told).after_start(true).after_reads(k).output(),
{
    let d = answering(board, addr7).unwrap();
    let begun = d.after_start(false);
    let spoken = begun.after_writes(told);
    let turned = spoken.after_start(true);
    reveal(driver_reads);
    lemma_random_read(board, addr7, told, k + 1);
    lemma_timeless(begun, told, 0);
    lemma_timeless(spoken, Seq::empty(), 0);
    lemma_timeless(turned, Seq::empty(), k);
}

/// One byte sent.
proof fn lemma_one_told(d: DeviceView, a: u8)
    ensures
        d.after_writes(seq![a]) == d.after_write(a),
{
    reveal_with_fuel(DeviceView::after_writes, 2);
    assert(seq![a].drop_last() =~= Seq::<u8>::empty());
}

/// Two bytes sent.
proof fn lemma_two_told(d: DeviceView, a: u8, b: u8)
    ensures
        d.after_writes(seq![a, b]) == d.after_write(a).after_write(b),
{
    assert(seq![a, b].drop_last() =~= seq![a]);
    lemma_one_told(d, a);
}

/// Three bytes sent.
proof fn lemma_three_told(d: DeviceView, a: u8, b: u8, c: u8)
    ensures
        d.after_writes(seq![a, b, c]) == d.after_write(a).after_write(b).after_write(c),
{
    assert(seq![a, b, c].drop_last() =~= seq![a, b]);
    lemma_two_told(d, a, b);
}

// The clocks.

proof fn lemma_r2025_reads(dev: R2025, n: nat)
    ensures
        DeviceView::R2025(dev).after_reads(n) == DeviceView::R2025(dev.after_reads(n)),
    decreases n,
{
    if n > 0 {
        lemma_r2025_reads(dev, (n - 1) as nat);
    }
}

proof fn lemma_ds1307_reads(dev: Ds1307, n: nat)
    ensures
        DeviceView::Ds1307(dev).after_reads(n) == DeviceView::Ds1307(dev.after_reads(n)),
    decreases n,
{
    if n > 0 {
        lemma_ds1307_reads(dev, (n - 1) as nat);
    }
}

proof fn lemma_ds1629_reads(dev: Ds1629, n: nat)
    ensures
        DeviceView::Ds1629(dev).after_reads(n) == DeviceView::Ds1629(dev.after_reads(n)),
    decreases n,
{
    if n > 0 {
        lemma_ds1629_reads(dev, (n - 1) as nat);
    }
}

/// A driver that sends the R2025 a register number in the high nibble and
/// reads gets the registers from that one on, counted round all sixteen.
pub proof fn lemma_r2025_read(board: BoardView, addr7: u8, byte: u8, k: nat)
    requires
        addr7 < 128,
        answering(board, addr7) matches Some(DeviceView::R2025(_)),
    ensures
        driver_reads(board, addr7, seq![byte], k) == answering(
            board,
            addr7,
        ).unwrap()->R2025_0.register(((byte / 16 + k) % 16) as u8),
{
    let dev = answering(board, addr7).unwrap()->R2025_0;
    lemma_driver_reads(board, addr7, seq![byte], k);
    lemma_one_told(DeviceView::R2025(dev.after_start(false)), byte);
    lemma_r2025_reads(dev.after_start(false).after_write(byte).after_start(true), k);
    r2025::lemma_told(dev, byte, k);
}

/// A driver that sends the DS1307 a register number and reads gets the
/// registers from that one on, counted round all 256.
pub proof fn lemma_ds1307_read(board: BoardView, addr7: u8, reg: u8, k: nat)
    requires
        addr7 < 128,
        answering(board, addr7) matches Some(DeviceView::Ds1307(_)),
    ensures
        driver_reads(board, addr7, seq![reg], k) == answering(
            board,
            addr7,
        ).unwrap()->Ds1307_0.register(((reg + k) % 256) as u8),
{
    let dev = answering(board, addr7).unwrap()->Ds1307_0;
    lemma_driver_reads(board, addr7, seq![reg], k);
    lemma_one_told(DeviceView::Ds1307(dev.after_start(false)), reg);
    lemma_ds1307_reads(dev.after_start(false).after_write(reg).after_start(true), k);
    ds1307::lemma_told(dev, reg, k);
}

/// A driver that sends the DS1629 Access Clock and a register number and reads
/// gets the registers from that one on, counted round all seven.
pub proof fn lemma_ds1629_read(board: BoardView, addr7: u8, reg: u8, k: nat)
    requires
        addr7 < 128,
        answering(board, addr7) matches Some(DeviceView::Ds1629(_)),
    ensures
        driver_reads(board, addr7, seq![0xC0u8, reg], k) == answering(
            board,
            addr7,
        ).unwrap()->Ds1629_0.register(((reg + k) % 7) as u8),
{
    let dev = answering(board, addr7).unwrap()->Ds1629_0;
    let told = dev.after_start(false).after_write(0xC0).after_write(reg);
    lemma_driver_reads(board, addr7, seq![0xC0u8, reg], k);
    lemma_two_told(DeviceView::Ds1629(dev.after_start(false)), 0xC0, reg);
    lemma_ds1629_reads(told.after_start(true), k);
    ds1629::lemma_told(dev, reg, k);
}

/// A driver that sends the PCF8583 a register number and reads gets the
/// registers from that one on, counted round all 256.
pub proof fn lemma_pcf8583_read(board: BoardView, addr7: u8, reg: u8, k: nat)
    requires
        addr7 < 128,
        answering(board, addr7) matches Some(DeviceView::Pcf8583(_)),
    ensures
        driver_reads(board, addr7, seq![reg], k) == answering(
            board,
            addr7,
        ).unwrap()->Pcf8583_0.register(((reg + k) % 256) as u8),
{
    reveal(driver_reads);
    lemma_clock_read(board, addr7, reg, k + 1);
}

/// A device of a board that carries a list is a new one of its kind.
proof fn lemma_carried(board: BoardView, list: Seq<(Kind, u8)>, config: BoardConfig, i: int)
    requires
        board.carries(list, config),
        0 <= i < board.bus.devices.len(),
    ensures
        ({
            let d = board.bus.devices[i].1;
            fresh(d.kind(), config, d)
        }),
{
    let kind = list[i].0;
    let d = board.bus.devices[i].1;
    assert(fresh(kind, config, d));
    assert(d.kind() == kind);
}

/// The device that answers on a board fresh from its configuration is a new
/// one of its kind.
proof fn lemma_fresh_device(board: BoardView, config: BoardConfig, addr7: u8)
    requires
        board.configured(config),
        answering(board, addr7) is Some,
    ensures
        ({
            let d = answering(board, addr7).unwrap();
            fresh(d.kind(), config, d)
        }),
{
    view_addresses(board.bus.devices).index_of_first_ensures(addr7);
    lemma_carried(board, fitted(config), config, board.bus.selected(addr7).unwrap());
}

/// A board that carries a list has each of its devices in the slot of its
/// kind, under its name, and has no others.
proof fn lemma_carried_places(board: BoardView, list: Seq<(Kind, u8)>, config: BoardConfig)
    requires
        board.carries(list, config),
    ensures
        board.slots_hold(),
        board.names_hold(),
        forall|k: Kind, a: u8|
            list.contains((k, a)) ==> (#[trigger] board.slots.of(k)) is Some
                && #[trigger] view_addresses(board.bus.devices).contains(a),
        forall|k: Kind|
            (#[trigger] board.slots.of(k)) matches Some(i) ==> list.contains(
                (k, board.bus.devices[i as int].0),
            ),
{
    assert forall|k: Kind| (#[trigger] board.slots.of(k)) is Some implies {
        let i = board.slots.of(k).unwrap();
        &&& i < board.bus.devices.len()
        &&& board.bus.devices[i as int].1.kind() == k
        &&& list.contains((k, board.bus.devices[i as int].0))
    } by {
        let i = board.slots.of(k).unwrap() as int;
        assert(list[i].0 == k);
        lemma_carried(board, list, config, i);
        assert(fresh(k, config, board.bus.devices[i].1));
    }
    assert forall|i: int| 0 <= i < board.names.len() implies #[trigger] board.names[i] == (
        kind_name(board.bus.devices[i].1.kind()),
        board.bus.devices[i].0,
    ) by {
        let k = list[i].0;
        assert(fresh(k, config, board.bus.devices[i].1));
        assert(board.bus.devices[i].1.kind() == k);
    }
    assert forall|k: Kind, a: u8| list.contains((k, a)) implies (#[trigger] board.slots.of(k))
        is Some && #[trigger] view_addresses(board.bus.devices).contains(a) by {
        let i = choose|i: int| 0 <= i < list.len() && list[i] == (k, a);
        assert(board.slots.of(list[i].0) == Some(i as usize));
        assert(view_addresses(board.bus.devices)[i] == a);
    }
}

/// A board fresh from its configuration: the status reads 0x81, no interrupt is
/// up, nothing is unplugged or addressed, nothing was reported of the display;
/// every device that is switched on answers at its address, and none other is
/// there.
pub proof fn lemma_fresh_board(board: BoardView, config: BoardConfig, k: Kind, a: u8)
    requires
        board.configured(config),
    ensures
        board.pcf.status() == 0x81 && !board.int2() && board.byte_value(2) == 0x81,
        board.bus.active is None && !board.bus.unplugged.contains(a),
        board.lcd_last_lines is None && board.lcd_columns == config.lcd_columns,
        board.slots_hold() && board.names_hold(),
        fitted(config).contains((k, a)) ==> board.bus.selected(a) is Some && board.slots.of(k)
            is Some,
        board.slots.of(k) matches Some(i) ==> fitted(config).contains(
            (k, board.bus.devices[i as int].0),
        ),
{
    let list = fitted(config);
    lemma_carried_places(board, list, config);
    if list.contains((k, a)) {
        assert(board.slots.of(k) is Some);
        assert(view_addresses(board.bus.devices).contains(a));
        view_addresses(board.bus.devices).index_of_first_ensures(a);
    }
    if let Some(i) = board.slots.of(k) {
        assert(list.contains((k, board.bus.devices[i as int].0)));
    }
}

/// A date on the calendar has a day of the week.
proof fn lemma_has_weekday(w: WallClock)
    requires
        w.on_calendar(),
    ensures
        0 <= w.weekday() <= 6,
{
}

/// A new R2025 that was given a time holds it, field by field.
pub proof fn lemma_r2025_holds_time(config: BoardConfig, w: WallClock, dev: R2025)
    requires
        fresh(Kind::R2025, config, DeviceView::R2025(dev)),
        config.r2025_time == Some(w),
        w.on_calendar(),
    ensures
        bcd_value(dev.register(0)) == w.second,
        bcd_value(dev.register(1)) == w.minute,
        bcd_value(dev.register(2)) == w.hour,
        dev.register(3) == w.weekday(),
        bcd_value(dev.register(4)) == w.date,
        bcd_value(dev.register(5)) == w.month,
        bcd_value(dev.register(6)) == w.year % 100,
{
    lemma_has_weekday(w);
    r2025::lemma_set_time_round_trip(dev);
}

/// A new DS1307 that was given a time holds it, field by field.
pub proof fn lemma_ds1307_holds_time(config: BoardConfig, w: WallClock, dev: Ds1307)
    requires
        fresh(Kind::Ds1307, config, DeviceView::Ds1307(dev)),
        config.ds1307_time == Some(w),
        w.on_calendar(),
    ensures
        bcd_value(dev.register(0)) == w.second,
        bcd_value(dev.register(1)) == w.minute,
        bcd_value(dev.register(2)) == w.hour,
        dev.register(3) == w.weekday() + 1,
        bcd_value(dev.register(4)) == w.date,
        bcd_value(dev.register(5)) == w.month,
        bcd_value(dev.register(6)) == w.year % 100,
        dev.register(7) == 0,
{
    lemma_has_weekday(w);
    ds1307::lemma_set_time_round_trip(dev);
}

/// A new DS1629 that was given a time holds it, field by field.
pub proof fn lemma_ds1629_holds_time(config: BoardConfig, w: WallClock, dev: Ds1629)
    requires
        fresh(Kind::Ds1629, config, DeviceView::Ds1629(dev)),
        config.ds1629_time == Some(w),
        w.on_calendar(),
    ensures
        bcd_value(dev.register(0)) == w.second,
        bcd_value(dev.register(1)) == w.minute,
        bcd_value(dev.register(2)) == w.hour,
        dev.register(3) == w.weekday() + 1,
        bcd_value(dev.register(4)) == w.date,
        bcd_value(dev.register(5)) == w.month,
        bcd_value(dev.register(6)) == w.year % 100,
{
    lemma_has_weekday(w);
    ds1629::lemma_set_time_round_trip(dev);
}

/// A new PCF8583 that was given a time holds it, field by field.
pub proof fn lemma_pcf8583_holds_time(config: BoardConfig, w: WallClock, dev: Pcf8583)
    requires
        fresh(Kind::Pcf8583, config, DeviceView::Pcf8583(dev)),
        config.pcf8583_time == Some(w),
        w.on_calendar(),
    ensures
        dev.register(0) == 0,
        dev.register(1) == 0,
        bcd_value(dev.register(2)) == w.second,
        bcd_value(dev.register(3)) == w.minute,
        bcd_value(dev.register(4)) == w.hour,
        dev.register(5) / 64 == w.year % 4,
        bcd_value(dev.register(5) % 64) == w.date,
        dev.register(6) / 32 == w.weekday(),
        bcd_value(dev.register(6) % 32) == w.month,
        dev.register(0x10) == 0,
{
    lemma_has_weekday(w);
    assert(w.date <= 31);
    pcf8583::lemma_set_time_round_trip(dev);
}

/// What a driver reads from the R2025 of a board that was given a time is that
/// time, field by field: seconds, minutes, hours, weekday, date, month and
/// year, in that order, BCD but for the weekday.
pub proof fn lemma_r2025_shows_time(board: BoardView, config: BoardConfig, w: WallClock)
    requires
        board.configured(config),
        config.r2025_time == Some(w),
        w.on_calendar(),
        answering(board, 0x32) matches Some(DeviceView::R2025(_)),
    ensures
        bcd_value(driver_reads(board, 0x32, seq![0x00u8], 0)) == w.second,
        bcd_value(driver_reads(board, 0x32, seq![0x00u8], 1)) == w.minute,
        bcd_value(driver_reads(board, 0x32, seq![0x00u8], 2)) == w.hour,
        driver_reads(board, 0x32, seq![0x00u8], 3) == w.weekday(),
        bcd_value(driver_reads(board, 0x32, seq![0x00u8], 4)) == w.date,
        bcd_value(driver_reads(board, 0x32, seq![0x00u8], 5)) == w.month,
        bcd_value(driver_reads(board, 0x32, seq![0x00u8], 6)) == w.year % 100,
{
    let dev = answering(board, 0x32).unwrap()->R2025_0;
    lemma_fresh_device(board, config, 0x32);
    lemma_r2025_read(board, 0x32, 0, 0);
    lemma_r2025_read(board, 0x32, 0, 1);
    lemma_r2025_read(board, 0x32, 0, 2);
    lemma_r2025_read(board, 0x32, 0, 3);
    lemma_r2025_read(board, 0x32, 0, 4);
    lemma_r2025_read(board, 0x32, 0, 5);
    lemma_r2025_read(board, 0x32, 0, 6);
    lemma_r2025_holds_time(config, w, dev);
}

/// What a driver reads from the DS1307 of a board that was given a time is
/// that time, field by field: seconds, minutes, hours, weekday from 1 for
/// Sunday, date, month and year, in that order, BCD but for the weekday.
pub proof fn lemma_ds1307_shows_time(board: BoardView, config: BoardConfig, w: WallClock)
    requires
        board.configured(config),
        config.ds1307_time == Some(w),
        w.on_calendar(),
        answering(board, 0x68) matches Some(DeviceView::Ds1307(_)),
    ensures
        bcd_value(driver_reads(board, 0x68, seq![0x00u8], 0)) == w.second,
        bcd_value(driver_reads(board, 0x68, seq![0x00u8], 1)) == w.minute,
        bcd_value(driver_reads(board, 0x68, seq![0x00u8], 2)) == w.hour,
        driver_reads(board, 0x68, seq![0x00u8], 3) == w.weekday() + 1,
        bcd_value(driver_reads(board, 0x68, seq![0x00u8], 4)) == w.date,
        bcd_value(driver_reads(board, 0x68, seq![0x00u8], 5)) == w.month,
        bcd_value(driver_reads(board, 0x68, seq![0x00u8], 6)) == w.year % 100,
{
    let dev = answering(board, 0x68).unwrap()->Ds1307_0;
    lemma_fresh_device(board, config, 0x68);
    lemma_ds1307_read(board, 0x68, 0, 0);
    lemma_ds1307_read(board, 0x68, 0, 1);
    lemma_ds1307_read(board, 0x68, 0, 2);
    lemma_ds1307_read(board, 0x68, 0, 3);
    lemma_ds1307_read(board, 0x68, 0, 4);
    lemma_ds1307_read(board, 0x68, 0, 5);
    lemma_ds1307_read(board, 0x68, 0, 6);
    lemma_ds1307_holds_time(config, w, dev);
}

/// What a driver reads from the DS1629 of a board that was given a time is
/// that time, field by field: seconds, minutes, hours, weekday from 1 for
/// Sunday, date, month and year, in that order, BCD but for the weekday.
pub proof fn lemma_ds1629_shows_time(board: BoardView, config: BoardConfig, w: WallClock)
    requires
        board.configured(config),
        config.ds1629_time == Some(w),
        w.on_calendar(),
        answering(board, 0x4F) matches Some(DeviceView::Ds1629(_)),
    ensures
        bcd_value(driver_reads(board, 0x4F, seq![0xC0u8, 0x00u8], 0)) == w.second,
        bcd_value(driver_reads(board, 0x4F, seq![0xC0u8, 0x00u8], 1)) == w.minute,
        bcd_value(driver_reads(board, 0x4F, seq![0xC0u8, 0x00u8], 2)) == w.hour,
        driver_reads(board, 0x4F, seq![0xC0u8, 0x00u8], 3) == w.weekday() + 1,
        bcd_value(driver_reads(board, 0x4F, seq![0xC0u8, 0x00u8], 4)) == w.date,
        bcd_value(driver_reads(board, 0x4F, seq![0xC0u8, 0x00u8], 5)) == w.month,
        bcd_value(driver_reads(board, 0x4F, seq![0xC0u8, 0x00u8], 6)) == w.year % 100,
{
    let dev = answering(board, 0x4F).unwrap()->Ds1629_0;
    lemma_fresh_device(board, config, 0x4F);
    lemma_ds1629_read(board, 0x4F, 0, 0);
    lemma_ds1629_read(board, 0x4F, 0, 1);
    lemma_ds1629_read(board, 0x4F, 0, 2);
    lemma_ds1629_read(board, 0x4F, 0, 3);
    lemma_ds1629_read(board, 0x4F, 0, 4);
    lemma_ds1629_read(board, 0x4F, 0, 5);
    lemma_ds1629_read(board, 0x4F, 0, 6);
    lemma_ds1629_holds_time(config, w, dev);
}

/// What a driver reads from the PCF8583 of a board that was given a time is
/// that time, field by field: hundredths, which are zero, then seconds,
/// minutes and hours; the year, modulo four, over the date; and the weekday
/// over the month.
pub proof fn lemma_pcf8583_shows_time(
    board: BoardView,
    config: BoardConfig,
    w: WallClock,
    addr7: u8,
)
    requires
        board.configured(config),
        config.pcf8583_time == Some(w),
        w.on_calendar(),
        addr7 < 128,
        answering(board, addr7) matches Some(DeviceView::Pcf8583(_)),
    ensures
        driver_reads(board, addr7, seq![0x01u8], 0) == 0,
        bcd_value(driver_reads(board, addr7, seq![0x01u8], 1)) == w.second,
        bcd_value(driver_reads(board, addr7, seq![0x01u8], 2)) == w.minute,
        bcd_value(driver_reads(board, addr7, seq![0x01u8], 3)) == w.hour,
        driver_reads(board, addr7, seq![0x01u8], 4) / 64 == w.year % 4,
        bcd_value(driver_reads(board, addr7, seq![0x01u8], 4) % 64) == w.date,
        driver_reads(board, addr7, seq![0x01u8], 5) / 32 == w.weekday(),
        bcd_value(driver_reads(board, addr7, seq![0x01u8], 5) % 32) == w.month,
{
    let dev = answering(board, addr7).unwrap()->Pcf8583_0;
    lemma_fresh_device(board, config, addr7);
    lemma_pcf8583_read(board, addr7, 1, 0);
    lemma_pcf8583_read(board, addr7, 1, 1);
    lemma_pcf8583_read(board, addr7, 1, 2);
    lemma_pcf8583_read(board, addr7, 1, 3);
    lemma_pcf8583_read(board, addr7, 1, 4);
    lemma_pcf8583_read(board, addr7, 1, 5);
    lemma_pcf8583_holds_time(config, w, dev);
}

// The sensors.

/// A driver that sends the voltage monitor a register number and reads gets
/// the registers from that one on, counted round all sixteen.
pub proof fn lemma_ltc2990_read(board: BoardView, addr7: u8, reg: u8, k: nat)
    requires
        addr7 < 128,
        answering(board, addr7) matches Some(DeviceView::Ltc2990(_)),
    ensures
        driver_reads(board, addr7, seq![reg], k) == answering(
            board,
            addr7,
        ).unwrap()->Ltc2990_0.register(((reg + k) % 16) as u8),
{
    reveal(driver_reads);
    lemma_monitor_read(board, addr7, reg, k + 1);
}

/// The temperature that a driver makes of a register pair of the voltage
/// monitor, in sixteenths of a degree.
pub open spec fn monitor_temp(board: BoardView, addr7: u8, reg: u8) -> int {
    driver_temp(
        driver_reads(board, addr7, seq![reg], 0),
        driver_reads(board, addr7, seq![reg], 1),
    )
}

/// The count that a driver makes of a register pair of the voltage monitor.
pub open spec fn monitor_count(board: BoardView, addr7: u8, reg: u8) -> int {
    driver_count(
        driver_reads(board, addr7, seq![reg], 0),
        driver_reads(board, addr7, seq![reg], 1),
    )
}

/// A temperature as far as thirteen bits hold it.
pub open spec fn in13(x: int) -> int {
    if x < -4096 {
        -4096
    } else if x > 4095 {
        4095
    } else {
        x
    }
}

/// A count as far as fourteen bits hold it.
pub open spec fn in14(x: int) -> int {
    if x < 0 {
        0
    } else if x > 16383 {
        16383
    } else {
        x
    }
}

/// What a driver reads from the voltage monitor is what its channels were set
/// to, each from its own register pair, as far as the pair's bits hold it.
pub proof fn lemma_ltc2990_shows(board: BoardView, addr7: u8)
    requires
        addr7 < 128,
        answering(board, addr7) matches Some(DeviceView::Ltc2990(_)),
    ensures
        ({
            let dev = answering(board, addr7).unwrap()->Ltc2990_0;
            &&& monitor_temp(board, addr7, 0x4) == in13(dev.tint as int)
            &&& monitor_count(board, addr7, 0x6) == in14(dev.v1 as int)
            &&& monitor_count(board, addr7, 0x8) == in14(dev.v2 as int)
            &&& monitor_temp(board, addr7, 0xA) == in13(dev.external_temp as int)
            &&& monitor_count(board, addr7, 0xE) == in14(dev.vcc as int)
        }),
{
    let dev = answering(board, addr7).unwrap()->Ltc2990_0;
    lemma_ltc2990_read(board, addr7, 0x4, 0);
    lemma_ltc2990_read(board, addr7, 0x4, 1);
    lemma_ltc2990_read(board, addr7, 0x6, 0);
    lemma_ltc2990_read(board, addr7, 0x6, 1);
    lemma_ltc2990_read(board, addr7, 0x8, 0);
    lemma_ltc2990_read(board, addr7, 0x8, 1);
    lemma_ltc2990_read(board, addr7, 0xA, 0);
    lemma_ltc2990_read(board, addr7, 0xA, 1);
    lemma_ltc2990_read(board, addr7, 0xE, 0);
    lemma_ltc2990_read(board, addr7, 0xE, 1);
    ltc2990::lemma_registers_decoded(dev);
}

/// What a driver makes of register 0 of the temperature sensor, in half
/// degrees.
pub open spec fn sensor_temp(board: BoardView, addr7: u8) -> int {
    let raw = driver_reads(board, addr7, seq![0u8], 0) * 256 + driver_reads(
        board,
        addr7,
        seq![0u8],
        1,
    );
    if raw >= 0x8000 {
        raw / 128 - 512
    } else {
        raw / 128
    }
}

/// A temperature as far as nine bits hold it.
pub open spec fn in9(x: int) -> int {
    if x < -256 {
        -256
    } else if x > 255 {
        255
    } else {
        x
    }
}

/// What a driver reads from the temperature sensor is what it was set to, as
/// far as nine bits hold it.
pub proof fn lemma_lm75_shows(board: BoardView, addr7: u8)
    requires
        addr7 < 128,
        answering(board, addr7) matches Some(DeviceView::Lm75(_)),
    ensures
        sensor_temp(board, addr7) == in9(
            answering(board, addr7).unwrap()->Lm75_0.half_degrees as int,
        ),
{
    let dev = answering(board, addr7).unwrap()->Lm75_0;
    let pointed = DeviceView::Lm75(dev.after_start(false).after_write(0).after_start(true));
    lemma_driver_reads(board, addr7, seq![0u8], 0);
    lemma_driver_reads(board, addr7, seq![0u8], 1);
    lemma_one_told(DeviceView::Lm75(dev.after_start(false)), 0);
    reveal_with_fuel(DeviceView::after_reads, 2);
    assert(pointed.after_reads(1) == pointed.after_read());
    lm75::lemma_temperature_decoded(dev);
}

/// Reading moves the response on and changes nothing else.
proof fn lemma_am2320_reads(dev: Am2320, n: nat)
    ensures
        DeviceView::Am2320(dev).after_reads(n) == DeviceView::Am2320(
            Am2320 { read_pos: ((dev.read_pos + n) % 256) as u8, ..dev },
        ),
    decreases n,
{
    if n > 0 {
        lemma_am2320_reads(dev, (n - 1) as nat);
    }
}

/// A driver that sends the AM2320 a command and reads gets the response, byte
/// by byte.
proof fn lemma_am2320_read(board: BoardView, start: u8, k: nat)
    requires
        answering(board, 0x5C) matches Some(DeviceView::Am2320(_)),
        k < 256,
    ensures
        driver_reads(board, 0x5C, seq![0x03u8, start, 0x02u8], k) == answering(
            board,
            0x5C,
        ).unwrap()->Am2320_0.after_start(false).after_write(0x03).after_write(start).after_write(
            0x02,
        ).after_start(true).response(k as int),
{
    let dev = answering(board, 0x5C).unwrap()->Am2320_0;
    let asked = dev.after_start(false).after_write(0x03).after_write(start).after_write(
        0x02,
    ).after_start(true);
    lemma_driver_reads(board, 0x5C, seq![0x03u8, start, 0x02u8], k);
    lemma_three_told(DeviceView::Am2320(dev.after_start(false)), 0x03, start, 0x02);
    lemma_am2320_reads(asked, k);
}

/// What a driver reads from the AM2320 after it has asked for start address 2:
/// the sign and the size of the temperature that it was set to; and after it
/// has asked for start address 0, the humidity.
pub proof fn lemma_am2320_shows(board: BoardView, start: u8)
    requires
        answering(board, 0x5C) matches Some(DeviceView::Am2320(_)),
    ensures
        ({
            let dev = answering(board, 0x5C).unwrap()->Am2320_0;
            let command = seq![0x03u8, start, 0x02u8];
            let word = driver_reads(board, 0x5C, command, 2) * 256 + driver_reads(
                board,
                0x5C,
                command,
                3,
            );
            &&& 0 <= word <= 0xFFFF
            &&& driver_reads(board, 0x5C, command, 0) == 3
            &&& driver_reads(board, 0x5C, command, 1) == 4
            &&& start == 2 ==> (word >= 0x8000) == dev.negative
            &&& start == 2 && dev.tenths <= 0x7FFF ==> word % 0x8000 == dev.tenths
            &&& start == 0 ==> word == dev.humidity_tenths
        }),
{
    let dev = answering(board, 0x5C).unwrap()->Am2320_0;
    lemma_am2320_read(board, start, 0);
    lemma_am2320_read(board, start, 1);
    lemma_am2320_read(board, start, 2);
    lemma_am2320_read(board, start, 3);
    am2320::lemma_response_bytes(dev, 0x03, start, 0x02);
}

proof fn lemma_bmp280_reads(dev: Bmp280, n: nat)
    ensures
        DeviceView::Bmp280(dev).after_reads(n) == DeviceView::Bmp280(dev.after_reads(n)),
    decreases n,
{
    if n > 0 {
        lemma_bmp280_reads(dev, (n - 1) as nat);
    }
}

proof fn lemma_bme680_reads(dev: Bme680, n: nat)
    ensures
        DeviceView::Bme680(dev).after_reads(n) == DeviceView::Bme680(dev.after_reads(n)),
    decreases n,
{
    if n > 0 {
        lemma_bme680_reads(dev, (n - 1) as nat);
    }
}

/// A driver that sends the BMP280 a register number and reads gets the
/// registers from that one on.
pub proof fn lemma_bmp280_read(board: BoardView, reg: u8, k: nat)
    requires
        answering(board, 0x76) matches Some(DeviceView::Bmp280(_)),
    ensures
        driver_reads(board, 0x76, seq![reg], k) == answering(
            board,
            0x76,
        ).unwrap()->Bmp280_0.register(((reg + k) % 256) as u8),
{
    let dev = answering(board, 0x76).unwrap()->Bmp280_0;
    lemma_driver_reads(board, 0x76, seq![reg], k);
    lemma_one_told(DeviceView::Bmp280(dev.after_start(false)), reg);
    lemma_bmp280_reads(dev.after_start(false).after_write(reg).after_start(true), k);
    bmp280::lemma_told(dev, reg, k);
}

/// A driver that sends the BME680 a register number and reads gets the
/// registers from that one on.
pub proof fn lemma_bme680_read(board: BoardView, reg: u8, k: nat)
    requires
        answering(board, 0x77) matches Some(DeviceView::Bme680(_)),
    ensures
        driver_reads(board, 0x77, seq![reg], k) == answering(
            board,
            0x77,
        ).unwrap()->Bme680_0.register(((reg + k) % 256) as u8),
{
    let dev = answering(board, 0x77).unwrap()->Bme680_0;
    lemma_driver_reads(board, 0x77, seq![reg], k);
    lemma_one_told(DeviceView::Bme680(dev.after_start(false)), reg);
    lemma_bme680_reads(dev.after_start(false).after_write(reg).after_start(true), k);
    bme680::lemma_told(dev, reg, k);
}

/// The twenty-bit count that a driver makes of three registers read in a row.
pub open spec fn count20(board: BoardView, addr7: u8, reg: u8) -> int {
    driver_reads(board, addr7, seq![reg], 0) * 4096 + driver_reads(board, addr7, seq![reg], 1) * 16
        + driver_reads(board, addr7, seq![reg], 2) / 16
}

/// What a driver takes for the BMP280's counts, from 0xF7 and 0xFA, are those
/// that it was set to.
pub proof fn lemma_bmp280_shows(board: BoardView)
    requires
        answering(board, 0x76) matches Some(DeviceView::Bmp280(dev)) && dev.calibrated(),
    ensures
        ({
            let dev = answering(board, 0x76).unwrap()->Bmp280_0;
            &&& count20(board, 0x76, 0xF7) == dev.adc_p
            &&& count20(board, 0x76, 0xFA) == dev.adc_t
        }),
{
    let dev = answering(board, 0x76).unwrap()->Bmp280_0;
    lemma_bmp280_read(board, 0xF7, 0);
    lemma_bmp280_read(board, 0xF7, 1);
    lemma_bmp280_read(board, 0xF7, 2);
    lemma_bmp280_read(board, 0xFA, 0);
    lemma_bmp280_read(board, 0xFA, 1);
    lemma_bmp280_read(board, 0xFA, 2);
    bmp280::lemma_counts_decoded(dev);
}

/// What a driver takes for the BME680's counts, from 0x1F, 0x22 and 0x25, are
/// those that it was set to.
pub proof fn lemma_bme680_shows(board: BoardView)
    requires
        answering(board, 0x77) matches Some(DeviceView::Bme680(dev)) && dev.calibrated(),
    ensures
        ({
            let dev = answering(board, 0x77).unwrap()->Bme680_0;
            &&& count20(board, 0x77, 0x1F) == dev.adc_p
            &&& count20(board, 0x77, 0x22) == dev.adc_t
            &&& driver_reads(board, 0x77, seq![0x25u8], 0) * 256 + driver_reads(
                board,
                0x77,
                seq![0x25u8],
                1,
            ) == dev.hum_adc
        }),
{
    let dev = answering(board, 0x77).unwrap()->Bme680_0;
    lemma_bme680_read(board, 0x1F, 0);
    lemma_bme680_read(board, 0x1F, 1);
    lemma_bme680_read(board, 0x1F, 2);
    lemma_bme680_read(board, 0x22, 0);
    lemma_bme680_read(board, 0x22, 1);
    lemma_bme680_read(board, 0x22, 2);
    lemma_bme680_read(board, 0x25, 0);
    lemma_bme680_read(board, 0x25, 1);
    bme680::lemma_counts_decoded(dev);
}

/// What a driver reads from the port expander, after it has sent a byte, are
/// the pins: each high if the byte releases it and nothing holds it low.
pub proof fn lemma_pcf8574_shows(board: BoardView, addr7: u8, byte: u8, k: nat, pin: u8)
    requires
        addr7 < 128,
        pin < 8,
        answering(board, addr7) matches Some(DeviceView::Pcf8574(_)),
    ensures
        ({
            let dev = answering(board, addr7).unwrap()->Pcf8574_0;
            bit_of(driver_reads(board, addr7, seq![byte], k) as u8, pin) == (bit_of(byte, pin)
                && !bit_of(dev.external_low, pin))
        }),
{
    let dev = answering(board, addr7).unwrap()->Pcf8574_0;
    lemma_driver_reads(board, addr7, seq![byte], k);
    lemma_one_told(DeviceView::Pcf8574(dev), byte);
    lemma_pcf8574_reads(dev.after_write(byte), k);
    pcf8574::lemma_last_write_counts(dev, byte, byte, pin);
}

proof fn lemma_pcf8574_reads(dev: Pcf8574, n: nat)
    ensures
        DeviceView::Pcf8574(dev).after_reads(n) == DeviceView::Pcf8574(dev),
    decreases n,
{
    if n > 0 {
        lemma_pcf8574_reads(dev, (n - 1) as nat);
    }
}

// Scripts.

/// Which device answers goes by addresses and what is unplugged.
proof fn lemma_same_answerer(after: BoardView, board: BoardView, addr7: u8)
    requires
        after.bus.devices.len() == board.bus.devices.len(),
        after.bus.unplugged == board.bus.unplugged,
        forall|k: int|
            0 <= k < board.bus.devices.len() ==> (#[trigger] after.bus.devices[k]).0
                == board.bus.devices[k].0,
    ensures
        after.bus.selected(addr7) == board.bus.selected(addr7),
        board.bus.selected(addr7) matches Some(k) ==> 0 <= k < board.bus.devices.len(),
{
    assert(view_addresses(after.bus.devices) =~= view_addresses(board.bus.devices));
    view_addresses(board.bus.devices).index_of_first_ensures(addr7);
}

/// After an event that sets a channel, the devices answer where they did, and
/// all but the one that it is for are as they were.
proof fn lemma_answers_after_event(
    board: BoardView,
    name: Seq<char>,
    x: i32,
    event: EventView,
    i: usize,
    addr7: u8,
)
    requires
        board.slots_hold(),
        sets(name, event, x),
        name != "lm75.celsius"@ ==> board.slots.of(Kind::Ltc2990) == Some(i),
        name == "lm75.celsius"@ ==> board.slots.of(Kind::Lm75) == Some(i),
    ensures
        applied(event, board).bus.selected(addr7) == board.bus.selected(addr7),
        board.bus.selected(addr7) != Some(i as int) ==> answering(applied(event, board), addr7)
            == answering(board, addr7),
        board.bus.selected(addr7) == Some(i as int) ==> answering(applied(event, board), addr7)
            == Some(applied(event, board).bus.devices[i as int].1),
{
    let after = applied(event, board);
    lemma_events_hit_one_device(board, name, x, event, i);
    assert forall|k: int| 0 <= k < board.bus.devices.len() implies (
    #[trigger] after.bus.devices[k]).0 == board.bus.devices[k].0 by {
        if k == i {
        } else {
            assert(after.bus.devices[k] == board.bus.devices[k]);
        }
    }
    lemma_same_answerer(after, board, addr7);
}

/// After a script's event that sets a channel of the voltage monitor, a driver
/// that reads that channel's register pair gets what it was set to, as far as
/// the pair's bits hold it: `tint` at 4, `v1` at 6, `v2` at 8,
/// `external_temp` at 0xA, `vcc` at 0xE. Every other register of the monitor
/// reads as before, and every other device is as it was.
pub proof fn lemma_monitor_event_is_read(
    board: BoardView,
    name: Seq<char>,
    x: i32,
    event: EventView,
    i: usize,
    addr7: u8,
    reg: u8,
    other: u8,
)
    requires
        board.slots_hold(),
        sets(name, event, x),
        name != "lm75.celsius"@,
        board.slots.of(Kind::Ltc2990) == Some(i),
        board.bus.selected(addr7) == Some(i as int),
        addr7 < 128,
        reg < 16,
        board.bus.selected(other) != Some(i as int),
    ensures
        ({
            let after = applied(event, board);
            let pair: int = if name == "ltc2990.tint"@ {
                0x4
            } else if name == "ltc2990.v1"@ {
                0x6
            } else if name == "ltc2990.v2"@ {
                0x8
            } else if name == "ltc2990.external_temp"@ {
                0xA
            } else {
                0xE
            };
            &&& name == "ltc2990.tint"@ ==> monitor_temp(after, addr7, 0x4) == in13(x as int)
            &&& name == "ltc2990.v1"@ ==> monitor_count(after, addr7, 0x6) == in14(x as int)
            &&& name == "ltc2990.v2"@ ==> monitor_count(after, addr7, 0x8) == in14(x as int)
            &&& name == "ltc2990.external_temp"@ ==> monitor_temp(after, addr7, 0xA) == in13(
                x as int,
            )
            &&& name == "ltc2990.vcc"@ ==> monitor_count(after, addr7, 0xE) == in14(x as int)
            &&& reg != pair && reg != pair + 1 ==> driver_reads(after, addr7, seq![reg], 0)
                == driver_reads(board, addr7, seq![reg], 0)
            &&& answering(after, other) == answering(board, other)
        }),
{
    let after = applied(event, board);
    lemma_channel_names(name);
    lemma_events_hit_one_device(board, name, x, event, i);
    lemma_answers_after_event(board, name, x, event, i, addr7);
    lemma_answers_after_event(board, name, x, event, i, other);
    assert(board.slots.of(Kind::Ltc2990) == Some(i));
    let (before, now) = (
        board.bus.devices[i as int].1->Ltc2990_0,
        after.bus.devices[i as int].1->Ltc2990_0,
    );
    assert(answering(board, addr7) == Some(DeviceView::Ltc2990(before)));
    assert(answering(after, addr7) == Some(DeviceView::Ltc2990(now)));
    lemma_ltc2990_shows(after, addr7);
    lemma_ltc2990_read(after, addr7, reg, 0);
    lemma_ltc2990_read(board, addr7, reg, 0);
    lemma_only_own_pair(before, reg, x);
}

/// A channel shows in its own register pair and in no other register.
proof fn lemma_only_own_pair(before: Ltc2990, reg: u8, x: i32)
    ensures
        reg != 0x4 && reg != 0x5 ==> (Ltc2990 { tint: x, ..before }).register(reg)
            == before.register(reg),
        reg != 0x6 && reg != 0x7 ==> (Ltc2990 { v1: x, ..before }).register(reg)
            == before.register(reg),
        reg != 0x8 && reg != 0x9 ==> (Ltc2990 { v2: x, ..before }).register(reg)
            == before.register(reg),
        reg != 0xA && reg != 0xB ==> (Ltc2990 { external_temp: x, ..before }).register(reg)
            == before.register(reg),
        reg != 0xE && reg != 0xF ==> (Ltc2990 { vcc: x, ..before }).register(reg)
            == before.register(reg),
{
}

/// After a script's event that sets the temperature sensor, a driver that reads
/// its register 0 gets what it was set to, as far as nine bits hold it; its
/// other registers are as they were, and so is every other device.
pub proof fn lemma_sensor_event_is_read(
    board: BoardView,
    x: i32,
    i: usize,
    addr7: u8,
    other: u8,
)
    requires
        board.slots_hold(),
        board.slots.of(Kind::Lm75) == Some(i),
        board.bus.selected(addr7) == Some(i as int),
        addr7 < 128,
        board.bus.selected(other) != Some(i as int),
    ensures
        ({
            let after = applied(EventView::SetLm75Celsius(x), board);
            let (then, now) = (answering(board, addr7), answering(after, addr7));
            &&& sensor_temp(after, addr7) == in9(x as int)
            &&& then is Some && then.unwrap() is Lm75 && now is Some && now.unwrap() is Lm75
            &&& now.unwrap()->Lm75_0.config == then.unwrap()->Lm75_0.config
            &&& now.unwrap()->Lm75_0.thyst == then.unwrap()->Lm75_0.thyst
            &&& now.unwrap()->Lm75_0.tos == then.unwrap()->Lm75_0.tos
            &&& answering(after, other) == answering(board, other)
        }),
{
    let event = EventView::SetLm75Celsius(x);
    let after = applied(event, board);
    let name = "lm75.celsius"@;
    lemma_events_hit_one_device(board, name, x, event, i);
    lemma_answers_after_event(board, name, x, event, i, addr7);
    lemma_answers_after_event(board, name, x, event, i, other);
    assert(board.slots.of(Kind::Lm75) == Some(i));
    lemma_lm75_shows(after, addr7);
}

// The memory.

proof fn lemma_eeprom_reads(dev: EepromView, n: nat)
    ensures
        DeviceView::Eeprom(dev).after_reads(n) == DeviceView::Eeprom(dev.after_reads(n)),
    decreases n,
{
    if n > 0 {
        lemma_eeprom_reads(dev, (n - 1) as nat);
    }
}

/// A driver that sends the memory an address and reads gets its bytes from
/// there on, round the whole memory. A memory of more than 256 bytes takes the
/// address in two bytes, high one first, a smaller one in one.
pub proof fn lemma_eeprom_read(board: BoardView, addr7: u8, high: u8, low: u8, k: nat)
    requires
        addr7 < 128,
        answering(board, addr7) matches Some(DeviceView::Eeprom(dev)) && dev.well_formed(),
    ensures
        ({
            let dev = answering(board, addr7).unwrap()->Eeprom_0;
            let size = dev.data.len() as int;
            if size > 256 {
                driver_reads(board, addr7, seq![high, low], k) == dev.data[((high * 256 + low)
                    % size + k) % size]
            } else {
                driver_reads(board, addr7, seq![low], k) == dev.data[(low as int % size + k)
                    % size]
            }
        }),
{
    let dev = answering(board, addr7).unwrap()->Eeprom_0;
    let set = dev.addressed(high, low);
    let begun = DeviceView::Eeprom(dev.after_start(false));
    eeprom24::lemma_addressed(dev, high, low);
    eeprom24::lemma_burst_read(set, k);
    lemma_eeprom_reads(set, k);
    if dev.data.len() > 256 {
        lemma_driver_reads(board, addr7, seq![high, low], k);
        lemma_two_told(begun, high, low);
    } else {
        lemma_driver_reads(board, addr7, seq![low], k);
        lemma_one_told(begun, low);
    }
}

/// What a driver reads from the memory of a board fresh from its
/// configuration: the image that it was loaded with, byte for byte, and zeros
/// behind it; 0xFF throughout if there is none.
pub proof fn lemma_eeprom_shows_image(
    board: BoardView,
    config: BoardConfig,
    addr7: u8,
    high: u8,
    low: u8,
)
    requires
        board.configured(config),
        config.eeprom_size > 0,
        addr7 < 128,
        answering(board, addr7) matches Some(DeviceView::Eeprom(_)),
        high * 256 + low < config.eeprom_size,
        config.eeprom_size <= 256 ==> high == 0,
    ensures
        ({
            let at = high * 256 + low;
            let got = driver_reads(
                board,
                addr7,
                if config.eeprom_size > 256 {
                    seq![high, low]
                } else {
                    seq![low]
                },
                0,
            );
            got == match config.eeprom_image {
                Some(image) => if at < image@.len() {
                    image@[at] as int
                } else {
                    0
                },
                None => 0xFF,
            }
        }),
{
    let dev = answering(board, addr7).unwrap()->Eeprom_0;
    lemma_fresh_device(board, config, addr7);
    lemma_eeprom_read(board, addr7, high, low, 0);
    vstd::arithmetic::div_mod::lemma_small_mod(
        (high * 256 + low) as nat,
        config.eeprom_size as nat,
    );
}

// The display.

/// Bytes sent in two parts are sent in one.
proof fn lemma_told_on(d: DeviceView, a: Seq<u8>, b: Seq<u8>)
    ensures
        d.after_writes(a + b) == d.after_writes(a).after_writes(b),
    decreases b.len(),
{
    if b.len() == 0 {
        assert(a + b =~= a);
    } else {
        assert((a + b).drop_last() =~= a + b.drop_last());
        lemma_told_on(d, a, b.drop_last());
    }
}

/// The port bytes that take a nibble to the display.
pub open spec fn nibble_bytes(rs: bool, nibble: u8, backlight: bool) -> Seq<u8> {
    seq![port_byte(rs, true, backlight, nibble), port_byte(rs, false, backlight, nibble)]
}

/// The port bytes that take text to the display from an address on: the
/// instruction that sets the address, and then the text, each byte as two
/// nibbles.
pub open spec fn text_bytes(start: u8, text: Seq<u8>, backlight: bool) -> Seq<u8>
    decreases text.len(),
{
    if text.len() == 0 {
        nibble_bytes(false, start / 16, backlight) + nibble_bytes(false, start % 16, backlight)
    } else {
        text_bytes(start, text.drop_last(), backlight) + (nibble_bytes(
            true,
            text.last() / 16,
            backlight,
        ) + nibble_bytes(true, text.last() % 16, backlight))
    }
}

/// The port bytes of a byte take it to the display.
proof fn lemma_byte_told(lcd: LcdView, rs: bool, byte: u8, backlight: bool)
    ensures
        DeviceView::Lcd(lcd).after_writes(
            nibble_bytes(rs, byte / 16, backlight) + nibble_bytes(rs, byte % 16, backlight),
        ) == DeviceView::Lcd(lcd.sent(rs, byte, backlight)),
{
    let (high, low) = (byte / 16, byte % 16);
    let d = DeviceView::Lcd(lcd);
    let mid = lcd.sent_nibble(rs, high, backlight);
    reveal(LcdView::sent_nibble);
    lemma_told_on(d, nibble_bytes(rs, high, backlight), nibble_bytes(rs, low, backlight));
    lemma_two_told(
        d,
        port_byte(rs, true, backlight, high),
        port_byte(rs, false, backlight, high),
    );
    lemma_two_told(
        DeviceView::Lcd(mid),
        port_byte(rs, true, backlight, low),
        port_byte(rs, false, backlight, low),
    );
}

/// The port bytes of a text take it to the display.
proof fn lemma_text_told(lcd: LcdView, start: u8, text: Seq<u8>, backlight: bool)
    ensures
        DeviceView::Lcd(lcd).after_writes(text_bytes(start, text, backlight)) == DeviceView::Lcd(
            after_text(lcd.sent(false, start, backlight), text, backlight),
        ),
    decreases text.len(),
{
    if text.len() == 0 {
        lemma_byte_told(lcd, false, start, backlight);
    } else {
        let rest = text.drop_last();
        lemma_text_told(lcd, start, rest, backlight);
        lemma_told_on(
            DeviceView::Lcd(lcd),
            text_bytes(start, rest, backlight),
            nibble_bytes(true, text.last() / 16, backlight) + nibble_bytes(
                true,
                text.last() % 16,
                backlight,
            ),
        );
        lemma_byte_told(
            after_text(lcd.sent(false, start, backlight), rest, backlight),
            true,
            text.last(),
            backlight,
        );
    }
}

/// What the board reports of its display, if it has one, are its two rows, as
/// wide as the board says.
pub proof fn lemma_lcd_lines(board: BoardView, i: usize)
    requires
        board.slots_hold(),
        board.slots.of(Kind::Lcd) == Some(i),
    ensures
        ({
            let lcd = board.bus.devices[i as int].1->Lcd_0;
            &&& board.bus.devices[i as int].1 is Lcd
            &&& board.lcd_lines() is Some
            &&& board.lcd_lines().unwrap().0 == lcd.row(0, board.lcd_columns)
            &&& board.lcd_lines().unwrap().1 == lcd.row(1, board.lcd_columns)
            &&& board.lcd_lines().unwrap().0.len() == board.lcd_columns
            &&& board.lcd_lines().unwrap().1.len() == board.lcd_columns
        }),
{
    assert(board.slots.of(Kind::Lcd) == Some(i));
}

/// Text that a driver sends to the start of a row of the display, in one
/// transaction through the window, is what the board reports of that row,
/// character for character, as far as there are columns.
pub proof fn lemma_display_shows_text(
    board: BoardView,
    i: usize,
    addr7: u8,
    row: int,
    start: u8,
    text: Seq<u8>,
    backlight: bool,
    k: int,
)
    requires
        board.slots_hold(),
        board.slots.of(Kind::Lcd) == Some(i),
        board.bus.selected(addr7) == Some(i as int),
        addr7 < 128,
        ({
            let lcd = board.bus.devices[i as int].1->Lcd_0;
            lcd.well_formed() && lcd.pending_high_nibble is None && lcd.entry_increment
        }),
        row == 0 && start == 0x80 && text.len() <= 80 || row == 1 && start == 0xC0 && text.len()
            <= 16,
        forall|j: int| 0 <= j < text.len() ==> 0x20 <= #[trigger] text[j] <= 0x7E,
        0 <= k < text.len(),
        k < board.lcd_columns,
    ensures
        ({
            let after = transmitted(board, addr7, text_bytes(start, text, backlight));
            &&& after.lcd_lines() is Some
            &&& row == 0 ==> after.lcd_lines().unwrap().0[k] == text[k] as char
            &&& row == 1 ==> after.lcd_lines().unwrap().1[k] == text[k] as char
        }),
{
    let bytes = text_bytes(start, text, backlight);
    let after = transmitted(board, addr7, bytes);
    assert(board.slots.of(Kind::Lcd) == Some(i));
    let lcd = board.bus.devices[i as int].1->Lcd_0;
    let shown = after_text(lcd.sent(false, start, backlight), text, backlight);
    lemma_transmit(board, addr7, bytes);
    lemma_transmit_frame(board, addr7, bytes);
    lemma_timeless(DeviceView::Lcd(lcd), bytes, 0);
    lemma_text_told(lcd, start, text, backlight);
    assert(after.bus.devices[i as int].1 == DeviceView::Lcd(shown));
    lemma_row_shows_text(lcd, row, start, text, board.lcd_columns, backlight);
    assert(after.device(Kind::Lcd) == Some(DeviceView::Lcd(shown)));
    let now = shown.row(row, board.lcd_columns);
    assert(now[k] == text[k] as char);
}

// Setting a device.

/// The board with another device in the slot of a kind: that device answers
/// where the one before it did, and every other is as it was.
proof fn lemma_device_replaced(board: BoardView, kind: Kind, device: DeviceView, i: usize, addr7: u8)
    requires
        board.slots_hold(),
        board.slots.of(kind) == Some(i),
    ensures
        ({
            let after = board.with_device(kind, device);
            &&& after.bus.selected(addr7) == board.bus.selected(addr7)
            &&& board.bus.selected(addr7) == Some(i as int) ==> answering(after, addr7) == Some(
                device,
            )
            &&& board.bus.selected(addr7) != Some(i as int) ==> answering(after, addr7)
                == answering(board, addr7)
            &&& board.bus.devices[i as int].1.kind() == kind
        }),
{
    let after = board.with_device(kind, device);
    assert(board.slots.of(kind) == Some(i));
    lemma_same_answerer(after, board, addr7);
}

/// An AM2320 that is set to a temperature answers a driver with it, and still
/// with its humidity; every other device is as it was.
pub proof fn lemma_am2320_set_temperature(
    board: BoardView,
    negative: bool,
    tenths: u16,
    i: usize,
    other: u8,
)
    requires
        board.slots_hold(),
        board.slots.of(Kind::Am2320) == Some(i),
        board.bus.selected(0x5C) == Some(i as int),
        board.bus.selected(other) != Some(i as int),
        tenths <= 0x7FFF,
    ensures
        ({
            let after = board.with_am2320_celsius(negative, tenths);
            let command = seq![0x03u8, 0x02u8, 0x02u8];
            let word = driver_reads(after, 0x5C, command, 2) * 256 + driver_reads(
                after,
                0x5C,
                command,
                3,
            );
            &&& word == tenths + if negative {
                0x8000int
            } else {
                0
            }
            &&& answering(after, 0x5C) is Some && answering(after, 0x5C).unwrap() is Am2320
            &&& answering(after, 0x5C).unwrap()->Am2320_0.humidity_tenths
                == board.bus.devices[i as int].1->Am2320_0.humidity_tenths
            &&& answering(after, other) == answering(board, other)
        }),
{
    assert(board.slots.of(Kind::Am2320) == Some(i));
    let after = board.with_am2320_celsius(negative, tenths);
    let device = after.bus.devices[i as int].1;
    lemma_device_replaced(board, Kind::Am2320, device, i, 0x5C);
    lemma_device_replaced(board, Kind::Am2320, device, i, other);
    assert(after == board.with_device(Kind::Am2320, device));
    lemma_am2320_shows(after, 2);
}

/// An AM2320 that is set to a humidity answers a driver with it, and still with
/// its temperature; every other device is as it was.
pub proof fn lemma_am2320_set_humidity(board: BoardView, tenths: u16, i: usize, other: u8)
    requires
        board.slots_hold(),
        board.slots.of(Kind::Am2320) == Some(i),
        board.bus.selected(0x5C) == Some(i as int),
        board.bus.selected(other) != Some(i as int),
    ensures
        ({
            let after = board.with_am2320_humidity(tenths);
            let command = seq![0x03u8, 0x00u8, 0x02u8];
            let word = driver_reads(after, 0x5C, command, 2) * 256 + driver_reads(
                after,
                0x5C,
                command,
                3,
            );
            &&& word == tenths
            &&& answering(after, 0x5C) is Some && answering(after, 0x5C).unwrap() is Am2320
            &&& answering(after, 0x5C).unwrap()->Am2320_0.tenths
                == board.bus.devices[i as int].1->Am2320_0.tenths
            &&& answering(after, 0x5C).unwrap()->Am2320_0.negative
                == board.bus.devices[i as int].1->Am2320_0.negative
            &&& answering(after, other) == answering(board, other)
        }),
{
    assert(board.slots.of(Kind::Am2320) == Some(i));
    let after = board.with_am2320_humidity(tenths);
    let device = after.bus.devices[i as int].1;
    lemma_device_replaced(board, Kind::Am2320, device, i, 0x5C);
    lemma_device_replaced(board, Kind::Am2320, device, i, other);
    assert(after == board.with_device(Kind::Am2320, device));
    lemma_am2320_shows(after, 0);
}

/// A clock that is set to a time holds that time, whole; every other device is
/// as it was.
pub proof fn lemma_clocks_set(
    board: BoardView,
    a: pcf8583::DateTime,
    b: ds1307::DateTime,
    c: ds1629::DateTime,
    d: r2025::DateTime,
    i: usize,
    addr7: u8,
    other: u8,
)
    requires
        board.slots_hold(),
        board.bus.selected(addr7) == Some(i as int),
        board.bus.selected(other) != Some(i as int),
    ensures
        board.slots.of(Kind::Pcf8583) == Some(i) ==> ({
            let after = board.with_pcf8583_time(a);
            &&& answering(after, addr7) matches Some(DeviceView::Pcf8583(dev)) && dev.time == a
            &&& answering(after, other) == answering(board, other)
        }),
        board.slots.of(Kind::Ds1307) == Some(i) ==> ({
            let after = board.with_ds1307_time(b);
            &&& answering(after, addr7) matches Some(DeviceView::Ds1307(dev)) && dev.time == b
            &&& answering(after, other) == answering(board, other)
        }),
        board.slots.of(Kind::Ds1629) == Some(i) ==> ({
            let after = board.with_ds1629_time(c);
            &&& answering(after, addr7) matches Some(DeviceView::Ds1629(dev)) && dev.time == c
            &&& answering(after, other) == answering(board, other)
        }),
        board.slots.of(Kind::R2025) == Some(i) ==> ({
            let after = board.with_r2025_time(d);
            &&& answering(after, addr7) matches Some(DeviceView::R2025(dev)) && dev.time == d
            &&& answering(after, other) == answering(board, other)
        }),
{
    if board.slots.of(Kind::Pcf8583) == Some(i) {
        let device = board.with_pcf8583_time(a).bus.devices[i as int].1;
        lemma_device_replaced(board, Kind::Pcf8583, device, i, addr7);
        lemma_device_replaced(board, Kind::Pcf8583, device, i, other);
    }
    if board.slots.of(Kind::Ds1307) == Some(i) {
        let device = board.with_ds1307_time(b).bus.devices[i as int].1;
        lemma_device_replaced(board, Kind::Ds1307, device, i, addr7);
        lemma_device_replaced(board, Kind::Ds1307, device, i, other);
    }
    if board.slots.of(Kind::Ds1629) == Some(i) {
        let device = board.with_ds1629_time(c).bus.devices[i as int].1;
        lemma_device_replaced(board, Kind::Ds1629, device, i, addr7);
        lemma_device_replaced(board, Kind::Ds1629, device, i, other);
    }
    if board.slots.of(Kind::R2025) == Some(i) {
        let device = board.with_r2025_time(d).bus.devices[i as int].1;
        lemma_device_replaced(board, Kind::R2025, device, i, addr7);
        lemma_device_replaced(board, Kind::R2025, device, i, other);
    }
}

} // verus!
