//! Whole transactions through the window, as a driver performs them: what
//! goes in at the chip's two registers arrives at the device addressed, and
//! what the device gives comes back, byte for byte.

use crate::board::{
    address_of, byte_of, lemma_named_device, place, BoardView, OPEN_BUS_BYTE,
};
use crate::bus_device::{view_addresses, BusView, DeviceView};
use crate::devices::eeprom24::{
    address_len, lemma_addressed, lemma_burst_write, lemma_write_read_round_trip, EepromView,
};
use crate::devices::ltc2990::{self, Ltc2990};
use crate::devices::pcf8583::{self, Pcf8583};
use crate::fan::REG_PWMV;
use crate::pcf8584::{bit, Mode, Pcf8584, Pending, CCK_PER_BYTE_PHASE};
use vstd::prelude::*;

verus! {

/// S1 control: serial I/O on, acknowledge on.
pub const SELECT_DATA: u8 = 0xC1;

/// The same, with START.
pub const ISSUE_START: u8 = 0xC5;

/// The same, with STOP.
pub const ISSUE_STOP: u8 = 0xC3;

/// Serial I/O on, acknowledge off: the next byte is the last one wanted.
pub const REFUSE_NEXT: u8 = 0x40;

/// Serial I/O on, acknowledge on, and START in a transaction that is open.
pub const ISSUE_REPEAT: u8 = 0x45;

/// What the control bytes of a driver say.
proof fn lemma_control_bytes()
    ensures
        bit(SELECT_DATA, 0x40) && !bit(SELECT_DATA, 0x20) && !bit(SELECT_DATA, 0x10),
        !bit(SELECT_DATA, 0x08) && !bit(SELECT_DATA, 0x04) && !bit(SELECT_DATA, 0x02),
        bit(SELECT_DATA, 0x01),
        bit(ISSUE_START, 0x40) && !bit(ISSUE_START, 0x20) && !bit(ISSUE_START, 0x10),
        !bit(ISSUE_START, 0x08) && bit(ISSUE_START, 0x04) && !bit(ISSUE_START, 0x02),
        bit(ISSUE_START, 0x01),
        bit(ISSUE_STOP, 0x40) && !bit(ISSUE_STOP, 0x20) && !bit(ISSUE_STOP, 0x10),
        !bit(ISSUE_STOP, 0x08) && !bit(ISSUE_STOP, 0x04) && bit(ISSUE_STOP, 0x02),
        bit(ISSUE_STOP, 0x01),
        bit(REFUSE_NEXT, 0x40) && !bit(REFUSE_NEXT, 0x20) && !bit(REFUSE_NEXT, 0x10),
        !bit(REFUSE_NEXT, 0x08) && !bit(REFUSE_NEXT, 0x04) && !bit(REFUSE_NEXT, 0x02),
        !bit(REFUSE_NEXT, 0x01),
{
    assert(0x40u8 & 0x40 != 0 && 0x40u8 & 0x20 == 0 && 0x40u8 & 0x10 == 0 && 0x40u8 & 0x08 == 0
        && 0x40u8 & 0x04 == 0 && 0x40u8 & 0x02 == 0 && 0x40u8 & 0x01 == 0) by (bit_vector);
    assert(0xC1u8 & 0x40 != 0 && 0xC1u8 & 0x20 == 0 && 0xC1u8 & 0x10 == 0 && 0xC1u8 & 0x08 == 0
        && 0xC1u8 & 0x04 == 0 && 0xC1u8 & 0x02 == 0 && 0xC1u8 & 0x01 != 0 && 0xC5u8 & 0x40 != 0
        && 0xC5u8 & 0x20 == 0 && 0xC5u8 & 0x10 == 0 && 0xC5u8 & 0x08 == 0 && 0xC5u8 & 0x04 != 0
        && 0xC5u8 & 0x02 == 0 && 0xC5u8 & 0x01 != 0 && 0xC3u8 & 0x40 != 0 && 0xC3u8 & 0x20 == 0
        && 0xC3u8 & 0x10 == 0 && 0xC3u8 & 0x08 == 0 && 0xC3u8 & 0x04 == 0 && 0xC3u8 & 0x02 != 0
        && 0xC3u8 & 0x01 != 0) by (bit_vector);
}

/// The address byte for an address and a direction.
pub open spec fn address_byte(addr7: u8, read: bool) -> u8 {
    (addr7 * 2 + if read {
        1int
    } else {
        0
    }) as u8
}

/// An address byte says the address and the direction.
proof fn lemma_address_byte(addr7: u8, read: bool)
    requires
        addr7 < 128,
    ensures
        address_byte(addr7, read) >> 1 == addr7,
        bit(address_byte(addr7, read), 1) == read,
{
    let byte = address_byte(addr7, read);
    assert(byte >> 1 == byte / 2 && (byte & 1 != 0) == (byte % 2 == 1)) by (bit_vector);
}

impl BoardView {
    /// The board after a driver has written the control register.
    pub open spec fn control(self, byte: u8) -> Self {
        self.after_write(2, 1, byte as u32, 1)
    }

    /// The board after a driver has written the data register.
    pub open spec fn data(self, byte: u8) -> Self {
        self.after_write(0, 1, byte as u32, 1)
    }

    /// The board after the cycles of one phase.
    pub open spec fn phase(self) -> Self {
        self.after_tick(CCK_PER_BYTE_PHASE)
    }

    /// The board after a driver has opened a transaction.
    pub open spec fn opened(self, addr7: u8, read: bool) -> Self {
        self.control(SELECT_DATA).data(address_byte(addr7, read)).control(ISSUE_START).phase()
    }

    /// The board after a driver has sent bytes.
    pub open spec fn sent(self, bytes: Seq<u8>) -> Self
        decreases bytes.len(),
    {
        if bytes.len() == 0 {
            self
        } else {
            self.sent(bytes.drop_last()).data(bytes.last()).phase()
        }
    }

    /// The board after a driver has read the data register `n` times, a
    /// phase after each.
    pub open spec fn fetched(self, n: nat) -> Self
        decreases n,
    {
        if n == 0 {
            self
        } else {
            self.fetched((n - 1) as nat).after_read(0, 1).phase()
        }
    }

    /// The chip is between bytes of a transaction in that direction.
    pub open spec fn between_bytes(self, mode: Mode) -> bool {
        &&& self.pcf.eso
        &&& self.pcf.mode == mode
        &&& self.pcf.pending is None
        &&& !self.pcf.pin
        &&& !self.pcf.bb
    }
}

impl BusView {
    /// The bus after the devices have gone through the cycles of one phase.
    pub open spec fn phase(self) -> Self {
        self.after_tick(CCK_PER_BYTE_PHASE)
    }

    /// The bus after bytes were sent over it, a phase after each.
    pub open spec fn sent(self, bytes: Seq<u8>) -> Self
        decreases bytes.len(),
    {
        if bytes.len() == 0 {
            self
        } else {
            self.sent(bytes.drop_last()).after_write(bytes.last()).phase()
        }
    }

    /// The bus after `n` bytes were read over it, a phase after each.
    pub open spec fn fetched(self, n: nat) -> Self
        decreases n,
    {
        if n == 0 {
            self
        } else {
            self.fetched((n - 1) as nat).after_read().phase()
        }
    }
}

impl DeviceView {
    /// The device after bytes were sent to it in a row.
    pub open spec fn after_writes(self, bytes: Seq<u8>) -> Self
        decreases bytes.len(),
    {
        if bytes.len() == 0 {
            self
        } else {
            self.after_writes(bytes.drop_last()).after_write(bytes.last())
        }
    }

    /// The device after `n` bytes were read from it in a row.
    pub open spec fn after_reads(self, n: nat) -> Self
        decreases n,
    {
        if n == 0 {
            self
        } else {
            self.after_reads((n - 1) as nat).after_read()
        }
    }

    /// The device after the cycles of one phase.
    pub open spec fn phase(self) -> Self {
        self.after_tick(CCK_PER_BYTE_PHASE)
    }

    /// The device after the cycles of `n` phases.
    pub open spec fn idled(self, n: nat) -> Self
        decreases n,
    {
        if n == 0 {
            self
        } else {
            self.idled((n - 1) as nat).phase()
        }
    }

    /// The device after bytes were sent to it, a phase after each.
    pub open spec fn sent(self, bytes: Seq<u8>) -> Self
        decreases bytes.len(),
    {
        if bytes.len() == 0 {
            self
        } else {
            self.sent(bytes.drop_last()).after_write(bytes.last()).phase()
        }
    }

    /// The device after `n` bytes were read from it, a phase after each.
    pub open spec fn fetched(self, n: nat) -> Self
        decreases n,
    {
        if n == 0 {
            self
        } else {
            self.fetched((n - 1) as nat).after_read().phase()
        }
    }
}

// The window.

/// A one-byte access is the access to that byte.
pub proof fn lemma_one_byte(board: BoardView, off: u32, byte: u8)
    ensures
        board.after_write(off, 1, byte as u32, 1) == board.after_byte_write(off, byte),
        board.after_read(off, 1) == board.after_byte_read(off),
        0 <= board.byte_value(off) <= 255 ==> board.word_read(off, 1) == board.byte_value(off),
{
    reveal_with_fuel(BoardView::after_write, 2);
    reveal_with_fuel(BoardView::after_read, 2);
    reveal_with_fuel(BoardView::word_read, 2);
    assert(place(off, 0) == off);
    assert(byte_of(byte as u32, 1, 0) == byte);
}

/// The two registers repeat every four bytes: addresses that differ by a
/// multiple of four are the same.
pub proof fn lemma_mirror(board: BoardView, a: u32, b: u32, byte: u8)
    requires
        a % 4 == b % 4,
    ensures
        board.byte_value(a) == board.byte_value(b),
        board.after_byte_read(a) == board.after_byte_read(b),
        board.after_byte_write(a, byte) == board.after_byte_write(b, byte),
{
}

/// Odd addresses never reach the chip.
pub proof fn lemma_odd_address(board: BoardView, addr: u32, byte: u8)
    requires
        addr % 2 == 1,
    ensures
        board.byte_value(addr) == OPEN_BUS_BYTE,
        board.after_byte_read(addr) == board,
        board.after_byte_write(addr, byte) == board,
{
}

/// What the status register can read as.
proof fn lemma_status_range(chip: Pcf8584)
    ensures
        0 <= chip.status() <= 0xBF,
{
}

/// A read one byte longer reads one byte more, and moves up what came before.
proof fn lemma_one_byte_more(board: BoardView, off: u32, n: nat, so_far: int)
    requires
        board.word_read(off, n) == so_far,
        0 <= so_far < 0x100_0000,
    ensures
        board.word_read(off, n + 1) == so_far * 256 + board.after_read(off, n).byte_value(
            place(off, n),
        ),
        board.after_read(off, n + 1) == board.after_read(off, n).after_byte_read(place(off, n)),
{
    lemma_status_range(board.after_read(off, n).pcf);
}

/// A word read at an even address gives the register in its high byte and
/// 0xFF in its low one.
pub proof fn lemma_word_access(board: BoardView, off: u32)
    requires
        off % 2 == 0,
        off < u32::MAX,
    ensures
        board.word_read(off, 2) == board.byte_value(off) * 256 + 0xFF,
        board.after_read(off, 2) == board.after_byte_read(off),
{
    lemma_status_range(board.pcf);
    lemma_one_byte(board, off, 0);
    assert(place(off, 1) == off + 1);
    lemma_one_byte_more(board, off, 1, board.byte_value(off));
}

/// A long read at the start of the window gives both registers: the A0 area
/// in its first byte and the status, as reading the A0 area left it, in its
/// third, with 0xFF between and behind.
pub proof fn lemma_long_access(board: BoardView)
    ensures
        board.word_read(0, 4) == board.pcf.a0_value() * 0x100_0000 + 0xFF_0000
            + board.pcf.after_a0_read().status() * 0x100 + 0xFF,
        board.after_read(0, 4) == board.after_byte_read(0),
{
    let a = board.pcf.a0_value() as int;
    let status = board.pcf.after_a0_read().status();
    lemma_status_range(board.pcf.after_a0_read());
    assert(place(0, 2) == 2 && place(0, 3) == 3);
    lemma_word_access(board, 0);
    lemma_one_byte_more(board, 0, 2, a * 0x100 + 0xFF);
    lemma_one_byte_more(board, 0, 3, a * 0x1_0000 + 0xFF00 + status);
}

// Transactions.

/// Opening a transaction, whatever the chip was doing: the device that
/// answers takes the address phase, LRB shows whether there is one, and the
/// chip is ready for the first byte.
pub proof fn lemma_opened(board: BoardView, addr7: u8, read: bool)
    requires
        addr7 < 128,
    ensures
        ({
            let after = board.opened(addr7, read);
            &&& after.between_bytes(
                if read {
                    Mode::MasterRx
                } else {
                    Mode::MasterTx
                },
            )
            &&& after.pcf.lrb_ad0 == (board.bus.selected(addr7) is None)
            &&& after.pcf.ack
            &&& after == (BoardView {
                pcf: after.pcf,
                bus: board.bus.after_start(addr7, read).phase(),
                ..board
            })
        }),
{
    lemma_control_bytes();
    lemma_address_byte(addr7, read);
    let one = board.control(SELECT_DATA);
    let two = one.data(address_byte(addr7, read));
    let three = two.control(ISSUE_START);
    lemma_one_byte(board, 2, SELECT_DATA);
    lemma_one_byte(one, 0, address_byte(addr7, read));
    lemma_one_byte(two, 2, ISSUE_START);
    assert(one.pcf.eso);
    assert(two.pcf.s0_shift == address_byte(addr7, read));
    assert(three.pcf.pending == Some(Pending::Address { addr7, read }));
    assert(three.bus == board.bus);
    assert(three.pcf.due(CCK_PER_BYTE_PHASE) == Some(Pending::Address { addr7, read }));
}

/// Sending a byte in a transmit transaction delivers it to the device, and
/// LRB shows whether there is one.
proof fn lemma_sent_byte(board: BoardView, byte: u8)
    requires
        board.between_bytes(Mode::MasterTx),
    ensures
        ({
            let after = board.data(byte).phase();
            &&& after.between_bytes(Mode::MasterTx)
            &&& after.pcf.lrb_ad0 == (board.bus.active is None)
            &&& after.pcf.ack == board.pcf.ack
            &&& after == (BoardView {
                pcf: after.pcf,
                bus: board.bus.after_write(byte).phase(),
                ..board
            })
        }),
{
    lemma_one_byte(board, 0, byte);
    let loaded = board.data(byte);
    assert(loaded.pcf.due(CCK_PER_BYTE_PHASE) == Some(Pending::TxByte));
}

/// Sending bytes in a transmit transaction delivers each, in order.
pub proof fn lemma_sent(board: BoardView, bytes: Seq<u8>)
    requires
        board.between_bytes(Mode::MasterTx),
    ensures
        ({
            let after = board.sent(bytes);
            &&& after.between_bytes(Mode::MasterTx)
            &&& after == (BoardView { pcf: after.pcf, bus: board.bus.sent(bytes), ..board })
            &&& bytes.len() > 0 ==> after.pcf.lrb_ad0 == (board.bus.active is None)
            &&& bytes.len() == 0 ==> after.pcf == board.pcf
            &&& after.bus.active == board.bus.active
        }),
    decreases bytes.len(),
{
    if bytes.len() > 0 {
        lemma_sent(board, bytes.drop_last());
        lemma_sent_byte(board.sent(bytes.drop_last()), bytes.last());
    }
}

/// Reading the data register in a receive transaction gives the byte fetched
/// before, and fetches the next from the device.
proof fn lemma_fetched_byte(board: BoardView)
    requires
        board.between_bytes(Mode::MasterRx),
    ensures
        ({
            let after = board.after_read(0, 1).phase();
            &&& board.word_read(0, 1) == board.pcf.s0_read_buf
            &&& after.between_bytes(Mode::MasterRx)
            &&& after.pcf.s0_read_buf == board.bus.output() as u8
            &&& after.pcf.lrb_ad0 == !board.pcf.ack
            &&& after.pcf.ack == board.pcf.ack
            &&& after == (BoardView {
                pcf: after.pcf,
                bus: board.bus.after_read().phase(),
                ..board
            })
        }),
{
    lemma_one_byte(board, 0, 0);
    let armed = board.after_read(0, 1);
    assert(armed.pcf.due(CCK_PER_BYTE_PHASE) == Some(Pending::RxByte { ack: board.pcf.ack }));
}

/// Reading the data register of a receive transaction over and over fetches
/// byte after byte: the first read is a dummy, and read `n` from there gives
/// the byte that the device gave `n`th.
pub proof fn lemma_fetched(board: BoardView, n: nat)
    requires
        board.between_bytes(Mode::MasterRx),
    ensures
        ({
            let after = board.fetched(n);
            &&& after.between_bytes(Mode::MasterRx)
            &&& after == (BoardView { pcf: after.pcf, bus: board.bus.fetched(n), ..board })
            &&& after.pcf.ack == board.pcf.ack
            &&& n > 0 ==> after.pcf.lrb_ad0 == !board.pcf.ack
            &&& n == 0 ==> after.pcf == board.pcf
            &&& n > 0 ==> after.word_read(0, 1) == board.bus.fetched(
                (n - 1) as nat,
            ).output() as u8
        }),
    decreases n,
{
    if n > 0 {
        lemma_fetched(board, (n - 1) as nat);
        let before = board.fetched((n - 1) as nat);
        lemma_fetched_byte(before);
        lemma_fetched_byte(board.fetched(n));
    }
}

/// Closing a transaction: the bus is free, nothing is pending, no device is
/// selected, and the byte fetched last stays in the data register.
pub proof fn lemma_closed(board: BoardView)
    ensures
        ({
            let after = board.control(ISSUE_STOP);
            &&& after.pcf.bb
            &&& after.pcf.pin
            &&& after.pcf.mode == Mode::Idle
            &&& after.pcf.pending is None
            &&& after.pcf.eso
            &&& after.pcf.s0_read_buf == board.pcf.s0_read_buf
            &&& !after.int2()
            &&& after == (BoardView { pcf: after.pcf, bus: board.bus.after_stop(), ..board })
        }),
{
    lemma_control_bytes();
    lemma_one_byte(board, 2, ISSUE_STOP);
}

/// A repeated START: a driver in the middle of a transmit transaction loads
/// another address byte, which is sent where the transaction stands, and
/// issues START without a STOP. The device that answers takes the address
/// phase, and the chip is ready for the first byte in the new direction.
pub proof fn lemma_repeated_start(board: BoardView, addr7: u8, read: bool)
    requires
        addr7 < 128,
        board.between_bytes(Mode::MasterTx),
    ensures
        ({
            let after = board.data(address_byte(addr7, read)).control(ISSUE_REPEAT).phase();
            &&& after.between_bytes(
                if read {
                    Mode::MasterRx
                } else {
                    Mode::MasterTx
                },
            )
            &&& after.pcf.lrb_ad0 == (board.bus.selected(addr7) is None)
            &&& after.pcf.ack
            &&& after == (BoardView {
                pcf: after.pcf,
                bus: board.bus.after_start(addr7, read).phase(),
                ..board
            })
        }),
{
    let loaded = board.data(address_byte(addr7, read));
    let started = loaded.control(ISSUE_REPEAT);
    assert(0x45u8 & 0x40 != 0 && 0x45u8 & 0x20 == 0 && 0x45u8 & 0x10 == 0 && 0x45u8 & 0x08 == 0
        && 0x45u8 & 0x04 != 0 && 0x45u8 & 0x02 == 0 && 0x45u8 & 0x01 != 0) by (bit_vector);
    lemma_address_byte(addr7, read);
    lemma_one_byte(board, 0, address_byte(addr7, read));
    lemma_one_byte(loaded, 2, ISSUE_REPEAT);
    assert(loaded.pcf.s0_shift == address_byte(addr7, read));
    assert(started.pcf.pending == Some(Pending::Address { addr7, read }));
    assert(started.bus == board.bus);
    assert(started.pcf.due(CCK_PER_BYTE_PHASE) == Some(Pending::Address { addr7, read }));
}

/// The same devices at the same addresses, as far as their kinds go, and the
/// same addresses unplugged.
pub open spec fn same_places(after: BusView, before: BusView) -> bool {
    &&& after.devices.len() == before.devices.len()
    &&& after.unplugged == before.unplugged
    &&& forall|i: int|
        #![trigger after.devices[i]]
        0 <= i < before.devices.len() ==> after.devices[i].0 == before.devices[i].0
            && after.devices[i].1.kind() == before.devices[i].1.kind()
}

/// Which device answers goes by places alone.
proof fn lemma_same_selection(after: BusView, before: BusView, addr7: u8)
    requires
        same_places(after, before),
    ensures
        after.selected(addr7) == before.selected(addr7),
        after.selected(addr7) matches Some(i) ==> 0 <= i < after.devices.len(),
{
    assert(view_addresses(after.devices) =~= view_addresses(before.devices));
    view_addresses(after.devices).index_of_first_ensures(addr7);
}

/// Only the fan moves with time: to any other device the cycles between
/// bytes make no difference.
pub proof fn lemma_timeless(device: DeviceView, bytes: Seq<u8>, n: nat)
    requires
        !(device is Fan),
    ensures
        device.phase() == device,
        device.idled(n) == device,
        device.sent(bytes) == device.after_writes(bytes),
        device.fetched(n) == device.after_reads(n),
        !(device.after_writes(bytes) is Fan),
        !(device.after_reads(n) is Fan),
    decreases bytes.len() + n,
{
    if bytes.len() > 0 {
        lemma_timeless(device, bytes.drop_last(), n);
    } else if n > 0 {
        lemma_timeless(device, bytes, (n - 1) as nat);
    }
}

/// An address phase on the bus: what it does to the device that answers and
/// to the others.
proof fn lemma_bus_opened(bus: BusView, addr7: u8, read: bool)
    ensures
        ({
            let after = bus.after_start(addr7, read).phase();
            &&& same_places(after, bus)
            &&& after.active == bus.selected(addr7)
            &&& forall|k: int|
                #![trigger after.devices[k]]
                0 <= k < bus.devices.len() ==> after.devices[k].1 == if bus.selected(addr7)
                    == Some(k) {
                    bus.devices[k].1.after_start(read).phase()
                } else {
                    bus.devices[k].1.phase()
                }
        }),
{
    view_addresses(bus.devices).index_of_first_ensures(addr7);
}

/// Bytes sent over the bus: what they do to the active device and to the
/// others.
proof fn lemma_bus_sent(bus: BusView, bytes: Seq<u8>)
    requires
        bus.well_formed(),
    ensures
        ({
            let after = bus.sent(bytes);
            &&& same_places(after, bus)
            &&& after.active == bus.active
            &&& forall|k: int|
                #![trigger after.devices[k]]
                0 <= k < bus.devices.len() ==> after.devices[k].1 == if bus.active == Some(k) {
                    bus.devices[k].1.sent(bytes)
                } else {
                    bus.devices[k].1.idled(bytes.len())
                }
        }),
    decreases bytes.len(),
{
    if bytes.len() > 0 {
        let rest = bytes.drop_last();
        let before = bus.sent(rest);
        let after = bus.sent(bytes);
        lemma_bus_sent(bus, rest);
        assert forall|k: int| #![trigger after.devices[k]] 0 <= k < bus.devices.len() implies {
            &&& after.devices[k].0 == bus.devices[k].0
            &&& after.devices[k].1.kind() == bus.devices[k].1.kind()
            &&& after.devices[k].1 == if bus.active == Some(k) {
                bus.devices[k].1.sent(bytes)
            } else {
                bus.devices[k].1.idled(bytes.len())
            }
        } by {
            assert(before.devices[k].1.kind() == bus.devices[k].1.kind());
        }
    }
}

/// Bytes read over the bus: what that does to the active device and to the
/// others.
proof fn lemma_bus_fetched(bus: BusView, n: nat)
    requires
        bus.well_formed(),
    ensures
        ({
            let after = bus.fetched(n);
            &&& same_places(after, bus)
            &&& after.active == bus.active
            &&& forall|k: int|
                #![trigger after.devices[k]]
                0 <= k < bus.devices.len() ==> after.devices[k].1 == if bus.active == Some(k) {
                    bus.devices[k].1.fetched(n)
                } else {
                    bus.devices[k].1.idled(n)
                }
        }),
    decreases n,
{
    if n > 0 {
        let m = (n - 1) as nat;
        let before = bus.fetched(m);
        let after = bus.fetched(n);
        lemma_bus_fetched(bus, m);
        assert forall|k: int| #![trigger after.devices[k]] 0 <= k < bus.devices.len() implies {
            &&& after.devices[k].0 == bus.devices[k].0
            &&& after.devices[k].1.kind() == bus.devices[k].1.kind()
            &&& after.devices[k].1 == if bus.active == Some(k) {
                bus.devices[k].1.fetched(n)
            } else {
                bus.devices[k].1.idled(n)
            }
        } by {
            assert(before.devices[k].1.kind() == bus.devices[k].1.kind());
        }
    }
}

/// What a device gives is a byte.
pub proof fn lemma_output_is_byte(device: DeviceView)
    ensures
        0 <= device.output() <= 255,
{
}

/// The board after a whole transmit transaction.
pub open spec fn transmitted(board: BoardView, addr7: u8, bytes: Seq<u8>) -> BoardView {
    board.opened(addr7, false).sent(bytes).control(ISSUE_STOP)
}

/// A whole transmit transaction delivers every byte, in order, to the device
/// that answers, acknowledged throughout; for the other devices only time
/// passes, and the bus is free again.
pub proof fn lemma_transmit(board: BoardView, addr7: u8, bytes: Seq<u8>)
    requires
        addr7 < 128,
        board.bus.selected(addr7) is Some,
    ensures
        ({
            let after = transmitted(board, addr7, bytes);
            let i = board.bus.selected(addr7).unwrap();
            &&& !board.opened(addr7, false).pcf.lrb_ad0
            &&& !board.opened(addr7, false).sent(bytes).pcf.lrb_ad0
            &&& after.pcf.bb && after.pcf.pin && after.pcf.mode == Mode::Idle
            &&& after.bus.active is None
            &&& same_places(after.bus, board.bus)
            &&& after.bus.devices[i].1 == board.bus.devices[i].1.after_start(false).phase().sent(
                bytes,
            )
            &&& forall|k: int|
                #![trigger after.bus.devices[k]]
                0 <= k < board.bus.devices.len() && k != i ==> after.bus.devices[k].1
                    == board.bus.devices[k].1.phase().idled(bytes.len())
        }),
{
    let opened = board.opened(addr7, false);
    let sent = opened.sent(bytes);
    lemma_same_selection(board.bus, board.bus, addr7);
    lemma_opened(board, addr7, false);
    lemma_bus_opened(board.bus, addr7, false);
    lemma_sent(opened, bytes);
    lemma_bus_sent(opened.bus, bytes);
    lemma_closed(sent);
    let after = transmitted(board, addr7, bytes);
    assert forall|k: int| #![trigger after.bus.devices[k]] 0 <= k < board.bus.devices.len() implies {
        &&& after.bus.devices[k].0 == board.bus.devices[k].0
        &&& after.bus.devices[k].1.kind() == board.bus.devices[k].1.kind()
        &&& after.bus.devices[k].1 == if board.bus.selected(addr7) == Some(k) {
            board.bus.devices[k].1.after_start(false).phase().sent(bytes)
        } else {
            board.bus.devices[k].1.phase().idled(bytes.len())
        }
    } by {
        assert(opened.bus.devices[k].1.kind() == board.bus.devices[k].1.kind());
        assert(sent.bus.devices[k].1.kind() == opened.bus.devices[k].1.kind());
    }
}

/// A transmit transaction changes nothing of the board but the chip and the
/// bus.
pub proof fn lemma_transmit_frame(board: BoardView, addr7: u8, bytes: Seq<u8>)
    requires
        addr7 < 128,
    ensures
        ({
            let after = transmitted(board, addr7, bytes);
            after == (BoardView { pcf: after.pcf, bus: after.bus, ..board })
        }),
{
    lemma_opened(board, addr7, false);
    lemma_sent(board.opened(addr7, false), bytes);
    lemma_closed(board.opened(addr7, false).sent(bytes));
}

/// In a receive transaction the first read of the data register is a dummy,
/// and read `n` from there gives the byte that the device gives `n`th.
pub proof fn lemma_receive(board: BoardView, addr7: u8, n: nat)
    requires
        addr7 < 128,
        n > 0,
        board.bus.selected(addr7) is Some,
    ensures
        ({
            let i = board.bus.selected(addr7).unwrap();
            &&& !board.opened(addr7, true).pcf.lrb_ad0
            &&& board.opened(addr7, true).fetched(n).word_read(0, 1)
                == board.bus.devices[i].1.after_start(true).phase().fetched(
                (n - 1) as nat,
            ).output()
        }),
{
    let i = board.bus.selected(addr7).unwrap();
    let opened = board.opened(addr7, true);
    let m = (n - 1) as nat;
    lemma_same_selection(board.bus, board.bus, addr7);
    lemma_opened(board, addr7, true);
    lemma_bus_opened(board.bus, addr7, true);
    lemma_fetched(opened, n);
    lemma_bus_fetched(opened.bus, m);
    assert(opened.bus.devices[i].1.kind() == board.bus.devices[i].1.kind());
    let fetched = opened.bus.fetched(m);
    assert(fetched.active == Some(i));
    assert(fetched.devices[i].1 == opened.bus.devices[i].1.fetched(m));
    lemma_output_is_byte(fetched.devices[i].1);
}

/// The board after a driver has taken in `n` bytes and closed: before the
/// read that fetches the last one it turns the acknowledge off. The last byte
/// is still in the data register.
pub open spec fn received(board: BoardView, addr7: u8, n: nat) -> BoardView {
    board.opened(addr7, true).fetched((n - 1) as nat).control(REFUSE_NEXT).fetched(1).control(
        ISSUE_STOP,
    )
}

/// A receive transaction of `n` bytes, to its end: the last byte, and no
/// other, is answered with a NACK; the STOP frees the bus; and the last byte
/// is read after it, which moves nothing any more.
pub proof fn lemma_receive_to_the_end(board: BoardView, addr7: u8, n: nat)
    requires
        addr7 < 128,
        n > 0,
        board.bus.selected(addr7) is Some,
    ensures
        ({
            let d = board.bus.devices[board.bus.selected(addr7).unwrap()].1;
            let begun = d.after_start(true).phase();
            let before = board.opened(addr7, true).fetched((n - 1) as nat);
            let refusing = before.control(REFUSE_NEXT);
            let after = received(board, addr7, n);
            &&& !before.pcf.lrb_ad0
            &&& n > 1 ==> refusing.word_read(0, 1) == begun.fetched((n - 2) as nat).output()
            &&& refusing.fetched(1).pcf.lrb_ad0
            &&& after.pcf.bb && after.pcf.mode == Mode::Idle && after.bus.active is None
            &&& after.word_read(0, 1) == begun.fetched((n - 1) as nat).output()
            &&& after.after_read(0, 1) == after
        }),
{
    let i = board.bus.selected(addr7).unwrap();
    let opened = board.opened(addr7, true);
    let m = (n - 1) as nat;
    let before = opened.fetched(m);
    let refusing = before.control(REFUSE_NEXT);
    lemma_same_selection(board.bus, board.bus, addr7);
    lemma_opened(board, addr7, true);
    lemma_bus_opened(board.bus, addr7, true);
    lemma_fetched(opened, m);
    lemma_bus_fetched(opened.bus, m);
    assert(opened.bus.devices[i].1.kind() == board.bus.devices[i].1.kind());
    assert(before.bus.devices[i].1 == opened.bus.devices[i].1.fetched(m));
    lemma_output_is_byte(before.bus.devices[i].1);
    lemma_control_bytes();
    lemma_one_byte(before, 2, REFUSE_NEXT);
    lemma_fetched_byte(before);
    lemma_fetched_byte(refusing);
    reveal_with_fuel(BoardView::fetched, 2);
    if n > 1 {
        lemma_receive(board, addr7, m);
    }
    lemma_closed(refusing.fetched(1));
    lemma_one_byte(received(board, addr7, n), 0, 0);
}

/// What a driver does to read from a place: it sends bytes that say where,
/// closes, and reads. It gets what the device gives after those bytes.
pub proof fn lemma_random_read(board: BoardView, addr7: u8, bytes: Seq<u8>, n: nat)
    requires
        addr7 < 128,
        n > 0,
        board.bus.selected(addr7) is Some,
    ensures
        ({
            let d = board.bus.devices[board.bus.selected(addr7).unwrap()].1;
            transmitted(board, addr7, bytes).opened(addr7, true).fetched(n).word_read(0, 1)
                == d.after_start(false).phase().sent(bytes).after_start(true).phase().fetched(
                (n - 1) as nat,
            ).output()
        }),
{
    let sent = transmitted(board, addr7, bytes);
    let i = board.bus.selected(addr7).unwrap();
    lemma_transmit(board, addr7, bytes);
    lemma_same_selection(sent.bus, board.bus, addr7);
    assert(sent.bus.devices[i].1.kind() == board.bus.devices[i].1.kind());
    lemma_receive(sent, addr7, n);
}

/// What a driver does to read from a place without letting go of the bus: it
/// sends bytes that say where, issues a repeated START for reading, and reads.
/// It gets what it would have got with a STOP in between.
pub proof fn lemma_combined_read(board: BoardView, addr7: u8, bytes: Seq<u8>, n: nat)
    requires
        addr7 < 128,
        n > 0,
        board.bus.selected(addr7) is Some,
    ensures
        ({
            let told = board.opened(addr7, false).sent(bytes);
            let turned = told.data(address_byte(addr7, true)).control(ISSUE_REPEAT).phase();
            &&& turned.between_bytes(Mode::MasterRx)
            &&& !turned.pcf.lrb_ad0
            &&& turned.fetched(n).word_read(0, 1) == transmitted(board, addr7, bytes).opened(
                addr7,
                true,
            ).fetched(n).word_read(0, 1)
        }),
{
    let opened = board.opened(addr7, false);
    let told = opened.sent(bytes);
    let turned = told.data(address_byte(addr7, true)).control(ISSUE_REPEAT).phase();
    let i = board.bus.selected(addr7).unwrap();
    let m = (n - 1) as nat;
    lemma_random_read(board, addr7, bytes, n);
    lemma_same_selection(board.bus, board.bus, addr7);
    lemma_opened(board, addr7, false);
    lemma_bus_opened(board.bus, addr7, false);
    lemma_sent(opened, bytes);
    lemma_bus_sent(opened.bus, bytes);
    assert(opened.bus.devices[i].1.kind() == board.bus.devices[i].1.kind());
    assert(told.bus.devices[i].1 == opened.bus.devices[i].1.sent(bytes));
    lemma_same_selection(opened.bus, board.bus, addr7);
    lemma_same_selection(told.bus, opened.bus, addr7);
    lemma_repeated_start(told, addr7, true);
    lemma_bus_opened(told.bus, addr7, true);
    assert(turned.bus.devices[i].1 == told.bus.devices[i].1.after_start(true).phase());
    lemma_fetched(turned, n);
    lemma_bus_fetched(turned.bus, m);
    let fetched = turned.bus.fetched(m);
    assert(fetched.devices[i].1 == turned.bus.devices[i].1.fetched(m));
    lemma_output_is_byte(fetched.devices[i].1);
}

/// An address at which nothing answers: LRB stays set for the address and
/// for every byte sent, and what is read is 0xFF.
pub proof fn lemma_nobody_home(board: BoardView, addr7: u8, bytes: Seq<u8>, n: nat)
    requires
        addr7 < 128,
        board.bus.selected(addr7) is None,
        n > 0,
    ensures
        board.opened(addr7, false).pcf.lrb_ad0,
        board.opened(addr7, false).sent(bytes).pcf.lrb_ad0,
        board.opened(addr7, true).pcf.lrb_ad0,
        board.opened(addr7, true).fetched(n).word_read(0, 1) == 0xFF,
{
    let (tx, rx) = (board.opened(addr7, false), board.opened(addr7, true));
    lemma_opened(board, addr7, false);
    lemma_opened(board, addr7, true);
    lemma_bus_opened(board.bus, addr7, false);
    lemma_bus_opened(board.bus, addr7, true);
    lemma_sent(tx, bytes);
    lemma_fetched(rx, n);
    lemma_bus_fetched(rx.bus, (n - 1) as nat);
}

/// An unplugged address does not answer until it is plugged in again; no
/// other address is affected.
pub proof fn lemma_unplugged(board: BoardView, addr7: u8, other: u8)
    requires
        other != addr7,
    ensures
        board.with_unplugged(addr7, true).bus.selected(addr7) is None,
        board.with_unplugged(addr7, true).bus.selected(other) == board.bus.selected(other),
        board.with_unplugged(addr7, true).with_unplugged(addr7, false).bus.selected(addr7)
            == board.with_unplugged(addr7, false).bus.selected(addr7),
        !board.bus.unplugged.contains(addr7) ==> board.with_unplugged(
            addr7,
            true,
        ).with_unplugged(addr7, false).bus.selected(addr7) == board.bus.selected(addr7),
{
}

/// What a driver sees of a fault by name: an unplugged device does not
/// acknowledge its address, one plugged in again does, and no other address is
/// affected.
pub proof fn lemma_fault_by_name(
    board: BoardView,
    name: Seq<char>,
    unplugged: bool,
    other: u8,
    read: bool,
)
    requires
        board.names_hold(),
        address_of(board.names, name) matches Some(addr) && addr < 128 && other != addr,
        other < 128,
    ensures
        ({
            let addr = address_of(board.names, name).unwrap();
            let after = board.with_unplugged(addr, unplugged);
            &&& after.opened(addr, read).pcf.lrb_ad0 == unplugged
            &&& after.opened(other, read).pcf.lrb_ad0 == board.opened(other, read).pcf.lrb_ad0
        }),
{
    let addr = address_of(board.names, name).unwrap();
    let after = board.with_unplugged(addr, unplugged);
    lemma_named_device(board, name);
    lemma_opened(after, addr, read);
    lemma_opened(after, other, read);
    lemma_opened(board, other, read);
    assert(after.bus.selected(other) == board.bus.selected(other));
}

/// The bytes that say where in a memory.
pub open spec fn memory_address(dev: EepromView, high: u8, low: u8) -> Seq<u8> {
    if address_len(dev.data.len() as int) == 2 {
        seq![high, low]
    } else {
        seq![low]
    }
}

/// Sending an address and bytes to a memory is addressing it and sending the
/// bytes.
proof fn lemma_memory_writes(dev: EepromView, high: u8, low: u8, bytes: Seq<u8>)
    ensures
        DeviceView::Eeprom(dev).after_start(false).after_writes(
            memory_address(dev, high, low) + bytes,
        ) == DeviceView::Eeprom(dev.addressed(high, low).after_writes(bytes)),
    decreases bytes.len(),
{
    let start = memory_address(dev, high, low);
    let all = start + bytes;
    if bytes.len() == 0 {
        assert(all =~= start);
        reveal_with_fuel(DeviceView::after_writes, 3);
        assert(start.drop_last() =~= if start.len() == 2 {
            seq![high]
        } else {
            Seq::<u8>::empty()
        });
        assert(start.drop_last().drop_last() =~= Seq::<u8>::empty() || start.len() == 1);
    } else {
        assert(all.drop_last() =~= start + bytes.drop_last());
        lemma_memory_writes(dev, high, low, bytes.drop_last());
    }
}

/// A memory's reads in a row are the same seen as a device.
proof fn lemma_memory_reads(dev: EepromView, n: nat)
    ensures
        DeviceView::Eeprom(dev).after_reads(n) == DeviceView::Eeprom(dev.after_reads(n)),
    decreases n,
{
    if n > 0 {
        lemma_memory_reads(dev, (n - 1) as nat);
    }
}

/// Bytes that a driver stores in the memory through the window, in one
/// transaction, it reads back through the window from the same place: up to
/// as many as the memory holds, past its end or not.
pub proof fn lemma_memory_round_trip(
    board: BoardView,
    addr7: u8,
    high: u8,
    low: u8,
    bytes: Seq<u8>,
    k: int,
)
    requires
        addr7 < 128,
        board.bus.selected(addr7) is Some,
        board.bus.devices[board.bus.selected(addr7).unwrap()].1 matches DeviceView::Eeprom(dev)
            && dev.well_formed() && bytes.len() <= dev.data.len(),
        0 <= k < bytes.len(),
    ensures
        ({
            let dev = board.bus.devices[board.bus.selected(addr7).unwrap()].1->Eeprom_0;
            let place = memory_address(dev, high, low);
            transmitted(transmitted(board, addr7, place + bytes), addr7, place).opened(
                addr7,
                true,
            ).fetched((k + 1) as nat).word_read(0, 1) == bytes[k]
        }),
{
    let i = board.bus.selected(addr7).unwrap();
    let dev = board.bus.devices[i].1->Eeprom_0;
    let place = memory_address(dev, high, low);
    let stored = transmitted(board, addr7, place + bytes);
    let held = dev.addressed(high, low).after_writes(bytes);
    let begun = DeviceView::Eeprom(dev).after_start(false);
    lemma_transmit(board, addr7, place + bytes);
    lemma_timeless(begun, place + bytes, 0);
    lemma_memory_writes(dev, high, low, bytes);
    lemma_same_selection(stored.bus, board.bus, addr7);
    assert(stored.bus.devices[i].1 == DeviceView::Eeprom(held));
    lemma_addressed(dev, high, low);
    lemma_burst_write(dev.addressed(high, low), bytes);
    lemma_random_read(stored, addr7, place, (k + 1) as nat);
    let again = DeviceView::Eeprom(held).after_start(false);
    lemma_timeless(again, place, 0);
    assert(place + Seq::<u8>::empty() =~= place);
    lemma_memory_writes(held, high, low, Seq::empty());
    let pointed = held.addressed(high, low).after_start(true);
    lemma_timeless(DeviceView::Eeprom(pointed), Seq::empty(), k as nat);
    lemma_memory_reads(pointed, k as nat);
    lemma_write_read_round_trip(dev, high, low, bytes, k);
}

/// What a driver that sends a register number and reads gets from the voltage
/// monitor: the registers from that one on, counted round all sixteen.
pub proof fn lemma_monitor_read(board: BoardView, addr7: u8, reg: u8, n: nat)
    requires
        addr7 < 128,
        n > 0,
        board.bus.selected(addr7) is Some,
        board.bus.devices[board.bus.selected(addr7).unwrap()].1 is Ltc2990,
    ensures
        ({
            let dev = board.bus.devices[board.bus.selected(addr7).unwrap()].1->Ltc2990_0;
            transmitted(board, addr7, seq![reg]).opened(addr7, true).fetched(n).word_read(0, 1)
                == dev.register(((reg + n - 1) % 16) as u8)
        }),
{
    let dev = board.bus.devices[board.bus.selected(addr7).unwrap()].1->Ltc2990_0;
    lemma_random_read(board, addr7, seq![reg], n);
    lemma_monitor_told(dev, reg, (n - 1) as nat);
}

/// The monitor, told a register number and then read.
proof fn lemma_monitor_told(dev: Ltc2990, reg: u8, m: nat)
    ensures
        DeviceView::Ltc2990(dev).after_start(false).phase().sent(seq![reg]).after_start(
            true,
        ).phase().fetched(m).output() == dev.register(((reg + m) % 16) as u8),
{
    let begun = DeviceView::Ltc2990(dev.after_start(false));
    let told = dev.after_start(false).after_write(reg);
    let pointed = told.after_start(true);
    lemma_timeless(begun, seq![reg], 0);
    assert(begun.after_writes(seq![reg]) == DeviceView::Ltc2990(told)) by {
        reveal_with_fuel(DeviceView::after_writes, 2);
        assert(seq![reg].drop_last() =~= Seq::<u8>::empty());
    }
    lemma_timeless(DeviceView::Ltc2990(told), Seq::empty(), 0);
    lemma_timeless(DeviceView::Ltc2990(pointed), Seq::empty(), m);
    lemma_monitor_reads(pointed, m);
    ltc2990::lemma_told(dev, reg, m);
}

/// The monitor's reads in a row are the same seen as a device.
proof fn lemma_monitor_reads(dev: Ltc2990, n: nat)
    ensures
        DeviceView::Ltc2990(dev).after_reads(n) == DeviceView::Ltc2990(dev.after_reads(n)),
    decreases n,
{
    if n > 0 {
        lemma_monitor_reads(dev, (n - 1) as nat);
    }
}

/// What a driver that sends a register number and reads gets from the PCF8583
/// clock: the registers from that one on, counted round all 256.
pub proof fn lemma_clock_read(board: BoardView, addr7: u8, reg: u8, n: nat)
    requires
        addr7 < 128,
        n > 0,
        board.bus.selected(addr7) is Some,
        board.bus.devices[board.bus.selected(addr7).unwrap()].1 is Pcf8583,
    ensures
        ({
            let dev = board.bus.devices[board.bus.selected(addr7).unwrap()].1->Pcf8583_0;
            transmitted(board, addr7, seq![reg]).opened(addr7, true).fetched(n).word_read(0, 1)
                == dev.register(((reg + n - 1) % 256) as u8)
        }),
{
    let dev = board.bus.devices[board.bus.selected(addr7).unwrap()].1->Pcf8583_0;
    lemma_random_read(board, addr7, seq![reg], n);
    lemma_clock_told(dev, reg, (n - 1) as nat);
}

/// The clock, told a register number and then read.
proof fn lemma_clock_told(dev: Pcf8583, reg: u8, m: nat)
    ensures
        DeviceView::Pcf8583(dev).after_start(false).phase().sent(seq![reg]).after_start(
            true,
        ).phase().fetched(m).output() == dev.register(((reg + m) % 256) as u8),
{
    let begun = DeviceView::Pcf8583(dev.after_start(false));
    let told = dev.after_start(false).after_write(reg);
    let pointed = told.after_start(true);
    lemma_timeless(begun, seq![reg], 0);
    assert(begun.after_writes(seq![reg]) == DeviceView::Pcf8583(told)) by {
        reveal_with_fuel(DeviceView::after_writes, 2);
        assert(seq![reg].drop_last() =~= Seq::<u8>::empty());
    }
    lemma_timeless(DeviceView::Pcf8583(told), Seq::empty(), 0);
    lemma_timeless(DeviceView::Pcf8583(pointed), Seq::empty(), m);
    lemma_clock_reads(pointed, m);
    pcf8583::lemma_told(dev, reg, m);
}

/// The clock's reads in a row are the same seen as a device.
proof fn lemma_clock_reads(dev: Pcf8583, n: nat)
    ensures
        DeviceView::Pcf8583(dev).after_reads(n) == DeviceView::Pcf8583(dev.after_reads(n)),
    decreases n,
{
    if n > 0 {
        lemma_clock_reads(dev, (n - 1) as nat);
    }
}

/// A driver that sends the duty register's number and a duty drives the fan
/// with that duty.
pub proof fn lemma_fan_driven(board: BoardView, addr7: u8, duty: u8)
    requires
        addr7 < 128,
        board.bus.selected(addr7) is Some,
        board.bus.devices[board.bus.selected(addr7).unwrap()].1 is Fan,
    ensures
        ({
            let i = board.bus.selected(addr7).unwrap();
            let after = transmitted(board, addr7, seq![REG_PWMV, duty]).bus.devices[i].1;
            after is Fan && after->Fan_0.fan.duty == duty
        }),
{
    let bytes = seq![REG_PWMV, duty];
    lemma_transmit(board, addr7, bytes);
    assert(bytes.drop_last() =~= seq![REG_PWMV]);
    assert(bytes.drop_last().drop_last() =~= Seq::<u8>::empty());
    reveal_with_fuel(DeviceView::sent, 3);
}

} // verus!
