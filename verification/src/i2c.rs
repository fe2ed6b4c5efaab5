//! The virtual I2C bus: a registry of [`I2cDevice`]s selected by 7-bit
//! slave address, and the [`I2cBus`] interface that the controller drives.
//!
//! Both traits come with relations (`on_start`, `on_write`, ...) that say
//! which outcomes a call may have. A device states its own behaviour by
//! defining them; the registry and the controller are verified for every
//! device that keeps to what it states.

use vstd::prelude::*;

verus! {

/// Byte that an unaddressed bus reads as: nothing pulls the lines low.
pub const OPEN_BUS: u8 = 0xFF;

/// One I2C slave device, seen through the wire protocol: an address phase,
/// a run of byte transfers in one direction, a stop.
pub trait I2cDevice: Sized {
    /// What holds of the device between calls.
    spec fn valid(&self) -> bool;

    /// `after` and `ack` are a possible outcome of an address phase.
    spec fn on_start(&self, read: bool, after: &Self, ack: bool) -> bool;

    /// `after` and `ack` are a possible outcome of the master sending `byte`.
    spec fn on_write(&self, byte: u8, after: &Self, ack: bool) -> bool;

    /// `after` and `byte` are a possible outcome of the master reading.
    spec fn on_read(&self, master_will_ack: bool, after: &Self, byte: u8) -> bool;

    /// `after` is a possible outcome of a STOP.
    spec fn on_stop(&self, after: &Self) -> bool;

    /// The device can take `cck` emulated cycles in one step.
    spec fn can_tick(&self, cck: u32) -> bool;

    /// `after` is a possible outcome of `cck` emulated cycles passing.
    spec fn on_tick(&self, cck: u32, after: &Self) -> bool;

    /// Address phase: the master has selected this device. `read` is the
    /// R/W bit of the address byte. Returns whether the device acknowledges.
    fn start(&mut self, read: bool) -> (ack: bool)
        requires
            old(self).valid(),
        ensures
            final(self).valid(),
            old(self).on_start(read, final(self), ack),
    ;

    /// Master-transmit: the master sent `byte`. Returns whether the device
    /// acknowledges.
    fn write(&mut self, byte: u8) -> (ack: bool)
        requires
            old(self).valid(),
        ensures
            final(self).valid(),
            old(self).on_write(byte, final(self), ack),
    ;

    /// Master-receive: the master reads a byte. `master_will_ack` is
    /// whether the master will ACK it, or NACK it as the last one wanted.
    fn read(&mut self, master_will_ack: bool) -> (byte: u8)
        requires
            old(self).valid(),
        ensures
            final(self).valid(),
            old(self).on_read(master_will_ack, final(self), byte),
    ;

    /// STOP condition, or deselection by a repeated START to another
    /// address.
    fn stop(&mut self)
        requires
            old(self).valid(),
        ensures
            final(self).valid(),
            old(self).on_stop(final(self)),
    ;

    /// `cck` emulated cycles have passed.
    fn tick(&mut self, cck: u32)
        requires
            old(self).valid(),
            old(self).can_tick(cck),
        ensures
            final(self).valid(),
            old(self).on_tick(cck, final(self)),
    ;
}

/// What the controller drives: an address phase, byte transfers, a stop.
pub trait I2cBus: Sized {
    /// What holds of the bus between calls.
    spec fn valid(&self) -> bool;

    /// `after` and `ack` are a possible outcome of addressing `addr7`.
    spec fn on_start(&self, addr7: u8, read: bool, after: &Self, ack: bool) -> bool;

    /// `after` and `ack` are a possible outcome of sending `byte`.
    spec fn on_write(&self, byte: u8, after: &Self, ack: bool) -> bool;

    /// `after` and `byte` are a possible outcome of reading a byte.
    spec fn on_read(&self, master_will_ack: bool, after: &Self, byte: u8) -> bool;

    /// `after` is a possible outcome of a STOP.
    spec fn on_stop(&self, after: &Self) -> bool;

    /// Addresses a slave; returns whether anything acknowledged.
    fn start(&mut self, addr7: u8, read: bool) -> (ack: bool)
        requires
            old(self).valid(),
        ensures
            final(self).valid(),
            old(self).on_start(addr7, read, final(self), ack),
    ;

    /// Sends a byte to the addressed slave; returns its acknowledge.
    fn write(&mut self, byte: u8) -> (ack: bool)
        requires
            old(self).valid(),
        ensures
            final(self).valid(),
            old(self).on_write(byte, final(self), ack),
    ;

    /// Reads a byte from the addressed slave.
    fn read(&mut self, master_will_ack: bool) -> (byte: u8)
        requires
            old(self).valid(),
        ensures
            final(self).valid(),
            old(self).on_read(master_will_ack, final(self), byte),
    ;

    /// Ends the transaction.
    fn stop(&mut self)
        requires
            old(self).valid(),
        ensures
            final(self).valid(),
            old(self).on_stop(final(self)),
    ;
}

/// The bus itself: (address, device) pairs in the order of attachment.
/// Addresses need not be unique; on a collision the device attached first
/// wins the address phase. Addresses can be marked unplugged, and then
/// nothing answers there.
pub struct I2cBusEngine<D> {
    pub devices: Vec<(u8, D)>,
    /// The device that the current transaction talks to.
    pub active: Option<usize>,
    /// Addresses that do not acknowledge, whatever is attached there.
    pub unplugged: Vec<u8>,
}

/// The addresses of a device list, in order.
pub open spec fn addresses<D>(devices: Seq<(u8, D)>) -> Seq<u8> {
    Seq::new(devices.len(), |i: int| devices[i].0)
}

impl<D: I2cDevice> I2cBusEngine<D> {
    /// The device that answers an address phase at `addr7`, if any: the
    /// first attached there, unless the address is unplugged.
    pub open spec fn selected(&self, addr7: u8) -> Option<int> {
        if self.unplugged@.contains(addr7) {
            None
        } else {
            addresses(self.devices@).index_of_first(addr7)
        }
    }

    /// The same devices at the same addresses as in `before`, and the same
    /// unplugged addresses; each device listed by `changed` may differ.
    pub open spec fn same_but(&self, before: &Self, changed: Set<int>) -> bool {
        &&& self.unplugged == before.unplugged
        &&& self.devices@.len() == before.devices@.len()
        &&& forall|i: int|
            #![trigger self.devices@[i]]
            0 <= i < before.devices@.len() ==> {
                &&& self.devices@[i].0 == before.devices@[i].0
                &&& !changed.contains(i) ==> self.devices@[i].1 == before.devices@[i].1
            }
    }

    /// The device that a START at `addr7` deselects: the active one, when
    /// it sits at another address.
    pub open spec fn deselected(&self, addr7: u8) -> Option<int> {
        match self.active {
            Some(i) if self.devices@[i as int].0 != addr7 => Some(i as int),
            _ => None,
        }
    }

    /// An empty bus.
    pub fn new() -> (bus: Self)
        ensures
            bus.valid(),
            bus.devices@ == Seq::<(u8, D)>::empty(),
            bus.active is None,
            bus.unplugged@ == Seq::<u8>::empty(),
    {
        Self { devices: Vec::new(), active: None, unplugged: Vec::new() }
    }

    /// Adds a device at `addr7`, behind those already attached.
    pub fn attach(&mut self, addr7: u8, device: D)
        requires
            old(self).valid(),
            device.valid(),
        ensures
            final(self).valid(),
            final(self).devices@ == old(self).devices@.push((addr7, device)),
            final(self).active == old(self).active,
            final(self).unplugged == old(self).unplugged,
    {
        self.devices.push((addr7, device));
    }

    /// Whether `addr7` is marked unplugged.
    pub fn is_unplugged(&self, addr7: u8) -> (found: bool)
        ensures
            found == self.unplugged@.contains(addr7),
    {
        let mut i: usize = 0;
        while i < self.unplugged.len()
            invariant
                i <= self.unplugged@.len(),
                forall|k: int| 0 <= k < i ==> self.unplugged@[k] != addr7,
            decreases self.unplugged@.len() - i,
        {
            if self.unplugged[i] == addr7 {
                return true;
            }
            i += 1;
        }
        false
    }

    /// Fault knob: an unplugged address stops acknowledging its address
    /// phase, whatever is attached there, until it is plugged in again.
    pub fn set_unplugged(&mut self, addr7: u8, unplugged: bool)
        requires
            old(self).valid(),
        ensures
            final(self).valid(),
            final(self).devices == old(self).devices,
            final(self).active == old(self).active,
            forall|a: u8|
                #![trigger final(self).unplugged@.contains(a)]
                final(self).unplugged@.contains(a) == if a == addr7 {
                    unplugged
                } else {
                    old(self).unplugged@.contains(a)
                },
    {
        let mut kept: Vec<u8> = Vec::new();
        let mut i: usize = 0;
        while i < self.unplugged.len()
            invariant
                i <= self.unplugged@.len(),
                forall|a: u8|
                    #![trigger kept@.contains(a)]
                    kept@.contains(a) == (a != addr7 && self.unplugged@.take(i as int).contains(a)),
            decreases self.unplugged@.len() - i,
        {
            let a: u8 = self.unplugged[i];
            let ghost before = kept@;
            if a != addr7 {
                kept.push(a);
            }
            proof {
                let now = self.unplugged@.take(i as int + 1);
                let then = self.unplugged@.take(i as int);
                assert(now =~= then.push(a));
                assert forall|b: u8| #![trigger kept@.contains(b)] kept@.contains(b) == (b != addr7
                    && now.contains(b)) by {
                    lemma_push_contains(then, a, b);
                    lemma_push_contains(before, a, b);
                }
            }
            i += 1;
        }
        proof {
            assert(self.unplugged@.take(i as int) =~= self.unplugged@);
        }
        let ghost before = kept@;
        if unplugged {
            kept.push(addr7);
        }
        proof {
            assert forall|b: u8| #![trigger kept@.contains(b)] kept@.contains(b) == if b == addr7 {
                unplugged
            } else {
                self.unplugged@.contains(b)
            } by {
                lemma_push_contains(before, addr7, b);
                assert(before.contains(b) == (b != addr7 && self.unplugged@.contains(b)));
            }
        }
        self.unplugged = kept;
    }

    /// The device that an address phase at `addr7` selects.
    fn select(&self, addr7: u8) -> (slot: Option<usize>)
        ensures
            match slot {
                Some(i) => self.selected(addr7) == Some(i as int) && i < self.devices@.len(),
                None => self.selected(addr7) is None,
            },
    {
        let ghost all = addresses(self.devices@);
        proof {
            all.index_of_first_ensures(addr7);
        }
        if self.is_unplugged(addr7) {
            return None;
        }
        let mut i: usize = 0;
        while i < self.devices.len()
            invariant
                i <= self.devices@.len(),
                all == addresses(self.devices@),
                forall|k: int| 0 <= k < i ==> all[k] != addr7,
                !self.unplugged@.contains(addr7),
                match all.index_of_first(addr7) {
                    Some(index) => 0 <= index < all.len() && all[index] == addr7 && forall|j: int|
                        0 <= j < index < all.len() ==> all[j] != addr7,
                    None => forall|j: int| 0 <= j < all.len() ==> all[j] != addr7,
                },
            decreases self.devices@.len() - i,
        {
            if self.devices[i].0 == addr7 {
                assert(all[i as int] == addr7);
                return Some(i);
            }
            i += 1;
        }
        None
    }

    /// Every device can take `cck` cycles in one step.
    pub open spec fn can_tick(&self, cck: u32) -> bool {
        forall|i: int| 0 <= i < self.devices@.len() ==> (#[trigger] self.devices@[i]).1.can_tick(cck)
    }

    /// Passes `cck` emulated cycles to every device, in order.
    pub fn tick(&mut self, cck: u32)
        requires
            old(self).valid(),
            old(self).can_tick(cck),
        ensures
            final(self).valid(),
            final(self).active == old(self).active,
            final(self).unplugged == old(self).unplugged,
            final(self).devices@.len() == old(self).devices@.len(),
            forall|i: int|
                #![trigger final(self).devices@[i]]
                0 <= i < old(self).devices@.len() ==> {
                    &&& final(self).devices@[i].0 == old(self).devices@[i].0
                    &&& old(self).devices@[i].1.on_tick(cck, &final(self).devices@[i].1)
                },
    {
        let mut i: usize = 0;
        while i < self.devices.len()
            invariant
                i <= self.devices@.len(),
                self.valid(),
                old(self).can_tick(cck),
                self.active == old(self).active,
                self.unplugged == old(self).unplugged,
                self.devices@.len() == old(self).devices@.len(),
                forall|k: int|
                    #![trigger self.devices@[k]]
                    0 <= k < i ==> {
                        &&& self.devices@[k].0 == old(self).devices@[k].0
                        &&& old(self).devices@[k].1.on_tick(cck, &self.devices@[k].1)
                    },
                forall|k: int|
                    i <= k < self.devices@.len() ==> self.devices@[k] == old(self).devices@[k],
            decreases self.devices@.len() - i,
        {
            assert(self.devices@[i as int] == old(self).devices@[i as int]);
            self.devices[i].1.tick(cck);
            i += 1;
        }
    }
}

/// What a pushed element adds to the members of a sequence.
proof fn lemma_push_contains(s: Seq<u8>, x: u8, y: u8)
    ensures
        s.push(x).contains(y) == (y == x || s.contains(y)),
{
    let t = s.push(x);
    if t.contains(y) {
        let i = choose|i: int| 0 <= i < t.len() && t[i] == y;
        if i < s.len() {
            assert(s[i] == y);
        }
    }
    if y == x {
        assert(t[s.len() as int] == y);
    }
    if s.contains(y) {
        let i = choose|i: int| 0 <= i < s.len() && s[i] == y;
        assert(t[i] == y);
    }
}

impl<D: I2cDevice> I2cBus for I2cBusEngine<D> {
    open spec fn valid(&self) -> bool {
        &&& self.active matches Some(i) ==> i < self.devices@.len()
        &&& forall|i: int| 0 <= i < self.devices@.len() ==> (#[trigger] self.devices@[i]).1.valid()
    }

    /// A START at `addr7` stops the device that it deselects, then hands
    /// the address phase to the device selected; with none, nothing
    /// acknowledges.
    open spec fn on_start(&self, addr7: u8, read: bool, after: &Self, ack: bool) -> bool {
        let left = self.deselected(addr7);
        let slot = self.selected(addr7);
        &&& after.same_but(self, set_of(left).union(set_of(slot)))
        &&& left matches Some(i) ==> self.devices@[i].1.on_stop(&after.devices@[i].1)
        &&& match slot {
            Some(i) => {
                &&& after.active == Some(i as usize)
                &&& self.devices@[i].1.on_start(read, &after.devices@[i].1, ack)
            },
            None => after.active is None && !ack,
        }
    }

    /// A byte goes to the active device; with none, nothing acknowledges.
    open spec fn on_write(&self, byte: u8, after: &Self, ack: bool) -> bool {
        &&& after.active == self.active
        &&& match self.active {
            Some(i) => {
                &&& after.same_but(self, set![i as int])
                &&& self.devices@[i as int].1.on_write(byte, &after.devices@[i as int].1, ack)
            },
            None => after.same_but(self, Set::empty()) && !ack,
        }
    }

    /// A byte comes from the active device; with none, the bus floats.
    open spec fn on_read(&self, master_will_ack: bool, after: &Self, byte: u8) -> bool {
        &&& after.active == self.active
        &&& match self.active {
            Some(i) => {
                &&& after.same_but(self, set![i as int])
                &&& self.devices@[i as int].1.on_read(
                    master_will_ack,
                    &after.devices@[i as int].1,
                    byte,
                )
            },
            None => after.same_but(self, Set::empty()) && byte == OPEN_BUS,
        }
    }

    /// A STOP reaches the active device, which is then deselected.
    open spec fn on_stop(&self, after: &Self) -> bool {
        &&& after.active is None
        &&& match self.active {
            Some(i) => {
                &&& after.same_but(self, set![i as int])
                &&& self.devices@[i as int].1.on_stop(&after.devices@[i as int].1)
            },
            None => after.same_but(self, Set::empty()),
        }
    }

    fn start(&mut self, addr7: u8, read: bool) -> (ack: bool) {
        if let Some(i) = self.active {
            if self.devices[i].0 != addr7 {
                self.devices[i].1.stop();
            }
        }
        proof {
            assert(addresses(self.devices@) =~= addresses(old(self).devices@));
        }
        let slot = self.select(addr7);
        self.active = slot;
        match slot {
            Some(i) => {
                assert(addresses(self.devices@)[i as int] == addr7) by {
                    addresses(self.devices@).index_of_first_ensures(addr7);
                }
                self.devices[i].1.start(read)
            },
            None => false,
        }
    }

    fn write(&mut self, byte: u8) -> (ack: bool) {
        match self.active {
            Some(i) => self.devices[i].1.write(byte),
            None => false,
        }
    }

    fn read(&mut self, master_will_ack: bool) -> (byte: u8) {
        match self.active {
            Some(i) => self.devices[i].1.read(master_will_ack),
            None => OPEN_BUS,
        }
    }

    fn stop(&mut self) {
        if let Some(i) = self.active {
            self.active = None;
            self.devices[i].1.stop();
        }
    }
}

/// The members of an optional index.
pub open spec fn set_of(slot: Option<int>) -> Set<int> {
    match slot {
        Some(i) => set![i],
        None => Set::empty(),
    }
}

impl<D: I2cDevice> Default for I2cBusEngine<D> {
    fn default() -> (bus: Self)
        ensures
            bus.valid(),
            bus.devices@ == Seq::<(u8, D)>::empty(),
            bus.active is None,
            bus.unplugged@ == Seq::<u8>::empty(),
    {
        Self::new()
    }
}

/// On a collision the device attached first wins: the one selected sits at
/// the address, and none before it does.
pub proof fn lemma_first_wins<D: I2cDevice>(bus: &I2cBusEngine<D>, addr7: u8)
    ensures
        match bus.selected(addr7) {
            Some(i) => {
                &&& 0 <= i < bus.devices@.len()
                &&& bus.devices@[i].0 == addr7
                &&& forall|k: int| 0 <= k < i ==> (#[trigger] bus.devices@[k]).0 != addr7
            },
            None => bus.unplugged@.contains(addr7) || forall|k: int|
                0 <= k < bus.devices@.len() ==> (#[trigger] bus.devices@[k]).0 != addr7,
        },
{
    let all = addresses(bus.devices@);
    all.index_of_first_ensures(addr7);
    assert forall|k: int| 0 <= k < bus.devices@.len() implies all[k] == (
    #[trigger] bus.devices@[k]).0 by {}
}

/// Attaching a device never takes an address from one attached before.
pub proof fn lemma_attach_keeps<D: I2cDevice>(
    before: &I2cBusEngine<D>,
    after: &I2cBusEngine<D>,
    new_addr: u8,
    device: D,
    addr7: u8,
)
    requires
        after.devices@ == before.devices@.push((new_addr, device)),
        after.unplugged == before.unplugged,
        before.selected(addr7) is Some,
    ensures
        after.selected(addr7) == before.selected(addr7),
{
    let (old_all, new_all) = (addresses(before.devices@), addresses(after.devices@));
    old_all.index_of_first_ensures(addr7);
    new_all.index_of_first_ensures(addr7);
    let i = before.selected(addr7).unwrap();
    assert(new_all[i] == old_all[i]);
    if let Some(j) = new_all.index_of_first(addr7) {
        if j < i {
            assert(new_all[j] == old_all[j]);
        }
    }
}

/// With nothing at an address: it is not acknowledged, and no device changes
/// but the one that is deselected. A byte sent then reaches nobody and is not
/// acknowledged, and what is read is 0xFF, until the next START.
pub proof fn lemma_nothing_there<D: I2cDevice>(
    bus: &I2cBusEngine<D>,
    addr7: u8,
    read: bool,
    after: &I2cBusEngine<D>,
    ack: bool,
    byte: u8,
    then: &I2cBusEngine<D>,
    answer: bool,
    got: u8,
)
    requires
        bus.selected(addr7) is None,
        bus.on_start(addr7, read, after, ack),
        after.on_write(byte, then, answer) || after.on_read(answer, then, got),
    ensures
        !ack,
        after.active is None,
        after.same_but(bus, set_of(bus.deselected(addr7))),
        after.on_write(byte, then, answer) ==> !answer,
        after.on_read(answer, then, got) ==> got == OPEN_BUS,
        then.active is None,
        then.same_but(after, Set::empty()),
{
    let left = set_of(bus.deselected(addr7));
    assert(left.union(Set::empty()) =~= left);
}

/// After a STOP no device is selected, until the next START.
pub proof fn lemma_stop_deselects<D: I2cDevice>(
    bus: &I2cBusEngine<D>,
    after: &I2cBusEngine<D>,
    byte: u8,
    then: &I2cBusEngine<D>,
    ack: bool,
)
    requires
        bus.on_stop(after),
        after.on_write(byte, then, ack),
    ensures
        after.active is None,
        !ack,
        then.devices@ =~= after.devices@,
{
    assert forall|i: int| 0 <= i < after.devices@.len() implies then.devices@[i]
        == after.devices@[i] by {
        assert(then.devices@[i].0 == after.devices@[i].0);
    }
}

/// A START hands the address phase, with its direction, to the device selected
/// and to no other, and that device is the active one from then on. The device
/// that the transaction before it talked to, if it sits at another address, is
/// stopped first. Every other device is left alone.
pub proof fn lemma_start_reaches_one<D: I2cDevice>(
    bus: &I2cBusEngine<D>,
    addr7: u8,
    read: bool,
    after: &I2cBusEngine<D>,
    ack: bool,
    k: int,
)
    requires
        bus.valid(),
        bus.on_start(addr7, read, after, ack),
        0 <= k < bus.devices@.len(),
    ensures
        after.devices@[k].0 == bus.devices@[k].0,
        bus.selected(addr7) == Some(k) ==> after.active == Some(k as usize)
            && bus.devices@[k].1.on_start(read, &after.devices@[k].1, ack),
        bus.selected(addr7) is None ==> after.active is None && !ack,
        bus.active == Some(k as usize) && bus.devices@[k].0 != addr7
            ==> bus.devices@[k].1.on_stop(&after.devices@[k].1),
        bus.selected(addr7) != Some(k) && bus.active != Some(k as usize) ==> after.devices@[k].1
            == bus.devices@[k].1,
        bus.selected(addr7) != Some(k) && bus.devices@[k].0 == addr7 ==> after.devices@[k].1
            == bus.devices@[k].1,
        after.unplugged == bus.unplugged,
{
    lemma_first_wins(bus, addr7);
    assert(after.devices@[k].0 == bus.devices@[k].0);
    assert(bus.devices@.len() == bus.devices.len());
}

/// A byte sent, or read, goes to or comes from the active device and no other.
pub proof fn lemma_byte_reaches_one<D: I2cDevice>(
    bus: &I2cBusEngine<D>,
    byte: u8,
    after: &I2cBusEngine<D>,
    ack: bool,
    k: int,
)
    requires
        bus.valid(),
        0 <= k < bus.devices@.len(),
    ensures
        bus.on_write(byte, after, ack) ==> after.active == bus.active && after.devices@[k].0
            == bus.devices@[k].0,
        bus.on_write(byte, after, ack) && bus.active == Some(k as usize)
            ==> bus.devices@[k].1.on_write(byte, &after.devices@[k].1, ack),
        bus.on_write(byte, after, ack) && bus.active != Some(k as usize) ==> after.devices@[k].1
            == bus.devices@[k].1,
        bus.on_read(ack, after, byte) ==> after.active == bus.active && after.devices@[k].0
            == bus.devices@[k].0,
        bus.on_read(ack, after, byte) && bus.active == Some(k as usize)
            ==> bus.devices@[k].1.on_read(ack, &after.devices@[k].1, byte),
        bus.on_read(ack, after, byte) && bus.active != Some(k as usize) ==> after.devices@[k].1
            == bus.devices@[k].1,
        bus.on_stop(after) ==> after.active is None && after.devices@[k].0 == bus.devices@[k].0,
        bus.on_stop(after) && bus.active == Some(k as usize) ==> bus.devices@[k].1.on_stop(
            &after.devices@[k].1,
        ),
        bus.on_stop(after) && bus.active != Some(k as usize) ==> after.devices@[k].1
            == bus.devices@[k].1,
        bus.active is None && bus.on_write(byte, after, ack) ==> !ack,
        bus.active is None && bus.on_read(ack, after, byte) ==> byte == 0xFF,
{
    assert(bus.devices@.len() == bus.devices.len());
    if bus.on_write(byte, after, ack) || bus.on_read(ack, after, byte) || bus.on_stop(after) {
        assert(after.devices@[k].0 == bus.devices@[k].0);
    }
}

/// An unplugged address is answered by nobody, and an address that is not
/// unplugged by a device wherever one sits there.
pub proof fn lemma_who_answers<D: I2cDevice>(bus: &I2cBusEngine<D>, addr7: u8, k: int)
    requires
        0 <= k < bus.devices@.len(),
        bus.devices@[k].0 == addr7,
    ensures
        bus.selected(addr7) is None <==> bus.unplugged@.contains(addr7),
        bus.selected(addr7) matches Some(i) ==> i <= k,
{
    lemma_first_wins(bus, addr7);
}

} // verus!
