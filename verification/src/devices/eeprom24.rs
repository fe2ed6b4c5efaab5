//! 24Cxx EEPROM. A write phase opens with the byte address, one byte for
//! memories of up to 256 bytes and two (high first) above that; what
//! follows is stored. Reads and writes move the address on, round the whole
//! memory. A read phase goes on from where the address stands.

use crate::i2c::I2cDevice;
use vstd::prelude::*;

verus! {

/// How many address bytes a memory of `size` bytes takes.
pub open spec fn address_len(size: int) -> int {
    if size > 256 {
        2
    } else {
        1
    }
}

/// How many address bytes a memory of `size` bytes takes.
pub fn addr_bytes_for_size(size: usize) -> (n: usize)
    ensures
        n as int == address_len(size as int),
{
    if size > 256 {
        2
    } else {
        1
    }
}

/// The memory.
pub struct Eeprom24 {
    pub data: Vec<u8>,
    /// Address bytes that a write phase opens with.
    pub addr_bytes: usize,
    /// Where the next byte is read or stored.
    pub addr: usize,
    /// Address bytes seen in this write phase.
    pub addr_bytes_seen: usize,
    /// What those bytes make so far.
    pub addr_being_built: usize,
}

/// What a memory holds and where it stands.
#[verifier::ext_equal]
pub struct EepromView {
    pub data: Seq<u8>,
    pub addr: int,
    pub addr_bytes_seen: int,
    pub addr_being_built: int,
}

impl View for Eeprom24 {
    type V = EepromView;

    open spec fn view(&self) -> EepromView {
        EepromView {
            data: self.data@,
            addr: self.addr as int,
            addr_bytes_seen: self.addr_bytes_seen as int,
            addr_being_built: self.addr_being_built as int,
        }
    }
}

impl EepromView {
    /// A blank memory: every byte erased to 0xFF.
    pub open spec fn blank(size: nat) -> Self {
        EepromView {
            data: Seq::new(size, |i: int| 0xFFu8),
            addr: 0,
            addr_bytes_seen: 0,
            addr_being_built: 0,
        }
    }

    /// The memory is not empty, the address lies inside it, and the address
    /// bytes seen make no more than they can.
    pub open spec fn well_formed(self) -> bool {
        &&& self.data.len() > 0
        &&& 0 <= self.addr < self.data.len()
        &&& 0 <= self.addr_bytes_seen <= address_len(self.data.len() as int)
        &&& 0 <= self.addr_being_built <= 0xFFFF
        &&& self.addr_bytes_seen == 0 ==> self.addr_being_built == 0
        &&& self.addr_bytes_seen == 1 ==> self.addr_being_built <= 0xFF
    }

    /// The memory with a host image in it: the image, cut to the size of the
    /// memory, and zeros behind it.
    pub open spec fn with_image(self, image: Seq<u8>) -> Self {
        EepromView {
            data: Seq::new(
                self.data.len(),
                |i: int|
                    if i < image.len() {
                        image[i]
                    } else {
                        0u8
                    },
            ),
            ..self
        }
    }

    /// The byte that the next read gives.
    pub open spec fn output(self) -> int {
        self.data[self.addr] as int
    }

    /// The memory after an address phase: a write phase builds the address
    /// anew.
    pub open spec fn after_start(self, read: bool) -> Self {
        if read {
            self
        } else {
            EepromView { addr_bytes_seen: 0, addr_being_built: 0, ..self }
        }
    }

    /// The memory after a byte was sent to it: part of the address, or data.
    pub open spec fn after_write(self, byte: u8) -> Self {
        let needed = address_len(self.data.len() as int);
        if self.addr_bytes_seen < needed {
            let built = self.addr_being_built * 256 + byte;
            let seen = self.addr_bytes_seen + 1;
            EepromView {
                addr: if seen == needed {
                    built % (self.data.len() as int)
                } else {
                    self.addr
                },
                addr_bytes_seen: seen,
                addr_being_built: built,
                ..self
            }
        } else {
            EepromView { data: self.data.update(self.addr, byte), ..self.after_read() }
        }
    }

    /// The memory after a byte was read from it.
    pub open spec fn after_read(self) -> Self {
        EepromView { addr: (self.addr + 1) % (self.data.len() as int), ..self }
    }

    /// The memory after `n` bytes were read from it in a row.
    pub open spec fn after_reads(self, n: nat) -> Self
        decreases n,
    {
        if n == 0 {
            self
        } else {
            self.after_reads((n - 1) as nat).after_read()
        }
    }

    /// The memory after `bytes` were sent to it in a row.
    pub open spec fn after_writes(self, bytes: Seq<u8>) -> Self
        decreases bytes.len(),
    {
        if bytes.len() == 0 {
            self
        } else {
            self.after_writes(bytes.drop_last()).after_write(bytes.last())
        }
    }

    /// The memory after a write phase that only sets the address.
    pub open spec fn addressed(self, high: u8, low: u8) -> Self {
        if address_len(self.data.len() as int) == 2 {
            self.after_start(false).after_write(high).after_write(low)
        } else {
            self.after_start(false).after_write(low)
        }
    }
}

impl Eeprom24 {
    /// A blank memory of `size` bytes.
    pub fn new(size: usize) -> (dev: Self)
        requires
            size > 0,
        ensures
            dev.valid(),
            dev@ == EepromView::blank(size as nat),
    {
        let dev = Eeprom24 {
            data: vec![0xFF; size],
            addr_bytes: addr_bytes_for_size(size),
            addr: 0,
            addr_bytes_seen: 0,
            addr_being_built: 0,
        };
        assert(dev.data@ =~= Seq::new(size as nat, |i: int| 0xFFu8));
        dev
    }

    /// Loads a host image: cut to the size of the memory, or filled up with
    /// zeros.
    pub fn load_image(&mut self, image: &[u8])
        requires
            old(self).valid(),
        ensures
            final(self).valid(),
            final(self)@ == old(self)@.with_image(image@),
    {
        let mut i: usize = 0;
        while i < self.data.len()
            invariant
                i <= self.data@.len(),
                self.data@.len() == old(self).data@.len(),
                self.addr_bytes == old(self).addr_bytes,
                self.addr == old(self).addr,
                self.addr_bytes_seen == old(self).addr_bytes_seen,
                self.addr_being_built == old(self).addr_being_built,
                forall|k: int|
                    0 <= k < i ==> self.data@[k] == old(self)@.with_image(image@).data[k],
            decreases self.data@.len() - i,
        {
            let byte: u8 = if i < image.len() {
                image[i]
            } else {
                0
            };
            self.data[i] = byte;
            i += 1;
        }
        assert(self.data@ =~= old(self)@.with_image(image@).data);
    }

    /// The contents.
    pub fn dump(&self) -> (contents: &[u8])
        ensures
            contents@ == self@.data,
    {
        self.data.as_slice()
    }

    fn advance(&mut self)
        requires
            old(self).valid(),
        ensures
            final(self).valid(),
            final(self)@ == old(self)@.after_read(),
    {
        let size: usize = self.data.len();
        self.addr = if self.addr + 1 == size {
            0
        } else {
            self.addr + 1
        };
        proof {
            let (a, n) = (old(self).addr as int, size as int);
            if a + 1 == n {
                vstd::arithmetic::div_mod::lemma_mod_self_0(n);
            } else {
                vstd::arithmetic::div_mod::lemma_small_mod((a + 1) as nat, n as nat);
            }
        }
    }
}

/// Adding to a value before taking the remainder is adding to the remainder.
proof fn lemma_mod_step(a: int, n: int, size: int)
    requires
        size > 0,
    ensures
        ((a + n) % size + 1) % size == (a + n + 1) % size,
{
    vstd::arithmetic::div_mod::lemma_add_mod_noop(a + n, 1, size);
    vstd::arithmetic::div_mod::lemma_add_mod_noop((a + n) % size, 1, size);
    vstd::arithmetic::div_mod::lemma_mod_twice(a + n, size);
}

/// A blank memory is 0xFF throughout; one that was loaded holds the image from
/// its first byte on, as far as it reaches, and zeros behind it, and stands
/// where it stood.
pub proof fn lemma_contents(dev: EepromView, size: nat, image: Seq<u8>, i: int)
    requires
        0 <= i < size,
        dev.data.len() == size,
    ensures
        EepromView::blank(size).data.len() == size,
        EepromView::blank(size).data[i] == 0xFF,
        EepromView::blank(size).addr == 0,
        dev.with_image(image).data.len() == size,
        i < image.len() ==> dev.with_image(image).data[i] == image[i],
        i >= image.len() ==> dev.with_image(image).data[i] == 0,
        dev.with_image(image).addr == dev.addr,
{
}

/// An address phase sets the address, taken round the memory, and leaves
/// the contents.
pub proof fn lemma_addressed(dev: EepromView, high: u8, low: u8)
    requires
        dev.well_formed(),
    ensures
        ({
            let set = dev.addressed(high, low);
            let n = dev.data.len() as int;
            &&& set.well_formed()
            &&& set.data == dev.data
            &&& set.addr_bytes_seen == address_len(n)
            &&& set.addr == if n > 256 {
                (high * 256 + low) % n
            } else {
                low as int % n
            }
        }),
{
    let n = dev.data.len() as int;
    vstd::arithmetic::div_mod::lemma_mod_bound(high * 256 + low, n);
    vstd::arithmetic::div_mod::lemma_mod_bound(low as int, n);
}

/// A burst read walks round the memory and changes nothing but the address.
pub proof fn lemma_burst_read(dev: EepromView, n: nat)
    requires
        dev.well_formed(),
    ensures
        ({
            let size = dev.data.len() as int;
            &&& dev.after_reads(n) == (EepromView { addr: (dev.addr + n) % size, ..dev })
            &&& dev.after_reads(n).output() == dev.data[(dev.addr + n) % size]
        }),
    decreases n,
{
    let size = dev.data.len() as int;
    if n == 0 {
        vstd::arithmetic::div_mod::lemma_small_mod(dev.addr as nat, size as nat);
    } else {
        lemma_burst_read(dev, (n - 1) as nat);
        lemma_mod_step(dev.addr, n - 1, size);
    }
}

/// A burst write of at most the whole memory stores byte `i` at `i` places
/// past the address, round the memory, and leaves everything else.
pub proof fn lemma_burst_write(dev: EepromView, bytes: Seq<u8>)
    requires
        dev.well_formed(),
        dev.addr_bytes_seen == address_len(dev.data.len() as int),
        bytes.len() <= dev.data.len(),
    ensures
        ({
            let size = dev.data.len() as int;
            let after = dev.after_writes(bytes);
            &&& after.well_formed()
            &&& after.data.len() == size
            &&& after.addr_bytes_seen == dev.addr_bytes_seen
            &&& after.addr == (dev.addr + bytes.len()) % size
            &&& forall|i: int|
                0 <= i < bytes.len() ==> after.data[(dev.addr + i) % size] == #[trigger] bytes[i]
            &&& forall|i: int|
                bytes.len() <= i < size ==> #[trigger] after.data[(dev.addr + i) % size]
                    == dev.data[(dev.addr + i) % size]
        }),
    decreases bytes.len(),
{
    let size = dev.data.len() as int;
    if bytes.len() == 0 {
        vstd::arithmetic::div_mod::lemma_small_mod(dev.addr as nat, size as nat);
    } else {
        let rest = bytes.drop_last();
        let before = dev.after_writes(rest);
        let after = dev.after_writes(bytes);
        let last = rest.len() as int;
        lemma_burst_write(dev, rest);
        lemma_mod_step(dev.addr, last, size);
        vstd::arithmetic::div_mod::lemma_mod_bound(before.addr + 1, size);
        assert forall|i: int| 0 <= i < bytes.len() implies after.data[(dev.addr + i) % size]
            == #[trigger] bytes[i] by {
            if i < last {
                assert(rest[i] == bytes[i]);
                lemma_places_differ(dev.addr, i, last, size);
            }
            vstd::arithmetic::div_mod::lemma_mod_bound(dev.addr + i, size);
        }
        assert forall|i: int| bytes.len() <= i < size implies #[trigger] after.data[(dev.addr + i)
            % size] == dev.data[(dev.addr + i) % size] by {
            lemma_places_differ(dev.addr, last, i, size);
            vstd::arithmetic::div_mod::lemma_mod_bound(dev.addr + i, size);
            assert(before.data[(dev.addr + i) % size] == dev.data[(dev.addr + i) % size]);
        }
    }
}

/// Two places less than one turn apart are different places.
proof fn lemma_places_differ(a: int, i: int, j: int, size: int)
    requires
        0 <= i < j < size,
    ensures
        (a + i) % size != (a + j) % size,
{
    vstd::arithmetic::div_mod::lemma_fundamental_div_mod(a + i, size);
    vstd::arithmetic::div_mod::lemma_fundamental_div_mod(a + j, size);
    if (a + i) % size == (a + j) % size {
        let (p, q) = ((a + i) / size, (a + j) / size);
        assert(j - i == size * (q - p)) by (nonlinear_arith)
            requires
                a + i == size * p + (a + i) % size,
                a + j == size * q + (a + j) % size,
                (a + i) % size == (a + j) % size,
        ;
        assert(false) by (nonlinear_arith)
            requires
                0 < j - i < size,
                j - i == size * (q - p),
        ;
    }
}

/// What one transaction writes at an address, the next reads back from it,
/// for up to as many bytes as the memory holds, past its end or not.
pub proof fn lemma_write_read_round_trip(
    dev: EepromView,
    high: u8,
    low: u8,
    bytes: Seq<u8>,
    k: int,
)
    requires
        dev.well_formed(),
        bytes.len() <= dev.data.len(),
        0 <= k < bytes.len(),
    ensures
        dev.addressed(high, low).after_writes(bytes).addressed(high, low).after_start(
            true,
        ).after_reads(k as nat).output() == bytes[k],
{
    let set = dev.addressed(high, low);
    lemma_addressed(dev, high, low);
    lemma_burst_write(set, bytes);
    let written = set.after_writes(bytes);
    lemma_addressed(written, high, low);
    let again = written.addressed(high, low).after_start(true);
    lemma_burst_read(again, k as nat);
    assert(written.data[(set.addr + k) % (dev.data.len() as int)] == bytes[k]);
}

/// An address that is not whole does not count: after the first of two bytes
/// the memory still stands where it stood, and a read phase goes on from
/// there. A read phase moves nothing by itself.
pub proof fn lemma_half_address(dev: EepromView, high: u8)
    requires
        dev.well_formed(),
    ensures
        dev.data.len() > 256 ==> dev.after_start(false).after_write(high).addr == dev.addr
            && dev.after_start(false).after_write(high).data == dev.data,
        dev.after_start(true) == dev,
        dev.after_start(false).addr == dev.addr && dev.after_start(false).data == dev.data,
        dev.data.len() > 256 ==> dev.after_start(false).after_write(high).after_start(
            true,
        ).output() == dev.output(),
{
}

impl I2cDevice for Eeprom24 {
    open spec fn valid(&self) -> bool {
        &&& self@.well_formed()
        &&& self.addr_bytes as int == address_len(self.data@.len() as int)
    }

    open spec fn on_start(&self, read: bool, after: &Self, ack: bool) -> bool {
        after@ == self@.after_start(read) && ack
    }

    open spec fn on_write(&self, byte: u8, after: &Self, ack: bool) -> bool {
        after@ == self@.after_write(byte) && ack
    }

    open spec fn on_read(&self, master_will_ack: bool, after: &Self, byte: u8) -> bool {
        after@ == self@.after_read() && byte as int == self@.output()
    }

    open spec fn on_stop(&self, after: &Self) -> bool {
        after@ == self@
    }

    open spec fn can_tick(&self, cck: u32) -> bool {
        true
    }

    open spec fn on_tick(&self, cck: u32, after: &Self) -> bool {
        after@ == self@
    }

    fn start(&mut self, read: bool) -> (ack: bool) {
        if !read {
            self.addr_bytes_seen = 0;
            self.addr_being_built = 0;
        }
        true
    }

    fn write(&mut self, byte: u8) -> (ack: bool) {
        if self.addr_bytes_seen < self.addr_bytes {
            self.addr_being_built = self.addr_being_built * 256 + byte as usize;
            self.addr_bytes_seen += 1;
            if self.addr_bytes_seen == self.addr_bytes {
                self.addr = self.addr_being_built % self.data.len();
            }
            return true;
        }
        let at: usize = self.addr;
        self.data[at] = byte;
        self.advance();
        true
    }

    fn read(&mut self, master_will_ack: bool) -> (byte: u8) {
        let byte: u8 = self.data[self.addr];
        self.advance();
        byte
    }

    fn stop(&mut self) {
    }

    fn tick(&mut self, cck: u32) {
    }
}

} // verus!
