//! A character LCD (HD44780) behind a PCF8574 port expander, wired as the
//! common I2C backpacks are: P0 register select, P1 read/write (ignored),
//! P2 enable, P3 backlight, P4-P7 data. A byte goes over as two nibbles,
//! high one first, each taken on the falling edge of enable.
//!
//! Instructions: clear display, return home, entry mode (direction only),
//! display on/off, set CGRAM address (which diverts data from the screen),
//! set DDRAM address. Shifts and function set do nothing, and neither does
//! zero, which is no instruction. Display memory is 80 bytes, row 0 from
//! address 0 and row 1 from 0x40.

use crate::i2c::I2cDevice;
use vstd::array::spec_array_fill_for_copy_type;
use vstd::prelude::*;
use vstd::string::*;

verus! {

pub const RS: u8 = 0x01;

pub const EN: u8 = 0x04;

pub const BACKLIGHT: u8 = 0x08;

pub const DDRAM_LEN: usize = 80;

pub const ROW1_BASE: usize = 0x40;

/// Default I2C address of the backpack.
pub const HD44780_PCF8574_DEFAULT_ADDRESS: u8 = 0x27;

/// The display.
pub struct Hd44780Pcf8574 {
    pub ddram: [u8; 80],
    pub cursor: u8,
    pub entry_increment: bool,
    pub display_on: bool,
    pub backlight: bool,
    /// Data goes to character memory, which is not kept.
    pub cgram_mode: bool,
    pub output_latch: u8,
    /// Register select and value of a high nibble whose low one is still to
    /// come.
    pub pending_high_nibble: Option<(bool, u8)>,
}

/// What a display holds.
#[verifier::ext_equal]
pub struct LcdView {
    pub ddram: Seq<u8>,
    pub cursor: u8,
    pub entry_increment: bool,
    pub display_on: bool,
    pub backlight: bool,
    pub cgram_mode: bool,
    pub output_latch: u8,
    pub pending_high_nibble: Option<(bool, u8)>,
}

impl View for Hd44780Pcf8574 {
    type V = LcdView;

    open spec fn view(&self) -> LcdView {
        LcdView {
            ddram: self.ddram@,
            cursor: self.cursor,
            entry_increment: self.entry_increment,
            display_on: self.display_on,
            backlight: self.backlight,
            cgram_mode: self.cgram_mode,
            output_latch: self.output_latch,
            pending_high_nibble: self.pending_high_nibble,
        }
    }
}

/// The line of a port byte that `weight` picks out is high.
pub open spec fn line_high(byte: u8, weight: u8) -> bool {
    (byte / weight) % 2 == 1
}

/// Blank display memory.
pub open spec fn blank_ddram() -> Seq<u8> {
    Seq::new(80, |i: int| 0x20u8)
}

/// Display memory full of spaces.
fn blank() -> (ddram: [u8; 80])
    ensures
        ddram@ == blank_ddram(),
{
    let ddram = [0x20u8; 80];
    assert forall|i: int| 0 <= i < 80 implies ddram@[i] == 0x20u8 by {
        assert(spec_array_fill_for_copy_type::<u8, 80>(0x20u8)@[i] == 0x20u8);
    }
    assert(ddram@ =~= blank_ddram());
    ddram
}

/// The character that a display byte shows as: printable ASCII as itself,
/// anything else as a question mark.
pub open spec fn shown(byte: u8) -> char {
    if 0x20 <= byte <= 0x7E {
        byte as char
    } else {
        '?'
    }
}

impl LcdView {
    /// A blank display, off, with the backlight on.
    pub open spec fn power_on() -> Self {
        LcdView {
            ddram: blank_ddram(),
            cursor: 0,
            entry_increment: true,
            display_on: false,
            backlight: true,
            cgram_mode: false,
            output_latch: 0xFF,
            pending_high_nibble: None,
        }
    }

    /// Display memory has its size, and a pending nibble is a nibble.
    pub open spec fn well_formed(self) -> bool {
        &&& self.ddram.len() == 80
        &&& self.pending_high_nibble matches Some((_, high)) ==> high < 16
    }

    /// The text of a row: as many characters as there are columns, blank
    /// where the row's memory ends.
    pub open spec fn row(self, row: int, columns: nat) -> Seq<char> {
        let base: int = if row == 0 {
            0
        } else {
            0x40
        };
        Seq::new(
            columns,
            |i: int|
                if base + i < 80 {
                    shown(self.ddram[base + i])
                } else {
                    ' '
                },
        )
    }

    /// The display after a data byte.
    pub open spec fn with_data(self, byte: u8) -> Self {
        LcdView {
            ddram: if self.cgram_mode {
                self.ddram
            } else {
                self.ddram.update(self.cursor as int % 80, byte)
            },
            cursor: if self.entry_increment {
                self.cursor.wrapping_add(1)
            } else {
                self.cursor.wrapping_sub(1)
            },
            ..self
        }
    }

    /// The display after an instruction.
    pub open spec fn with_command(self, cmd: u8) -> Self {
        if cmd == 0x01 {
            LcdView { ddram: blank_ddram(), cursor: 0, ..self }
        } else if 0x02 <= cmd <= 0x03 {
            LcdView { cursor: 0, ..self }
        } else if 0x04 <= cmd <= 0x07 {
            LcdView { entry_increment: line_high(cmd, 2), ..self }
        } else if 0x08 <= cmd <= 0x0F {
            LcdView { display_on: line_high(cmd, 4), ..self }
        } else if 0x10 <= cmd <= 0x3F {
            self
        } else if 0x40 <= cmd <= 0x7F {
            LcdView { cgram_mode: true, ..self }
        } else if cmd >= 0x80 {
            LcdView { cgram_mode: false, cursor: cmd % 128, ..self }
        } else {
            self
        }
    }

    /// The display after a whole byte.
    pub open spec fn executed(self, rs: bool, byte: u8) -> Self {
        if rs {
            self.with_data(byte)
        } else {
            self.with_command(byte)
        }
    }

    /// The display after a nibble: a first one waits, a second one makes a
    /// byte with it. What the byte is for goes by the first nibble.
    pub open spec fn with_nibble(self, rs: bool, nibble: u8) -> Self {
        match self.pending_high_nibble {
            None => LcdView { pending_high_nibble: Some((rs, nibble)), ..self },
            Some((first_rs, high)) => (LcdView { pending_high_nibble: None, ..self }).executed(
                first_rs,
                (high * 16 + nibble) as u8,
            ),
        }
    }

    /// The byte that the next read gives.
    pub open spec fn output(self) -> int {
        self.output_latch as int
    }

    /// The display after an address phase.
    pub open spec fn after_start(self, read: bool) -> Self {
        self
    }

    /// The display after a byte was sent to the port expander: the lines
    /// take its levels, and enable falling takes a nibble.
    pub open spec fn after_write(self, byte: u8) -> Self {
        let latched = LcdView { output_latch: byte, backlight: line_high(byte, BACKLIGHT), ..self };
        if line_high(self.output_latch, EN) && !line_high(byte, EN) {
            latched.with_nibble(line_high(byte, RS), byte / 16)
        } else {
            latched
        }
    }

    /// The display after a byte was read from the port expander.
    pub open spec fn after_read(self) -> Self {
        self
    }

    /// The display after a driver has sent a nibble: the lines with enable
    /// high, then the same with enable low.
    #[verifier::opaque]
    pub open spec fn sent_nibble(self, rs: bool, nibble: u8, backlight: bool) -> Self {
        self.after_write(port_byte(rs, true, backlight, nibble)).after_write(
            port_byte(rs, false, backlight, nibble),
        )
    }

    /// The display after a driver has sent a byte as two nibbles.
    pub open spec fn sent(self, rs: bool, byte: u8, backlight: bool) -> Self {
        self.sent_nibble(rs, byte / 16, backlight).sent_nibble(rs, byte % 16, backlight)
    }
}

/// The port byte with the given lines high.
pub open spec fn port_byte(rs: bool, enable: bool, backlight: bool, nibble: u8) -> u8 {
    (nibble * 16 + (if backlight {
        8int
    } else {
        0
    }) + (if enable {
        4int
    } else {
        0
    }) + (if rs {
        1int
    } else {
        0
    })) as u8
}

/// Whether the line of a port byte that `weight` picks out is high.
fn is_high(byte: u8, weight: u8) -> (high: bool)
    requires
        weight != 0,
    ensures
        high == line_high(byte, weight),
{
    (byte / weight) % 2 == 1
}

impl Hd44780Pcf8574 {
    /// A blank display, off, with the backlight on.
    pub fn new() -> (dev: Self)
        ensures
            dev.valid(),
            dev@ == LcdView::power_on(),
    {
        Hd44780Pcf8574 {
            ddram: blank(),
            cursor: 0,
            entry_increment: true,
            display_on: false,
            backlight: true,
            cgram_mode: false,
            output_latch: 0xFF,
            pending_high_nibble: None,
        }
    }

    /// Whether the display is on.
    pub fn is_display_on(&self) -> (on: bool)
        ensures
            on == self@.display_on,
    {
        self.display_on
    }

    /// Whether the backlight is on.
    pub fn is_backlight_on(&self) -> (on: bool)
        ensures
            on == self@.backlight,
    {
        self.backlight
    }

    /// The text of row 0 or row 1, cut or filled up with blanks to
    /// `columns` characters.
    pub fn line(&self, row: usize, columns: usize) -> (text: String)
        ensures
            text@ == self@.row(row as int, columns as nat),
    {
        let base: usize = if row == 0 {
            0
        } else {
            ROW1_BASE
        };
        let mut text = String::new();
        let mut i: usize = 0;
        while i < columns
            invariant
                i <= columns,
                base as int == if row == 0 {
                    0int
                } else {
                    0x40
                },
                text@.len() == i,
                forall|k: int|
                    0 <= k < i ==> text@[k] == self@.row(row as int, columns as nat)[k],
            decreases columns - i,
        {
            let c: char = if i < DDRAM_LEN - base {
                let byte: u8 = self.ddram[base + i];
                if 0x20 <= byte && byte <= 0x7E {
                    byte as char
                } else {
                    '?'
                }
            } else {
                ' '
            };
            text.push(c);
            i += 1;
        }
        assert(text@ =~= self@.row(row as int, columns as nat));
        text
    }

    fn latch_nibble(&mut self, rs: bool, nibble: u8)
        requires
            old(self).valid(),
            nibble < 16,
        ensures
            final(self).valid(),
            final(self)@ == old(self)@.with_nibble(rs, nibble),
    {
        match self.pending_high_nibble {
            None => {
                self.pending_high_nibble = Some((rs, nibble));
            },
            Some((first_rs, high)) => {
                self.pending_high_nibble = None;
                self.execute(first_rs, high * 16 + nibble);
            },
        }
    }

    fn execute(&mut self, rs: bool, byte: u8)
        requires
            old(self).valid(),
        ensures
            final(self).valid(),
            final(self)@ == old(self)@.executed(rs, byte),
    {
        if rs {
            self.write_data(byte);
        } else {
            self.execute_command(byte);
        }
    }

    fn write_data(&mut self, byte: u8)
        requires
            old(self).valid(),
        ensures
            final(self).valid(),
            final(self)@ == old(self)@.with_data(byte),
    {
        if !self.cgram_mode {
            let at: usize = self.cursor as usize % DDRAM_LEN;
            self.ddram[at] = byte;
        }
        self.cursor = if self.entry_increment {
            self.cursor.wrapping_add(1)
        } else {
            self.cursor.wrapping_sub(1)
        };
    }

    fn execute_command(&mut self, cmd: u8)
        requires
            old(self).valid(),
        ensures
            final(self).valid(),
            final(self)@ == old(self)@.with_command(cmd),
    {
        match cmd {
            0x01 => {
                self.ddram = blank();
                self.cursor = 0;
            },
            0x02..=0x03 => {
                self.cursor = 0;
            },
            0x04..=0x07 => {
                self.entry_increment = is_high(cmd, 2);
            },
            0x08..=0x0F => {
                self.display_on = is_high(cmd, 4);
            },
            0x10..=0x3F => {},
            0x40..=0x7F => {
                self.cgram_mode = true;
            },
            0x80..=0xFF => {
                self.cgram_mode = false;
                self.cursor = cmd % 128;
            },
            _ => {},
        }
    }
}

/// A byte sent as two nibbles is carried out once, by the second falling
/// edge, and leaves no nibble waiting.
pub proof fn lemma_sent_byte(lcd: LcdView, rs: bool, byte: u8, backlight: bool)
    requires
        lcd.well_formed(),
        lcd.pending_high_nibble is None,
    ensures
        lcd.sent(rs, byte, backlight) == (LcdView {
            output_latch: port_byte(rs, false, backlight, byte % 16),
            backlight,
            ..lcd.executed(rs, byte)
        }),
        lcd.sent(rs, byte, backlight).pending_high_nibble is None,
        lcd.sent(rs, byte, backlight).well_formed(),
{
    let high = byte / 16;
    let low = byte % 16;
    lemma_sent_nibble(lcd, rs, high, backlight);
    lemma_sent_nibble(lcd.sent_nibble(rs, high, backlight), rs, low, backlight);
    assert((high * 16 + low) as u8 == byte);
}

/// A nibble sent is taken exactly once.
proof fn lemma_sent_nibble(lcd: LcdView, rs: bool, nibble: u8, backlight: bool)
    requires
        lcd.well_formed(),
        nibble < 16,
    ensures
        lcd.sent_nibble(rs, nibble, backlight) == (LcdView {
            output_latch: port_byte(rs, false, backlight, nibble),
            backlight,
            ..lcd
        }).with_nibble(rs, nibble),
{
    reveal(LcdView::sent_nibble);
    let up = port_byte(rs, true, backlight, nibble);
    let down = port_byte(rs, false, backlight, nibble);
    assert(line_high(up, EN) && !line_high(down, EN));
    assert(line_high(down, RS) == rs && line_high(down, BACKLIGHT) == backlight);
    assert(line_high(up, BACKLIGHT) == backlight);
    assert(down / 16 == nibble);
}

/// The display after a driver has sent text as data bytes.
pub open spec fn after_text(lcd: LcdView, text: Seq<u8>, backlight: bool) -> LcdView
    decreases text.len(),
{
    if text.len() == 0 {
        lcd
    } else {
        after_text(lcd, text.drop_last(), backlight).sent(true, text.last(), backlight)
    }
}

/// Text sent while the cursor counts up appears from the cursor on, and the
/// rest of display memory keeps what it held.
pub proof fn lemma_text_appears(lcd: LcdView, text: Seq<u8>, backlight: bool)
    requires
        lcd.well_formed(),
        lcd.pending_high_nibble is None,
        lcd.entry_increment,
        !lcd.cgram_mode,
        lcd.cursor + text.len() <= 80,
    ensures
        ({
            let after = after_text(lcd, text, backlight);
            &&& after.well_formed()
            &&& after.pending_high_nibble is None
            &&& after.entry_increment
            &&& !after.cgram_mode
            &&& after.display_on == lcd.display_on
            &&& after.cursor == lcd.cursor + text.len()
            &&& forall|i: int|
                0 <= i < 80 ==> #[trigger] after.ddram[i] == if lcd.cursor <= i < lcd.cursor
                    + text.len() {
                    text[i - lcd.cursor]
                } else {
                    lcd.ddram[i]
                }
        }),
    decreases text.len(),
{
    if text.len() > 0 {
        let rest = text.drop_last();
        lemma_text_appears(lcd, rest, backlight);
        lemma_sent_byte(after_text(lcd, rest, backlight), true, text.last(), backlight);
    }
}

/// Clear display blanks both rows and takes the cursor home.
pub proof fn lemma_clear(lcd: LcdView, backlight: bool, row: int, columns: nat)
    requires
        lcd.well_formed(),
        lcd.pending_high_nibble is None,
    ensures
        ({
            let after = lcd.sent(false, 0x01, backlight);
            &&& after.cursor == 0
            &&& after.row(row, columns) =~= Seq::new(columns, |i: int| ' ')
        }),
{
    lemma_sent_byte(lcd, false, 0x01, backlight);
}

/// Set DDRAM address moves the cursor to any of the 128 addresses, and sends
/// data to the screen again.
pub proof fn lemma_set_address(lcd: LcdView, address: u8, backlight: bool)
    requires
        lcd.well_formed(),
        lcd.pending_high_nibble is None,
        address < 128,
    ensures
        ({
            let after = lcd.sent(false, (128 + address) as u8, backlight);
            after.cursor == address && !after.cgram_mode && after.ddram == lcd.ddram
        }),
{
    lemma_sent_byte(lcd, false, (128 + address) as u8, backlight);
}

/// Shifts, function set, and zero, which is no instruction, do nothing to the
/// display.
pub proof fn lemma_idle_instruction(lcd: LcdView, cmd: u8, backlight: bool)
    requires
        lcd.well_formed(),
        lcd.pending_high_nibble is None,
        cmd == 0x00 || 0x10 <= cmd <= 0x3F,
    ensures
        lcd.sent(false, cmd, backlight) == (LcdView {
            output_latch: port_byte(false, false, backlight, cmd % 16),
            backlight,
            ..lcd
        }),
{
    lemma_sent_byte(lcd, false, cmd, backlight);
}

/// After set CGRAM address, data bytes never reach the screen.
pub proof fn lemma_cgram_diverts(lcd: LcdView, address: u8, data: u8, backlight: bool)
    requires
        lcd.well_formed(),
        lcd.pending_high_nibble is None,
        address < 64,
    ensures
        lcd.sent(false, (64 + address) as u8, backlight).sent(true, data, backlight).ddram
            == lcd.ddram,
{
    lemma_sent_byte(lcd, false, (64 + address) as u8, backlight);
    lemma_sent_byte(lcd.sent(false, (64 + address) as u8, backlight), true, data, backlight);
}

/// A row shows what was sent to it: printable text sent from the start of a
/// row, address 0 for row 0 and 0x40 for row 1, of a display that counts up
/// stands there character for character, as far as there are columns; behind
/// it the row shows what it showed before, and the other row is untouched by
/// text that stays within its own.
pub proof fn lemma_row_shows_text(
    lcd: LcdView,
    row: int,
    start: u8,
    text: Seq<u8>,
    columns: nat,
    backlight: bool,
)
    requires
        lcd.well_formed(),
        lcd.pending_high_nibble is None,
        lcd.entry_increment,
        row == 0 && start == 0x80 && text.len() <= 80 || row == 1 && start == 0xC0 && text.len()
            <= 16,
        forall|i: int| 0 <= i < text.len() ==> 0x20 <= #[trigger] text[i] <= 0x7E,
    ensures
        ({
            let after = after_text(lcd.sent(false, start, backlight), text, backlight);
            let now = after.row(row, columns);
            &&& now.len() == columns
            &&& forall|i: int|
                0 <= i < text.len() && i < columns ==> #[trigger] now[i] == text[i] as char
            &&& forall|i: int|
                text.len() <= i < columns ==> #[trigger] now[i] == lcd.row(row, columns)[i]
            &&& text.len() <= 64 && columns <= 64 ==> after.row(1 - row, columns) =~= lcd.row(
                1 - row,
                columns,
            )
            &&& after.display_on == lcd.display_on && after.backlight == if text.len() > 0 {
                backlight
            } else {
                lcd.sent(false, start, backlight).backlight
            }
        }),
{
    lemma_sent_byte(lcd, false, start, backlight);
    let begun = lcd.sent(false, start, backlight);
    assert(begun.cursor as int == 64 * row);
    lemma_text_appears(begun, text, backlight);
    if text.len() > 0 {
        lemma_text_appears(begun, text.drop_last(), backlight);
        lemma_sent_byte(after_text(begun, text.drop_last(), backlight), true, text.last(), backlight);
    }
}

/// A display that powers up, or that has been cleared, shows blanks in every
/// column of both rows, and text sent to the start of a row of it is followed
/// by blanks.
pub proof fn lemma_blank_row(
    lcd: LcdView,
    row: int,
    start: u8,
    text: Seq<u8>,
    columns: nat,
    backlight: bool,
)
    requires
        lcd.ddram == LcdView::power_on().ddram || lcd.ddram == LcdView::power_on().sent(
            false,
            0x01,
            backlight,
        ).ddram,
        lcd.well_formed(),
        lcd.pending_high_nibble is None,
        lcd.entry_increment,
        row == 0 && start == 0x80 && text.len() <= 80 || row == 1 && start == 0xC0 && text.len()
            <= 16,
        forall|i: int| 0 <= i < text.len() ==> 0x20 <= #[trigger] text[i] <= 0x7E,
    ensures
        forall|i: int| 0 <= i < columns ==> #[trigger] lcd.row(row, columns)[i] == ' ',
        ({
            let now = after_text(lcd.sent(false, start, backlight), text, backlight).row(
                row,
                columns,
            );
            forall|i: int| text.len() <= i < columns ==> #[trigger] now[i] == ' '
        }),
{
    lemma_sent_byte(LcdView::power_on(), false, 0x01, backlight);
    lemma_row_shows_text(lcd, row, start, text, columns, backlight);
    let now = after_text(lcd.sent(false, start, backlight), text, backlight).row(row, columns);
    assert forall|i: int| text.len() <= i < columns implies #[trigger] now[i] == ' ' by {
        assert(now[i] == lcd.row(row, columns)[i]);
    }
}

/// There are two rows: any row but the first is the second. A row has no
/// memory past the 80th place, and is blank there.
pub proof fn lemma_rows(lcd: LcdView, row: int, columns: nat, i: int)
    requires
        0 <= i < columns,
    ensures
        row != 0 ==> lcd.row(row, columns) == lcd.row(1, columns),
        i >= 80 ==> lcd.row(0, columns)[i] == ' ',
        i >= 16 ==> lcd.row(1, columns)[i] == ' ',
        lcd.row(row, columns).len() == columns,
{
}

/// A display powers up blank and off, counting up from the first place, with
/// its backlight on.
pub proof fn lemma_power_on(i: int)
    requires
        0 <= i < 80,
    ensures
        ({
            let lcd = LcdView::power_on();
            &&& lcd.ddram.len() == 80 && lcd.ddram[i] == 0x20
            &&& lcd.cursor == 0 && lcd.entry_increment && !lcd.cgram_mode
            &&& !lcd.display_on && lcd.backlight && lcd.pending_high_nibble is None
            &&& lcd.output() == 0xFF
        }),
{
}

/// A byte that is not printable ASCII shows as a question mark, wherever in a
/// row's memory it stands.
pub proof fn lemma_unprintable(lcd: LcdView, row: int, columns: nat, i: int)
    requires
        row == 0 || row == 1,
        0 <= i < columns,
        64 * row + i < 80,
        lcd.ddram[64 * row + i] < 0x20 || lcd.ddram[64 * row + i] > 0x7E,
    ensures
        lcd.row(row, columns)[i] == '?',
{
}

/// A data byte goes to the cursor's place, counted round the 80, and to no
/// other; the cursor goes up or down by one, round its 256 values, as the
/// entry mode says.
pub proof fn lemma_data_byte(lcd: LcdView, byte: u8, backlight: bool)
    requires
        lcd.well_formed(),
        lcd.pending_high_nibble is None,
    ensures
        ({
            let after = lcd.sent(true, byte, backlight);
            let at = lcd.cursor as int % 80;
            &&& !lcd.cgram_mode ==> after.ddram[at] == byte
            &&& forall|i: int|
                0 <= i < 80 && i != at ==> #[trigger] after.ddram[i] == lcd.ddram[i]
            &&& lcd.cgram_mode ==> after.ddram == lcd.ddram
            &&& lcd.entry_increment ==> after.cursor as int == (lcd.cursor + 1) % 256
            &&& !lcd.entry_increment ==> after.cursor as int == (lcd.cursor + 255) % 256
            &&& after.entry_increment == lcd.entry_increment && after.cgram_mode == lcd.cgram_mode
            &&& after.display_on == lcd.display_on && after.backlight == backlight
        }),
{
    lemma_sent_byte(lcd, true, byte, backlight);
}

/// What each instruction sets, and that it leaves the rest alone: 0x01 blanks
/// the memory and takes the cursor home; 0x02 and 0x03 take it home; 0x04 to
/// 0x07 set the direction from bit 1; 0x08 to 0x0F turn the display on or off
/// by bit 2; 0x40 to 0x7F divert data to character memory; 0x80 and up set
/// the cursor from the low seven bits and send data to the screen again.
pub proof fn lemma_instructions(lcd: LcdView, cmd: u8, backlight: bool)
    requires
        lcd.well_formed(),
        lcd.pending_high_nibble is None,
    ensures
        ({
            let after = lcd.sent(false, cmd, backlight);
            &&& cmd == 0x01 ==> forall|i: int| 0 <= i < 80 ==> #[trigger] after.ddram[i] == 0x20
            &&& cmd != 0x01 ==> after.ddram == lcd.ddram
            &&& 0x01 <= cmd <= 0x03 ==> after.cursor == 0
            &&& cmd >= 0x80 ==> after.cursor as int == cmd - 0x80
            &&& cmd == 0 || 0x04 <= cmd < 0x80 ==> after.cursor == lcd.cursor
            &&& 0x04 <= cmd <= 0x07 ==> after.entry_increment == (cmd == 0x06 || cmd == 0x07)
            &&& !(0x04 <= cmd <= 0x07) ==> after.entry_increment == lcd.entry_increment
            &&& 0x08 <= cmd <= 0x0F ==> after.display_on == (cmd >= 0x0C)
            &&& !(0x08 <= cmd <= 0x0F) ==> after.display_on == lcd.display_on
            &&& 0x40 <= cmd <= 0x7F ==> after.cgram_mode
            &&& cmd >= 0x80 ==> !after.cgram_mode
            &&& cmd < 0x40 ==> after.cgram_mode == lcd.cgram_mode
            &&& after.backlight == backlight
        }),
{
    lemma_sent_byte(lcd, false, cmd, backlight);
}

/// A nibble is taken exactly when enable, bit 2 of the port, falls: the upper
/// half of the byte that takes it down, for data if that byte's bit 0 is set.
/// The first of two waits; the second makes a byte with it, the first on top.
/// Any other port byte only sets the lines. Bit 3 is the backlight, and what
/// is read back is the byte sent last.
pub proof fn lemma_port(lcd: LcdView, byte: u8)
    requires
        lcd.well_formed(),
    ensures
        ({
            let after = lcd.after_write(byte);
            let falls = (lcd.output_latch / 4) % 2 == 1 && (byte / 4) % 2 == 0;
            let lines = LcdView {
                output_latch: byte,
                backlight: (byte / 8) % 2 == 1,
                pending_high_nibble: None,
                ..lcd
            };
            &&& after.output() == byte && after.backlight == ((byte / 8) % 2 == 1)
            &&& after.after_read() == after && after.after_start(true) == after
            &&& !falls ==> after == (LcdView {
                pending_high_nibble: lcd.pending_high_nibble,
                ..lines
            })
            &&& falls && lcd.pending_high_nibble is None ==> after == (LcdView {
                pending_high_nibble: Some((byte % 2 == 1, byte / 16)),
                ..lines
            })
            &&& falls && lcd.pending_high_nibble is Some ==> ({
                let (data, high) = lcd.pending_high_nibble.unwrap();
                let whole = (high * 16 + byte / 16) as u8;
                after == if data {
                    lines.with_data(whole)
                } else {
                    lines.with_command(whole)
                }
            })
        }),
{
}

impl I2cDevice for Hd44780Pcf8574 {
    open spec fn valid(&self) -> bool {
        self@.well_formed()
    }

    open spec fn on_start(&self, read: bool, after: &Self, ack: bool) -> bool {
        after@ == self@.after_start(read) && ack
    }

    open spec fn on_write(&self, byte: u8, after: &Self, ack: bool) -> bool {
        after@ == self@.after_write(byte) && ack
    }

    open spec fn on_read(&self, master_will_ack: bool, after: &Self, byte: u8) -> bool {
        after@ == self@.after_read() && byte as int == self@.output()
    }

    open spec fn on_stop(&self, after: &Self) -> bool {
        after@ == self@
    }

    open spec fn can_tick(&self, cck: u32) -> bool {
        true
    }

    open spec fn on_tick(&self, cck: u32, after: &Self) -> bool {
        after@ == self@
    }

    fn start(&mut self, read: bool) -> (ack: bool) {
        true
    }

    fn write(&mut self, byte: u8) -> (ack: bool) {
        let was_enabled = is_high(self.output_latch, EN);
        self.output_latch = byte;
        self.backlight = is_high(byte, BACKLIGHT);
        if was_enabled && !is_high(byte, EN) {
            self.latch_nibble(is_high(byte, RS), byte / 16);
        }
        true
    }

    fn read(&mut self, master_will_ack: bool) -> (byte: u8) {
        self.output_latch
    }

    fn stop(&mut self) {
    }

    fn tick(&mut self, cck: u32) {
    }
}

impl Default for Hd44780Pcf8574 {
    fn default() -> (dev: Self)
        ensures
            dev.valid(),
            dev@ == LcdView::power_on(),
    {
        Self::new()
    }
}

} // verus!
