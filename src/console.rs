//! The 80x25 text screen: cells, the cursor position and scrolling.
use vstd::prelude::*;

use crate::port::{pw, PortWrite};

verus! {

pub const BUFFER_HEIGHT: usize = 25;

pub const BUFFER_WIDTH: usize = 80;

pub const BUFFER_CELLS: usize = 2000;

pub const VGA_PORT_INDEX: u16 = 0x3D4;

pub const VGA_PORT_DATA: u16 = 0x3D5;

pub const VGA_INDEX_UPPERCURSER: u8 = 0x0E;

pub const VGA_INDEX_LOWERCURSER: u8 = 0x0F;

/// Byte shown for a character outside printable ASCII.
pub const NON_PRINTABLE: u8 = 0xFE;

/// The sixteen text colors.
#[derive(Clone, Copy, PartialEq, Eq, Structural)]
pub enum Color {
    Black,
    Blue,
    Green,
    Cyan,
    Red,
    Magenta,
    Brown,
    LightGray,
    DarkGray,
    LightBlue,
    LightGreen,
    LightCyan,
    LightRed,
    Pink,
    Yellow,
    White,
}

impl Color {
    pub open spec fn index(&self) -> u8 {
        match self {
            Color::Black => 0,
            Color::Blue => 1,
            Color::Green => 2,
            Color::Cyan => 3,
            Color::Red => 4,
            Color::Magenta => 5,
            Color::Brown => 6,
            Color::LightGray => 7,
            Color::DarkGray => 8,
            Color::LightBlue => 9,
            Color::LightGreen => 10,
            Color::LightCyan => 11,
            Color::LightRed => 12,
            Color::Pink => 13,
            Color::Yellow => 14,
            Color::White => 15,
        }
    }

    /// The color's 4-bit code.
    pub fn code(&self) -> (r: u8)
        ensures
            r == self.index(),
    {
        match self {
            Color::Black => 0,
            Color::Blue => 1,
            Color::Green => 2,
            Color::Cyan => 3,
            Color::Red => 4,
            Color::Magenta => 5,
            Color::Brown => 6,
            Color::LightGray => 7,
            Color::DarkGray => 8,
            Color::LightBlue => 9,
            Color::LightGreen => 10,
            Color::LightCyan => 11,
            Color::LightRed => 12,
            Color::Pink => 13,
            Color::Yellow => 14,
            Color::White => 15,
        }
    }
}

/// Attribute byte: background in the high nibble, foreground in the low.
pub fn color_code(foreground: Color, background: Color) -> (r: u8)
    ensures
        r == background.index() * 16 + foreground.index(),
{
    let f = foreground.code();
    let b = background.code();
    let r = (b << 4u8) | f;
    assert(r == b * 16 + f) by (bit_vector)
        requires
            b < 16 && f < 16,
            r == (b << 4u8) | f,
    ;
    r
}

/// One screen cell.
#[derive(Clone, Copy, PartialEq, Eq, Structural)]
pub struct ScreenChar {
    pub ascii_character: u8,
    pub color_code: u8,
}

/// The screen moved up one row, the last row blank in `color`.
pub open spec fn scrolled(cells: Seq<ScreenChar>, color: u8) -> Seq<ScreenChar> {
    Seq::new(
        BUFFER_CELLS as nat,
        |i: int|
            if i < BUFFER_CELLS - BUFFER_WIDTH {
                cells[i + BUFFER_WIDTH]
            } else {
                ScreenChar { ascii_character: 0x20, color_code: color }
            },
    )
}

/// Cells and position after a line feed: the start of the next row, or a
/// scroll when the cursor is on the last row.
pub open spec fn newline_state(cells: Seq<ScreenChar>, pos: int, color: u8) -> (Seq<ScreenChar>, int) {
    if pos <= BUFFER_WIDTH * (BUFFER_HEIGHT - 1) - 1 {
        (cells, pos + BUFFER_WIDTH - pos % BUFFER_WIDTH as int)
    } else {
        (scrolled(cells, color), (BUFFER_HEIGHT - 1) * BUFFER_WIDTH)
    }
}

/// Cells and position after writing `byte`.
pub open spec fn put_state(cells: Seq<ScreenChar>, pos: int, color: u8, byte: u8) -> (Seq<ScreenChar>, int) {
    if byte == 0x0A {
        newline_state(cells, pos, color)
    } else {
        let (c1, p1) = if pos >= BUFFER_CELLS {
            newline_state(cells, pos, color)
        } else {
            (cells, pos)
        };
        (c1.update(p1, ScreenChar { ascii_character: byte, color_code: color }), p1 + 1)
    }
}

/// What `write_string` shows for `byte`.
pub open spec fn shown(byte: u8) -> u8 {
    if (0x20 <= byte <= 0x7E) || byte == 0x0A {
        byte
    } else {
        NON_PRINTABLE
    }
}

/// Cells and position after writing every byte of `s`.
pub open spec fn write_all(cells: Seq<ScreenChar>, pos: int, color: u8, s: Seq<u8>) -> (Seq<ScreenChar>, int)
    decreases s.len(),
{
    if s.len() == 0 {
        (cells, pos)
    } else {
        let (c, p) = write_all(cells, pos, color, s.drop_last());
        put_state(c, p, color, shown(s.last()))
    }
}

/// The text screen.
pub struct Writer {
    column_position: usize,
    color_code: u8,
    buffer: Vec<ScreenChar>,
}

impl Writer {
    pub closed spec fn cells(&self) -> Seq<ScreenChar> {
        self.buffer@
    }

    /// Linear cursor position, `row * 80 + column`.
    pub closed spec fn position(&self) -> int {
        self.column_position as int
    }

    pub closed spec fn color(&self) -> u8 {
        self.color_code
    }

    pub closed spec fn inv(&self) -> bool {
        &&& self.buffer@.len() == BUFFER_CELLS
        &&& self.column_position <= u32::MAX
    }

    /// A blank screen in `color`, cursor at the top left.
    pub fn new(color: u8) -> (r: Self)
        ensures
            r.inv(),
            r.position() == 0,
            r.color() == color,
            r.cells() == Seq::new(BUFFER_CELLS as nat, |i: int| ScreenChar { ascii_character: 0x20, color_code: color }),
    {
        let mut buffer: Vec<ScreenChar> = Vec::new();
        let mut i: usize = 0;
        while i < BUFFER_CELLS
            invariant
                i <= BUFFER_CELLS,
                buffer@.len() == i,
                forall|k: int| 0 <= k < i ==> buffer@[k] == (ScreenChar { ascii_character: 0x20, color_code: color }),
            decreases BUFFER_CELLS - i,
        {
            buffer.push(ScreenChar { ascii_character: 0x20, color_code: color });
            i = i + 1;
        }
        let r = Writer { column_position: 0, color_code: color, buffer };
        assert(r.cells() =~= Seq::new(BUFFER_CELLS as nat, |i: int| ScreenChar { ascii_character: 0x20, color_code: color }));
        r
    }

    /// Blanks row `row` in the current color.
    fn clear_row(&mut self, row: usize)
        requires
            old(self).inv(),
            row < BUFFER_HEIGHT,
        ensures
            final(self).inv(),
            final(self).position() == old(self).position(),
            final(self).color() == old(self).color(),
            final(self).cells() == Seq::new(BUFFER_CELLS as nat, |i: int|
                if row * BUFFER_WIDTH <= i < (row + 1) * BUFFER_WIDTH {
                    ScreenChar { ascii_character: 0x20, color_code: old(self).color() }
                } else {
                    old(self).cells()[i]
                }),
    {
        let blank = ScreenChar { ascii_character: 0x20, color_code: self.color_code };
        let mut col: usize = 0;
        while col < BUFFER_WIDTH
            invariant
                self.inv(),
                row < BUFFER_HEIGHT,
                col <= BUFFER_WIDTH,
                self.column_position == old(self).column_position,
                self.color_code == old(self).color_code,
                blank == (ScreenChar { ascii_character: 0x20, color_code: old(self).color() }),
                forall|i: int| 0 <= i < BUFFER_CELLS ==> #[trigger] self.buffer@[i] == if row * BUFFER_WIDTH <= i < row * BUFFER_WIDTH + col {
                    blank
                } else {
                    old(self).cells()[i]
                },
            decreases BUFFER_WIDTH - col,
        {
            self.buffer.set(row * BUFFER_WIDTH + col, blank);
            col = col + 1;
        }
        assert(self.cells() =~= Seq::new(BUFFER_CELLS as nat, |i: int|
            if row * BUFFER_WIDTH <= i < (row + 1) * BUFFER_WIDTH {
                ScreenChar { ascii_character: 0x20, color_code: old(self).color() }
            } else {
                old(self).cells()[i]
            }));
    }

    /// Line feed: to the start of the next row; on the last row, everything
    /// moves up a row and the last row is blanked.
    fn new_line(&mut self)
        requires
            old(self).inv(),
        ensures
            final(self).inv(),
            final(self).color() == old(self).color(),
            (final(self).cells(), final(self).position()) == newline_state(old(self).cells(), old(self).position(), old(self).color()),
    {
        if self.column_position <= BUFFER_WIDTH * (BUFFER_HEIGHT - 1) - 1 {
            self.column_position = self.column_position + BUFFER_WIDTH - (self.column_position % BUFFER_WIDTH);
            return;
        }
        let ghost before = self.buffer@;
        let mut i: usize = 0;
        while i < BUFFER_CELLS - BUFFER_WIDTH
            invariant
                self.inv(),
                self.column_position == old(self).column_position,
                self.color_code == old(self).color_code,
                before == old(self).cells(),
                i <= BUFFER_CELLS - BUFFER_WIDTH,
                forall|k: int| 0 <= k < BUFFER_CELLS ==> #[trigger] self.buffer@[k] == if k < i {
                    before[k + BUFFER_WIDTH]
                } else {
                    before[k]
                },
            decreases BUFFER_CELLS - BUFFER_WIDTH - i,
        {
            let c = self.buffer[i + BUFFER_WIDTH];
            self.buffer.set(i, c);
            i = i + 1;
        }
        self.clear_row(BUFFER_HEIGHT - 1);
        self.column_position = (BUFFER_HEIGHT - 1) * BUFFER_WIDTH;
        assert(self.cells() =~= scrolled(before, old(self).color()));
    }

    /// Writes one byte at the cursor; a line feed moves to the next row, and
    /// a full screen scrolls first.
    pub fn write_byte(&mut self, byte: u8)
        requires
            old(self).inv(),
        ensures
            final(self).inv(),
            final(self).color() == old(self).color(),
            (final(self).cells(), final(self).position()) == put_state(old(self).cells(), old(self).position(), old(self).color(), byte),
    {
        if byte == 0x0A {
            self.new_line();
        } else {
            if self.column_position >= BUFFER_CELLS {
                self.new_line();
            }
            let p = self.column_position;
            self.buffer.set(p, ScreenChar { ascii_character: byte, color_code: self.color_code });
            self.column_position = p + 1;
        }
    }

    /// Writes `s`, showing bytes outside printable ASCII as `NON_PRINTABLE`,
    /// and returns the cursor writes for the final position.
    pub fn write_string(&mut self, s: &[u8]) -> (r: [PortWrite; 4])
        requires
            old(self).inv(),
        ensures
            final(self).inv(),
            final(self).color() == old(self).color(),
            (final(self).cells(), final(self).position()) == write_all(old(self).cells(), old(self).position(), old(self).color(), s@),
            r == cursor_writes(final(self).position()),
    {
        let mut i: usize = 0;
        while i < s.len()
            invariant
                self.inv(),
                i <= s@.len(),
                self.color() == old(self).color(),
                (self.cells(), self.position()) == write_all(old(self).cells(), old(self).position(), old(self).color(), s@.subrange(0, i as int)),
            decreases s@.len() - i,
        {
            let b = s[i];
            let c = if (0x20 <= b && b <= 0x7E) || b == 0x0A {
                b
            } else {
                NON_PRINTABLE
            };
            self.write_byte(c);
            proof {
                let t = s@.subrange(0, i as int + 1);
                assert(t.drop_last() =~= s@.subrange(0, i as int));
            }
            i = i + 1;
        }
        assert(s@.subrange(0, s@.len() as int) =~= s@);
        let x = self.column_position % BUFFER_WIDTH;
        let y = self.column_position / BUFFER_WIDTH;
        self.set_curser(x, y)
    }

    /// Blanks the screen and puts the cursor at the top left.
    pub fn clear_screen(&mut self) -> (r: [PortWrite; 4])
        requires
            old(self).inv(),
        ensures
            final(self).inv(),
            final(self).color() == old(self).color(),
            final(self).position() == 0,
            final(self).cells() == Seq::new(BUFFER_CELLS as nat, |i: int| ScreenChar { ascii_character: 0x20, color_code: old(self).color() }),
            r == cursor_writes(0),
    {
        let mut i: usize = 0;
        while i < BUFFER_CELLS
            invariant
                self.inv(),
                i <= BUFFER_CELLS,
                self.color_code == old(self).color_code,
                forall|k: int| 0 <= k < i ==> #[trigger] self.buffer@[k] == (ScreenChar { ascii_character: 0x20, color_code: old(self).color() }),
            decreases BUFFER_CELLS - i,
        {
            self.buffer.set(i, ScreenChar { ascii_character: 0x20, color_code: self.color_code });
            i = i + 1;
        }
        assert(self.cells() =~= Seq::new(BUFFER_CELLS as nat, |i: int| ScreenChar { ascii_character: 0x20, color_code: old(self).color() }));
        self.set_curser(0, 0)
    }

    /// Moves the cursor to column `x` of row `y`; returns the writes that move
    /// the hardware cursor there.
    pub fn set_curser(&mut self, x: usize, y: usize) -> (r: [PortWrite; 4])
        requires
            old(self).inv(),
            y * BUFFER_WIDTH + x <= u32::MAX,
        ensures
            final(self).inv(),
            final(self).cells() == old(self).cells(),
            final(self).color() == old(self).color(),
            final(self).position() == y * BUFFER_WIDTH + x,
            r == cursor_writes(y * BUFFER_WIDTH + x),
    {
        let linear = y * BUFFER_WIDTH + x;
        self.column_position = linear;
        assert(((linear >> 8usize) as u8) == ((linear / 0x100) % 0x100) as u8 && ((linear & 0xFFusize) as u8) == (linear % 0x100) as u8) by (bit_vector);
        [
            PortWrite { port: VGA_PORT_INDEX, value: VGA_INDEX_UPPERCURSER },
            PortWrite { port: VGA_PORT_DATA, value: (linear >> 8usize) as u8 },
            PortWrite { port: VGA_PORT_INDEX, value: VGA_INDEX_LOWERCURSER },
            PortWrite { port: VGA_PORT_DATA, value: (linear & 0xFFusize) as u8 },
        ]
    }

    /// Column and row of the cursor.
    pub fn get_curser(&self) -> (r: (usize, usize))
        ensures
            r.0 == self.position() % BUFFER_WIDTH as int,
            r.1 == self.position() / BUFFER_WIDTH as int,
    {
        (self.column_position % BUFFER_WIDTH, self.column_position / BUFFER_WIDTH)
    }

    /// Puts the bytes of `s` into the cells from column `x` of row `y` on,
    /// keeping their colors and the cursor.
    pub fn print_string(&mut self, x: usize, y: usize, s: &[u8])
        requires
            old(self).inv(),
            y * BUFFER_WIDTH + x + s@.len() <= BUFFER_CELLS,
        ensures
            final(self).inv(),
            final(self).position() == old(self).position(),
            final(self).color() == old(self).color(),
            final(self).cells() == Seq::new(BUFFER_CELLS as nat, |i: int|
                if y * BUFFER_WIDTH + x <= i < y * BUFFER_WIDTH + x + s@.len() {
                    ScreenChar { ascii_character: s@[i - (y * BUFFER_WIDTH + x)], ..old(self).cells()[i] }
                } else {
                    old(self).cells()[i]
                }),
    {
        let base = y * BUFFER_WIDTH + x;
        let mut i: usize = 0;
        while i < s.len()
            invariant
                self.inv(),
                base == y * BUFFER_WIDTH + x,
                base + s@.len() <= BUFFER_CELLS,
                i <= s@.len(),
                self.column_position == old(self).column_position,
                self.color_code == old(self).color_code,
                forall|k: int| 0 <= k < BUFFER_CELLS ==> #[trigger] self.buffer@[k] == if base <= k < base + i {
                    ScreenChar { ascii_character: s@[k - base], ..old(self).cells()[k] }
                } else {
                    old(self).cells()[k]
                },
            decreases s@.len() - i,
        {
            let old_cell = self.buffer[base + i];
            self.buffer.set(base + i, ScreenChar { ascii_character: s[i], ..old_cell });
            i = i + 1;
        }
        assert(self.cells() =~= Seq::new(BUFFER_CELLS as nat, |k: int|
            if y * BUFFER_WIDTH + x <= k < y * BUFFER_WIDTH + x + s@.len() {
                ScreenChar { ascii_character: s@[k - (y * BUFFER_WIDTH + x)], ..old(self).cells()[k] }
            } else {
                old(self).cells()[k]
            }));
    }

    /// The character in cell `i`.
    pub fn cell(&self, i: usize) -> (r: ScreenChar)
        requires
            self.inv(),
            i < BUFFER_CELLS,
        ensures
            r == self.cells()[i as int],
    {
        self.buffer[i]
    }
}

/// The port writes that put the hardware cursor at `linear`.
pub open spec fn cursor_writes(linear: int) -> [PortWrite; 4] {
    [
        pw(VGA_PORT_INDEX, VGA_INDEX_UPPERCURSER),
        pw(VGA_PORT_DATA, ((linear / 0x100) % 0x100) as u8),
        pw(VGA_PORT_INDEX, VGA_INDEX_LOWERCURSER),
        pw(VGA_PORT_DATA, (linear % 0x100) as u8),
    ]
}

} // verus!
