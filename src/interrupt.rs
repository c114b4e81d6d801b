//! What the exception and interrupt handlers draw.
use vstd::prelude::*;

use crate::console::{Writer, BUFFER_WIDTH};

verus! {

/// The two decimal digits of `vector` (tens, then units).
pub fn vector_digits(vector: u8) -> (r: [u8; 2])
    ensures
        r[0] == vector / 10 + 0x30,
        r[1] == vector % 10 + 0x30,
{
    [vector / 10 + 0x30, vector % 10 + 0x30]
}

/// The tag `[INT:vv,c]` that an interrupt handler shows: the vector's two
/// digits and the last digit of its running count.
pub fn interrupt_tag(vector: u8, count: u8) -> (r: [u8; 10])
    requires
        count < 10,
    ensures
        r@ == seq![0x5Bu8, 0x49, 0x4E, 0x54, 0x3A, (vector / 10 + 0x30) as u8, (vector % 10 + 0x30) as u8, 0x2C, (count + 0x30) as u8, 0x5D],
{
    let d = vector_digits(vector);
    let r = [0x5Bu8, 0x49, 0x4E, 0x54, 0x3A, d[0], d[1], 0x2C, count + 0x30, 0x5D];
    assert(r@ =~= seq![0x5Bu8, 0x49, 0x4E, 0x54, 0x3A, (vector / 10 + 0x30) as u8, (vector % 10 + 0x30) as u8, 0x2C, (count + 0x30) as u8, 0x5D]);
    r
}

/// The next value of a handler's running count, 0 to 9.
pub fn next_count(count: u8) -> (r: u8)
    requires
        count < 10,
    ensures
        r == (count + 1) % 10,
{
    (count + 1) % 10
}

/// Glyphs a test spinner cycles through: `-`, `\`, `|`, `/`.
pub open spec fn spinner_glyph(i: u64) -> u16 {
    if i % 4 == 0 {
        0x2D
    } else if i % 4 == 1 {
        0x5C
    } else if i % 4 == 2 {
        0x7C
    } else {
        0x2F
    }
}

/// The screen cell and value that spinner task `pid` writes at step `i`:
/// its cell counts back from the end of the screen by `2 * pid`, its color
/// is `offset % 15 + 1`, its glyph turns each step.
pub fn spinner_cell(pid: u64, i: u64) -> (r: (u64, u16))
    requires
        pid <= u64::MAX / 2,
    ensures
        r.0 == 2000 - (pid * 2) % 2000,
        r.1 == spinner_glyph(i) + (r.0 % 15 + 1) * 0x100,
{
    let offset = 2000 - (pid * 2) % 2000;
    let glyph: u16 = match i % 4 {
        0 => 0x2D,
        1 => 0x5C,
        2 => 0x7C,
        _ => 0x2F,
    };
    let attribute = (offset % 15 + 1) as u16;
    let value = glyph | (attribute << 8u16);
    assert(value == glyph + attribute * 0x100) by (bit_vector)
        requires
            glyph < 0x100,
            attribute <= 15,
            value == glyph | (attribute << 8u16),
    ;
    (offset, value)
}

pub const BANNER_RULE: &'static str = "====================================================";

pub const BANNER_TITLE: &'static str = "               Exception Occur                      ";

pub const BANNER_VECTOR: &'static str = "                  Vector :                          ";

/// Column of the vector's digits in the banner's third row.
pub const BANNER_DIGITS_COLUMN: usize = 27;

/// Puts `s` at the start of row `y` when it fits on the screen.
fn print_row(writer: &mut Writer, y: usize, s: &[u8])
    requires
        old(writer).inv(),
        y < 25,
    ensures
        final(writer).inv(),
        final(writer).position() == old(writer).position(),
        forall|i: int| 0 <= i < 2000 && !(y * BUFFER_WIDTH <= i < (y + 1) * BUFFER_WIDTH) ==> #[trigger] final(writer).cells()[i] == old(writer).cells()[i],
{
    if s.len() <= BUFFER_WIDTH {
        writer.print_string(0, y, s);
    }
}

/// Draws the exception banner over the top four rows, with `vector`'s
/// digits after "Vector :".
#[allow(non_snake_case)]
pub fn CommonExceptionHandler(writer: &mut Writer, vector: u8)
    requires
        old(writer).inv(),
    ensures
        final(writer).inv(),
        final(writer).position() == old(writer).position(),
        final(writer).cells()[2 * BUFFER_WIDTH + BANNER_DIGITS_COLUMN].ascii_character == vector / 10 + 0x30,
        final(writer).cells()[2 * BUFFER_WIDTH + BANNER_DIGITS_COLUMN + 1].ascii_character == vector % 10 + 0x30,
{
    let digits = vector_digits(vector);
    print_row(writer, 0, BANNER_RULE.as_bytes());
    print_row(writer, 1, BANNER_TITLE.as_bytes());
    print_row(writer, 2, BANNER_VECTOR.as_bytes());
    print_row(writer, 3, BANNER_RULE.as_bytes());
    writer.print_string(BANNER_DIGITS_COLUMN, 2, &digits);
}

} // verus!
