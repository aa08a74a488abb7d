//! The text console state machine: an 80x25 character grid written at the
//! bottom row, scrolling one row up on each newline. The machine-specific
//! parts — the memory-mapped buffer, the lock around the writer — live
//! outside this crate; here the grid is owned data and every write is
//! specified exactly.

use vstd::prelude::*;
use vstd::string::StringSliceAdditionalSpecFns;

verus! {

pub const VGA_WIDTH: usize = 80;

pub const VGA_HEIGHT: usize = 25;

/// The sixteen hardware text-mode colors.
#[derive(Clone, Copy, PartialEq, Eq, Structural, Debug)]
pub enum Color {
    Black,
    Blue,
    Green,
    Cyan,
    Red,
    Magenta,
    Brown,
    LightGray,
    DarkGray,
    LightBlue,
    LightGreen,
    LightCyan,
    LightRed,
    Pink,
    Yellow,
    White,
}

/// The hardware number of a color.
pub open spec fn spec_color_number(c: Color) -> u8 {
    match c {
        Color::Black => 0,
        Color::Blue => 1,
        Color::Green => 2,
        Color::Cyan => 3,
        Color::Red => 4,
        Color::Magenta => 5,
        Color::Brown => 6,
        Color::LightGray => 7,
        Color::DarkGray => 8,
        Color::LightBlue => 9,
        Color::LightGreen => 10,
        Color::LightCyan => 11,
        Color::LightRed => 12,
        Color::Pink => 13,
        Color::Yellow => 14,
        Color::White => 15,
    }
}

pub fn color_number(c: Color) -> (r: u8)
    ensures
        r == spec_color_number(c),
        r < 16,
{
    match c {
        Color::Black => 0,
        Color::Blue => 1,
        Color::Green => 2,
        Color::Cyan => 3,
        Color::Red => 4,
        Color::Magenta => 5,
        Color::Brown => 6,
        Color::LightGray => 7,
        Color::DarkGray => 8,
        Color::LightBlue => 9,
        Color::LightGreen => 10,
        Color::LightCyan => 11,
        Color::LightRed => 12,
        Color::Pink => 13,
        Color::Yellow => 14,
        Color::White => 15,
    }
}

/// Foreground and background color packed as the hardware attribute byte:
/// background in the high nibble, foreground in the low one.
#[derive(Clone, Copy, PartialEq, Eq, Structural, Debug)]
pub struct ColorCode {
    pub bits: u8,
}

impl ColorCode {
    pub fn new(fg: Color, bg: Color) -> (r: ColorCode)
        ensures
            r.bits == spec_color_number(bg) * 16 + spec_color_number(fg),
    {
        let f = color_number(fg);
        let b = color_number(bg);
        proof {
            assert((f < 16 && b < 16) ==> ((b << 4) | f) == b * 16 + f) by (bit_vector);
        }
        ColorCode { bits: (b << 4) | f }
    }
}

/// One character cell: a code-page byte and its color attribute.
#[derive(Clone, Copy, PartialEq, Eq, Structural, Debug)]
pub struct VgaChar {
    pub ascii: u8,
    pub color: ColorCode,
}

/// A row of blank (space) cells in the given color.
pub open spec fn blank_row(color: ColorCode) -> Seq<VgaChar> {
    Seq::new(80, |c: int| VgaChar { ascii: 32, color })
}

/// Scrolling: every row moves one up, and the bottom row is blanked.
pub open spec fn spec_new_line(s: Seq<Seq<VgaChar>>, color: ColorCode) -> Seq<Seq<VgaChar>> {
    Seq::new(
        25,
        |r: int|
            if r < 24 {
                s[r + 1]
            } else {
                blank_row(color)
            },
    )
}

/// What one byte does to the grid and the cursor column: a newline scrolls
/// and resets the column; any other byte is placed on the bottom row at the
/// cursor, scrolling first if the row is full.
pub open spec fn spec_write_byte(
    s: Seq<Seq<VgaChar>>,
    col: int,
    color: ColorCode,
    b: u8,
) -> (Seq<Seq<VgaChar>>, int) {
    if b == 10 {
        (spec_new_line(s, color), 0)
    } else {
        let s1 = if col >= 80 {
            spec_new_line(s, color)
        } else {
            s
        };
        let c1 = if col >= 80 {
            0int
        } else {
            col
        };
        (s1.update(24, s1[24].update(c1, VgaChar { ascii: b, color })), c1 + 1)
    }
}

/// The byte a cell really receives: printable code-page bytes and newline
/// pass through, everything else prints as the replacement glyph 0xfe.
pub open spec fn spec_printable(b: u8) -> u8 {
    if (0x20 <= b <= 0x7e) || b == 10 {
        b
    } else {
        0xfe
    }
}

/// A whole byte string applied left to right.
pub open spec fn spec_write_bytes(
    s: Seq<Seq<VgaChar>>,
    col: int,
    color: ColorCode,
    bytes: Seq<u8>,
) -> (Seq<Seq<VgaChar>>, int)
    decreases bytes.len(),
{
    if bytes.len() == 0 {
        (s, col)
    } else {
        let prev = spec_write_bytes(s, col, color, bytes.drop_last());
        spec_write_byte(prev.0, prev.1, color, spec_printable(bytes.last()))
    }
}

/// The console writer: the grid, the cursor column on the bottom row, and
/// the current color attribute.
#[derive(Debug)]
pub struct Writer {
    col: usize,
    color: ColorCode,
    buf: Vec<Vec<VgaChar>>,
}

impl Writer {
    /// The grid as a sequence of rows.
    pub closed spec fn screen(self) -> Seq<Seq<VgaChar>> {
        self.buf@.map_values(|r: Vec<VgaChar>| r@)
    }

    pub closed spec fn spec_col(self) -> int {
        self.col as int
    }

    pub closed spec fn spec_color(self) -> ColorCode {
        self.color
    }

    pub open spec fn wf(self) -> bool {
        &&& self.screen().len() == 25
        &&& forall|r: int| 0 <= r < 25 ==> (#[trigger] self.screen()[r]).len() == 80
        &&& 0 <= self.spec_col() <= 80
    }

    /// A writer over a blank grid, cursor at the start of the bottom row.
    pub fn new(color: ColorCode) -> (r: Writer)
        ensures
            r.wf(),
            r.spec_color() == color,
            r.spec_col() == 0,
            forall|row: int| 0 <= row < 25 ==> #[trigger] r.screen()[row] == blank_row(color),
    {
        let mut buf: Vec<Vec<VgaChar>> = Vec::new();
        let mut r: usize = 0;
        while r < VGA_HEIGHT
            invariant
                r <= 25,
                buf@.len() == r as int,
                forall|k: int| 0 <= k < r as int ==> (#[trigger] buf@[k])@ == blank_row(color),
            decreases VGA_HEIGHT - r,
        {
            let mut row: Vec<VgaChar> = Vec::new();
            let mut c: usize = 0;
            while c < VGA_WIDTH
                invariant
                    c <= 80,
                    row@.len() == c as int,
                    forall|k: int| 0 <= k < c as int ==> row@[k] == (VgaChar { ascii: 32, color }),
                decreases VGA_WIDTH - c,
            {
                row.push(VgaChar { ascii: 32, color });
                c = c + 1;
            }
            proof {
                assert(row@ =~= blank_row(color));
            }
            buf.push(row);
            r = r + 1;
        }
        let w = Writer { col: 0, color, buf };
        proof {
            assert(forall|row: int|
                0 <= row < 25 ==> #[trigger] w.screen()[row] == blank_row(color));
        }
        w
    }

    /// A freshly built blank row in the given color.
    fn make_blank_row(color: ColorCode) -> (r: Vec<VgaChar>)
        ensures
            r@ == blank_row(color),
    {
        let mut row: Vec<VgaChar> = Vec::new();
        let mut c: usize = 0;
        while c < VGA_WIDTH
            invariant
                c <= 80,
                row@.len() == c as int,
                forall|k: int| 0 <= k < c as int ==> row@[k] == (VgaChar { ascii: 32, color }),
            decreases VGA_WIDTH - c,
        {
            row.push(VgaChar { ascii: 32, color });
            c = c + 1;
        }
        proof {
            assert(row@ =~= blank_row(color));
        }
        row
    }

    /// A copy of one row of the grid.
    fn copy_row(&self, r: usize) -> (out: Vec<VgaChar>)
        requires
            self.wf(),
            r < 25,
        ensures
            out@ == self.screen()[r as int],
    {
        let mut row: Vec<VgaChar> = Vec::new();
        let mut c: usize = 0;
        while c < VGA_WIDTH
            invariant
                self.wf(),
                r < 25,
                c <= 80,
                row@.len() == c as int,
                forall|k: int| 0 <= k < c as int ==> row@[k] == self.screen()[r as int][k],
            decreases VGA_WIDTH - c,
        {
            proof {
                assert(self.buf@.len() == self.screen().len());
                assert(self.buf@[r as int]@ == self.screen()[r as int]);
            }
            row.push(self.buf[r][c]);
            c = c + 1;
        }
        proof {
            assert(row@ =~= self.screen()[r as int]);
        }
        row
    }

    /// Blank one row in the current color.
    fn clear_row(&mut self, r: usize)
        requires
            old(self).wf(),
            r < 25,
        ensures
            final(self).wf(),
            final(self).spec_col() == old(self).spec_col(),
            final(self).spec_color() == old(self).spec_color(),
            final(self).screen() == old(self).screen().update(
                r as int,
                blank_row(old(self).spec_color()),
            ),
    {
        let row = Self::make_blank_row(self.color);
        self.buf.set(r, row);
        proof {
            assert(self.screen() =~= old(self).screen().update(
                r as int,
                blank_row(old(self).spec_color()),
            ));
        }
    }

    /// Scroll the grid one row up and return the cursor to column zero.
    fn new_line(&mut self)
        requires
            old(self).wf(),
        ensures
            final(self).wf(),
            final(self).spec_color() == old(self).spec_color(),
            final(self).spec_col() == 0,
            final(self).screen() == spec_new_line(old(self).screen(), old(self).spec_color()),
    {
        let ghost os = old(self).screen();
        let mut shifted: Vec<Vec<VgaChar>> = Vec::new();
        let mut r: usize = 1;
        while r < VGA_HEIGHT
            invariant
                os == old(self).screen(),
                *self == *old(self),
                old(self).wf(),
                1 <= r <= 25,
                shifted@.len() == r - 1,
                forall|k: int| 0 <= k < r - 1 ==> (#[trigger] shifted@[k])@ == os[k + 1],
            decreases VGA_HEIGHT - r,
        {
            let row = self.copy_row(r);
            shifted.push(row);
            r = r + 1;
        }
        shifted.push(Self::make_blank_row(self.color));
        self.buf = shifted;
        self.col = 0;
        proof {
            assert forall|k: int| 0 <= k < 25 implies #[trigger] self.screen()[k] == spec_new_line(
                os,
                old(self).spec_color(),
            )[k] by {
                if k < 24 {
                    assert(self.screen()[k] == self.buf@[k]@);
                }
            }
            assert(self.screen() =~= spec_new_line(os, old(self).spec_color()));
        }
    }

    /// Write one byte: a newline scrolls; anything else lands on the bottom
    /// row at the cursor, scrolling first when the row is full.
    pub fn write_byte(&mut self, byte: u8)
        requires
            old(self).wf(),
        ensures
            final(self).wf(),
            final(self).spec_color() == old(self).spec_color(),
            (final(self).screen(), final(self).spec_col()) == spec_write_byte(
                old(self).screen(),
                old(self).spec_col(),
                old(self).spec_color(),
                byte,
            ),
    {
        if byte == 10 {
            self.new_line();
        } else {
            if self.col >= VGA_WIDTH {
                self.new_line();
            }
            let ghost s1 = self.screen();
            let col = self.col;
            let color = self.color;
            let ch = VgaChar { ascii: byte, color };
            let mut row = self.copy_row(VGA_HEIGHT - 1);
            row.set(col, ch);
            self.buf.set(VGA_HEIGHT - 1, row);
            self.col = col + 1;
            proof {
                assert(self.screen() =~= s1.update(24, s1[24].update(col as int, ch)));
            }
        }
    }

    /// Write a string byte by byte: printable bytes and newlines as they
    /// are, anything else as the replacement glyph.
    pub fn write_string(&mut self, s: &str)
        requires
            old(self).wf(),
        ensures
            final(self).wf(),
            final(self).spec_color() == old(self).spec_color(),
            (final(self).screen(), final(self).spec_col()) == spec_write_bytes(
                old(self).screen(),
                old(self).spec_col(),
                old(self).spec_color(),
                s.spec_bytes(),
            ),
    {
        let bytes = s.as_bytes();
        let ghost os = old(self).screen();
        let ghost ocol = old(self).spec_col();
        let ghost color = old(self).spec_color();
        let mut i: usize = 0;
        while i < bytes.len()
            invariant
                os == old(self).screen(),
                ocol == old(self).spec_col(),
                color == old(self).spec_color(),
                i <= bytes@.len(),
                bytes@ == s.spec_bytes(),
                self.wf(),
                self.spec_color() == color,
                (self.screen(), self.spec_col()) == spec_write_bytes(
                    os,
                    ocol,
                    color,
                    bytes@.take(i as int),
                ),
            decreases bytes@.len() - i,
        {
            let b = bytes[i];
            if (0x20 <= b && b <= 0x7e) || b == 10 {
                self.write_byte(b);
            } else {
                self.write_byte(0xfe);
            }
            proof {
                assert(bytes@.take(i + 1).drop_last() =~= bytes@.take(i as int));
                assert(bytes@.take(i + 1).last() == bytes@[i as int]);
            }
            i = i + 1;
        }
        proof {
            assert(bytes@.take(bytes@.len() as int) =~= bytes@);
        }
    }

    /// The cell at one grid position.
    pub fn char_at(&self, r: usize, c: usize) -> (ch: VgaChar)
        requires
            self.wf(),
            r < 25,
            c < 80,
        ensures
            ch == self.screen()[r as int][c as int],
    {
        proof {
            assert(self.buf@.len() == self.screen().len());
            assert(self.buf@[r as int]@ == self.screen()[r as int]);
        }
        self.buf[r][c]
    }

    /// The cursor column on the bottom row.
    pub fn column(&self) -> (c: usize)
        ensures
            c as int == self.spec_col(),
    {
        self.col
    }
}

} // verus!
