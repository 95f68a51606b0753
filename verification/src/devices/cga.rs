//! The CGA text screen: 25 rows of 80 characters, each stored with an
//! attribute byte, and a cursor position as the hardware keeps it (one 16-bit
//! number, `row * 80 + column`).
use vstd::prelude::*;

verus! {

/// Number of rows of the screen.
pub const CGA_ROWS: usize = 25;

/// Number of columns of the screen.
pub const CGA_COLUMNS: usize = 80;

/// The attribute of normal text: green on black.
pub const CGA_STD_ATTR: u8 = 0x02;

/// Number of character cells on the screen.
pub const CGA_CELLS: usize = 2000;

/// All 16 CGA colors.
#[derive(Clone, Copy, Debug, PartialEq, Eq, Structural)]
pub enum Color {
    Black,
    Blue,
    Green,
    Cyan,
    Red,
    Pink,
    Brown,
    LightGray,
    DarkGray,
    LightBlue,
    LightGreen,
    LightCyan,
    LightRed,
    LightPink,
    Yellow,
    White,
}

/// The number of a color, as the hardware encodes it.
pub open spec fn color_value(c: Color) -> u8 {
    match c {
        Color::Black => 0,
        Color::Blue => 1,
        Color::Green => 2,
        Color::Cyan => 3,
        Color::Red => 4,
        Color::Pink => 5,
        Color::Brown => 6,
        Color::LightGray => 7,
        Color::DarkGray => 8,
        Color::LightBlue => 9,
        Color::LightGreen => 10,
        Color::LightCyan => 11,
        Color::LightRed => 12,
        Color::LightPink => 13,
        Color::Yellow => 14,
        Color::White => 15,
    }
}

/// The sixteen colors in the order the hardware numbers them: dark colors
/// first, each followed eight places later by its bright variant.
pub open spec fn palette() -> Seq<Color> {
    seq![
        Color::Black,
        Color::Blue,
        Color::Green,
        Color::Cyan,
        Color::Red,
        Color::Pink,
        Color::Brown,
        Color::LightGray,
        Color::DarkGray,
        Color::LightBlue,
        Color::LightGreen,
        Color::LightCyan,
        Color::LightRed,
        Color::LightPink,
        Color::Yellow,
        Color::White,
    ]
}

/// Law: the hardware number of a color is its place in the palette, so the
/// sixteen colors get the numbers 0 to 15, one each, and every number below
/// 16 names exactly one color.
pub proof fn law_color_numbers(c: Color, i: int)
    ensures
        color_value(c) < 16,
        palette().len() == 16,
        palette()[color_value(c) as int] == c,
        0 <= i < 16 ==> color_value(palette()[i]) == i,
{
}

/// Law: the colors are numbered one to one: different colors get different
/// numbers.
pub proof fn law_color_numbers_distinct(a: Color, b: Color)
    ensures
        a != b ==> color_value(a) != color_value(b),
{
    law_color_numbers(a, 0);
    law_color_numbers(b, 0);
}

impl Color {
    /// The number of the color, as the hardware encodes it: its place in the
    /// palette.
    pub fn value(&self) -> (r: u8)
        ensures
            r == color_value(*self),
            r < 16,
            palette()[r as int] == *self,
    {
        proof {
            law_color_numbers(*self, 0);
        }
        match self {
            Color::Black => 0,
            Color::Blue => 1,
            Color::Green => 2,
            Color::Cyan => 3,
            Color::Red => 4,
            Color::Pink => 5,
            Color::Brown => 6,
            Color::LightGray => 7,
            Color::DarkGray => 8,
            Color::LightBlue => 9,
            Color::LightGreen => 10,
            Color::LightCyan => 11,
            Color::LightRed => 12,
            Color::LightPink => 13,
            Color::Yellow => 14,
            Color::White => 15,
        }
    }
}

/// A screen cell holding character byte `b` with attribute `attr`.
pub open spec fn cell(b: u8, attr: u8) -> u16 {
    (attr as int * 256 + b as int) as u16
}

/// The screen `s` with cell `idx` set to `v`; a cell off the screen changes nothing.
pub open spec fn write_cell(s: Seq<u16>, idx: int, v: u16) -> Seq<u16> {
    if 0 <= idx < s.len() {
        s.update(idx, v)
    } else {
        s
    }
}

/// The screen `s` scrolled up by one row: every row but the last gets the
/// cells of the row below it, characters and attributes; the last row is
/// blank, in the normal attribute.
pub open spec fn scrolled(s: Seq<u16>) -> Seq<u16> {
    Seq::new(
        s.len(),
        |i: int|
            if i < (CGA_ROWS - 1) * CGA_COLUMNS {
                s[i + CGA_COLUMNS]
            } else {
                cell(0x20, CGA_STD_ATTR)
            },
    )
}

/// The cursor value of column `x` in row `y`, truncated to 16 bits as the
/// hardware register holds it.
pub open spec fn cursor_value(x: int, y: int) -> u16 {
    ((y * CGA_COLUMNS + x) % 65536) as u16
}

/// Combines a character byte and an attribute into a screen cell.
fn make_cell(b: u8, attr: u8) -> (r: u16)
    ensures
        r == cell(b, attr),
{
    let r = (b as u16) | ((attr as u16) << 8u16);
    assert((b as u16) | ((attr as u16) << 8u16) == (attr as u16) * 256 + (b as u16))
        by (bit_vector);
    r
}

/// The CGA text screen and its cursor.
pub struct CGA {
    cells: Vec<u16>,
    cursor: u16,
}

impl CGA {
    /// The cells of the screen, row by row.
    pub closed spec fn screen(&self) -> Seq<u16> {
        self.cells@
    }

    /// The cursor register.
    pub closed spec fn cursor(&self) -> u16 {
        self.cursor
    }

    pub open spec fn wf(&self) -> bool {
        self.screen().len() == CGA_CELLS
    }

    /// Create a new CGA instance: a blank screen with the cursor at (0, 0).
    pub fn new() -> (r: CGA)
        ensures
            r.wf(),
            r.cursor() == 0,
            forall|i: int| 0 <= i < CGA_CELLS ==> r.screen()[i] == 0,
    {
        let mut cells: Vec<u16> = Vec::new();
        let mut i: usize = 0;
        while i < CGA_CELLS
            invariant
                i <= CGA_CELLS,
                cells@.len() == i,
                forall|j: int| 0 <= j < i ==> cells@[j] == 0,
            decreases CGA_CELLS - i,
        {
            cells.push(0);
            i = i + 1;
        }
        CGA { cells, cursor: 0 }
    }

    /// Clear the CGA screen and set the cursor position to (0, 0).
    pub fn clear(&mut self)
        requires
            old(self).wf(),
        ensures
            final(self).wf(),
            final(self).cursor() == 0,
            forall|i: int| 0 <= i < CGA_CELLS ==> final(self).screen()[i] == cell(
                0x20,
                CGA_STD_ATTR,
            ),
    {
        let mut x: usize = 0;
        while x < CGA_COLUMNS
            invariant
                self.wf(),
                x <= CGA_COLUMNS,
                forall|i: int|
                    0 <= i < CGA_CELLS && i % (CGA_COLUMNS as int) < x ==> self.screen()[i] == cell(
                        0x20,
                        CGA_STD_ATTR,
                    ),
            decreases CGA_COLUMNS - x,
        {
            let mut y: usize = 0;
            while y < CGA_ROWS
                invariant
                    self.wf(),
                    x < CGA_COLUMNS,
                    y <= CGA_ROWS,
                    forall|i: int|
                        0 <= i < CGA_CELLS && i % (CGA_COLUMNS as int) < x ==> self.screen()[i]
                            == cell(0x20, CGA_STD_ATTR),
                    forall|i: int|
                        0 <= i < CGA_CELLS && i % (CGA_COLUMNS as int) == x && i / (
                        CGA_COLUMNS as int) < y ==> #[trigger] self.screen()[i] == cell(
                            0x20,
                            CGA_STD_ATTR,
                        ),
                decreases CGA_ROWS - y,
            {
                self.print_byte_at_nowrapping(0x20, x, y);
                y = y + 1;
            }
            proof {
                assert forall|i: int|
                    0 <= i < CGA_CELLS && i % (CGA_COLUMNS as int) < x + 1 implies self.screen()[i]
                    == cell(0x20, CGA_STD_ATTR) by {
                    if i % (CGA_COLUMNS as int) == x {
                        assert(i / (CGA_COLUMNS as int) < CGA_ROWS);
                    }
                }
            }
            x = x + 1;
        }
        self.setpos(0, 0);
    }

    /// Display `character` at position `x`, `y` with attribute `attrib`.
    /// Positions off the screen are ignored.
    pub fn show(&mut self, x: usize, y: usize, character: char, attrib: u8)
        requires
            old(self).wf(),
        ensures
            final(self).wf(),
            final(self).cursor() == old(self).cursor(),
            final(self).screen() == if x >= CGA_COLUMNS || y >= CGA_ROWS {
                old(self).screen()
            } else {
                old(self).screen().update(y * CGA_COLUMNS + x, cell(character as u8, attrib))
            },
    {
        if x >= CGA_COLUMNS || y >= CGA_ROWS {
            return;
        }
        let pos = y * CGA_COLUMNS + x;
        let v = make_cell(character as u8, attrib);
        self.cells.set(pos, v);
    }

    /// Return the cursor position `x`, `y`.
    pub fn getpos(&mut self) -> (r: (usize, usize))
        ensures
            *final(self) == *old(self),
            r.0 == old(self).cursor() % (CGA_COLUMNS as u16),
            r.1 == old(self).cursor() / (CGA_COLUMNS as u16),
    {
        let pos = self.cursor;
        ((pos % (CGA_COLUMNS as u16)) as usize, (pos / (CGA_COLUMNS as u16)) as usize)
    }

    /// Set the cursor position to `x`, `y`.
    pub fn setpos(&mut self, x: usize, y: usize)
        requires
            y * CGA_COLUMNS + x <= usize::MAX,
        ensures
            final(self).screen() == old(self).screen(),
            final(self).cursor() == cursor_value(x as int, y as int),
    {
        let pos = y * CGA_COLUMNS + x;
        let v = (pos % 65536) as u16;
        self.cursor = v;
    }

    /// Print byte `b` at the cursor position and move the cursor on: to the
    /// start of the next row after a newline, else one place to the right. When
    /// the cursor is below the last row, the screen scrolls up and the cursor
    /// goes to the start of the last row.
    pub fn print_byte(&mut self, b: u8)
        requires
            old(self).wf(),
        ensures
            final(self).wf(),
            ({
                let x = old(self).cursor() % 80;
                let y = old(self).cursor() / 80;
                if b == 10 {
                    &&& final(self).screen() == old(self).screen()
                    &&& final(self).cursor() == cursor_value(0, y + 1)
                } else {
                    let written = write_cell(old(self).screen(), x + y * 80, cell(b, CGA_STD_ATTR));
                    if y >= CGA_ROWS {
                        &&& final(self).screen() == scrolled(written)
                        &&& final(self).cursor() == cursor_value(0, CGA_ROWS - 1)
                    } else {
                        &&& final(self).screen() == written
                        &&& final(self).cursor() == cursor_value(x + 1, y as int)
                    }
                }
            }),
    {
        let (x, y) = self.getpos();
        if b == 10 {
            self.setpos(0, y + 1);
            return;
        }
        self.print_byte_at_nowrapping(b, x, y);
        if y >= CGA_ROWS {
            self.scrollup();
            self.setpos(0, CGA_ROWS - 1);
        } else if x + 1 > CGA_COLUMNS {
            self.setpos(0, y + 1);
        } else {
            self.setpos(x + 1, y);
        }
    }

    /// Print byte `b` at `x`, `y` with the normal attribute; positions off the
    /// screen change nothing.
    pub fn print_byte_at_nowrapping(&mut self, b: u8, x: usize, y: usize)
        requires
            old(self).wf(),
            x + y * CGA_COLUMNS <= usize::MAX,
        ensures
            final(self).wf(),
            final(self).cursor() == old(self).cursor(),
            final(self).screen() == write_cell(old(self).screen(), x + y * CGA_COLUMNS, cell(b, CGA_STD_ATTR)),
    {
        let pos = x + y * CGA_COLUMNS;
        if pos < CGA_CELLS {
            let v = make_cell(b, CGA_STD_ATTR);
            self.cells.set(pos, v);
        }
    }

    /// Scroll the text lines by one to the top: every row but the last gets the
    /// cells of the row below it, and the last row is blanked.
    pub fn scrollup(&mut self)
        requires
            old(self).wf(),
        ensures
            final(self).wf(),
            final(self).cursor() == old(self).cursor(),
            final(self).screen() == scrolled(old(self).screen()),
    {
        let ghost s0 = self.cells@;
        let moved = (CGA_ROWS - 1) * CGA_COLUMNS;
        let mut i: usize = 0;
        while i < moved
            invariant
                self.wf(),
                i <= moved,
                moved == (CGA_ROWS - 1) * CGA_COLUMNS,
                self.cursor == old(self).cursor(),
                s0 == old(self).screen(),
                s0.len() == CGA_CELLS,
                forall|j: int| 0 <= j < i ==> self.cells@[j] == scrolled(s0)[j],
                forall|j: int| i <= j < CGA_CELLS ==> self.cells@[j] == s0[j],
            decreases moved - i,
        {
            let v = self.cells[i + CGA_COLUMNS];
            self.cells.set(i, v);
            i = i + 1;
        }
        let blank = make_cell(0x20, CGA_STD_ATTR);
        while i < CGA_CELLS
            invariant
                self.wf(),
                moved <= i <= CGA_CELLS,
                moved == (CGA_ROWS - 1) * CGA_COLUMNS,
                blank == cell(0x20, CGA_STD_ATTR),
                self.cursor == old(self).cursor(),
                s0 == old(self).screen(),
                s0.len() == CGA_CELLS,
                forall|j: int| 0 <= j < i ==> self.cells@[j] == scrolled(s0)[j],
            decreases CGA_CELLS - i,
        {
            self.cells.set(i, blank);
            i = i + 1;
        }
        assert(self.cells@ =~= scrolled(s0));
    }

    /// The character byte at `x`, `y`.
    pub fn get_byte(&self, x: usize, y: usize) -> (r: u8)
        requires
            self.wf(),
            x < CGA_COLUMNS,
            y < CGA_ROWS,
        ensures
            r == self.screen()[x + y * CGA_COLUMNS] % 256,
    {
        let v = self.cells[x + y * CGA_COLUMNS];
        (v % 256) as u8
    }

    /// The attribute byte for background `bg`, foreground `fg` and `blink`:
    /// the foreground number, the background number shifted by four bits and
    /// the blink bit as the highest bit, combined bitwise, as in `CGA_STD_ATTR`.
    pub fn attribute(&mut self, bg: Color, fg: Color, blink: bool) -> (r: u8)
        ensures
            *final(self) == *old(self),
            r == color_value(fg) | ((color_value(bg) * 16) as u8) | (if blink {
                0x80u8
            } else {
                0u8
            }),
    {
        let fg_att: u8 = fg.value();
        let bg_att: u8 = bg.value() << 4u8;
        let blink_att: u8 = if blink {
            0x80
        } else {
            0
        };
        proof {
            let b = color_value(bg);
            assert(b < 16 ==> b << 4u8 == b * 16) by (bit_vector);
        }
        fg_att | bg_att | blink_att
    }
}

} // verus!
