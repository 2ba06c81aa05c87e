//! A VGA screen in character mode: colours, coloured characters, and a
//! cursor that writes them into a grid of cells.

use vstd::prelude::*;

verus! {

/// The number of cells in a row of the screen.
pub const WIDTH: usize = 80;

/// The number of rows of the screen.
pub const HEIGHT: usize = 25;

/// The number of cells of the screen.
pub const CELLS: usize = 2000;

/// The byte that clears a cell: a space.
pub const BLANK: u8 = 0x20;

/// The byte that moves the cursor down a row.
pub const LINE_FEED: u8 = 0x0A;

/// Standard VGA colors.
#[derive(Clone, Copy, Debug, PartialEq, Eq, Structural)]
pub enum Color {
    Black,
    Blue,
    Green,
    Cyan,
    Red,
    Magenta,
    Brown,
    LightGrey,
    DarkGrey,
    LightBlue,
    LightGreen,
    LightCyan,
    LightRed,
    LightMagenta,
    Yellow,
    White,
}

impl Color {
    /// The number that the hardware knows the color by.
    pub open spec fn spec_code(self) -> u8 {
        match self {
            Color::Black => 0,
            Color::Blue => 1,
            Color::Green => 2,
            Color::Cyan => 3,
            Color::Red => 4,
            Color::Magenta => 5,
            Color::Brown => 6,
            Color::LightGrey => 7,
            Color::DarkGrey => 8,
            Color::LightBlue => 9,
            Color::LightGreen => 10,
            Color::LightCyan => 11,
            Color::LightRed => 12,
            Color::LightMagenta => 13,
            Color::Yellow => 14,
            Color::White => 15,
        }
    }

    /// The number that the hardware knows the color by.
    #[verifier::when_used_as_spec(spec_code)]
    pub fn code(self) -> (r: u8)
        ensures
            r == self.spec_code(),
            r < 16,
    {
        match self {
            Color::Black => 0,
            Color::Blue => 1,
            Color::Green => 2,
            Color::Cyan => 3,
            Color::Red => 4,
            Color::Magenta => 5,
            Color::Brown => 6,
            Color::LightGrey => 7,
            Color::DarkGrey => 8,
            Color::LightBlue => 9,
            Color::LightGreen => 10,
            Color::LightCyan => 11,
            Color::LightRed => 12,
            Color::LightMagenta => 13,
            Color::Yellow => 14,
            Color::White => 15,
        }
    }
}

/// VGA foreground and background color set.
#[derive(Clone, Copy, Debug, PartialEq, Eq, Structural)]
pub struct ColorScheme {
    value: u8,
}

impl View for ColorScheme {
    type V = u8;

    /// The attribute byte: the background in the high four bits, the
    /// foreground in the low four.
    closed spec fn view(&self) -> u8 {
        self.value
    }
}

impl ColorScheme {
    /// The scheme that draws `fore` on `back`.
    pub fn new(fore: Color, back: Color) -> (r: ColorScheme)
        ensures
            r@ == back.code() * 16 + fore.code(),
            r@ == (back.code() << 4u8) | fore.code(),
    {
        let b: u8 = back.code();
        let f: u8 = fore.code();
        assert((b << 4u8) | f == b * 16 + f) by (bit_vector)
            requires
                b < 16,
                f < 16,
        ;
        ColorScheme { value: b << 4 | f }
    }

    /// The attribute byte.
    pub fn value(&self) -> (r: u8)
        ensures
            r == self@,
    {
        self.value
    }
}

/// A colored VGA character.
#[derive(Clone, Copy, Debug, PartialEq, Eq, Structural)]
pub struct Char {
    pub code: u8,
    pub colors: ColorScheme,
}

/// What a screen shows and where it writes next.
pub struct ScreenState {
    /// The colors of what is written next.
    pub colors: ColorScheme,
    /// The column of the cursor.
    pub x: int,
    /// The row of the cursor.
    pub y: int,
    /// The cells, row after row.
    pub cells: Seq<Char>,
}

impl ScreenState {
    /// The cursor lies on the screen, and the screen has all its cells.
    pub open spec fn wf(self) -> bool {
        &&& 0 <= self.x < WIDTH
        &&& 0 <= self.y < HEIGHT
        &&& self.cells.len() == WIDTH * HEIGHT
    }

    /// The cell in column `x` of row `y`.
    pub open spec fn cell(self, x: int, y: int) -> Char {
        self.cells[y * WIDTH + x]
    }

    /// The screen after `code` is written.  A line feed moves the cursor
    /// down and leaves its column.  Any other byte goes into the cell under
    /// the cursor, in the current colors, and the cursor moves right, or to
    /// the start of the next row from the end of one.  From the last row
    /// the cursor moves to the first.
    pub open spec fn after_byte(self, code: u8) -> ScreenState {
        let moved = if code == LINE_FEED {
            ScreenState { y: self.y + 1, ..self }
        } else {
            let cells = self.cells.update(
                self.y * WIDTH + self.x,
                Char { code, colors: self.colors },
            );
            if self.x + 1 >= WIDTH {
                ScreenState { x: 0, y: self.y + 1, cells, ..self }
            } else {
                ScreenState { x: self.x + 1, cells, ..self }
            }
        };
        if moved.y >= HEIGHT {
            ScreenState { y: 0, ..moved }
        } else {
            moved
        }
    }

    /// The screen after the bytes of `text` are written one after the other.
    pub open spec fn after_bytes(self, text: Seq<u8>) -> ScreenState
        decreases text.len(),
    {
        if text.len() == 0 {
            self
        } else {
            self.after_bytes(text.drop_last()).after_byte(text.last())
        }
    }
}

/// A VGA screen, in character mode.
pub struct Screen {
    colors: ColorScheme,
    x: usize,
    y: usize,
    buffer: [Char; CELLS],
}

impl View for Screen {
    type V = ScreenState;

    closed spec fn view(&self) -> ScreenState {
        ScreenState { colors: self.colors, x: self.x as int, y: self.y as int, cells: self.buffer@ }
    }
}

impl Screen {
    /// A screen of blanks, white on black, with the cursor in the first
    /// cell.
    pub fn new() -> (r: Screen)
        ensures
            r@.wf(),
            r@.x == 0,
            r@.y == 0,
            r@.colors@ == 0x0f,
            r@.cells == Seq::new(
                (WIDTH * HEIGHT) as nat,
                |i: int| Char { code: BLANK, colors: r@.colors },
            ),
    {
        let colors = ColorScheme::new(Color::White, Color::Black);
        let blank = Char { code: BLANK, colors };
        let buffer: [Char; CELLS] = [blank; CELLS];
        assert(buffer@ =~= Seq::new((WIDTH * HEIGHT) as nat, |i: int| blank));
        Screen { colors, x: 0, y: 0, buffer }
    }

    /// Clear the screen to the specified color.  The cursor stays where it
    /// is, and so do the current colors.
    pub fn clear(&mut self, color: Color)
        requires
            old(self)@.wf(),
        ensures
            final(self)@.wf(),
            final(self)@.x == old(self)@.x,
            final(self)@.y == old(self)@.y,
            final(self)@.colors == old(self)@.colors,
            forall|i: int|
                0 <= i < WIDTH * HEIGHT ==> {
                    &&& (#[trigger] final(self)@.cells[i]).code == BLANK
                    &&& final(self)@.cells[i].colors@ == color.code() * 16 + color.code()
                },
    {
        let colors = ColorScheme::new(color, color);
        let c = Char { code: BLANK, colors };
        let mut y: usize = 0;
        while y < HEIGHT
            invariant
                y <= HEIGHT,
                self@.wf(),
                self@.x == old(self)@.x,
                self@.y == old(self)@.y,
                self@.colors == old(self)@.colors,
                c.code == BLANK,
                c.colors@ == color.code() * 16 + color.code(),
                forall|i: int| 0 <= i < y * WIDTH ==> #[trigger] self@.cells[i] == c,
            decreases HEIGHT - y,
        {
            let mut x: usize = 0;
            while x < WIDTH
                invariant
                    y < HEIGHT,
                    x <= WIDTH,
                    self@.wf(),
                    self@.x == old(self)@.x,
                    self@.y == old(self)@.y,
                    self@.colors == old(self)@.colors,
                    forall|i: int| 0 <= i < y * WIDTH + x ==> #[trigger] self@.cells[i] == c,
                decreases WIDTH - x,
            {
                self.buffer.set(y * WIDTH + x, c);
                x = x + 1;
            }
            y = y + 1;
        }
    }

    /// Set the current text colors.
    pub fn set_colors(&mut self, colors: ColorScheme)
        ensures
            final(self)@ == (ScreenState { colors, ..old(self)@ }),
    {
        self.colors = colors;
    }

    /// Write a string to the screen.
    pub fn write(&mut self, text: &[u8])
        requires
            old(self)@.wf(),
        ensures
            final(self)@.wf(),
            final(self)@ == old(self)@.after_bytes(text@),
    {
        let mut i: usize = 0;
        while i < text.len()
            invariant
                i <= text@.len(),
                self@.wf(),
                self@ == old(self)@.after_bytes(text@.take(i as int)),
            decreases text@.len() - i,
        {
            self.write_byte(text[i]);
            i = i + 1;
            assert(text@.take(i as int).drop_last() =~= text@.take(i - 1));
        }
        assert(text@.take(i as int) =~= text@);
    }

    /// Write a single character to the screen.
    pub fn write_byte(&mut self, code: u8)
        requires
            old(self)@.wf(),
        ensures
            final(self)@.wf(),
            final(self)@ == old(self)@.after_byte(code),
    {
        if code == LINE_FEED {
            self.y = self.y + 1;
        } else {
            let c = Char { code, colors: self.colors };
            self.buffer.set(self.y * WIDTH + self.x, c);
            self.x = self.x + 1;
            if self.x >= WIDTH {
                self.x = 0;
                self.y = self.y + 1;
            }
        }
        if self.y >= HEIGHT {
            self.y = 0;
        }
    }

    /// The column and the row of the cursor.
    pub fn cursor(&self) -> (r: (usize, usize))
        ensures
            r.0 == self@.x,
            r.1 == self@.y,
    {
        (self.x, self.y)
    }

    /// The current text colors.
    pub fn colors(&self) -> (r: ColorScheme)
        ensures
            r == self@.colors,
    {
        self.colors
    }

    /// The character in column `x` of row `y`.
    pub fn char_at(&self, x: usize, y: usize) -> (r: Char)
        requires
            self@.wf(),
            x < WIDTH,
            y < HEIGHT,
        ensures
            r == self@.cell(x as int, y as int),
    {
        self.buffer[y * WIDTH + x]
    }
}

} // verus!
