//! A frame of the pong game: a character and a color for each screen cell.
use vstd::prelude::*;
use crate::devices::cga::{Color, CGA_ROWS, CGA_COLUMNS, CGA_CELLS};
use crate::apps::digits::{digit_char, from_digit};

verus! {

/// The character of the line between the two halves of the field.
pub const DIVIDER_LINE: char = '|';

/// Row of the score, counted from the top.
pub const SCORE_Y_BUFFER: usize = 1;

/// Index of the cell at column `x`, row `y`.
pub open spec fn cell_index(x: int, y: int) -> int {
    y * CGA_COLUMNS + x
}

/// A frame: a character and a color for each cell, row by row.
pub struct Frame {
    frame: Vec<char>,
    color: Vec<Color>,
}

impl Frame {
    pub closed spec fn chars(&self) -> Seq<char> {
        self.frame@
    }

    pub closed spec fn colors(&self) -> Seq<Color> {
        self.color@
    }

    pub open spec fn wf(&self) -> bool {
        self.chars().len() == CGA_CELLS && self.colors().len() == CGA_CELLS
    }

    /// An empty frame: spaces in white everywhere.
    pub fn new() -> (r: Frame)
        ensures
            r.wf(),
            forall|i: int| 0 <= i < CGA_CELLS ==> r.chars()[i] == ' ' && r.colors()[i] == Color::White,
    {
        let mut frame: Vec<char> = Vec::new();
        let mut color: Vec<Color> = Vec::new();
        let mut i: usize = 0;
        while i < CGA_CELLS
            invariant
                i <= CGA_CELLS,
                frame@.len() == i,
                color@.len() == i,
                forall|j: int| 0 <= j < i ==> frame@[j] == ' ' && color@[j] == Color::White,
            decreases CGA_CELLS - i,
        {
            frame.push(' ');
            color.push(Color::White);
            i = i + 1;
        }
        Frame { frame, color }
    }

    /// The character at column `x`, row `y`.
    pub fn char_at(&self, x: usize, y: usize) -> (r: char)
        requires
            self.wf(),
            x < CGA_COLUMNS,
            y < CGA_ROWS,
        ensures
            r == self.chars()[cell_index(x as int, y as int)],
    {
        self.frame[y * CGA_COLUMNS + x]
    }

    /// The color at column `x`, row `y`.
    pub fn color_at(&self, x: usize, y: usize) -> (r: Color)
        requires
            self.wf(),
            x < CGA_COLUMNS,
            y < CGA_ROWS,
        ensures
            r == self.colors()[cell_index(x as int, y as int)],
    {
        self.color[y * CGA_COLUMNS + x]
    }

    /// Draws a point on the screen; points off the screen are ignored.
    pub fn draw_point(&mut self, x: usize, y: usize, symbol: char, color: Color)
        requires
            old(self).wf(),
        ensures
            final(self).wf(),
            x >= CGA_COLUMNS || y >= CGA_ROWS ==> final(self).chars() == old(self).chars()
                && final(self).colors() == old(self).colors(),
            x < CGA_COLUMNS && y < CGA_ROWS ==> final(self).chars() == old(self).chars().update(
                cell_index(x as int, y as int),
                symbol,
            ) && final(self).colors() == old(self).colors().update(
                cell_index(x as int, y as int),
                color,
            ),
    {
        if x >= CGA_COLUMNS || y >= CGA_ROWS {
            return;
        }
        let i = y * CGA_COLUMNS + x;
        self.frame.set(i, symbol);
        self.color.set(i, color);
    }

    /// Draws the line between the two halves of the field; colors stay.
    pub fn draw_middle_line(&mut self)
        requires
            old(self).wf(),
        ensures
            final(self).wf(),
            final(self).colors() == old(self).colors(),
            forall|i: int|
                0 <= i < CGA_CELLS ==> final(self).chars()[i] == if i % (CGA_COLUMNS as int) == (
                CGA_COLUMNS / 2) as int {
                    DIVIDER_LINE
                } else {
                    old(self).chars()[i]
                },
    {
        let x = CGA_COLUMNS / 2;
        let mut y: usize = 0;
        while y < CGA_ROWS
            invariant
                self.wf(),
                y <= CGA_ROWS,
                x == CGA_COLUMNS / 2,
                self.colors() == old(self).colors(),
                forall|i: int|
                    0 <= i < CGA_CELLS ==> #[trigger] self.chars()[i] == if i % (CGA_COLUMNS as int)
                        == x && i / (CGA_COLUMNS as int) < y {
                        DIVIDER_LINE
                    } else {
                        old(self).chars()[i]
                    },
            decreases CGA_ROWS - y,
        {
            self.frame.set(y * CGA_COLUMNS + x, DIVIDER_LINE);
            y = y + 1;
        }
    }

    /// Draws the scores near the top of the screen, in two digits on either
    /// side of the middle; a score of 100 or more is not drawn.
    pub fn draw_score(&mut self, player_1_points: u16, player_2_points: u16, score_color: Color)
        requires
            old(self).wf(),
        ensures
            final(self).wf(),
            ({
                let c = old(self).chars();
                let k = old(self).colors();
                let row = SCORE_Y_BUFFER * CGA_COLUMNS;
                let c1 = if player_1_points < 100 {
                    c.update(row + 37, digit_char((player_1_points / 10) as int)).update(
                        row + 38,
                        digit_char((player_1_points % 10) as int),
                    )
                } else {
                    c
                };
                let k1 = if player_1_points < 100 {
                    k.update(row + 37, score_color).update(row + 38, score_color)
                } else {
                    k
                };
                let c2 = if player_2_points < 100 {
                    c1.update(row + 42, digit_char((player_2_points / 10) as int)).update(
                        row + 43,
                        digit_char((player_2_points % 10) as int),
                    )
                } else {
                    c1
                };
                let k2 = if player_2_points < 100 {
                    k1.update(row + 42, score_color).update(row + 43, score_color)
                } else {
                    k1
                };
                final(self).chars() == c2 && final(self).colors() == k2
            }),
    {
        let row = SCORE_Y_BUFFER * CGA_COLUMNS;
        if player_1_points < 100 {
            let tens = from_digit(player_1_points / 10);
            let ones = from_digit(player_1_points % 10);
            self.frame.set(row + CGA_COLUMNS / 2 - 3, tens);
            self.frame.set(row + CGA_COLUMNS / 2 - 2, ones);
            self.color.set(row + CGA_COLUMNS / 2 - 3, score_color);
            self.color.set(row + CGA_COLUMNS / 2 - 2, score_color);
        }
        if player_2_points < 100 {
            let tens = from_digit(player_2_points / 10);
            let ones = from_digit(player_2_points % 10);
            self.frame.set(row + CGA_COLUMNS / 2 + 2, tens);
            self.frame.set(row + CGA_COLUMNS / 2 + 3, ones);
            self.color.set(row + CGA_COLUMNS / 2 + 3, score_color);
            self.color.set(row + CGA_COLUMNS / 2 + 2, score_color);
        }
    }
}

} // verus!
