//! The cursor: a position in the text, the column it aims for, and the
//! window of the text that the screen shows.

use vstd::prelude::*;

use crate::line::least;
use crate::text::Text;

verus! {

/// A direction in which the cursor moves.
#[derive(Clone, Copy, Debug, PartialEq, Eq, Structural)]
pub enum Direction {
    Up,
    Down,
    Left,
    Right,
}

/// What a cursor holds.
pub struct CursorView {
    /// The column that the cursor aims for. It outlives the moves up and
    /// down, so it may lie past the end of the row.
    pub x: int,
    /// The row.
    pub y: int,
    /// The column that the cursor is in.
    pub render_x: int,
    /// The first column that the window shows.
    pub x_offset: int,
    /// The first row that the window shows.
    pub y_offset: int,
    /// The number of columns that the window shows.
    pub width: int,
    /// The number of rows that the window shows.
    pub height: int,
}

/// The number of bytes in row `y` of `rows`, 0 where there is no such row.
pub open spec fn row_len(rows: Seq<Seq<u8>>, y: int) -> int {
    if 0 <= y < rows.len() {
        rows[y].len() as int
    } else {
        0
    }
}

/// The first column or row of a window of `size` columns or rows that
/// started at `offset`, after it has been moved by as little as it takes
/// to show `position`.
pub open spec fn scroll(offset: int, size: int, position: int) -> int {
    if position < offset {
        position
    } else if position >= offset + size {
        position - size + 1
    } else {
        offset
    }
}

impl CursorView {
    /// The cursor put at column `x` of row `y`, which it aims for from
    /// now on.
    pub open spec fn at(self, x: int, y: int) -> CursorView {
        CursorView { x, render_x: x, y, ..self }
    }

    /// Whether the cursor stands in a row of `rows`, at one of its bytes or
    /// right behind the last.
    pub open spec fn within(self, rows: Seq<Seq<u8>>) -> bool {
        0 <= self.y < rows.len() && 0 <= self.render_x <= rows[self.y].len()
    }

    /// Whether the window shows the cursor.
    pub open spec fn in_view(self) -> bool {
        &&& self.x_offset <= self.render_x < self.x_offset + self.width
        &&& self.y_offset <= self.y < self.y_offset + self.height
    }

    /// The cursor after one step in `direction` over `rows`.
    ///
    /// Up and down change the row, where there is one to go to, and put the
    /// cursor at the column it aims for or at the end of the row, whichever
    /// comes first. Right and left step by one column from where the cursor
    /// is; at the end of a row, right goes to the start of the next, and at
    /// the start of a row, left goes to the end of the one before. At the
    /// document's first or last position nothing moves.
    pub open spec fn moved(self, rows: Seq<Seq<u8>>, direction: Direction) -> CursorView {
        match direction {
            Direction::Up => if self.y > 0 {
                CursorView {
                    y: self.y - 1,
                    render_x: least(self.x, row_len(rows, self.y - 1)),
                    ..self
                }
            } else {
                self
            },
            Direction::Down => if self.y < rows.len() - 1 {
                CursorView {
                    y: self.y + 1,
                    render_x: least(self.x, row_len(rows, self.y + 1)),
                    ..self
                }
            } else {
                self
            },
            Direction::Right => if self.render_x < row_len(rows, self.y) {
                self.at(self.render_x + 1, self.y)
            } else if self.y < rows.len() - 1 {
                self.at(0, self.y + 1)
            } else {
                self.at(self.render_x, self.y)
            },
            Direction::Left => if self.render_x > 0 {
                self.at(self.render_x - 1, self.y)
            } else if self.y > 0 {
                self.at(row_len(rows, self.y - 1), self.y - 1)
            } else {
                self.at(self.render_x, self.y)
            },
        }
    }

    /// The cursor after its window has been moved, in each direction by
    /// as little as it takes, to show it.
    pub open spec fn scrolled(self) -> CursorView {
        CursorView {
            x_offset: scroll(self.x_offset, self.width, self.render_x),
            y_offset: scroll(self.y_offset, self.height, self.y),
            ..self
        }
    }
}

/// A step of a cursor that stands in the text leaves it in the text. As
/// in every cursor, the column aimed for is not negative.
pub proof fn lemma_moved_within(cursor: CursorView, rows: Seq<Seq<u8>>, direction: Direction)
    requires
        cursor.x >= 0,
        cursor.within(rows),
    ensures
        cursor.moved(rows, direction).within(rows),
{
}

/// A window that shows at least one column and one row shows the cursor
/// once it has been moved to it.
pub proof fn lemma_scrolled_in_view(cursor: CursorView)
    requires
        cursor.width > 0,
        cursor.height > 0,
    ensures
        cursor.scrolled().in_view(),
{
}

/// The cursor of one window on a text.
#[derive(Clone, Copy)]
pub struct Cursor {
    x: u16,
    y: u16,
    render_x: u16,
    x_offset: u16,
    y_offset: u16,
    size: (u16, u16),
}

impl View for Cursor {
    type V = CursorView;

    closed spec fn view(&self) -> CursorView {
        CursorView {
            x: self.x as int,
            y: self.y as int,
            render_x: self.render_x as int,
            x_offset: self.x_offset as int,
            y_offset: self.y_offset as int,
            width: self.size.0 as int,
            height: self.size.1 as int,
        }
    }
}

impl Cursor {
    /// A cursor at the start of the text, in a window of `size.0` columns
    /// and `size.1` rows that shows the start of the text.
    pub fn new(size: (u16, u16)) -> (cursor: Cursor)
        ensures
            cursor@ == (CursorView {
                x: 0,
                y: 0,
                render_x: 0,
                x_offset: 0,
                y_offset: 0,
                width: size.0 as int,
                height: size.1 as int,
            }),
    {
        Cursor { x: 0, y: 0, render_x: 0, x_offset: 0, y_offset: 0, size }
    }

    /// Moves the cursor one step in `direction` over `text`.
    pub fn move_cursor(&mut self, text: &Text, direction: Direction)
        requires
            text@.wf(),
            text@.addressable(),
        ensures
            final(self)@ == old(self)@.moved(text@.rows, direction),
            old(self)@.within(text@.rows) ==> final(self)@.within(text@.rows),
    {
        match direction {
            Direction::Up => {
                if self.y > 0 {
                    self.y -= 1;
                    let len: usize = text.line_len(self.y as usize);
                    self.render_x = if (self.x as usize) < len {
                        self.x
                    } else {
                        len as u16
                    };
                }
            },
            Direction::Right => {
                self.x = self.render_x;
                if (self.x as usize) < text.line_len(self.y as usize) {
                    self.x += 1;
                } else if (self.y as usize) < text.len() - 1 {
                    self.y += 1;
                    self.x = 0;
                }
                self.render_x = self.x;
            },
            Direction::Down => {
                if (self.y as usize) < text.len() - 1 {
                    self.y += 1;
                    let len: usize = text.line_len(self.y as usize);
                    self.render_x = if (self.x as usize) < len {
                        self.x
                    } else {
                        len as u16
                    };
                }
            },
            Direction::Left => {
                self.x = self.render_x;
                if self.x > 0 {
                    self.x -= 1;
                } else if self.y > 0 {
                    self.y -= 1;
                    self.x = text.line_len(self.y as usize) as u16;
                }
                self.render_x = self.x;
            },
        }
    }

    /// Moves the window, in each direction by as little as it takes, so
    /// that it shows the cursor.
    pub fn change_offset(&mut self)
        requires
            old(self)@.width > 0,
            old(self)@.height > 0,
        ensures
            final(self)@ == old(self)@.scrolled(),
            final(self)@.in_view(),
    {
        if self.y < self.y_offset {
            self.y_offset = self.y;
        }
        if (self.render_x as u32) >= self.size.0 as u32 + self.x_offset as u32 {
            self.x_offset = self.render_x - self.size.0 + 1;
        }
        if (self.y as u32) >= self.size.1 as u32 + self.y_offset as u32 {
            self.y_offset = self.y - self.size.1 + 1;
        }
        if self.render_x < self.x_offset {
            self.x_offset = self.render_x;
        }
    }

    /// The column and the row that the cursor is in.
    pub fn get_position(&self) -> (position: (u16, u16))
        ensures
            position.0 == self@.render_x,
            position.1 == self@.y,
    {
        (self.render_x, self.y)
    }

    /// Puts the cursor at column `x` of row `y`, which it aims for from
    /// now on.
    pub fn set_position(&mut self, x: u16, y: u16)
        ensures
            final(self)@ == old(self)@.at(x as int, y as int),
    {
        self.x = x;
        self.render_x = x;
        self.y = y;
    }

    /// The first column and the first row that the window shows.
    pub fn get_offset(&self) -> (offset: (u16, u16))
        ensures
            offset.0 == self@.x_offset,
            offset.1 == self@.y_offset,
    {
        (self.x_offset, self.y_offset)
    }

    /// The column and the row of the window that the cursor is in, counted
    /// from the window's first. The window must not begin behind the
    /// cursor, as is the case whenever it shows it.
    pub fn get_cursor_position(&self) -> (position: (u16, u16))
        requires
            self@.x_offset <= self@.render_x,
            self@.y_offset <= self@.y,
        ensures
            position.0 == self@.render_x - self@.x_offset,
            position.1 == self@.y - self@.y_offset,
    {
        (self.render_x - self.x_offset, self.y - self.y_offset)
    }

    /// The row that the cursor is in, as an index into the rows.
    pub fn get_line_index(&self) -> (index: usize)
        ensures
            index == self@.y,
    {
        self.y as usize
    }
}

} // verus!
