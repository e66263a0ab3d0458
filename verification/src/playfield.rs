//! The playfield: the rectangular character grid of a program together
//! with the instruction pointer's position and direction.
//!
//! The grid is built once from the source text — lines right-padded with
//! spaces to the longest line's length — and after that only mutated in
//! place by the `p` instruction.  Advancement wraps around the edges like
//! a torus.
//!
//! Two bounds conventions live side by side, both inherited from the
//! engine's history and documented here deliberately: construction
//! accepts an initial position up to and *including* the grid dimensions,
//! while cell access (`get_character_at`, `set_character_at`) accepts
//! exactly the coordinates of real cells, so those functions can never
//! reach outside the grid.

use vstd::prelude::*;

use crate::error::Error;
use crate::text;
use crate::text::{grid_of, rows_view, source_width, split_lines};

verus! {

/// A direction of travel for the instruction pointer.
#[derive(Debug, Clone, Copy, PartialEq, Eq, Structural)]
pub enum Direction {
    Up,
    Down,
    Left,
    Right,
}

/// A grid coordinate pair: `x` is the column, `y` the row.
#[derive(Debug, Clone, Copy, PartialEq, Eq, Structural)]
pub struct Coord {
    pub x: i64,
    pub y: i64,
}

/// Whether `(x, y)` addresses a real cell of a `w` by `h` grid.
pub open spec fn in_cell(x: int, y: int, w: int, h: int) -> bool {
    0 <= x < w && 0 <= y < h
}

/// Whether construction accepts `(x, y)` as an initial position for a
/// `w` by `h` grid: both coordinates up to and including the dimensions.
pub open spec fn accepted_initial(x: int, y: int, w: int, h: int) -> bool {
    0 <= x <= w && 0 <= y <= h
}

/// The position one step from `(x, y)` in direction `dir` on a `w` by
/// `h` grid, wrapping around the edges: stepping past the last column or
/// row re-enters at 0, and stepping before 0 re-enters at the last
/// column or row.
pub open spec fn advance_pos(x: int, y: int, dir: Direction, w: int, h: int) -> (int, int) {
    match dir {
        Direction::Up => (
            x,
            if y == 0 {
                h - 1
            } else {
                y - 1
            },
        ),
        Direction::Down => (
            x,
            if y == h - 1 {
                0
            } else {
                y + 1
            },
        ),
        Direction::Left => (
            if x == 0 {
                w - 1
            } else {
                x - 1
            },
            y,
        ),
        Direction::Right => (
            if x == w - 1 {
                0
            } else {
                x + 1
            },
            y,
        ),
    }
}

/// Wraparound law: moving left from column 0 lands on the last column,
/// moving right from the last column lands on column 0, and the
/// symmetric rule holds for rows moving up and down.
pub proof fn lemma_wraparound(x: int, y: int, w: int, h: int)
    requires
        in_cell(x, y, w, h),
    ensures
        advance_pos(0, y, Direction::Left, w, h) == (w - 1, y),
        advance_pos(w - 1, y, Direction::Right, w, h) == (0int, y),
        advance_pos(x, 0, Direction::Up, w, h) == (x, h - 1),
        advance_pos(x, h - 1, Direction::Down, w, h) == (x, 0int),
{
}

/// Advancing from a real cell always lands on a real cell.
pub proof fn lemma_advance_in_cell(x: int, y: int, dir: Direction, w: int, h: int)
    requires
        in_cell(x, y, w, h),
    ensures
        in_cell(advance_pos(x, y, dir, w, h).0, advance_pos(x, y, dir, w, h).1, w, h),
{
}

/// The playfield of one program run.
#[derive(Debug)]
pub struct Playfield {
    pub code_map: Vec<Vec<char>>,
    pub dimensions: Coord,
    pub program_counter_position: Coord,
    pub program_counter_direction: Direction,
}

impl Playfield {
    /// The grid as a sequence of rows.
    pub open spec fn grid(&self) -> Seq<Seq<char>> {
        rows_view(self.code_map@)
    }

    pub open spec fn width(&self) -> int {
        self.dimensions.x as int
    }

    pub open spec fn height(&self) -> int {
        self.dimensions.y as int
    }

    pub open spec fn pos_x(&self) -> int {
        self.program_counter_position.x as int
    }

    pub open spec fn pos_y(&self) -> int {
        self.program_counter_position.y as int
    }

    /// Shape invariant: the dimensions describe the grid, every row has
    /// exactly `width` characters, a non-empty width forces at least one
    /// row, and the pointer position is within the accepted bounds.
    pub open spec fn wf(&self) -> bool {
        &&& self.height() == self.grid().len()
        &&& forall|i: int|
            0 <= i < self.grid().len() ==> #[trigger] self.grid()[i].len() == self.width()
        &&& 0 <= self.width()
        &&& 0 <= self.height()
        &&& self.width() > 0 ==> self.height() > 0
        &&& accepted_initial(self.pos_x(), self.pos_y(), self.width(), self.height())
    }

    /// Whether the pointer stands on a real cell, so that the character
    /// under it can be fetched.
    pub open spec fn pos_on_cell(&self) -> bool {
        in_cell(self.pos_x(), self.pos_y(), self.width(), self.height())
    }

    /// Build a playfield from source text, an initial pointer position,
    /// and an initial direction.  Lines are right-padded with spaces to
    /// the longest line's length; a position outside the accepted bounds
    /// is rejected with `Error::Bounds`.
    pub fn new(code: &str, program_counter_position: Coord, program_counter_direction: Direction)
        -> (res: Result<Playfield, Error>)
        requires
            code@.len() <= 0x7fff_ffff_ffff_ffff,
        ensures
            res is Ok <==> accepted_initial(
                program_counter_position.x as int,
                program_counter_position.y as int,
                source_width(code@),
                split_lines(code@).len() as int,
            ),
            res matches Ok(p) ==> {
                &&& p.wf()
                &&& p.grid() == grid_of(code@)
                &&& p.width() == source_width(code@)
                &&& p.height() == split_lines(code@).len()
                &&& p.program_counter_position == program_counter_position
                &&& p.program_counter_direction == program_counter_direction
            },
            res matches Err(e) ==> e == (Error::Bounds {
                x: program_counter_position.x,
                y: program_counter_position.y,
            }),
    {
        let chars = text::chars_of(code);
        let rows = text::split_source(&chars);
        let w = text::max_width(&rows);
        proof {
            text::lemma_source_dims(code@);
            text::lemma_rows_view(rows@);
            text::lemma_max_line_len_props(rows_view(rows@));
            text::lemma_grid_padding(code@);
            assert forall|i: int| 0 <= i < rows@.len() implies #[trigger] rows@[i]@.len()
                <= w by {
                assert(rows_view(rows@)[i] == rows@[i]@);
            }
        }
        let code_map = text::pad_rows(&rows, w);
        let width = w as i64;
        let height = code_map.len() as i64;
        proof {
            assert(rows_view(code_map@).len() == split_lines(code@).len());
        }
        if (program_counter_position.x > width || program_counter_position.y > height)
            || (program_counter_position.x < 0 || program_counter_position.y < 0) {
            return Err(
                Error::Bounds { x: program_counter_position.x, y: program_counter_position.y },
            );
        }
        Ok(
            Playfield {
                code_map,
                dimensions: Coord { x: width, y: height },
                program_counter_position,
                program_counter_direction,
            },
        )
    }

    /// The character at the current pointer position.
    pub fn get_next_character(&self) -> (c: char)
        requires
            self.wf(),
            self.pos_on_cell(),
        ensures
            c == self.grid()[self.pos_y()][self.pos_x()],
    {
        proof {
            text::lemma_rows_view(self.code_map@);
            assert(self.code_map@.len() == self.code_map.len());
        }
        let y = self.program_counter_position.y as usize;
        let row = &self.code_map[y];
        proof {
            assert(row@.len() == row.len());
            assert(self.grid()[self.pos_y()] == row@);
            assert(row@.len() == self.width());
        }
        let x = self.program_counter_position.x as usize;
        row[x]
    }

    /// The character at `position`, for the `g` instruction.  Exactly
    /// the coordinates of real cells are readable; any other position is
    /// rejected with `Error::Bounds`.
    pub fn get_character_at(&self, position: &Coord) -> (res: Result<char, Error>)
        requires
            self.wf(),
        ensures
            in_cell(position.x as int, position.y as int, self.width(), self.height()) ==> res
                == Ok::<char, Error>(self.grid()[position.y as int][position.x as int]),
            !in_cell(position.x as int, position.y as int, self.width(), self.height()) ==> res
                == Err::<char, Error>(Error::Bounds { x: position.x, y: position.y }),
    {
        if (position.x < 0 || position.y < 0) || (position.x >= self.dimensions.x || position.y
            >= self.dimensions.y) {
            Err(Error::Bounds { x: position.x, y: position.y })
        } else {
            proof {
                text::lemma_rows_view(self.code_map@);
                assert(self.code_map@.len() == self.code_map.len());
            }
            let y = position.y as usize;
            let row = &self.code_map[y];
            proof {
                assert(row@.len() == row.len());
                assert(self.grid()[position.y as int] == row@);
                assert(row@.len() == self.width());
            }
            Ok(row[position.x as usize])
        }
    }

    /// Write `value` at `position`, for the `p` instruction.  The same
    /// bounds rule as `get_character_at`; the grid is mutated in place.
    pub fn set_character_at(&mut self, position: &Coord, value: char) -> (res: Result<(), Error>)
        requires
            old(self).wf(),
        ensures
            final(self).wf(),
            final(self).dimensions == old(self).dimensions,
            final(self).program_counter_position == old(self).program_counter_position,
            final(self).program_counter_direction == old(self).program_counter_direction,
            in_cell(position.x as int, position.y as int, old(self).width(), old(self).height())
                ==> {
                &&& res == Ok::<(), Error>(())
                &&& final(self).grid() == old(self).grid().update(
                    position.y as int,
                    old(self).grid()[position.y as int].update(position.x as int, value),
                )
            },
            !in_cell(position.x as int, position.y as int, old(self).width(), old(self).height())
                ==> {
                &&& res == Err::<(), Error>(Error::Bounds { x: position.x, y: position.y })
                &&& *final(self) == *old(self)
            },
    {
        if (position.x < 0 || position.y < 0) || (position.x >= self.dimensions.x || position.y
            >= self.dimensions.y) {
            Err(Error::Bounds { x: position.x, y: position.y })
        } else {
            proof {
                text::lemma_rows_view(self.code_map@);
                assert(self.code_map@.len() == self.code_map.len());
            }
            let y = position.y as usize;
            let row_len = self.code_map[y].len();
            proof {
                assert(self.grid()[y as int] == self.code_map@[y as int]@);
                assert(row_len == self.width());
            }
            let x = position.x as usize;
            self.code_map[y][x] = value;
            proof {
                text::lemma_rows_view(old(self).code_map@);
                text::lemma_rows_view(self.code_map@);
                assert(self.grid() =~~= old(self).grid().update(
                    position.y as int,
                    old(self).grid()[position.y as int].update(position.x as int, value),
                ));
            }
            Ok(())
        }
    }

    /// Move the pointer one cell in its current direction, wrapping
    /// around the grid edges.
    pub fn update_program_counter(&mut self)
        requires
            old(self).wf(),
            old(self).pos_on_cell(),
        ensures
            final(self).wf(),
            final(self).pos_on_cell(),
            final(self).code_map == old(self).code_map,
            final(self).dimensions == old(self).dimensions,
            final(self).program_counter_direction == old(self).program_counter_direction,
            (final(self).pos_x(), final(self).pos_y()) == advance_pos(
                old(self).pos_x(),
                old(self).pos_y(),
                old(self).program_counter_direction,
                old(self).width(),
                old(self).height(),
            ),
    {
        let w = self.dimensions.x;
        let h = self.dimensions.y;
        let x = self.program_counter_position.x;
        let y = self.program_counter_position.y;
        self.program_counter_position = match self.program_counter_direction {
            Direction::Up => Coord {
                x,
                y: if y == 0 {
                    h - 1
                } else {
                    y - 1
                },
            },
            Direction::Down => Coord {
                x,
                y: if y == h - 1 {
                    0
                } else {
                    y + 1
                },
            },
            Direction::Left => Coord {
                x: if x == 0 {
                    w - 1
                } else {
                    x - 1
                },
                y,
            },
            Direction::Right => Coord {
                x: if x == w - 1 {
                    0
                } else {
                    x + 1
                },
                y,
            },
        };
    }
}

} // verus!
