//! The board as text: edge lines and box lines.
//!
//! There is one edge line for each row of the grid, lines of horizontal edge
//! slots and lines of vertical edge slots in turn, with one character for each
//! slot: `1` for a claimed slot, and `0` for an empty one. Reading takes any
//! character but `1` for an empty slot. There is one box line for each row of
//! boxes, with one digit for each box and commas between them: `0` for an
//! empty box, and else the rank of its owner.

use crate::grid::{Cell, Grid};
use crate::text::{digit_char, digit_value, is_digit};
use vstd::prelude::*;

verus! {

/// The number of edge slots in row `i` of a grid of `width` columns of dots:
/// an even row holds horizontal slots, an odd row vertical ones.
pub open spec fn edges_in_row(i: int, width: int) -> int {
    if i % 2 == 0 {
        width - 1
    } else {
        width
    }
}

/// The grid column of the `j`-th edge slot of row `i`.
pub open spec fn edge_column(i: int, j: int) -> int {
    if i % 2 == 0 {
        2 * j + 1
    } else {
        2 * j
    }
}

/// Whether `rows` has the shape of the edge lines of a board of `height` by
/// `width` dots: one line for each row of the grid, `height` lines of
/// horizontal slots with `height - 1` lines of vertical slots between them,
/// and in each line one character for each slot.
pub open spec fn edge_rows_fit(rows: Seq<Seq<char>>, height: int, width: int) -> bool {
    &&& rows.len() == 2 * height - 1
    &&& forall|i: int| 0 <= i < rows.len() ==> (#[trigger] rows[i]).len() == edges_in_row(i, width)
}

/// Whether `row` is a line of boxes for a board of `width` columns of dots
/// and `players` players: `width - 1` digits with a comma between each two,
/// none of them above the number of players.
pub open spec fn cell_row_fits(row: Seq<char>, width: int, players: int) -> bool {
    &&& row.len() == 2 * (width - 1) - 1
    &&& forall|k: int|
        0 <= k < row.len() ==> if k % 2 == 0 {
            is_digit(#[trigger] row[k]) && digit_value(row[k]) <= players
        } else {
            row[k] == ','
        }
}

/// Whether `rows` has the shape of the box lines of a board of `height` by
/// `width` dots and `players` players: one line for each row of boxes.
pub open spec fn cell_rows_fit(
    rows: Seq<Seq<char>>,
    height: int,
    width: int,
    players: int,
) -> bool {
    &&& rows.len() == height - 1
    &&& forall|r: int| 0 <= r < rows.len() ==> cell_row_fits(#[trigger] rows[r], width, players)
}

/// Box lines that fit a number of players hold digits only, and so fit nine
/// players.
pub proof fn lemma_digits_fit(rows: Seq<Seq<char>>, height: int, width: int, players: int)
    requires
        cell_rows_fit(rows, height, width, players),
    ensures
        cell_rows_fit(rows, height, width, 9),
{
}

impl Grid {
    /// The edge line of row `i` of the grid: for each edge slot of that row
    /// `1` where it is claimed and `0` where it is not.
    pub open spec fn edge_line(self, i: int) -> Seq<char> {
        Seq::new(
            edges_in_row(i, self.width()) as nat,
            |j: int|
                if self.cells[i][edge_column(i, j)] == Cell::Edge(true) {
                    '1'
                } else {
                    '0'
                },
        )
    }

    /// The edge lines of the board, one for each row of the grid.
    pub open spec fn edge_lines(self) -> Seq<Seq<char>> {
        Seq::new(self.cells.len(), |i: int| self.edge_line(i))
    }

    /// Whether the box lines can be written: a box is written as one digit,
    /// so no owner may have a rank above nine.
    pub open spec fn encodable(self) -> bool {
        forall|r: int, c: int| self.has_box(r, c) ==> #[trigger] self.owner(r, c) <= 9
    }

    /// The box line of the row `r` of boxes: the owners' ranks as digits,
    /// `0` for an empty box, with a comma between each two.
    pub open spec fn cell_line(self, r: int) -> Seq<char> {
        Seq::new(
            (2 * (self.width() - 1) - 1) as nat,
            |k: int|
                if k % 2 == 0 {
                    digit_char(self.owner(r, k / 2) as nat)
                } else {
                    ','
                },
        )
    }

    /// The box lines of the board, one for each row of boxes.
    pub open spec fn cell_lines(self) -> Seq<Seq<char>> {
        Seq::new((self.height() - 1) as nat, |r: int| self.cell_line(r))
    }

    /// This grid with every edge slot claimed whose character in the edge
    /// lines `rows` is `1`. Nothing else changes.
    pub open spec fn with_edges(self, rows: Seq<Seq<char>>) -> Grid {
        Grid {
            cells: Seq::new(
                self.cells.len(),
                |r: int|
                    Seq::new(
                        self.cells[r].len(),
                        |c: int|
                            if r % 2 != c % 2 && rows[r][c / 2] == '1' {
                                Cell::Edge(true)
                            } else {
                                self.cells[r][c]
                            },
                    ),
            ),
        }
    }

    /// This grid with every box owned whose digit in the box lines `rows` is
    /// not `0`, by the player whose rank the digit gives. Nothing else
    /// changes.
    pub open spec fn with_cells(self, rows: Seq<Seq<char>>) -> Grid {
        Grid {
            cells: Seq::new(
                self.cells.len(),
                |r: int|
                    Seq::new(
                        self.cells[r].len(),
                        |c: int|
                            if r % 2 == 1 && c % 2 == 1 && rows[r / 2][c - 1] != '0' {
                                Cell::Square(digit_value(rows[r / 2][c - 1]) as u8)
                            } else {
                                self.cells[r][c]
                            },
                    ),
            ),
        }
    }

    /// Writing a board and reading the lines into a new board of the same
    /// size gives the same grid: the lines have the shape that reading asks
    /// for, and marking a fresh grid with them restores every cell.
    pub proof fn lemma_lines_restore(self)
        requires
            self.wf(),
            self.encodable(),
        ensures
            edge_rows_fit(self.edge_lines(), self.height(), self.width()),
            cell_rows_fit(self.cell_lines(), self.height(), self.width(), 9),
            Grid::fresh(self.height(), self.width()).with_edges(self.edge_lines()).with_cells(
                self.cell_lines(),
            ) == self,
    {
        let h = self.height();
        let w = self.width();
        let back = Grid::fresh(h, w).with_edges(self.edge_lines()).with_cells(self.cell_lines());
        assert forall|r: int| 0 <= r < self.cells.len() implies back.cells[r]
            =~= self.cells[r] by {}
        assert(back.cells =~= self.cells);
    }

    /// The box lines of a board on which no owner has a rank above `players`
    /// fit that number of players.
    pub proof fn lemma_cell_lines_fit(self, players: int)
        requires
            self.wf(),
            self.encodable(),
            self.owned_within(players),
        ensures
            cell_rows_fit(self.cell_lines(), self.height(), self.width(), players),
    {
    }

    /// Marking a board on which no box is owned with box lines that fit a
    /// number of players gives every box to one of them or to nobody.
    pub proof fn lemma_loaded_owners(self, rows: Seq<Seq<char>>, players: int)
        requires
            self.wf(),
            self.owned_within(0),
            cell_rows_fit(rows, self.height(), self.width(), players),
            0 <= players <= 255,
        ensures
            self.with_cells(rows).owned_within(players),
    {
        let loaded = self.with_cells(rows);
        assert forall|r: int, c: int| loaded.has_box(r, c) implies #[trigger] loaded.owner(r, c)
            <= players by {
            assert(self.owner(r, c) <= 0);
        }
    }
}

} // verus!
