//! The board: the grid as it is stored, with the operations that a game
//! needs.

use crate::grid::{blank, kind_fits, Cell, Grid, IllegalMove, Move, Orientation};
use crate::notation::{cell_row_fits, cell_rows_fit, edge_rows_fit, edges_in_row};
use crate::score::{
    first_seen, lemma_first_seen, lemma_occurrences, lemma_tally_push, tally, Score,
};
use crate::text::{chars_of, digit_of, string_of, texts, value_of};
use vstd::prelude::*;

verus! {

/// A board of dots and boxes.
pub struct Board {
    grid: Vec<Vec<Cell>>,
}

impl View for Board {
    type V = Grid;

    closed spec fn view(&self) -> Grid {
        Grid { cells: Seq::new(self.grid@.len(), |r: int| self.grid@[r]@) }
    }
}

impl Board {
    /// Every board that this library hands out is well formed, and every
    /// operation asks for a well formed board.
    pub open spec fn wf(&self) -> bool {
        self@.wf()
    }

    /// What well-formedness says of the rows as they are stored.
    proof fn lemma_rows(&self)
        requires
            self.wf(),
        ensures
            self.grid@.len() == 2 * self@.height() - 1,
            forall|r: int|
                0 <= r < self.grid@.len() ==> (#[trigger] self.grid@[r])@ == self@.cells[r]
                    && self.grid@[r]@.len() == 2 * self@.width() - 1,
    {
    }

    /// A board of `height` by `width` dots, with no edge claimed and no box
    /// owned.
    pub fn new(height: u16, width: u16) -> (b: Board)
        requires
            height >= 2,
            width >= 2,
        ensures
            b.wf(),
            b@ == Grid::fresh(height as int, width as int),
    {
        let rows: usize = 2 * (height as usize) - 1;
        let cols: usize = 2 * (width as usize) - 1;
        let mut grid: Vec<Vec<Cell>> = Vec::new();
        let mut r: usize = 0;
        while r < rows
            invariant
                r <= rows,
                grid@.len() == r,
                forall|i: int|
                    0 <= i < r ==> (#[trigger] grid@[i])@ == Seq::new(
                        cols as nat,
                        |c: int| blank(i, c),
                    ),
            decreases rows - r,
        {
            let mut line: Vec<Cell> = Vec::new();
            let mut c: usize = 0;
            while c < cols
                invariant
                    c <= cols,
                    line@.len() == c,
                    forall|j: int| 0 <= j < c ==> #[trigger] line@[j] == blank(r as int, j),
                decreases cols - c,
            {
                let cell = if r % 2 == 0 && c % 2 == 0 {
                    Cell::Dot
                } else if r % 2 == 1 && c % 2 == 1 {
                    Cell::Square(0)
                } else {
                    Cell::Edge(false)
                };
                line.push(cell);
                c += 1;
            }
            grid.push(line);
            r += 1;
        }
        let b = Board { grid };
        assert(b@.cells =~~= Grid::fresh(height as int, width as int).cells);
        b
    }

    /// The number of rows of dots.
    pub fn height(&self) -> (h: usize)
        requires
            self.wf(),
        ensures
            h == self@.height(),
    {
        proof {
            self.lemma_rows();
        }
        self.grid.len() / 2 + 1
    }

    /// The number of columns of dots.
    pub fn width(&self) -> (w: usize)
        requires
            self.wf(),
        ensures
            w == self@.width(),
    {
        proof {
            self.lemma_rows();
        }
        self.grid[0].len() / 2 + 1
    }

    /// What the grid holds at row `r` and column `c`.
    pub fn cell(&self, r: usize, c: usize) -> (cell: Cell)
        requires
            self.wf(),
            r < 2 * self@.height() - 1,
            c < 2 * self@.width() - 1,
        ensures
            cell == self@.cells[r as int][c as int],
    {
        proof {
            self.lemma_rows();
        }
        self.grid[r][c]
    }

    /// Whether the edge slot at `row` and `col` of the given orientation is
    /// claimed; nothing where the board has no such slot.
    pub fn edge(&self, row: usize, col: usize, orientation: Orientation) -> (claimed: Option<bool>)
        requires
            self.wf(),
        ensures
            claimed == if self@.has_edge(Move { row, col, orientation }) {
                Some(self@.claimed(Move { row, col, orientation }))
            } else {
                None
            },
    {
        let h = self.height();
        let w = self.width();
        let inside = match orientation {
            Orientation::Horizontal => row < h && col < w - 1,
            Orientation::Vertical => row < h - 1 && col < w,
        };
        if !inside {
            return None;
        }
        let (r, c) = match orientation {
            Orientation::Horizontal => (2 * row, 2 * col + 1),
            Orientation::Vertical => (2 * row + 1, 2 * col),
        };
        proof {
            self.lemma_rows();
        }
        match self.grid[r][c] {
            Cell::Edge(true) => Some(true),
            _ => Some(false),
        }
    }

    /// The rank of the owner of the box at `row` and `col`, `0` while it is
    /// empty; nothing where the board has no such box.
    pub fn owner(&self, row: usize, col: usize) -> (owner: Option<u8>)
        requires
            self.wf(),
        ensures
            owner == if self@.has_box(row as int, col as int) {
                Some(self@.owner(row as int, col as int))
            } else {
                None
            },
    {
        let h = self.height();
        let w = self.width();
        if row >= h - 1 || col >= w - 1 {
            return None;
        }
        proof {
            self.lemma_rows();
        }
        match self.grid[2 * row + 1][2 * col + 1] {
            Cell::Square(p) => Some(p),
            _ => Some(0),
        }
    }

    /// Writes `cell` at row `r` and column `c`.
    fn put(&mut self, r: usize, c: usize, cell: Cell)
        requires
            old(self).wf(),
            r < 2 * old(self)@.height() - 1,
            c < 2 * old(self)@.width() - 1,
            kind_fits(cell, r as int, c as int),
        ensures
            final(self).wf(),
            final(self)@ == old(self)@.set(r as int, c as int, cell),
            final(self)@.height() == old(self)@.height(),
            final(self)@.width() == old(self)@.width(),
    {
        proof {
            self.lemma_rows();
        }
        self.grid[r][c] = cell;
        assert(self@.cells =~~= old(self)@.set(r as int, c as int, cell).cells);
    }

    /// Claims the edge slot at `row` and `col` of the given orientation.
    ///
    /// Fails, and leaves the board as it is, where the board has no such slot
    /// or the slot is claimed already. On success the slot is claimed, nothing
    /// else changes, and the move comes back for the check of the boxes it
    /// closed.
    pub fn claim_edge(&mut self, row: usize, col: usize, orientation: Orientation) -> (r: Result<
        Move,
        IllegalMove,
    >)
        requires
            old(self).wf(),
        ensures
            final(self).wf(),
            match old(self)@.refusal(Move { row, col, orientation }) {
                Some(e) => r == Err::<Move, IllegalMove>(e) && final(self)@ == old(self)@,
                None => r == Ok::<Move, IllegalMove>(Move { row, col, orientation })
                    && final(self)@ == old(self)@.claim(Move { row, col, orientation }),
            },
    {
        let mv = Move { row, col, orientation };
        let h = self.height();
        let w = self.width();
        let inside = match orientation {
            Orientation::Horizontal => row < h && col < w - 1,
            Orientation::Vertical => row < h - 1 && col < w,
        };
        if !inside {
            return Err(IllegalMove::OutOfRange);
        }
        let (r, c) = match orientation {
            Orientation::Horizontal => (2 * row, 2 * col + 1),
            Orientation::Vertical => (2 * row + 1, 2 * col),
        };
        proof {
            self.lemma_rows();
        }
        match self.grid[r][c] {
            Cell::Edge(true) => { return Err(IllegalMove::AlreadyClaimed); },
            _ => {},
        }
        self.put(r, c, Cell::Edge(true));
        Ok(mv)
    }

    /// Whether the box (`r`, `c`) is on the board, has its four edges and is
    /// still empty.
    fn closes(&self, r: usize, c: usize) -> (b: bool)
        requires
            self.wf(),
            self@.has_box(r as int, c as int),
        ensures
            b == self@.closes(r as int, c as int),
    {
        proof {
            self.lemma_rows();
        }
        let top = self.grid[2 * r][2 * c + 1];
        let bottom = self.grid[2 * r + 2][2 * c + 1];
        let left = self.grid[2 * r + 1][2 * c];
        let right = self.grid[2 * r + 1][2 * c + 2];
        let inner = self.grid[2 * r + 1][2 * c + 1];
        top == Cell::Edge(true) && bottom == Cell::Edge(true) && left == Cell::Edge(true) && right
            == Cell::Edge(true) && inner == Cell::Square(0)
    }

    /// The boxes that the move `last` closed: those next to its edge slot that
    /// now have their four edges and are still empty. There are at most two;
    /// the upper or left one comes first. A side that lies outside the board
    /// is passed over.
    pub fn boxes_closed_by_last_move(&self, last: Move) -> (boxes: Vec<(usize, usize)>)
        requires
            self.wf(),
        ensures
            boxes@.len() == self@.closed_by(last).len(),
            forall|i: int|
                #![trigger boxes@[i]]
                #![trigger self@.closed_by(last)[i]]
                0 <= i < boxes@.len() ==> (boxes@[i].0 as int, boxes@[i].1 as int)
                    == self@.closed_by(last)[i],
    {
        let h = self.height();
        let w = self.width();
        let (row, col) = (last.row, last.col);
        let mut boxes: Vec<(usize, usize)> = Vec::new();
        match last.orientation {
            Orientation::Horizontal => {
                if 0 < row && row < h && col < w - 1 && self.closes(row - 1, col) {
                    boxes.push((row - 1, col));
                }
                if row < h - 1 && col < w - 1 && self.closes(row, col) {
                    boxes.push((row, col));
                }
            },
            Orientation::Vertical => {
                if row < h - 1 && 0 < col && col < w && self.closes(row, col - 1) {
                    boxes.push((row, col - 1));
                }
                if row < h - 1 && col < w - 1 && self.closes(row, col) {
                    boxes.push((row, col));
                }
            },
        }
        boxes
    }

    /// Gives the box at `position` to the player of rank `player`.
    pub fn fill_box(&mut self, position: (usize, usize), player: u8)
        requires
            old(self).wf(),
            old(self)@.closes(position.0 as int, position.1 as int),
            player != 0,
        ensures
            final(self).wf(),
            final(self)@ == old(self)@.fill(position.0 as int, position.1 as int, player),
    {
        self.put(2 * position.0 + 1, 2 * position.1 + 1, Cell::Square(player));
    }

    /// The score table: for each player who owns a box, the number of boxes
    /// owned. The players stand in the order in which a scan of the board, row
    /// by row, first meets a box of theirs.
    pub fn tally_scores(&self) -> (t: Vec<Score>)
        requires
            self.wf(),
        ensures
            t@ == tally(self@.owners()),
    {
        let h = self.height();
        let w = self.width();
        let mut t: Vec<Score> = Vec::new();
        let ghost mut seen: Seq<u8> = Seq::empty();
        let mut r: usize = 0;
        while r < h - 1
            invariant
                self.wf(),
                h == self@.height(),
                w == self@.width(),
                r <= h - 1,
                seen == self@.owners_above(r as int),
                seen.len() <= r * 0xFFFF,
                t@ == tally(seen),
            decreases h - 1 - r,
        {
            let mut c: usize = 0;
            while c < w - 1
                invariant
                    self.wf(),
                    h == self@.height(),
                    w == self@.width(),
                    r < h - 1,
                    c <= w - 1,
                    seen == self@.owners_above(r as int) + self@.owners_row(r as int).take(
                        c as int,
                    ),
                    seen.len() <= r * 0xFFFF + c,
                    t@ == tally(seen),
                decreases w - 1 - c,
            {
                proof {
                    self.lemma_rows();
                }
                let p: u8 = match self.grid[2 * r + 1][2 * c + 1] {
                    Cell::Square(p) => p,
                    _ => 0,
                };
                proof {
                    lemma_tally_push(seen, p);
                    lemma_first_seen(seen);
                    lemma_occurrences(seen, p);
                }
                if p != 0 {
                    let mut k: usize = 0;
                    while k < t.len() && t[k].player != p
                        invariant
                            k <= t.len(),
                            forall|j: int| 0 <= j < k ==> t@[j].player != p,
                        decreases t.len() - k,
                    {
                        k += 1;
                    }
                    if k < t.len() {
                        let boxes: u64 = t[k].boxes;
                        t[k] = Score { player: p, boxes: boxes + 1 };
                    } else {
                        assert(!first_seen(seen).contains(p)) by {
                            if first_seen(seen).contains(p) {
                                let j = choose|j: int|
                                    0 <= j < first_seen(seen).len() && first_seen(seen)[j] == p;
                            }
                        }
                        t.push(Score { player: p, boxes: 1 });
                    }
                }
                proof {
                    assert(self@.owners_row(r as int).take(c + 1) == self@.owners_row(
                        r as int,
                    ).take(c as int).push(p));
                    assert(seen.push(p) == self@.owners_above(r as int) + self@.owners_row(
                        r as int,
                    ).take(c + 1));
                    seen = seen.push(p);
                }
                c += 1;
            }
            r += 1;
        }
        t
    }

    /// The board as text: the edge lines, one for each row of the grid, and
    /// the box lines, one for each row of boxes. A box is written as one
    /// digit, so there is no text for a board on which a player of a rank
    /// above nine owns a box.
    pub fn serialize(&self) -> (r: Option<(Vec<String>, Vec<String>)>)
        requires
            self.wf(),
        ensures
            match r {
                Some((edges, cells)) => self@.encodable() && texts(edges@) == self@.edge_lines()
                    && texts(cells@) == self@.cell_lines(),
                None => !self@.encodable(),
            },
    {
        let h = self.height();
        let w = self.width();
        let mut edges: Vec<String> = Vec::new();
        let mut i: usize = 0;
        while i < 2 * h - 1
            invariant
                self.wf(),
                h == self@.height(),
                w == self@.width(),
                i <= 2 * h - 1,
                edges@.len() == i,
                forall|n: int| 0 <= n < i ==> (#[trigger] edges@[n])@ == self@.edge_line(n),
            decreases 2 * h - 1 - i,
        {
            let count: usize = if i % 2 == 0 { w - 1 } else { w };
            let mut line: Vec<char> = Vec::new();
            let mut j: usize = 0;
            while j < count
                invariant
                    self.wf(),
                    h == self@.height(),
                    w == self@.width(),
                    i < 2 * h - 1,
                    count == edges_in_row(i as int, w as int),
                    j <= count,
                    line@.len() == j,
                    forall|n: int|
                        0 <= n < j ==> #[trigger] line@[n] == self@.edge_line(i as int)[n],
                decreases count - j,
            {
                let c: usize = if i % 2 == 0 { 2 * j + 1 } else { 2 * j };
                proof {
                    self.lemma_rows();
                }
                let mark = match self.grid[i][c] {
                    Cell::Edge(true) => '1',
                    _ => '0',
                };
                line.push(mark);
                j += 1;
            }
            edges.push(string_of(&line));
            i += 1;
        }
        assert(texts(edges@) == self@.edge_lines()) by {
            self.lemma_rows();
        }
        let mut cells: Vec<String> = Vec::new();
        let mut r: usize = 0;
        while r < h - 1
            invariant
                self.wf(),
                h == self@.height(),
                w == self@.width(),
                r <= h - 1,
                cells@.len() == r,
                forall|n: int| 0 <= n < r ==> (#[trigger] cells@[n])@ == self@.cell_line(n),
                forall|n: int, m: int|
                    0 <= n < r && 0 <= m < w - 1 ==> #[trigger] self@.owner(n, m) <= 9,
            decreases h - 1 - r,
        {
            let mut line: Vec<char> = Vec::new();
            let mut c: usize = 0;
            while c < w - 1
                invariant
                    self.wf(),
                    h == self@.height(),
                    w == self@.width(),
                    r < h - 1,
                    c <= w - 1,
                    line@.len() == (if c == 0 { 0 } else { 2 * c - 1 }),
                    forall|n: int|
                        0 <= n < line@.len() ==> #[trigger] line@[n] == self@.cell_line(
                            r as int,
                        )[n],
                    forall|m: int| 0 <= m < c ==> #[trigger] self@.owner(r as int, m) <= 9,
                decreases w - 1 - c,
            {
                proof {
                    self.lemma_rows();
                }
                let p: u8 = match self.grid[2 * r + 1][2 * c + 1] {
                    Cell::Square(p) => p,
                    _ => 0,
                };
                assert(p == self@.owner(r as int, c as int));
                if p > 9 {
                    return None;
                }
                if c > 0 {
                    line.push(',');
                }
                line.push(digit_of(p));
                c += 1;
            }
            cells.push(string_of(&line));
            r += 1;
        }
        Some((edges, cells))
    }

    /// Marks the board with the edge lines `rows`: every edge slot whose
    /// character is `1` becomes claimed, and nothing else changes. The lines
    /// must have the shape of the edge lines of this board.
    pub fn load_edges(&mut self, rows: &Vec<String>)
        requires
            old(self).wf(),
            edge_rows_fit(texts(rows@), old(self)@.height(), old(self)@.width()),
        ensures
            final(self).wf(),
            final(self)@ == old(self)@.with_edges(texts(rows@)),
    {
        let h = self.height();
        let w = self.width();
        let ghost marks = texts(rows@);
        let ghost goal = self@.with_edges(marks);
        let mut grid: Vec<Vec<Cell>> = Vec::new();
        let mut r: usize = 0;
        while r < 2 * h - 1
            invariant
                self.wf(),
                self@ == old(self)@,
                h == self@.height(),
                w == self@.width(),
                marks == texts(rows@),
                edge_rows_fit(marks, h as int, w as int),
                goal == self@.with_edges(marks),
                r <= 2 * h - 1,
                grid@.len() == r,
                forall|n: int| 0 <= n < r ==> (#[trigger] grid@[n])@ == goal.cells[n],
            decreases 2 * h - 1 - r,
        {
            let text = chars_of(rows[r].as_str());
            let mut line: Vec<Cell> = Vec::new();
            let mut c: usize = 0;
            while c < 2 * w - 1
                invariant
                    self.wf(),
                    h == self@.height(),
                    w == self@.width(),
                    r < 2 * h - 1,
                    text@ == marks[r as int],
                    text@.len() == edges_in_row(r as int, w as int),
                    goal == self@.with_edges(marks),
                    c <= 2 * w - 1,
                    line@.len() == c,
                    forall|n: int| 0 <= n < c ==> #[trigger] line@[n] == goal.cells[r as int][n],
                decreases 2 * w - 1 - c,
            {
                proof {
                    self.lemma_rows();
                }
                let cell = if r % 2 != c % 2 && text[c / 2] == '1' {
                    Cell::Edge(true)
                } else {
                    self.grid[r][c]
                };
                line.push(cell);
                c += 1;
            }
            grid.push(line);
            r += 1;
        }
        self.grid = grid;
        assert(self@.cells =~= goal.cells);
    }

    /// Marks the board with the box lines `rows`: every box whose digit is
    /// not `0` goes to the player whose rank the digit gives, and nothing else
    /// changes. The lines must have the shape of the box lines of this board;
    /// every digit is taken.
    pub fn load_cells(&mut self, rows: &Vec<String>)
        requires
            old(self).wf(),
            cell_rows_fit(texts(rows@), old(self)@.height(), old(self)@.width(), 9),
        ensures
            final(self).wf(),
            final(self)@ == old(self)@.with_cells(texts(rows@)),
    {
        let h = self.height();
        let w = self.width();
        let ghost marks = texts(rows@);
        let ghost goal = self@.with_cells(marks);
        let mut grid: Vec<Vec<Cell>> = Vec::new();
        let mut r: usize = 0;
        while r < 2 * h - 1
            invariant
                self.wf(),
                self@ == old(self)@,
                h == self@.height(),
                w == self@.width(),
                marks == texts(rows@),
                cell_rows_fit(marks, h as int, w as int, 9),
                goal == self@.with_cells(marks),
                r <= 2 * h - 1,
                grid@.len() == r,
                forall|n: int| 0 <= n < r ==> (#[trigger] grid@[n])@ == goal.cells[n],
            decreases 2 * h - 1 - r,
        {
            let text = if r % 2 == 1 {
                chars_of(rows[r / 2].as_str())
            } else {
                Vec::new()
            };
            proof {
                if r % 2 == 1 {
                    let k = r as int / 2;
                    assert(marks[k] == rows@[k]@);
                }
            }
            let mut line: Vec<Cell> = Vec::new();
            let mut c: usize = 0;
            while c < 2 * w - 1
                invariant
                    self.wf(),
                    h == self@.height(),
                    w == self@.width(),
                    r < 2 * h - 1,
                    r % 2 == 1 ==> cell_row_fits(text@, w as int, 9),
                    r % 2 == 1 ==> 0 <= r as int / 2 < marks.len() && text@ == marks[r as int / 2],
                    goal == self@.with_cells(marks),
                    c <= 2 * w - 1,
                    line@.len() == c,
                    forall|n: int| 0 <= n < c ==> #[trigger] line@[n] == goal.cells[r as int][n],
                decreases 2 * w - 1 - c,
            {
                proof {
                    self.lemma_rows();
                }
                let cell = if r % 2 == 1 && c % 2 == 1 && text[c - 1] != '0' {
                    Cell::Square(value_of(text[c - 1]))
                } else {
                    self.grid[r][c]
                };
                line.push(cell);
                c += 1;
            }
            grid.push(line);
            r += 1;
        }
        self.grid = grid;
        assert(self@.cells =~= goal.cells);
    }

    /// Whether every box has an owner.
    pub fn is_complete(&self) -> (done: bool)
        requires
            self.wf(),
        ensures
            done == self@.complete(),
    {
        let h = self.height();
        let w = self.width();
        let mut r: usize = 0;
        while r < h - 1
            invariant
                self.wf(),
                h == self@.height(),
                w == self@.width(),
                r <= h - 1,
                forall|i: int, j: int|
                    0 <= i < r && 0 <= j < w - 1 ==> #[trigger] self@.owner(i, j) != 0,
            decreases h - 1 - r,
        {
            let mut c: usize = 0;
            while c < w - 1
                invariant
                    self.wf(),
                    h == self@.height(),
                    w == self@.width(),
                    r < h - 1,
                    c <= w - 1,
                    forall|i: int, j: int|
                        0 <= i < r && 0 <= j < w - 1 ==> #[trigger] self@.owner(i, j) != 0,
                    forall|j: int| 0 <= j < c ==> #[trigger] self@.owner(r as int, j) != 0,
                decreases w - 1 - c,
            {
                proof {
                    self.lemma_rows();
                }
                match self.grid[2 * r + 1][2 * c + 1] {
                    Cell::Square(0) => {
                        assert(self@.owner(r as int, c as int) == 0);
                        return false;
                    },
                    _ => {},
                }
                c += 1;
            }
            r += 1;
        }
        true
    }
}

} // verus!
