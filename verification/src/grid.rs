//! The grid: the mathematical model of the board, and the rules of the game
//! stated on it.
//!
//! A board of `height` by `width` dots is a grid of `2 * height - 1` rows and
//! `2 * width - 1` columns. The parity of a position says what it holds: a dot
//! where row and column are even, a horizontal edge slot in an even row and an
//! odd column, a vertical edge slot in an odd row and an even column, and a
//! box where both are odd.

use vstd::prelude::*;

verus! {

/// What one position of the grid holds.
#[derive(Clone, Copy, Debug, PartialEq, Eq, Structural)]
pub enum Cell {
    /// A dot. It never changes.
    Dot,
    /// An edge slot, `true` once it is claimed.
    Edge(bool),
    /// A box: `0` while it is empty, else the rank of the player who owns it.
    Square(u8),
}

/// The direction of an edge.
#[derive(Clone, Copy, Debug, PartialEq, Eq, Structural)]
pub enum Orientation {
    Horizontal,
    Vertical,
}

/// An edge slot in logical coordinates: rows and columns of edges of one
/// orientation, counted from zero.
#[derive(Clone, Copy, Debug, PartialEq, Eq, Structural)]
pub struct Move {
    pub row: usize,
    pub col: usize,
    pub orientation: Orientation,
}

/// Why a move was turned down. The board is unchanged in every case.
#[derive(Clone, Copy, Debug, PartialEq, Eq, Structural)]
pub enum IllegalMove {
    /// The move is not made of three words.
    ArgumentCount,
    /// A coordinate is not a decimal number.
    NonNumeric,
    /// The third word is neither `h` nor `v`.
    BadOrientation,
    /// There is no such edge slot on the board.
    OutOfRange,
    /// The edge slot is claimed already.
    AlreadyClaimed,
}

impl IllegalMove {
    /// Whether the move failed on its text alone, whatever the board holds.
    pub open spec fn parse_error(self) -> bool {
        self == IllegalMove::ArgumentCount || self == IllegalMove::NonNumeric || self
            == IllegalMove::BadOrientation
    }

    /// Whether the move failed on its text alone, whatever the board holds.
    pub fn is_parse_error(&self) -> (b: bool)
        ensures
            b == self.parse_error(),
    {
        match self {
            IllegalMove::ArgumentCount => true,
            IllegalMove::NonNumeric => true,
            IllegalMove::BadOrientation => true,
            IllegalMove::OutOfRange => false,
            IllegalMove::AlreadyClaimed => false,
        }
    }
}

/// The grid position of the edge slot `mv`.
pub open spec fn edge_at(mv: Move) -> (int, int) {
    match mv.orientation {
        Orientation::Horizontal => (2 * mv.row, 2 * mv.col + 1),
        Orientation::Vertical => (2 * mv.row + 1, 2 * mv.col),
    }
}

/// The two boxes that could touch the edge slot `mv`: above and below a
/// horizontal one, left and right of a vertical one. At the rim one of them
/// lies outside the board.
pub open spec fn sides(mv: Move) -> ((int, int), (int, int)) {
    match mv.orientation {
        Orientation::Horizontal => ((mv.row - 1, mv.col as int), (mv.row as int, mv.col as int)),
        Orientation::Vertical => ((mv.row as int, mv.col - 1), (mv.row as int, mv.col as int)),
    }
}

/// What the position (`r`, `c`) holds on a board where nothing was played.
pub open spec fn blank(r: int, c: int) -> Cell {
    if r % 2 == 0 && c % 2 == 0 {
        Cell::Dot
    } else if r % 2 == 1 && c % 2 == 1 {
        Cell::Square(0)
    } else {
        Cell::Edge(false)
    }
}

/// Whether `cell` is of the kind that belongs at the position (`r`, `c`).
pub open spec fn kind_fits(cell: Cell, r: int, c: int) -> bool {
    match cell {
        Cell::Dot => r % 2 == 0 && c % 2 == 0,
        Cell::Edge(_) => r % 2 != c % 2,
        Cell::Square(_) => r % 2 == 1 && c % 2 == 1,
    }
}

/// The mathematical model of a board: its grid, row by row.
pub struct Grid {
    pub cells: Seq<Seq<Cell>>,
}

impl Grid {
    /// The number of rows of dots.
    pub open spec fn height(self) -> int {
        (self.cells.len() as int + 1) / 2
    }

    /// The number of columns of dots.
    pub open spec fn width(self) -> int {
        if self.cells.len() == 0 {
            0
        } else {
            (self.cells[0].len() as int + 1) / 2
        }
    }

    /// A grid is well formed when it has at least two by two and at most
    /// 65535 by 65535 dots, all its rows have the same length, and every
    /// position holds a cell of its kind.
    pub open spec fn wf(self) -> bool {
        &&& 2 <= self.height() <= 0xFFFF
        &&& 2 <= self.width() <= 0xFFFF
        &&& self.cells.len() == 2 * self.height() - 1
        &&& forall|r: int|
            0 <= r < self.cells.len() ==> (#[trigger] self.cells[r]).len() == 2 * self.width() - 1
        &&& forall|r: int, c: int|
            0 <= r < self.cells.len() && 0 <= c < self.cells[r].len() ==> kind_fits(
                #[trigger] self.cells[r][c],
                r,
                c,
            )
    }

    /// The grid of a board of `height` by `width` dots on which nothing was
    /// played.
    pub open spec fn fresh(height: int, width: int) -> Grid {
        Grid {
            cells: Seq::new(
                (2 * height - 1) as nat,
                |r: int| Seq::new((2 * width - 1) as nat, |c: int| blank(r, c)),
            ),
        }
    }

    /// This grid with `cell` at the position (`r`, `c`).
    pub open spec fn set(self, r: int, c: int, cell: Cell) -> Grid {
        Grid { cells: self.cells.update(r, self.cells[r].update(c, cell)) }
    }

    /// Whether the board has the edge slot `mv`.
    pub open spec fn has_edge(self, mv: Move) -> bool {
        match mv.orientation {
            Orientation::Horizontal => mv.row < self.height() && mv.col < self.width() - 1,
            Orientation::Vertical => mv.row < self.height() - 1 && mv.col < self.width(),
        }
    }

    /// Whether the edge slot `mv` is claimed.
    pub open spec fn claimed(self, mv: Move) -> bool {
        self.cells[edge_at(mv).0][edge_at(mv).1] == Cell::Edge(true)
    }

    /// This grid with the edge slot `mv` claimed.
    pub open spec fn claim(self, mv: Move) -> Grid {
        self.set(edge_at(mv).0, edge_at(mv).1, Cell::Edge(true))
    }

    /// Whether the board has the box (`r`, `c`), in logical coordinates.
    pub open spec fn has_box(self, r: int, c: int) -> bool {
        0 <= r < self.height() - 1 && 0 <= c < self.width() - 1
    }

    /// The rank of the owner of the box (`r`, `c`), `0` while it is empty.
    pub open spec fn owner(self, r: int, c: int) -> u8 {
        match self.cells[2 * r + 1][2 * c + 1] {
            Cell::Square(p) => p,
            _ => 0,
        }
    }

    /// Whether all four edge slots around the box (`r`, `c`) are claimed.
    pub open spec fn bounded(self, r: int, c: int) -> bool {
        &&& self.cells[2 * r][2 * c + 1] == Cell::Edge(true)
        &&& self.cells[2 * r + 2][2 * c + 1] == Cell::Edge(true)
        &&& self.cells[2 * r + 1][2 * c] == Cell::Edge(true)
        &&& self.cells[2 * r + 1][2 * c + 2] == Cell::Edge(true)
    }

    /// Whether the box (`r`, `c`) is on the board, has its four edges and is
    /// still empty: such a box is there to be taken.
    pub open spec fn closes(self, r: int, c: int) -> bool {
        self.has_box(r, c) && self.bounded(r, c) && self.owner(r, c) == 0
    }

    /// The boxes next to the edge slot `mv` that are there to be taken, the
    /// upper or left one first.
    pub open spec fn closed_by(self, mv: Move) -> Seq<(int, int)> {
        let (a, b) = sides(mv);
        (if self.closes(a.0, a.1) {
            seq![a]
        } else {
            Seq::empty()
        }) + (if self.closes(b.0, b.1) {
            seq![b]
        } else {
            Seq::empty()
        })
    }

    /// This grid with the box (`r`, `c`) owned by the player of rank `player`.
    pub open spec fn fill(self, r: int, c: int, player: u8) -> Grid {
        self.set(2 * r + 1, 2 * c + 1, Cell::Square(player))
    }

    /// This grid after the player of rank `player` took every box that the
    /// edge slot `mv` closed.
    pub open spec fn capture(self, mv: Move, player: u8) -> Grid {
        let (a, b) = sides(mv);
        let first = if self.closes(a.0, a.1) {
            self.fill(a.0, a.1, player)
        } else {
            self
        };
        if self.closes(b.0, b.1) {
            first.fill(b.0, b.1, player)
        } else {
            first
        }
    }

    /// Whether no box has an owner of a rank above `players`.
    pub open spec fn owned_within(self, players: int) -> bool {
        forall|r: int, c: int| self.has_box(r, c) ==> #[trigger] self.owner(r, c) <= players
    }

    /// Whether every box has an owner.
    pub open spec fn complete(self) -> bool {
        forall|r: int, c: int| self.has_box(r, c) ==> #[trigger] self.owner(r, c) != 0
    }

    /// Whether every edge slot is claimed.
    pub open spec fn all_claimed(self) -> bool {
        forall|mv: Move| self.has_edge(mv) ==> #[trigger] self.claimed(mv)
    }

    /// Whether every box that has an owner has its four edges.
    pub open spec fn enclosed(self) -> bool {
        forall|r: int, c: int|
            self.has_box(r, c) && #[trigger] self.owner(r, c) != 0 ==> self.bounded(r, c)
    }

    /// Whether every box that has its four edges has an owner.
    pub open spec fn settled(self) -> bool {
        forall|r: int, c: int|
            self.has_box(r, c) && #[trigger] self.bounded(r, c) ==> self.owner(r, c) != 0
    }

    /// What claiming the edge slot `mv` answers: the error, or nothing where
    /// the move is legal.
    pub open spec fn refusal(self, mv: Move) -> Option<IllegalMove> {
        if !self.has_edge(mv) {
            Some(IllegalMove::OutOfRange)
        } else if self.claimed(mv) {
            Some(IllegalMove::AlreadyClaimed)
        } else {
            None
        }
    }

    /// The owners of the boxes of row `r`, from left to right.
    pub open spec fn owners_row(self, r: int) -> Seq<u8> {
        Seq::new((self.width() - 1) as nat, |c: int| self.owner(r, c))
    }

    /// The owners of the boxes of the rows above row `r`, row by row.
    pub open spec fn owners_above(self, r: int) -> Seq<u8>
        decreases r,
    {
        if r <= 0 {
            Seq::empty()
        } else {
            self.owners_above(r - 1) + self.owners_row(r - 1)
        }
    }

    /// The owners of all boxes in the order of a scan of the board, row by
    /// row from the top and from left to right in each row.
    pub open spec fn owners(self) -> Seq<u8> {
        self.owners_above(self.height() - 1)
    }

    /// The scan of the rows above row `n` holds one owner for each of their
    /// boxes, and holds no empty box exactly if those rows have none.
    pub proof fn lemma_owners_above(self, n: int)
        requires
            0 <= n,
            1 <= self.width(),
        ensures
            self.owners_above(n).len() == n * (self.width() - 1),
            (forall|i: int| 0 <= i < self.owners_above(n).len() ==> self.owners_above(n)[i] != 0)
                <==> (forall|r: int, c: int|
                0 <= r < n && 0 <= c < self.width() - 1 ==> #[trigger] self.owner(r, c) != 0),
        decreases n,
    {
        let w = self.width() - 1;
        if n > 0 {
            self.lemma_owners_above(n - 1);
            let above = self.owners_above(n - 1);
            let row = self.owners_row(n - 1);
            let all = self.owners_above(n);
            assert((n - 1) * w + w == n * w) by (nonlinear_arith);
            if forall|i: int| 0 <= i < all.len() ==> all[i] != 0 {
                assert forall|r: int, c: int|
                    0 <= r < n && 0 <= c < w implies #[trigger] self.owner(r, c) != 0 by {
                    if r == n - 1 {
                        assert(all[above.len() + c] == row[c]);
                    } else {
                        assert forall|i: int| 0 <= i < above.len() implies above[i] != 0 by {
                            assert(all[i] == above[i]);
                        }
                    }
                }
            }
            if forall|r: int, c: int|
                0 <= r < n && 0 <= c < w ==> #[trigger] self.owner(r, c) != 0 {
                assert forall|i: int| 0 <= i < all.len() implies all[i] != 0 by {
                    if i >= above.len() {
                        assert(all[i] == self.owner(n - 1, i - above.len()));
                    }
                }
            }
        } else {
            assert(0 * w == 0) by (nonlinear_arith);
        }
    }

    /// Claiming an edge slot of the board leaves the grid well formed and of
    /// the same size, claims that slot, and changes no other slot and no box.
    pub proof fn lemma_claim(self, mv: Move)
        requires
            self.wf(),
            self.has_edge(mv),
        ensures
            self.claim(mv).wf(),
            self.claim(mv).height() == self.height(),
            self.claim(mv).width() == self.width(),
            self.claim(mv).claimed(mv),
            forall|other: Move|
                self.has_edge(other) && other != mv ==> #[trigger] self.claim(mv).claimed(other)
                    == self.claimed(other),
            forall|r: int, c: int|
                self.has_box(r, c) ==> #[trigger] self.claim(mv).owner(r, c) == self.owner(r, c),
    {
    }

    /// Giving a box of the board to a player leaves the grid well formed and
    /// of the same size, gives that box to the player, and changes no other
    /// box and no edge slot.
    pub proof fn lemma_fill(self, r: int, c: int, player: u8)
        requires
            self.wf(),
            self.has_box(r, c),
        ensures
            self.fill(r, c, player).wf(),
            self.fill(r, c, player).height() == self.height(),
            self.fill(r, c, player).width() == self.width(),
            self.fill(r, c, player).owner(r, c) == player,
            forall|i: int, j: int|
                self.has_box(i, j) && (i != r || j != c) ==> #[trigger] self.fill(
                    r,
                    c,
                    player,
                ).owner(i, j) == self.owner(i, j),
            forall|i: int, j: int|
                self.has_box(i, j) ==> #[trigger] self.fill(r, c, player).bounded(i, j)
                    == self.bounded(i, j),
            forall|mv: Move|
                self.has_edge(mv) ==> #[trigger] self.fill(r, c, player).claimed(mv)
                    == self.claimed(mv),
    {
    }

    /// An edge slot can be claimed once: after a legal claim the same claim
    /// is refused as already made.
    pub proof fn lemma_second_claim_refused(self, mv: Move)
        requires
            self.wf(),
            self.refusal(mv) is None,
        ensures
            self.claim(mv).wf(),
            self.claim(mv).refusal(mv) == Some(IllegalMove::AlreadyClaimed),
    {
        self.lemma_claim(mv);
    }

    /// A fresh grid is well formed and has the size it was asked for, none of
    /// its edge slots is claimed and none of its boxes is owned.
    pub proof fn lemma_fresh(height: int, width: int)
        requires
            2 <= height <= 0xFFFF,
            2 <= width <= 0xFFFF,
        ensures
            Grid::fresh(height, width).wf(),
            Grid::fresh(height, width).height() == height,
            Grid::fresh(height, width).width() == width,
            forall|mv: Move|
                Grid::fresh(height, width).has_edge(mv) ==> !#[trigger] Grid::fresh(
                    height,
                    width,
                ).claimed(mv),
            forall|r: int, c: int|
                Grid::fresh(height, width).has_box(r, c) ==> #[trigger] Grid::fresh(
                    height,
                    width,
                ).owner(r, c) == 0,
            Grid::fresh(height, width).enclosed(),
            Grid::fresh(height, width).settled(),
    {
    }

    /// A move keeps what holds of every board that play can reach: a box
    /// with an owner has its four edges. And where, before the move, every box
    /// with four edges had an owner, the same holds after it.
    pub proof fn lemma_move_keeps_enclosed(self, mv: Move, player: u8)
        requires
            self.wf(),
            self.has_edge(mv),
            self.enclosed(),
        ensures
            self.claim(mv).capture(mv, player).wf(),
            self.claim(mv).capture(mv, player).enclosed(),
            self.settled() && player != 0 ==> self.claim(mv).capture(mv, player).settled(),
    {
        let g1 = self.claim(mv);
        self.lemma_claim(mv);
        let (a, b) = sides(mv);
        let g2 = if g1.closes(a.0, a.1) {
            g1.fill(a.0, a.1, player)
        } else {
            g1
        };
        if g1.closes(a.0, a.1) {
            g1.lemma_fill(a.0, a.1, player);
        }
        let g3 = g1.capture(mv, player);
        if g1.closes(b.0, b.1) {
            g2.lemma_fill(b.0, b.1, player);
        }
        assert forall|r: int, c: int| self.has_box(r, c) implies (self.bounded(r, c)
            ==> #[trigger] g1.bounded(r, c)) && (g1.bounded(r, c) && !self.bounded(r, c) ==> (r, c)
            == a || (r, c) == b) by {
            assert(self.cells[2 * r].len() == 2 * self.width() - 1);
            assert(self.cells[2 * r + 1].len() == 2 * self.width() - 1);
            assert(self.cells[2 * r + 2].len() == 2 * self.width() - 1);
        }
        assert forall|r: int, c: int| g3.has_box(r, c) && #[trigger] g3.owner(r, c)
            != 0 implies g3.bounded(r, c) by {
            assert(g1.has_box(r, c) && g2.has_box(r, c));
            assert(g3.bounded(r, c) == g2.bounded(r, c));
            assert(g2.bounded(r, c) == g1.bounded(r, c));
            if self.owner(r, c) != 0 {
                assert(self.bounded(r, c));
                assert(g1.bounded(r, c));
            } else {
                assert(g1.owner(r, c) == 0);
                assert(g2.owner(r, c) != 0 || g3.owner(r, c) != g2.owner(r, c));
            }
        }
        if self.settled() && player != 0 {
            assert forall|r: int, c: int| g3.has_box(r, c) && #[trigger] g3.bounded(
                r,
                c,
            ) implies g3.owner(r, c) != 0 by {
                assert(g1.has_box(r, c) && g2.has_box(r, c));
                assert(g3.bounded(r, c) == g2.bounded(r, c));
                assert(g2.bounded(r, c) == g1.bounded(r, c));
                assert(g1.owner(r, c) == self.owner(r, c));
                if self.bounded(r, c) {
                    assert(self.owner(r, c) != 0);
                }
            }
        }
    }

    /// On a board where every box with an owner has its four edges, the
    /// move after which every box has an owner closed a box: the game never
    /// ends on a move that passes the turn.
    pub proof fn lemma_last_move_closes(self, mv: Move, player: u8)
        requires
            self.wf(),
            self.enclosed(),
            self.refusal(mv) is None,
            self.claim(mv).capture(mv, player).complete(),
        ensures
            self.claim(mv).closed_by(mv).len() > 0,
    {
        let g1 = self.claim(mv);
        self.lemma_claim(mv);
        let (a, b) = sides(mv);
        let x = if self.has_box(b.0, b.1) {
            b
        } else {
            a
        };
        assert(g1.owner(x.0, x.1) == 0);
    }

    /// On a board where the boxes with an owner are those with four edges,
    /// every box has an owner exactly if every edge slot is claimed.
    pub proof fn lemma_complete_iff_all_claimed(self)
        requires
            self.wf(),
            self.enclosed(),
            self.settled(),
        ensures
            self.complete() <==> self.all_claimed(),
    {
        if self.complete() {
            assert forall|mv: Move| self.has_edge(mv) implies #[trigger] self.claimed(mv) by {
                let (a, b) = sides(mv);
                if self.has_box(b.0, b.1) {
                    assert(self.owner(b.0, b.1) != 0);
                } else {
                    assert(self.owner(a.0, a.1) != 0);
                }
            }
        }
        if self.all_claimed() {
            assert forall|r: int, c: int| self.has_box(r, c) implies #[trigger] self.owner(r, c)
                != 0 by {
                let (row, col) = (r as usize, c as usize);
                let top = Move { row, col, orientation: Orientation::Horizontal };
                let bottom = Move {
                    row: (r + 1) as usize,
                    col,
                    orientation: Orientation::Horizontal,
                };
                let left = Move { row, col, orientation: Orientation::Vertical };
                let right = Move { row, col: (c + 1) as usize, orientation: Orientation::Vertical };
                assert(self.claimed(top) && self.claimed(bottom) && self.claimed(left)
                    && self.claimed(right));
                assert(self.bounded(r, c));
            }
        }
    }

    /// Every owner that the scan of the rows above row `n` meets has a rank
    /// that some box of those rows has.
    pub proof fn lemma_owners_within(self, n: int, players: int)
        requires
            0 <= n,
            1 <= self.width(),
            forall|r: int, c: int|
                0 <= r < n && 0 <= c < self.width() - 1 ==> #[trigger] self.owner(r, c) <= players,
        ensures
            forall|i: int|
                0 <= i < self.owners_above(n).len() ==> #[trigger] self.owners_above(n)[i]
                    <= players,
        decreases n,
    {
        if n > 0 {
            self.lemma_owners_within(n - 1, players);
            let above = self.owners_above(n - 1);
        }
    }
}

} // verus!
