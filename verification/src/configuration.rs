//! The configuration of a game: the size of the board, the number of players,
//! and, where a saved game is taken up again, whose turn it is and what the
//! board holds.
//!
//! A saved game is a text of lines. The first line is the rank of the player
//! whose turn it is. Then come the edge lines, one for each row of the grid:
//! lines of horizontal edge slots and lines of vertical edge slots in turn,
//! with `1` for a claimed slot and any other character for an empty one. Then
//! come the box lines, one for each row of boxes: one digit for each box, `0`
//! for an empty box and else the rank of its owner, with commas between them.

use crate::error_handler::ExitError;
use crate::notation::{cell_row_fits, cell_rows_fit, edge_rows_fit, edges_in_row};
use crate::text::{between, chars_of, digit_value, is_digit, number_between, texts, value_of};
use vstd::prelude::*;
use vstd::string::StrSliceExecFns;

verus! {

/// The configuration of a game.
#[derive(Debug)]
pub struct Config {
    /// The number of rows of dots.
    pub height: u16,
    /// The number of columns of dots.
    pub width: u16,
    /// The number of players.
    pub player_count: u8,
    /// The rank of the player whose turn it is.
    pub player_turn: u8,
    /// The edge lines of a saved game; empty for a new game.
    pub board_edges: Vec<String>,
    /// The box lines of a saved game; empty for a new game.
    pub board_cells: Vec<String>,
}

/// The arguments `args` without the first, which is the program's name.
pub open spec fn options_of(args: Seq<Seq<char>>) -> Seq<Seq<char>> {
    if args.len() == 0 {
        args
    } else {
        args.skip(1)
    }
}

/// What is wrong with the arguments `options`, the program's name left out:
/// their number, then the height and the width, then the number of players.
/// Nothing where they are in order.
pub open spec fn arguments_error(options: Seq<Seq<char>>) -> Option<ExitError> {
    if options.len() != 3 && options.len() != 4 {
        Some(ExitError::Usage)
    } else if between(options[0], 2, 999) is None || between(options[1], 2, 999) is None {
        Some(ExitError::Dimensions)
    } else if between(options[2], 2, 100) is None {
        Some(ExitError::PlayerCount)
    } else {
        None
    }
}

/// Whether `lines` is a saved game for a board of `height` by `width` dots
/// and `players` players: a first line with the rank of a player, from 1 to
/// 100 and no higher than the number of players, then the edge lines, then the
/// box lines, and nothing else.
pub open spec fn save_fits(lines: Seq<Seq<char>>, height: int, width: int, players: int) -> bool {
    &&& lines.len() == 3 * height - 1
    &&& lines.len() >= 1
    &&& between(lines[0], 1, 100) is Some
    &&& between(lines[0], 1, 100).unwrap() <= players
    &&& edge_rows_fit(lines.subrange(1, 2 * height), height, width)
    &&& cell_rows_fit(lines.subrange(2 * height, 3 * height - 1), height, width, players)
}

impl Config {
    /// Whether the configuration holds a saved game.
    pub open spec fn has_save(&self) -> bool {
        self.board_edges@.len() > 0 && self.board_cells@.len() > 0
    }

    /// A configuration is well formed when the board has from 2 to 999 rows
    /// and columns of dots, there are from 2 to 100 players, it is the turn of
    /// one of them, and the saved game, if there is one, has the shape of the
    /// board.
    pub open spec fn wf(&self) -> bool {
        &&& 2 <= self.height <= 999
        &&& 2 <= self.width <= 999
        &&& 2 <= self.player_count <= 100
        &&& 1 <= self.player_turn <= self.player_count
        &&& self.has_save() ==> edge_rows_fit(
            texts(self.board_edges@),
            self.height as int,
            self.width as int,
        ) && cell_rows_fit(
            texts(self.board_cells@),
            self.height as int,
            self.width as int,
            self.player_count as int,
        )
    }

    /// Whether the configuration is well formed.
    pub fn is_well_formed(&self) -> (b: bool)
        ensures
            b == self.wf(),
    {
        if !(2 <= self.height && self.height <= 999 && 2 <= self.width && self.width <= 999) {
            return false;
        }
        if !(2 <= self.player_count && self.player_count <= 100 && 1 <= self.player_turn
            && self.player_turn <= self.player_count) {
            return false;
        }
        if self.board_edges.is_empty() || self.board_cells.is_empty() {
            return true;
        }
        valid_edge_data(self.board_edges.as_slice(), self.height, self.width) && valid_cell_data(
            self.board_cells.as_slice(),
            self.height,
            self.width,
            self.player_count,
        )
    }

    /// The configuration of a new game from the program's arguments: its
    /// name, the height, the width, the number of players and, optionally, the
    /// path of a saved game. The path is not looked at here: reading the file
    /// is the caller's part, and `restore` takes its lines.
    pub fn build(args: &Vec<String>) -> (r: Result<Config, ExitError>)
        ensures
            match r {
                Ok(config) => {
                    &&& arguments_error(options_of(texts(args@))) is None
                    &&& Some(config.height as u64) == between(texts(args@)[1], 2, 999)
                    &&& Some(config.width as u64) == between(texts(args@)[2], 2, 999)
                    &&& Some(config.player_count as u64) == between(texts(args@)[3], 2, 100)
                    &&& config.player_turn == 1
                    &&& config.board_edges@.len() == 0
                    &&& config.board_cells@.len() == 0
                    &&& config.wf()
                },
                Err(e) => arguments_error(options_of(texts(args@))) == Some(e),
            },
    {
        if args.len() != 4 && args.len() != 5 {
            return Err(ExitError::Usage);
        }
        let height = number_between(args[1].as_str(), 2, 999);
        let width = number_between(args[2].as_str(), 2, 999);
        let (height, width) = match (height, width) {
            (Some(h), Some(w)) => (h as u16, w as u16),
            _ => { return Err(ExitError::Dimensions); },
        };
        let player_count = match number_between(args[3].as_str(), 2, 100) {
            Some(n) => n as u8,
            None => { return Err(ExitError::PlayerCount); },
        };
        Ok(
            Config {
                height,
                width,
                player_count,
                player_turn: 1,
                board_edges: Vec::new(),
                board_cells: Vec::new(),
            },
        )
    }

    /// This configuration with the saved game `lines`, the lines of the file
    /// in order and without their line ends. Fails where the lines are not a
    /// saved game for this board and these players.
    pub fn restore(self, lines: &Vec<String>) -> (r: Result<Config, ExitError>)
        ensures
            match r {
                Ok(config) => {
                    &&& save_fits(
                        texts(lines@),
                        self.height as int,
                        self.width as int,
                        self.player_count as int,
                    )
                    &&& config.height == self.height
                    &&& config.width == self.width
                    &&& config.player_count == self.player_count
                    &&& Some(config.player_turn as u64) == between(texts(lines@)[0], 1, 100)
                    &&& texts(config.board_edges@) == texts(lines@).subrange(1, 2 * self.height)
                    &&& texts(config.board_cells@) == texts(lines@).subrange(
                        2 * self.height,
                        3 * self.height - 1,
                    )
                    &&& self.wf() ==> config.wf()
                },
                Err(e) => e == ExitError::SaveContents && !save_fits(
                    texts(lines@),
                    self.height as int,
                    self.width as int,
                    self.player_count as int,
                ),
            },
    {
        let h = self.height as usize;
        if h == 0 || lines.len() != 3 * h - 1 {
            return Err(ExitError::SaveContents);
        }
        let player_turn = match number_between(lines[0].as_str(), 1, 100) {
            Some(n) => n as u8,
            None => { return Err(ExitError::SaveContents); },
        };
        if player_turn > self.player_count {
            return Err(ExitError::SaveContents);
        }
        let mut board_edges: Vec<String> = Vec::new();
        let mut i: usize = 1;
        while i < 2 * h
            invariant
                1 <= i <= 2 * h,
                lines@.len() == 3 * h - 1,
                1 <= h <= 0xFFFF,
                board_edges@.len() == i - 1,
                forall|n: int| 0 <= n < i - 1 ==> (#[trigger] board_edges@[n])@ == lines@[n + 1]@,
            decreases 2 * h - i,
        {
            board_edges.push(lines[i].clone());
            i += 1;
        }
        let mut board_cells: Vec<String> = Vec::new();
        while i < 3 * h - 1
            invariant
                2 * h <= i <= 3 * h - 1,
                lines@.len() == 3 * h - 1,
                1 <= h <= 0xFFFF,
                board_cells@.len() == i - 2 * h,
                forall|n: int|
                    0 <= n < i - 2 * h ==> (#[trigger] board_cells@[n])@ == lines@[n + 2 * h]@,
            decreases 3 * h - 1 - i,
        {
            board_cells.push(lines[i].clone());
            i += 1;
        }
        assert(texts(board_edges@) == texts(lines@).subrange(1, 2 * h));
        assert(texts(board_cells@) == texts(lines@).subrange(2 * h, 3 * h - 1));
        if !valid_edge_data(board_edges.as_slice(), self.height, self.width) || !valid_cell_data(
            board_cells.as_slice(),
            self.height,
            self.width,
            self.player_count,
        ) {
            return Err(ExitError::SaveContents);
        }
        Ok(
            Config {
                height: self.height,
                width: self.width,
                player_count: self.player_count,
                player_turn,
                board_edges,
                board_cells,
            },
        )
    }
}

/// Whether `edge_data` has the shape of the edge lines of a board of `height`
/// by `width` dots: one line for each row of the grid, and in each line one
/// character for each edge slot of that row.
pub fn valid_edge_data(edge_data: &[String], height: u16, width: u16) -> (valid: bool)
    ensures
        valid == edge_rows_fit(texts(edge_data@), height as int, width as int),
{
    if height == 0 || edge_data.len() != 2 * (height as usize) - 1 {
        return false;
    }
    let ghost rows = texts(edge_data@);
    let mut i: usize = 0;
    while i < edge_data.len()
        invariant
            i <= edge_data.len(),
            rows == texts(edge_data@),
            rows.len() == 2 * height - 1,
            forall|n: int|
                0 <= n < i ==> (#[trigger] rows[n]).len() == edges_in_row(n, width as int),
        decreases edge_data.len() - i,
    {
        let length = edge_data[i].as_str().unicode_len();
        assert(length == rows[i as int].len());
        let fits = if i % 2 == 0 {
            width >= 1 && length == width as usize - 1
        } else {
            length == width as usize
        };
        if !fits {
            return false;
        }
        i += 1;
    }
    true
}

/// Whether `row` is a line of boxes for a board of `width` columns of dots
/// and `player_count` players.
fn valid_cell_row(row: &str, width: u16, player_count: u8) -> (valid: bool)
    ensures
        valid == cell_row_fits(row@, width as int, player_count as int),
{
    let text = chars_of(row);
    if width < 2 || text.len() != 2 * (width as usize - 1) - 1 {
        return false;
    }
    let mut k: usize = 0;
    while k < text.len()
        invariant
            k <= text.len(),
            text@ == row@,
            forall|n: int|
                0 <= n < k ==> if n % 2 == 0 {
                    is_digit(#[trigger] text@[n]) && digit_value(text@[n])
                        <= player_count
                } else {
                    text@[n] == ','
                },
        decreases text.len() - k,
    {
        let c = text[k];
        let fits = if k % 2 == 0 {
            '0' <= c && c <= '9' && value_of(c) <= player_count
        } else {
            c == ','
        };
        if !fits {
            return false;
        }
        k += 1;
    }
    true
}

/// Whether `cell_data` has the shape of the box lines of a board of `height`
/// by `width` dots and `player_count` players: one line for each row of
/// boxes, and in each line one digit for each box, none above the number of
/// players, with a comma between each two.
pub fn valid_cell_data(cell_data: &[String], height: u16, width: u16, player_count: u8) -> (valid:
    bool)
    ensures
        valid == cell_rows_fit(
            texts(cell_data@),
            height as int,
            width as int,
            player_count as int,
        ),
{
    if height == 0 || cell_data.len() != height as usize - 1 {
        return false;
    }
    let ghost rows = texts(cell_data@);
    let mut r: usize = 0;
    while r < cell_data.len()
        invariant
            r <= cell_data.len(),
            rows == texts(cell_data@),
            rows.len() == height - 1,
            forall|n: int|
                0 <= n < r ==> cell_row_fits(#[trigger] rows[n], width as int, player_count as int),
        decreases cell_data.len() - r,
    {
        assert(rows[r as int] == cell_data@[r as int]@);
        if !valid_cell_row(cell_data[r].as_str(), width, player_count) {
            return false;
        }
        r += 1;
    }
    true
}

} // verus!
