//! The game: whose turn it is, what a move does, when the game is over and
//! who has won.
//!
//! A game waits for the move of the player whose turn it is until the board
//! is complete. A move claims one edge slot. The player takes every box that
//! the move closed and, having taken one, moves again; otherwise the turn
//! passes to the next player, and from the last to the first.

use crate::board::Board;
use crate::configuration::{save_fits, Config};
use crate::error_handler::ExitError;
use crate::grid::{kind_fits, sides, Cell, Grid, IllegalMove, Move, Orientation};
use crate::notation::lemma_digits_fit;
use crate::score::{first_seen, highest, leaders, lemma_first_seen, players_with, tally};
use crate::text::{
    between, chars_of, decimal, decimal_text, digits_of, lemma_decimal_of_digits, parse_decimal,
    split, split_on, string_of, strip_line_ends, texts, unlines, unlines_text, views,
    without_line_ends, words, NumberError,
};
use vstd::prelude::*;

verus! {

/// The symbol of the player of rank `rank`: `A` for the first, `B` for the
/// second, and so on through the characters that follow.
pub open spec fn symbol_of(rank: int) -> char {
    (rank + 64) as char
}

/// The symbols of `players` players, by rank.
pub open spec fn symbols_for(players: int) -> Seq<char> {
    Seq::new(players as nat, |i: int| symbol_of(i + 1))
}

/// The rank of the player who follows the player of rank `turn`.
pub open spec fn next_turn(turn: u8, players: u8) -> u8 {
    if turn >= players {
        1
    } else {
        (turn + 1) as u8
    }
}

/// No two players share a symbol.
pub proof fn lemma_symbols_differ(players: int, a: int, b: int)
    requires
        0 <= players <= 100,
        0 <= a < players,
        0 <= b < players,
        a != b,
    ensures
        symbols_for(players)[a] != symbols_for(players)[b],
{
}

/// The orientation that the word `word` names: `h` or `v`.
pub open spec fn orientation_of(word: Seq<char>) -> Option<Orientation> {
    if word == seq!['h'] {
        Some(Orientation::Horizontal)
    } else if word == seq!['v'] {
        Some(Orientation::Vertical)
    } else {
        None
    }
}

/// The move that the words `words` ask for: a row, a column and an
/// orientation. The number of words is looked at first, then whether both
/// coordinates are numbers, then the orientation, then whether the numbers
/// can be coordinates at all.
pub open spec fn parsed_move(words: Seq<Seq<char>>) -> Result<Move, IllegalMove> {
    if words.len() != 3 {
        Err(IllegalMove::ArgumentCount)
    } else if decimal(words[0]) is None || decimal(words[1]) is None {
        Err(IllegalMove::NonNumeric)
    } else if orientation_of(words[2]) is None {
        Err(IllegalMove::BadOrientation)
    } else if decimal(words[0]).unwrap() > usize::MAX || decimal(words[1]).unwrap() > usize::MAX {
        Err(IllegalMove::OutOfRange)
    } else {
        Ok(
            Move {
                row: decimal(words[0]).unwrap() as usize,
                col: decimal(words[1]).unwrap() as usize,
                orientation: orientation_of(words[2]).unwrap(),
            },
        )
    }
}

/// The symbols of the players `ranks`, with a comma and a space between each
/// two.
pub open spec fn names(ranks: Seq<u8>, symbols: Seq<char>) -> Seq<char>
    decreases ranks.len(),
{
    if ranks.len() == 0 {
        Seq::empty()
    } else if ranks.len() == 1 {
        seq![symbols[ranks[0] - 1]]
    } else {
        names(ranks.drop_last(), symbols) + seq![',', ' ', symbols[ranks.last() - 1]]
    }
}

/// What the game waits for.
#[derive(Clone, Copy, Debug, PartialEq, Eq, Structural)]
pub enum Phase {
    /// The move of the player of this rank.
    AwaitingMove(u8),
    /// Nothing: the board is complete.
    Terminal,
}

/// What a legal move did.
#[derive(Clone, Copy, Debug, PartialEq, Eq, Structural)]
pub struct Played {
    /// The edge slot that was claimed.
    pub edge: Move,
    /// Whether the move closed a box, so that the same player moves again.
    pub extra_turn: bool,
    /// Whether the board is complete after the move.
    pub game_over: bool,
}

/// The answer to one line of input.
#[derive(Debug, PartialEq, Eq)]
pub enum Response {
    /// The line asks to save the game to `path`; `contents` is the text to
    /// write. The game is as it was and the same player moves.
    Save { path: String, contents: String },
    /// The line asks to save the game, but the game cannot be written. The
    /// program is to end with this error.
    Fatal(ExitError),
    /// The line is a legal move, and it was made.
    Played(Played),
    /// The line is no legal move. The game is as it was and the same player
    /// moves.
    Rejected(IllegalMove),
}

/// How an attempt to write the saved game to its path ended.
#[derive(Clone, Copy, Debug, PartialEq, Eq, Structural)]
pub enum SaveOutcome {
    /// The file could not be created: it exists already, or the path cannot
    /// be written to.
    NotCreated,
    /// The file was created, but writing to it failed.
    NotWritten,
    /// The file was created and written.
    Written,
}

/// What `save_report` returns for the outcome `outcome`.
pub open spec fn save_reported(outcome: SaveOutcome) -> Result<Seq<char>, ExitError> {
    match outcome {
        SaveOutcome::NotCreated => Ok("Error opening file for saving grid"@),
        SaveOutcome::NotWritten => Err(ExitError::SystemCall),
        SaveOutcome::Written => Ok("Save of grid successful"@),
    }
}

/// What follows an attempt to write the saved game: the line to tell the
/// player, after which the same player is asked again, or the error to end
/// the program with. A file that could not be created is reported and the
/// game goes on; a file that was created and could not be written ends the
/// program, since what it holds cannot be relied on.
pub fn save_report(outcome: SaveOutcome) -> (r: Result<&'static str, ExitError>)
    ensures
        match r {
            Ok(line) => save_reported(outcome) == Ok::<Seq<char>, ExitError>(line@),
            Err(e) => save_reported(outcome) == Err::<Seq<char>, ExitError>(e),
        },
{
    match outcome {
        SaveOutcome::NotCreated => Ok("Error opening file for saving grid"),
        SaveOutcome::NotWritten => Err(ExitError::SystemCall),
        SaveOutcome::Written => Ok("Save of grid successful"),
    }
}

/// The mathematical model of a game.
pub struct Position {
    /// The board.
    pub grid: Grid,
    /// The number of players.
    pub players: u8,
    /// The rank of the player whose turn it is.
    pub turn: u8,
    /// The symbols of the players, by rank.
    pub symbols: Seq<char>,
    /// Whether the game is over: a move was made after which the board was
    /// found complete.
    pub finished: bool,
}

impl Position {
    /// A position is well formed when its board is, there are from 2 to 100
    /// players with their symbols, it is the turn of one of them, every box
    /// that has an owner is owned by one of them, and the game is over only if
    /// the board is complete.
    pub open spec fn wf(self) -> bool {
        &&& self.grid.wf()
        &&& 2 <= self.players <= 100
        &&& 1 <= self.turn <= self.players
        &&& self.symbols == symbols_for(self.players as int)
        &&& self.grid.owned_within(self.players as int)
        &&& self.finished ==> self.grid.complete()
    }

    /// The position in which the game of the configuration `config` starts:
    /// a fresh board, marked with the saved game where there is one, and the
    /// move of the player whose turn it is awaited.
    pub open spec fn start(config: Config) -> Position {
        let fresh = Grid::fresh(config.height as int, config.width as int);
        Position {
            grid: if config.has_save() {
                fresh.with_edges(texts(config.board_edges@)).with_cells(texts(config.board_cells@))
            } else {
                fresh
            },
            players: config.player_count,
            turn: config.player_turn,
            symbols: symbols_for(config.player_count as int),
            finished: false,
        }
    }

    /// What the game waits for.
    pub open spec fn phase(self) -> Phase {
        if self.finished {
            Phase::Terminal
        } else {
            Phase::AwaitingMove(self.turn)
        }
    }

    /// The symbol of the player whose turn it is.
    pub open spec fn symbol(self) -> char {
        self.symbols[self.turn - 1]
    }

    /// What the words of a move are answered with: the edge slot to claim,
    /// or the reason why there is none.
    pub open spec fn answer(self, words: Seq<Seq<char>>) -> Result<Move, IllegalMove> {
        match parsed_move(words) {
            Err(e) => Err(e),
            Ok(mv) => match self.grid.refusal(mv) {
                Some(e) => Err(e),
                None => Ok(mv),
            },
        }
    }

    /// This position with the edge slot `mv` claimed and nothing else done.
    pub open spec fn claimed(self, mv: Move) -> Position {
        Position { grid: self.grid.claim(mv), ..self }
    }

    /// This position after the player whose turn it is took the boxes that
    /// the edge slot `mv` closed.
    pub open spec fn captured(self, mv: Move) -> Position {
        Position { grid: self.grid.capture(mv, self.turn), ..self }
    }

    /// This position with the turn passed to the next player.
    pub open spec fn passed(self) -> Position {
        Position { turn: next_turn(self.turn, self.players), ..self }
    }

    /// This position with the game over exactly if the board is complete.
    pub open spec fn checked(self) -> Position {
        Position { finished: self.grid.complete(), ..self }
    }

    /// This position after the legal move `mv`: the edge slot is claimed, the
    /// player whose turn it is owns every box that the move closed, the turn
    /// stays with that player exactly if there was such a box, and the game is
    /// over exactly if the board is now complete.
    pub open spec fn after(self, mv: Move) -> Position {
        let taken = self.claimed(mv).captured(mv);
        if self.grid.claim(mv).closed_by(mv).len() > 0 {
            taken.checked()
        } else {
            taken.passed().checked()
        }
    }

    /// The lines of the saved game: the rank of the player whose turn it is,
    /// the edge lines and the box lines.
    pub open spec fn save_lines(self) -> Seq<Seq<char>> {
        seq![digits_of(self.turn as nat)] + self.grid.edge_lines() + self.grid.cell_lines()
    }

    /// The character that shows the position (`r`, `c`) of the grid: `+` for
    /// a dot, `-` and `|` for a claimed edge, the owner's symbol for a box,
    /// and a space for what is empty.
    pub open spec fn shown(self, r: int, c: int) -> char {
        match self.grid.cells[r][c] {
            Cell::Dot => '+',
            Cell::Edge(claimed) => if !claimed {
                ' '
            } else if r % 2 == 0 {
                '-'
            } else {
                '|'
            },
            Cell::Square(p) => if p == 0 {
                ' '
            } else {
                self.symbols[p - 1]
            },
        }
    }

    /// The picture of the board, one line for each row of the grid.
    pub open spec fn picture(self) -> Seq<Seq<char>> {
        Seq::new(
            self.grid.cells.len(),
            |r: int| Seq::new(self.grid.cells[r].len(), |c: int| self.shown(r, c)),
        )
    }

    /// Whether the line `line` asks to save the game: a line of two words of
    /// which the first is `w` does, and the second word is the path. Any other
    /// line is taken as a move.
    pub open spec fn wants_save(line: Seq<char>) -> bool {
        let words = split_on(without_line_ends(line), ' ');
        words.len() == 2 && words[0] == seq!['w']
    }

    /// The text of the saved game.
    pub open spec fn save_text(self) -> Seq<char> {
        unlines(self.save_lines())
    }

    /// The winners: the symbols of the players who own the most boxes, in the
    /// order in which a scan of the board first meets a box of theirs.
    pub open spec fn winners(self) -> Seq<char> {
        names(leaders(tally(self.grid.owners())), self.symbols)
    }

    /// A legal move leaves the position well formed, and keeps what holds
    /// of every board that play can reach: a box with an owner has its four
    /// edges. Where, before the move, every box with four edges had an owner,
    /// the same holds after it.
    pub proof fn lemma_after_wf(self, mv: Move)
        requires
            self.wf(),
            self.grid.refusal(mv) is None,
        ensures
            self.after(mv).wf(),
            self.after(mv).players == self.players,
            self.after(mv).symbols == self.symbols,
            self.after(mv).grid == self.grid.claim(mv).capture(mv, self.turn),
            self.grid.enclosed() ==> self.after(mv).grid.enclosed(),
            self.grid.enclosed() && self.grid.settled() ==> self.after(mv).grid.settled(),
    {
        if self.grid.enclosed() {
            self.grid.lemma_move_keeps_enclosed(mv, self.turn);
        }
        let g1 = self.grid.claim(mv);
        self.grid.lemma_claim(mv);
        let (a, b) = sides(mv);
        let g2 = if g1.closes(a.0, a.1) {
            g1.fill(a.0, a.1, self.turn)
        } else {
            g1
        };
        if g1.closes(a.0, a.1) {
            g1.lemma_fill(a.0, a.1, self.turn);
        }
        if g1.closes(b.0, b.1) {
            g2.lemma_fill(b.0, b.1, self.turn);
        }
    }

    /// The turn after a legal move: it stays with the player who moved
    /// exactly if the move closed a box. Otherwise it passes to the player of
    /// the next rank, and from the last player to the first. On a board where
    /// every box with an owner has its four edges, the move that ends the game
    /// leaves the turn where it was.
    pub proof fn lemma_turn_advance(self, mv: Move)
        requires
            self.wf(),
            self.grid.refusal(mv) is None,
        ensures
            self.after(mv).turn == self.turn <==> self.grid.claim(mv).closed_by(mv).len() > 0,
            self.grid.claim(mv).closed_by(mv).len() == 0 ==> self.after(mv).turn == (if self.turn
                == self.players {
                1
            } else {
                self.turn + 1
            }),
            1 <= self.after(mv).turn <= self.players,
            self.grid.enclosed() && self.after(mv).phase() == Phase::Terminal ==> self.after(
                mv,
            ).turn == self.turn,
    {
        if self.grid.enclosed() && self.after(mv).grid.complete() {
            self.grid.lemma_last_move_closes(mv, self.turn);
        }
    }

    /// A saved game takes the game up where it was: the lines that are
    /// written are a saved game for this board and these players, their first
    /// line is the rank of the player whose turn it is, and marking a fresh
    /// board with the rest restores the board.
    pub proof fn lemma_save_restores(self)
        requires
            self.wf(),
            self.grid.encodable(),
        ensures
            save_fits(
                self.save_lines(),
                self.grid.height(),
                self.grid.width(),
                self.players as int,
            ),
            between(self.save_lines()[0], 1, 100) == Some(self.turn as u64),
            Grid::fresh(self.grid.height(), self.grid.width()).with_edges(
                self.save_lines().subrange(1, 2 * self.grid.height()),
            ).with_cells(
                self.save_lines().subrange(2 * self.grid.height(), 3 * self.grid.height() - 1),
            ) == self.grid,
    {
        let h = self.grid.height();
        let lines = self.save_lines();
        lemma_decimal_of_digits(self.turn as nat);
        self.grid.lemma_lines_restore();
        self.grid.lemma_cell_lines_fit(self.players as int);
        assert(lines.subrange(1, 2 * h) == self.grid.edge_lines());
        assert(lines.subrange(2 * h, 3 * h - 1) == self.grid.cell_lines());
    }

    /// A game starts again where it was saved: a configuration of the same
    /// board and players that holds the lines of the saved game is well
    /// formed, and the game that is built from it is in this position.
    pub proof fn lemma_saved_game_starts_here(self, config: Config)
        requires
            self.wf(),
            self.grid.encodable(),
            self.grid.height() <= 999,
            self.grid.width() <= 999,
            config.height == self.grid.height(),
            config.width == self.grid.width(),
            config.player_count == self.players,
            Some(config.player_turn as u64) == between(self.save_lines()[0], 1, 100),
            texts(config.board_edges@) == self.save_lines().subrange(1, 2 * self.grid.height()),
            texts(config.board_cells@) == self.save_lines().subrange(
                2 * self.grid.height(),
                3 * self.grid.height() - 1,
            ),
        ensures
            config.wf(),
            Position::start(config) == (Position { finished: false, ..self }),
    {
        self.lemma_save_restores();
    }
}

/// A game of dots and boxes.
pub struct Game {
    board: Board,
    player_count: u8,
    player_turn: u8,
    player_symbols: Vec<char>,
    finished: bool,
}

impl View for Game {
    type V = Position;

    closed spec fn view(&self) -> Position {
        Position {
            grid: self.board@,
            players: self.player_count,
            turn: self.player_turn,
            symbols: self.player_symbols@,
            finished: self.finished,
        }
    }
}

/// The texts of the words `player_move`.
fn texts_of(player_move: &Vec<&str>) -> (v: Vec<Vec<char>>)
    ensures
        views(v@) == words(player_move@),
{
    let mut v: Vec<Vec<char>> = Vec::new();
    let mut i: usize = 0;
    while i < player_move.len()
        invariant
            i <= player_move.len(),
            v@.len() == i,
            forall|n: int| 0 <= n < i ==> (#[trigger] v@[n])@ == player_move@[n]@,
        decreases player_move.len() - i,
    {
        v.push(chars_of(player_move[i]));
        i += 1;
    }
    v
}

/// Reads the words of a move.
pub fn parse_move(words: &Vec<Vec<char>>) -> (r: Result<Move, IllegalMove>)
    ensures
        r == parsed_move(views(words@)),
{
    if words.len() != 3 {
        return Err(IllegalMove::ArgumentCount);
    }
    let ghost w = views(words@);
    let row = parse_decimal(&words[0], usize::MAX as u64);
    let col = parse_decimal(&words[1], usize::MAX as u64);
    match (row, col) {
        (Err(NumberError::Malformed), _) => { return Err(IllegalMove::NonNumeric); },
        (_, Err(NumberError::Malformed)) => { return Err(IllegalMove::NonNumeric); },
        _ => {},
    }
    let orientation = if words[2].len() == 1 && words[2][0] == 'h' {
        Orientation::Horizontal
    } else if words[2].len() == 1 && words[2][0] == 'v' {
        Orientation::Vertical
    } else {
        return Err(IllegalMove::BadOrientation);
    };
    assert(orientation_of(w[2]) == Some(orientation)) by {
        assert(w[2] =~= seq![w[2][0]]);
    }
    match (row, col) {
        (Ok(row), Ok(col)) => Ok(Move { row: row as usize, col: col as usize, orientation }),
        _ => Err(IllegalMove::OutOfRange),
    }
}

impl Game {
    /// Every game that this library hands out is well formed, and every
    /// operation asks for a well formed game.
    pub open spec fn wf(&self) -> bool {
        self@.wf()
    }

    /// The game of the configuration `config`: a new one, or a saved one
    /// taken up again.
    pub fn build(config: Config) -> (game: Game)
        requires
            config.wf(),
        ensures
            game.wf(),
            game@ == Position::start(config),
    {
        let mut board = Board::new(config.height, config.width);
        if !config.board_edges.is_empty() && !config.board_cells.is_empty() {
            proof {
                lemma_digits_fit(
                    texts(config.board_cells@),
                    config.height as int,
                    config.width as int,
                    config.player_count as int,
                );
            }
            board.load_edges(&config.board_edges);
            board.load_cells(&config.board_cells);
            proof {
                Grid::fresh(config.height as int, config.width as int).with_edges(
                    texts(config.board_edges@),
                ).lemma_loaded_owners(texts(config.board_cells@), config.player_count as int);
            }
        }
        let mut player_symbols: Vec<char> = Vec::new();
        let mut rank: u8 = 1;
        while rank <= config.player_count
            invariant
                1 <= rank <= config.player_count + 1,
                config.player_count <= 100,
                player_symbols@.len() == rank - 1,
                forall|i: int|
                    0 <= i < rank - 1 ==> #[trigger] player_symbols@[i] == symbol_of(i + 1),
            decreases config.player_count + 1 - rank,
        {
            player_symbols.push((rank + 64) as char);
            rank += 1;
        }
        assert(player_symbols@ == symbols_for(config.player_count as int));
        Game {
            board,
            player_count: config.player_count,
            player_turn: config.player_turn,
            player_symbols,
            finished: false,
        }
    }

    /// The board.
    pub fn board(&self) -> (board: &Board)
        ensures
            board@ == self@.grid,
    {
        &self.board
    }

    /// The number of players.
    pub fn player_count(&self) -> (players: u8)
        ensures
            players == self@.players,
    {
        self.player_count
    }

    /// The rank of the player whose turn it is.
    pub fn player_turn(&self) -> (turn: u8)
        ensures
            turn == self@.turn,
    {
        self.player_turn
    }

    /// The symbol of the player whose turn it is.
    pub fn player_symbol(&self) -> (symbol: char)
        requires
            self.wf(),
        ensures
            symbol == self@.symbol(),
            symbol == symbol_of(self@.turn as int),
    {
        self.player_symbols[(self.player_turn - 1) as usize]
    }

    /// What the game waits for.
    pub fn phase(&self) -> (phase: Phase)
        requires
            self.wf(),
        ensures
            phase == self@.phase(),
    {
        if self.finished {
            Phase::Terminal
        } else {
            Phase::AwaitingMove(self.player_turn)
        }
    }

    /// Claims the edge slot that `words` ask for, where that is a legal move.
    fn place(&mut self, words: &Vec<Vec<char>>) -> (r: Result<Move, IllegalMove>)
        requires
            old(self).wf(),
        ensures
            final(self).wf(),
            match old(self)@.answer(views(words@)) {
                Ok(mv) => {
                    &&& r == Ok::<Move, IllegalMove>(mv)
                    &&& final(self)@ == old(self)@.claimed(mv)
                },
                Err(e) => r == Err::<Move, IllegalMove>(e) && final(self)@ == old(self)@,
            },
    {
        match parse_move(words) {
            Err(e) => Err(e),
            Ok(mv) => {
                proof {
                    if self@.grid.has_edge(mv) {
                        self@.grid.lemma_claim(mv);
                    }
                }
                self.board.claim_edge(mv.row, mv.col, mv.orientation)
            },
        }
    }

    /// Checks the move `player_move`, a row, a column and `h` or `v`, and
    /// claims its edge slot where the move is legal. The claimed edge slot
    /// comes back, for `update_game_board`. An illegal move changes nothing.
    pub fn validate_player_move(&mut self, player_move: Vec<&str>) -> (r: Result<Move, IllegalMove>)
        requires
            old(self).wf(),
        ensures
            final(self).wf(),
            match old(self)@.answer(words(player_move@)) {
                Ok(mv) => {
                    &&& r == Ok::<Move, IllegalMove>(mv)
                    &&& final(self)@ == old(self)@.claimed(mv)
                },
                Err(e) => r == Err::<Move, IllegalMove>(e) && final(self)@ == old(self)@,
            },
    {
        let words = texts_of(&player_move);
        self.place(&words)
    }

    /// Gives the player whose turn it is every box that the move `last`
    /// closed. Answers whether the turn passes on: it does where the move
    /// closed no box.
    pub fn update_game_board(&mut self, last: Move) -> (change_player: bool)
        requires
            old(self).wf(),
        ensures
            final(self).wf(),
            final(self)@ == old(self)@.captured(last),
            change_player == (old(self)@.grid.closed_by(last).len() == 0),
    {
        let boxes = self.board.boxes_closed_by_last_move(last);
        let ghost closed = self@.grid.closed_by(last);
        if boxes.len() >= 1 {
            proof {
                self@.grid.lemma_fill(closed[0].0, closed[0].1, self.player_turn);
            }
            self.board.fill_box(boxes[0], self.player_turn);
        }
        if boxes.len() >= 2 {
            proof {
                self@.grid.lemma_fill(closed[1].0, closed[1].1, self.player_turn);
            }
            self.board.fill_box(boxes[1], self.player_turn);
        }
        boxes.len() == 0
    }

    /// Checks whether the game is over: it is once every box has an owner.
    /// From then on the game waits for no move.
    pub fn check_game_over(&mut self) -> (game_over: bool)
        requires
            old(self).wf(),
        ensures
            final(self).wf(),
            final(self)@ == old(self)@.checked(),
            game_over == old(self)@.grid.complete(),
            game_over == (final(self)@.phase() == Phase::Terminal),
    {
        self.finished = self.board.is_complete();
        self.finished
    }

    /// Makes the move that `words` ask for, where it is legal.
    fn make_move(&mut self, words: &Vec<Vec<char>>) -> (r: Result<Played, IllegalMove>)
        requires
            old(self).wf(),
        ensures
            final(self).wf(),
            match old(self)@.answer(views(words@)) {
                Ok(mv) => {
                    &&& final(self)@ == old(self)@.after(mv)
                    &&& r == Ok::<Played, IllegalMove>(
                        Played {
                            edge: mv,
                            extra_turn: old(self)@.grid.claim(mv).closed_by(mv).len() > 0,
                            game_over: old(self)@.after(mv).finished,
                        },
                    )
                },
                Err(e) => r == Err::<Played, IllegalMove>(e) && final(self)@ == old(self)@,
            },
    {
        let mv = match self.place(words) {
            Ok(mv) => mv,
            Err(e) => { return Err(e); },
        };
        let change_player = self.update_game_board(mv);
        if change_player {
            self.player_turn = if self.player_turn >= self.player_count {
                1
            } else {
                self.player_turn + 1
            };
        }
        let game_over = self.check_game_over();
        Ok(Played { edge: mv, extra_turn: !change_player, game_over })
    }

    /// Makes the move `player_move`, a row, a column and `h` or `v`.
    ///
    /// An illegal move is turned down and changes nothing. A legal move
    /// claims its edge slot and gives the player whose turn it is every box
    /// that it closed. The turn stays with that player exactly if the move
    /// closed a box; otherwise it passes to the next player, and from the last
    /// to the first. The game is over once the board is complete.
    pub fn play(&mut self, player_move: Vec<&str>) -> (r: Result<Played, IllegalMove>)
        requires
            old(self).wf(),
        ensures
            final(self).wf(),
            match old(self)@.answer(words(player_move@)) {
                Ok(mv) => {
                    &&& final(self)@ == old(self)@.after(mv)
                    &&& r == Ok::<Played, IllegalMove>(
                        Played {
                            edge: mv,
                            extra_turn: old(self)@.grid.claim(mv).closed_by(mv).len() > 0,
                            game_over: final(self)@.grid.complete(),
                        },
                    )
                    &&& r.unwrap().game_over <==> final(self)@.phase() == Phase::Terminal
                    &&& r.unwrap().extra_turn <==> final(self)@.turn == old(self)@.turn
                    &&& !r.unwrap().extra_turn ==> final(self)@.turn == next_turn(
                        old(self)@.turn,
                        old(self)@.players,
                    )
                },
                Err(e) => r == Err::<Played, IllegalMove>(e) && final(self)@ == old(self)@,
            },
    {
        let words = texts_of(&player_move);
        self.make_move(&words)
    }

    /// Answers one line of input: a request to save the game, `w` and a
    /// path, or a move. Carriage returns and line feeds in the line are
    /// dropped, and its words are what single spaces separate.
    ///
    /// A request to save changes nothing: the answer holds the path and the
    /// text to write there, or the error where the game cannot be written. A
    /// move is made as `play` makes it.
    pub fn respond(&mut self, line: &str) -> (r: Response)
        requires
            old(self).wf(),
        ensures
            final(self).wf(),
            Position::wants_save(line@) ==> final(self)@ == old(self)@ && match r {
                Response::Save { path, contents } => {
                    &&& old(self)@.grid.encodable()
                    &&& path@ == split_on(without_line_ends(line@), ' ')[1]
                    &&& contents@ == old(self)@.save_text()
                },
                Response::Fatal(e) => e == ExitError::SystemCall && !old(self)@.grid.encodable(),
                _ => false,
            },
            !Position::wants_save(line@) ==> match old(self)@.answer(
                split_on(without_line_ends(line@), ' '),
            ) {
                Ok(mv) => {
                    &&& final(self)@ == old(self)@.after(mv)
                    &&& r matches Response::Played(played)
                    &&& played == (Played {
                        edge: mv,
                        extra_turn: old(self)@.grid.claim(mv).closed_by(mv).len() > 0,
                        game_over: final(self)@.grid.complete(),
                    })
                },
                Err(e) => {
                    &&& final(self)@ == old(self)@
                    &&& r matches Response::Rejected(x)
                    &&& x == e
                },
            },
    {
        let text = strip_line_ends(&chars_of(line));
        let words = split(&text, ' ');
        if words.len() == 2 && words[0].len() == 1 && words[0][0] == 'w' {
            assert(views(words@)[0] =~= seq!['w']);
            match self.save_game() {
                Ok(contents) => Response::Save { path: string_of(&words[1]), contents },
                Err(e) => Response::Fatal(e),
            }
        } else {
            match self.make_move(&words) {
                Ok(played) => Response::Played(played),
                Err(e) => Response::Rejected(e),
            }
        }
    }

    /// The text of the saved game: the rank of the player whose turn it is,
    /// the edge lines and the box lines, each line followed by a line feed.
    /// There is none where a player of a rank above nine owns a box, since a
    /// box is written as one digit.
    pub fn save_game(&self) -> (r: Result<String, ExitError>)
        requires
            self.wf(),
        ensures
            match r {
                Ok(text) => self@.grid.encodable() && text@ == self@.save_text(),
                Err(e) => e == ExitError::SystemCall && !self@.grid.encodable(),
            },
    {
        match self.board.serialize() {
            None => Err(ExitError::SystemCall),
            Some((edges, cells)) => {
                let mut edges = edges;
                let mut cells = cells;
                let mut lines: Vec<String> = Vec::new();
                lines.push(string_of(&decimal_text(self.player_turn as u64)));
                lines.append(&mut edges);
                lines.append(&mut cells);
                assert(texts(lines@) == self@.save_lines());
                Ok(unlines_text(&lines))
            },
        }
    }

    /// The picture of the board, one line for each row of the grid.
    pub fn render(&self) -> (lines: Vec<String>)
        requires
            self.wf(),
        ensures
            texts(lines@) == self@.picture(),
    {
        let h = self.board.height();
        let w = self.board.width();
        let mut lines: Vec<String> = Vec::new();
        let mut r: usize = 0;
        while r < 2 * h - 1
            invariant
                self.wf(),
                h == self@.grid.height(),
                w == self@.grid.width(),
                r <= 2 * h - 1,
                lines@.len() == r,
                forall|n: int| 0 <= n < r ==> (#[trigger] lines@[n])@ == self@.picture()[n],
            decreases 2 * h - 1 - r,
        {
            let mut line: Vec<char> = Vec::new();
            let mut c: usize = 0;
            while c < 2 * w - 1
                invariant
                    self.wf(),
                    h == self@.grid.height(),
                    w == self@.grid.width(),
                    r < 2 * h - 1,
                    c <= 2 * w - 1,
                    line@.len() == c,
                    forall|n: int| 0 <= n < c ==> #[trigger] line@[n] == self@.shown(r as int, n),
                decreases 2 * w - 1 - c,
            {
                let shown = match self.board.cell(r, c) {
                    Cell::Dot => '+',
                    Cell::Edge(claimed) => if !claimed {
                        ' '
                    } else if r % 2 == 0 {
                        '-'
                    } else {
                        '|'
                    },
                    Cell::Square(p) => if p == 0 {
                        ' '
                    } else {
                        proof {
                            assert(kind_fits(
                                self@.grid.cells[r as int][c as int],
                                r as int,
                                c as int,
                            ));
                            assert(self@.grid.owner(r as int / 2, c as int / 2) == p);
                        }
                        self.player_symbols[(p - 1) as usize]
                    },
                };
                line.push(shown);
                c += 1;
            }
            lines.push(string_of(&line));
            r += 1;
        }
        lines
    }

    /// The winners: the symbols of the players who own the most boxes, with
    /// a comma and a space between each two, in the order in which a scan of
    /// the board, row by row, first meets a box of theirs. Empty while no box
    /// has an owner.
    pub fn determine_winners(self) -> (winners: String)
        requires
            self.wf(),
        ensures
            winners@ == self@.winners(),
    {
        let t = self.board.tally_scores();
        let ghost owners = self@.grid.owners();
        proof {
            let g = self@.grid;
            g.lemma_owners_within(g.height() - 1, self@.players as int);
            lemma_first_seen(owners);
            assert forall|i: int| 0 <= i < t@.len() implies 1 <= (#[trigger] t@[i]).player
                <= self@.players by {
                let p = first_seen(owners)[i];
                assert(first_seen(owners).contains(p));
            }
        }
        let mut best: u64 = 0;
        let mut i: usize = 0;
        while i < t.len()
            invariant
                i <= t.len(),
                best == highest(t@.take(i as int)),
            decreases t.len() - i,
        {
            assert(t@.take(i + 1).drop_last() == t@.take(i as int));
            if t[i].boxes > best {
                best = t[i].boxes;
            }
            i += 1;
        }
        assert(t@.take(i as int) == t@);
        let mut out: Vec<char> = Vec::new();
        let mut any = false;
        let mut k: usize = 0;
        while k < t.len()
            invariant
                k <= t.len(),
                self.wf(),
                forall|i: int|
                    0 <= i < t@.len() ==> 1 <= (#[trigger] t@[i]).player <= self@.players,
                any == (players_with(t@.take(k as int), best).len() > 0),
                out@ == names(players_with(t@.take(k as int), best), self@.symbols),
            decreases t.len() - k,
        {
            let ghost chosen = players_with(t@.take(k as int), best);
            assert(t@.take(k + 1).drop_last() == t@.take(k as int));
            if t[k].boxes == best {
                let symbol = self.player_symbols[(t[k].player - 1) as usize];
                assert(chosen.push(t@[k as int].player).drop_last() == chosen);
                if any {
                    out.push(',');
                    out.push(' ');
                    out.push(symbol);
                } else {
                    out.push(symbol);
                }
                any = true;
            }
            k += 1;
        }
        string_of(&out)
    }
}

} // verus!
