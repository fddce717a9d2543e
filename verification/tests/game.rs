use boxes::grid::{IllegalMove, Move, Orientation};
use boxes::configuration::Config;
use boxes::error_handler::ExitError;
use boxes::game::{parse_move, save_report, Game, Phase, Played, Response, SaveOutcome};

fn strings(lines: &[&str]) -> Vec<String> {
    lines.iter().map(|line| line.to_string()).collect()
}

fn new_game(height: u16, width: u16, player_count: u8, player_turn: u8) -> Game {
    Game::build(Config {
        height,
        width,
        player_count,
        player_turn,
        board_edges: Vec::new(),
        board_cells: Vec::new(),
    })
}

fn saved_game(
    height: u16,
    width: u16,
    player_count: u8,
    player_turn: u8,
    edges: &[&str],
    cells: &[&str],
) -> Game {
    Game::build(Config {
        height,
        width,
        player_count,
        player_turn,
        board_edges: strings(edges),
        board_cells: strings(cells),
    })
}

fn words(text: &str) -> Vec<&str> {
    text.split(' ').collect()
}

fn chars(texts: &[&str]) -> Vec<Vec<char>> {
    texts.iter().map(|text| text.chars().collect()).collect()
}

fn horizontal(row: usize, col: usize) -> Move {
    Move { row, col, orientation: Orientation::Horizontal }
}

fn vertical(row: usize, col: usize) -> Move {
    Move { row, col, orientation: Orientation::Vertical }
}

fn played(edge: Move, extra_turn: bool, game_over: bool) -> Played {
    Played { edge, extra_turn, game_over }
}

#[test]
fn new_game_waits_for_the_first_player() {
    let mut game = new_game(3, 3, 2, 1);
    assert_eq!(game.player_count(), 2);
    assert_eq!(game.player_turn(), 1);
    assert_eq!(game.player_symbol(), 'A');
    assert_eq!(game.phase(), Phase::AwaitingMove(1));
    assert!(!game.check_game_over());
    assert_eq!(game.phase(), Phase::AwaitingMove(1));
    assert_eq!(game.render(), strings(&["+ + +", "     ", "+ + +", "     ", "+ + +"]));
}

#[test]
fn players_have_the_letters_of_their_ranks() {
    assert_eq!(new_game(2, 2, 2, 2).player_symbol(), 'B');
    assert_eq!(new_game(2, 2, 26, 26).player_symbol(), 'Z');
    assert_eq!(new_game(2, 2, 27, 27).player_symbol(), '[');
    assert_eq!(new_game(2, 2, 100, 100).player_symbol(), '\u{a4}');
}

#[test]
fn saved_game_is_taken_up() {
    let game = saved_game(
        3,
        3,
        3,
        2,
        &["11", "110", "10", "000", "00"],
        &["3,0", "0,0"],
    );
    assert_eq!(game.player_turn(), 2);
    assert_eq!(game.player_symbol(), 'B');
    assert_eq!(game.render(), strings(&["+-+-+", "|C|  ", "+-+ +", "     ", "+ + +"]));
    assert_eq!(game.board().owner(0, 0), Some(3));
}

#[test]
fn parse_move_reads_row_column_and_orientation() {
    assert_eq!(parse_move(&chars(&["0", "0", "h"])), Ok(horizontal(0, 0)));
    assert_eq!(parse_move(&chars(&["12", "3", "v"])), Ok(vertical(12, 3)));
    assert_eq!(parse_move(&chars(&["+1", "02", "v"])), Ok(vertical(1, 2)));
}

#[test]
fn parse_move_names_what_is_wrong() {
    assert_eq!(parse_move(&chars(&[])), Err(IllegalMove::ArgumentCount));
    assert_eq!(parse_move(&chars(&["0", "0"])), Err(IllegalMove::ArgumentCount));
    assert_eq!(parse_move(&chars(&["0", "0", "h", "x"])), Err(IllegalMove::ArgumentCount));
    assert_eq!(parse_move(&chars(&["a", "0", "h"])), Err(IllegalMove::NonNumeric));
    assert_eq!(parse_move(&chars(&["0", "-1", "h"])), Err(IllegalMove::NonNumeric));
    assert_eq!(parse_move(&chars(&["", "0", "h"])), Err(IllegalMove::NonNumeric));
    assert_eq!(parse_move(&chars(&["0", "0", "x"])), Err(IllegalMove::BadOrientation));
    assert_eq!(parse_move(&chars(&["0", "0", "hv"])), Err(IllegalMove::BadOrientation));
    assert_eq!(parse_move(&chars(&["0", "0", ""])), Err(IllegalMove::BadOrientation));
    assert_eq!(parse_move(&chars(&["0", "0", "H"])), Err(IllegalMove::BadOrientation));
    assert_eq!(
        parse_move(&chars(&["99999999999999999999999999", "0", "h"])),
        Err(IllegalMove::OutOfRange)
    );
}

#[test]
fn parse_move_looks_at_numbers_before_orientation_before_size() {
    assert_eq!(
        parse_move(&chars(&["99999999999999999999999999", "x", "q"])),
        Err(IllegalMove::NonNumeric)
    );
    assert_eq!(
        parse_move(&chars(&["99999999999999999999999999", "0", "q"])),
        Err(IllegalMove::BadOrientation)
    );
}

#[test]
fn move_is_legal_exactly_once() {
    let mut game = new_game(4, 4, 2, 1);
    assert_eq!(game.validate_player_move(words("0 0 h")), Ok(horizontal(0, 0)));
    let picture = game.render();
    assert_eq!(picture[0], "+-+ + +");
    assert_eq!(game.validate_player_move(words("0 0 h")), Err(IllegalMove::AlreadyClaimed));
    assert_eq!(game.render(), picture);
}

#[test]
fn repeated_move_is_rejected_by_play() {
    let mut game = new_game(4, 4, 2, 1);
    assert_eq!(game.play(words("0 0 h")), Ok(played(horizontal(0, 0), false, false)));
    assert_eq!(game.player_turn(), 2);
    let picture = game.render();
    assert_eq!(game.play(words("0 0 h")), Err(IllegalMove::AlreadyClaimed));
    assert_eq!(game.player_turn(), 2);
    assert_eq!(game.render(), picture);
}

#[test]
fn moves_outside_the_board_are_rejected() {
    let mut game = new_game(4, 4, 2, 1);
    for text in ["4 0 h", "0 3 h", "3 0 v", "0 4 v", "100 100 h"] {
        assert_eq!(game.validate_player_move(words(text)), Err(IllegalMove::OutOfRange));
    }
    for text in ["3 2 h", "2 3 v"] {
        assert!(game.validate_player_move(words(text)).is_ok());
    }
}

#[test]
fn malformed_moves_are_rejected_without_a_change() {
    let mut game = new_game(3, 3, 2, 1);
    let picture = game.render();
    for (text, error) in [
        ("", IllegalMove::ArgumentCount),
        ("0 0", IllegalMove::ArgumentCount),
        ("0 0 h h", IllegalMove::ArgumentCount),
        ("0  0 h", IllegalMove::ArgumentCount),
        ("x 0 h", IllegalMove::NonNumeric),
        ("0 y h", IllegalMove::NonNumeric),
        ("-1 0 h", IllegalMove::NonNumeric),
        ("0 0 d", IllegalMove::BadOrientation),
        ("0 0 hh", IllegalMove::BadOrientation),
        ("9 9 h", IllegalMove::OutOfRange),
    ] {
        assert_eq!(game.play(words(text)), Err(error));
        assert_eq!(game.player_turn(), 1);
        assert_eq!(game.render(), picture);
    }
}

#[test]
fn update_gives_closed_boxes_to_the_player_in_turn() {
    let mut game = saved_game(2, 3, 3, 3, &["11", "101", "11"], &["0,0"]);
    let edge = game.validate_player_move(words("0 1 v")).unwrap();
    assert_eq!(edge, vertical(0, 1));
    assert_eq!(game.board().owner(0, 0), Some(0));
    assert!(!game.update_game_board(edge));
    assert_eq!(game.board().owner(0, 0), Some(3));
    assert_eq!(game.board().owner(0, 1), Some(3));
    assert_eq!(game.player_turn(), 3);
    assert_eq!(game.phase(), Phase::AwaitingMove(3));
    assert!(game.check_game_over());
    assert_eq!(game.phase(), Phase::Terminal);
    assert_eq!(game.render(), strings(&["+-+-+", "|C|C|", "+-+-+"]));
}

#[test]
fn update_passes_the_turn_where_nothing_closed() {
    let mut game = new_game(2, 3, 2, 1);
    let edge = game.validate_player_move(words("0 1 v")).unwrap();
    assert!(game.update_game_board(edge));
    assert_eq!(game.board().owner(0, 0), Some(0));
    assert_eq!(game.board().owner(0, 1), Some(0));
    assert!(!game.check_game_over());
}

#[test]
fn turn_passes_to_the_next_player_and_wraps() {
    let mut game = new_game(3, 3, 3, 1);
    assert_eq!(game.play(words("0 0 h")), Ok(played(horizontal(0, 0), false, false)));
    assert_eq!(game.player_turn(), 2);
    assert_eq!(game.phase(), Phase::AwaitingMove(2));
    assert_eq!(game.play(words("0 1 h")), Ok(played(horizontal(0, 1), false, false)));
    assert_eq!(game.player_turn(), 3);
    assert_eq!(game.player_symbol(), 'C');
    assert_eq!(game.play(words("2 0 h")), Ok(played(horizontal(2, 0), false, false)));
    assert_eq!(game.player_turn(), 1);
    assert_eq!(game.player_symbol(), 'A');
}

#[test]
fn turn_stays_with_the_player_who_closed_a_box() {
    let mut game = new_game(3, 3, 3, 2);
    for text in ["0 0 h", "1 0 h", "0 0 v"] {
        assert_eq!(game.play(words(text)).unwrap().extra_turn, false);
    }
    assert_eq!(game.player_turn(), 2);
    assert_eq!(game.play(words("0 1 v")), Ok(played(vertical(0, 1), true, false)));
    assert_eq!(game.player_turn(), 2);
    assert_eq!(game.board().owner(0, 0), Some(2));
    assert_eq!(game.play(words("2 1 h")), Ok(played(horizontal(2, 1), false, false)));
    assert_eq!(game.player_turn(), 3);
}

#[test]
fn single_box_goes_to_the_player_of_the_fourth_edge() {
    let mut game = new_game(2, 2, 2, 1);
    assert_eq!(game.play(words("0 0 h")), Ok(played(horizontal(0, 0), false, false)));
    assert_eq!(game.play(words("1 0 h")), Ok(played(horizontal(1, 0), false, false)));
    assert_eq!(game.play(words("0 0 v")), Ok(played(vertical(0, 0), false, false)));
    assert_eq!(game.player_turn(), 2);
    assert_eq!(game.phase(), Phase::AwaitingMove(2));
    assert_eq!(game.play(words("0 1 v")), Ok(played(vertical(0, 1), true, true)));
    assert_eq!(game.board().owner(0, 0), Some(2));
    assert_eq!(game.player_turn(), 2);
    assert_eq!(game.phase(), Phase::Terminal);
    assert!(game.check_game_over());
    assert_eq!(game.render(), strings(&["+-+", "|B|", "+-+"]));
    assert_eq!(game.determine_winners(), "B");
}

#[test]
fn single_box_is_closed_by_the_fourth_edge_in_any_order() {
    let edges = ["0 0 h", "1 0 h", "0 0 v", "0 1 v"];
    let orders = [
        [0, 1, 2, 3],
        [3, 2, 1, 0],
        [1, 3, 0, 2],
        [2, 0, 3, 1],
        [0, 2, 1, 3],
        [3, 0, 2, 1],
    ];
    for first in [1u8, 2u8] {
        for order in orders {
            let mut game = new_game(2, 2, 2, first);
            for step in 0..3 {
                let answer = game.play(words(edges[order[step]])).unwrap();
                assert!(!answer.extra_turn);
                assert!(!answer.game_over);
                assert_eq!(game.board().owner(0, 0), Some(0));
            }
            let mover = game.player_turn();
            assert_eq!(mover, 3 - first);
            let answer = game.play(words(edges[order[3]])).unwrap();
            assert!(answer.extra_turn);
            assert!(answer.game_over);
            assert_eq!(game.board().owner(0, 0), Some(mover));
            assert_eq!(game.phase(), Phase::Terminal);
            let symbol = if mover == 1 { "A" } else { "B" };
            assert_eq!(game.determine_winners(), symbol);
        }
    }
}

#[test]
fn winner_owns_the_most_boxes() {
    let mut game = saved_game(
        3,
        3,
        3,
        1,
        &["11", "111", "11", "111", "11"],
        &["2,3", "3,3"],
    );
    assert_eq!(game.phase(), Phase::AwaitingMove(1));
    assert!(game.check_game_over());
    assert_eq!(game.phase(), Phase::Terminal);
    assert_eq!(game.determine_winners(), "C");
}

#[test]
fn tied_winners_stand_in_the_order_of_the_scan() {
    let game = saved_game(
        3,
        3,
        2,
        1,
        &["11", "111", "11", "111", "11"],
        &["2,1", "1,2"],
    );
    assert_eq!(game.determine_winners(), "B, A");
    let game = saved_game(
        3,
        4,
        4,
        1,
        &["111", "1111", "111", "1111", "111"],
        &["3,1,4", "4,1,3"],
    );
    assert_eq!(game.determine_winners(), "C, A, D");
    let game = saved_game(
        3,
        4,
        4,
        1,
        &["111", "1111", "111", "1111", "111"],
        &["3,1,4", "4,1,4"],
    );
    assert_eq!(game.determine_winners(), "D");
}

#[test]
fn nobody_wins_while_no_box_is_owned() {
    assert_eq!(new_game(3, 3, 2, 1).determine_winners(), "");
}

#[test]
fn respond_makes_a_move() {
    let mut game = new_game(3, 3, 2, 1);
    assert_eq!(game.respond("0 1 h\n"), Response::Played(played(horizontal(0, 1), false, false)));
    assert_eq!(game.player_turn(), 2);
    assert_eq!(game.respond("1 2 v\r\n"), Response::Played(played(vertical(1, 2), false, false)));
    assert_eq!(game.player_turn(), 1);
    assert_eq!(game.respond("1 2 v"), Response::Rejected(IllegalMove::AlreadyClaimed));
    assert_eq!(game.player_turn(), 1);
    assert_eq!(game.render(), strings(&["+ +-+", "     ", "+ + +", "    |", "+ + +"]));
}

#[test]
fn respond_rejects_what_is_no_move() {
    let mut game = new_game(3, 3, 2, 1);
    let picture = game.render();
    for (line, error) in [
        ("\n", IllegalMove::ArgumentCount),
        ("w\n", IllegalMove::ArgumentCount),
        ("w a b\n", IllegalMove::NonNumeric),
        ("x file\n", IllegalMove::ArgumentCount),
        ("0 0 h \n", IllegalMove::ArgumentCount),
        (" 0 0 h\n", IllegalMove::ArgumentCount),
        ("0 0  h\n", IllegalMove::ArgumentCount),
        ("0 0 z\n", IllegalMove::BadOrientation),
        ("0 2 h\n", IllegalMove::OutOfRange),
    ] {
        assert_eq!(game.respond(line), Response::Rejected(error));
        assert_eq!(game.player_turn(), 1);
        assert_eq!(game.render(), picture);
    }
}

#[test]
fn respond_hands_out_the_saved_game_and_changes_nothing() {
    let mut game = new_game(2, 3, 2, 1);
    game.play(words("0 1 h")).unwrap();
    let picture = game.render();
    assert_eq!(
        game.respond("w existingfile.txt\n"),
        Response::Save {
            path: "existingfile.txt".to_string(),
            contents: "2\n01\n000\n00\n0,0\n".to_string(),
        }
    );
    assert_eq!(game.player_turn(), 2);
    assert_eq!(game.render(), picture);
    assert_eq!(game.phase(), Phase::AwaitingMove(2));
}

#[test]
fn respond_takes_an_empty_path() {
    let mut game = new_game(2, 2, 2, 1);
    assert_eq!(
        game.respond("w \n"),
        Response::Save { path: "".to_string(), contents: "1\n0\n00\n0\n0\n".to_string() }
    );
}

#[test]
fn save_game_writes_turn_edges_and_boxes() {
    let mut game = new_game(3, 3, 2, 1);
    assert_eq!(
        game.save_game(),
        Ok("1\n00\n000\n00\n000\n00\n0,0\n0,0\n".to_string())
    );
    for text in ["0 1 h", "1 1 h", "0 1 v", "0 2 v"] {
        game.play(words(text)).unwrap();
    }
    assert_eq!(
        game.save_game(),
        Ok("2\n01\n011\n01\n000\n00\n0,2\n0,0\n".to_string())
    );
}

#[test]
fn save_game_fails_once_a_rank_above_nine_owns_a_box() {
    let mut game = saved_game(2, 3, 10, 10, &["11", "101", "11"], &["0,0"]);
    assert!(game.save_game().is_ok());
    game.play(words("0 1 v")).unwrap();
    assert_eq!(game.board().owner(0, 0), Some(10));
    assert_eq!(game.save_game(), Err(ExitError::SystemCall));
    assert_eq!(game.respond("w file\n"), Response::Fatal(ExitError::SystemCall));
    assert_eq!(game.determine_winners(), "J");
}

#[test]
fn saved_game_restores_the_game() {
    let mut game = new_game(3, 4, 3, 1);
    for text in ["0 0 h", "1 0 h", "0 0 v", "0 1 v", "2 2 h", "1 3 v"] {
        game.play(words(text)).unwrap();
    }
    let text = game.save_game().unwrap();
    let lines: Vec<String> = text.lines().map(|line| line.to_string()).collect();
    let config = Config::build(&strings(&["boxes", "3", "4", "3", "file"])).unwrap();
    let config = config.restore(&lines).unwrap();
    let copy = Game::build(config);
    assert_eq!(copy.player_turn(), game.player_turn());
    assert_eq!(copy.player_count(), game.player_count());
    assert_eq!(copy.render(), game.render());
    assert_eq!(copy.save_game(), Ok(text));
}

#[test]
fn saved_game_of_a_single_column_restores_the_game() {
    let mut game = new_game(3, 2, 2, 1);
    for text in ["0 0 h", "1 0 h", "0 0 v", "0 1 v"] {
        game.play(words(text)).unwrap();
    }
    let text = game.save_game().unwrap();
    assert_eq!(text, "2\n1\n11\n1\n00\n0\n2\n0\n");
    let lines: Vec<String> = text.lines().map(|line| line.to_string()).collect();
    let config = Config::build(&strings(&["boxes", "3", "2", "2", "file"])).unwrap();
    let copy = Game::build(config.restore(&lines).unwrap());
    assert_eq!(copy.render(), game.render());
    assert_eq!(copy.render(), strings(&["+-+", "|B|", "+-+", "   ", "+ +"]));
}

#[test]
fn failed_save_is_reported_or_ends_the_program() {
    assert_eq!(save_report(SaveOutcome::NotCreated), Ok("Error opening file for saving grid"));
    assert_eq!(save_report(SaveOutcome::NotWritten), Err(ExitError::SystemCall));
    assert_eq!(save_report(SaveOutcome::Written), Ok("Save of grid successful"));
}

#[test]
fn players_have_different_symbols() {
    let mut seen = Vec::new();
    for rank in 1..=100u8 {
        let symbol = new_game(2, 2, 100, rank).player_symbol();
        assert!(!seen.contains(&symbol));
        seen.push(symbol);
    }
    assert_eq!(seen[0], 'A');
    assert_eq!(seen[25], 'Z');
}

#[test]
fn game_stays_over_once_it_is_over() {
    let mut game = saved_game(2, 2, 2, 1, &["1", "11", "0"], &["2"]);
    assert_eq!(game.phase(), Phase::AwaitingMove(1));
    assert_eq!(game.play(words("1 0 h")), Ok(played(horizontal(1, 0), false, true)));
    assert_eq!(game.phase(), Phase::Terminal);
    assert_eq!(game.board().owner(0, 0), Some(2));
    assert_eq!(game.play(words("1 0 h")), Err(IllegalMove::AlreadyClaimed));
    assert_eq!(game.phase(), Phase::Terminal);
    assert_eq!(game.determine_winners(), "B");
}
