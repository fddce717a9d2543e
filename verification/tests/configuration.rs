use boxes::configuration::{valid_cell_data, valid_edge_data, Config};
use boxes::error_handler::ExitError;

fn strings(lines: &[&str]) -> Vec<String> {
    lines.iter().map(|line| line.to_string()).collect()
}

fn fresh(height: u16, width: u16, player_count: u8) -> Config {
    Config {
        height,
        width,
        player_count,
        player_turn: 1,
        board_edges: Vec::new(),
        board_cells: Vec::new(),
    }
}

#[test]
fn build_reads_height_width_and_players() {
    let config = Config::build(&strings(&["boxes", "4", "7", "3"])).unwrap();
    assert_eq!(config.height, 4);
    assert_eq!(config.width, 7);
    assert_eq!(config.player_count, 3);
    assert_eq!(config.player_turn, 1);
    assert!(config.board_edges.is_empty());
    assert!(config.board_cells.is_empty());
    assert!(config.is_well_formed());
}

#[test]
fn build_takes_a_path_as_fourth_argument() {
    let config = Config::build(&strings(&["boxes", "2", "999", "100", "saved.txt"])).unwrap();
    assert_eq!(config.height, 2);
    assert_eq!(config.width, 999);
    assert_eq!(config.player_count, 100);
    assert_eq!(config.player_turn, 1);
    assert!(config.board_edges.is_empty());
    assert!(config.board_cells.is_empty());
}

#[test]
fn build_takes_numbers_as_the_standard_library_reads_them() {
    let config = Config::build(&strings(&["boxes", "+4", "007", "+02"])).unwrap();
    assert_eq!(config.height, 4);
    assert_eq!(config.width, 7);
    assert_eq!(config.player_count, 2);
}

#[test]
fn build_refuses_a_wrong_number_of_arguments() {
    for args in [
        strings(&[]),
        strings(&["boxes"]),
        strings(&["boxes", "4"]),
        strings(&["boxes", "4", "4"]),
        strings(&["boxes", "4", "4", "2", "file", "more"]),
        strings(&["boxes", "x", "y", "z", "file", "more"]),
    ] {
        assert_eq!(Config::build(&args).unwrap_err(), ExitError::Usage);
    }
}

#[test]
fn build_refuses_bad_dimensions() {
    for (height, width) in [
        ("1", "4"),
        ("4", "1"),
        ("0", "0"),
        ("1000", "4"),
        ("4", "1000"),
        ("65536", "4"),
        ("four", "4"),
        ("4", ""),
        ("-4", "4"),
        ("4", "4.0"),
        (" 4", "4"),
    ] {
        let args = strings(&["boxes", height, width, "2"]);
        assert_eq!(Config::build(&args).unwrap_err(), ExitError::Dimensions);
    }
}

#[test]
fn build_refuses_a_bad_player_count() {
    for players in ["1", "0", "101", "256", "two", "", "-2"] {
        let args = strings(&["boxes", "4", "4", players]);
        assert_eq!(Config::build(&args).unwrap_err(), ExitError::PlayerCount);
    }
}

#[test]
fn build_looks_at_the_dimensions_before_the_players() {
    let args = strings(&["boxes", "1", "4", "1"]);
    assert_eq!(Config::build(&args).unwrap_err(), ExitError::Dimensions);
}

#[test]
fn edge_data_of_the_right_shape_is_valid() {
    assert!(valid_edge_data(&strings(&["0", "00", "0"]), 2, 2));
    assert!(valid_edge_data(&strings(&["10", "011", "00", "110", "01"]), 3, 3));
    assert!(valid_edge_data(&strings(&["000", "0000", "000"]), 2, 4));
    assert!(valid_edge_data(&strings(&["1", "11", "1", "11", "1"]), 3, 2));
}

#[test]
fn edge_data_takes_any_character_in_a_slot() {
    assert!(valid_edge_data(&strings(&["x", "é1", " "]), 2, 2));
}

#[test]
fn edge_data_with_a_row_of_wrong_length_is_invalid() {
    assert!(!valid_edge_data(&strings(&["00", "00", "0"]), 2, 2));
    assert!(!valid_edge_data(&strings(&["0", "000", "0"]), 2, 2));
    assert!(!valid_edge_data(&strings(&["0", "0", "0"]), 2, 2));
    assert!(!valid_edge_data(&strings(&["0", "00", ""]), 2, 2));
    assert!(!valid_edge_data(&strings(&["00", "000", "00"]), 2, 2));
}

#[test]
fn edge_data_with_a_wrong_number_of_rows_is_invalid() {
    assert!(!valid_edge_data(&strings(&[]), 2, 2));
    assert!(!valid_edge_data(&strings(&["0", "00"]), 2, 2));
    assert!(!valid_edge_data(&strings(&["0", "00", "0", "00"]), 2, 2));
    assert!(!valid_edge_data(&strings(&["0", "00", "0", "00", "0"]), 2, 2));
    assert!(!valid_edge_data(&strings(&[]), 0, 2));
    assert!(!valid_edge_data(&strings(&[""]), 1, 0));
    assert!(valid_edge_data(&strings(&[""]), 1, 1));
}

#[test]
fn cell_data_of_the_right_shape_is_valid() {
    assert!(valid_cell_data(&strings(&["0"]), 2, 2, 2));
    assert!(valid_cell_data(&strings(&["0,1", "2,0"]), 3, 3, 2));
    assert!(valid_cell_data(&strings(&["9,8,7"]), 2, 4, 9));
    assert!(valid_cell_data(&strings(&["9,8,7"]), 2, 4, 100));
    assert!(valid_cell_data(&strings(&[]), 1, 3, 2));
}

#[test]
fn cell_data_with_an_owner_above_the_player_count_is_invalid() {
    assert!(!valid_cell_data(&strings(&["0,3", "2,0"]), 3, 3, 2));
    assert!(!valid_cell_data(&strings(&["3"]), 2, 2, 2));
    assert!(valid_cell_data(&strings(&["3"]), 2, 2, 3));
}

#[test]
fn cell_data_holds_one_digit_for_each_box() {
    assert!(!valid_cell_data(&strings(&["10,0"]), 2, 3, 100));
    assert!(!valid_cell_data(&strings(&["01,0"]), 2, 3, 100));
    assert!(!valid_cell_data(&strings(&["+1,0"]), 2, 3, 100));
    assert!(!valid_cell_data(&strings(&["a,0"]), 2, 3, 100));
    assert!(!valid_cell_data(&strings(&[",0"]), 2, 3, 100));
    assert!(!valid_cell_data(&strings(&["0,"]), 2, 3, 100));
    assert!(!valid_cell_data(&strings(&["0;0"]), 2, 3, 100));
    assert!(!valid_cell_data(&strings(&["0 0"]), 2, 3, 100));
}

#[test]
fn cell_data_with_a_wrong_number_of_boxes_is_invalid() {
    assert!(!valid_cell_data(&strings(&["0"]), 2, 3, 2));
    assert!(!valid_cell_data(&strings(&["0,0,0"]), 2, 3, 2));
    assert!(!valid_cell_data(&strings(&[""]), 2, 3, 2));
    assert!(!valid_cell_data(&strings(&[""]), 2, 1, 2));
    assert!(!valid_cell_data(&strings(&["0"]), 2, 1, 2));
}

#[test]
fn cell_data_with_a_wrong_number_of_rows_is_invalid() {
    assert!(!valid_cell_data(&strings(&[]), 2, 2, 2));
    assert!(!valid_cell_data(&strings(&["0", "0"]), 2, 2, 2));
    assert!(!valid_cell_data(&strings(&["0,0"]), 3, 3, 2));
    assert!(!valid_cell_data(&strings(&[]), 0, 2, 2));
}

#[test]
fn restore_takes_up_a_saved_game() {
    let lines = strings(&["2", "10", "011", "00", "000", "01", "0,2", "0,0"]);
    let config = fresh(3, 3, 2).restore(&lines).unwrap();
    assert_eq!(config.height, 3);
    assert_eq!(config.width, 3);
    assert_eq!(config.player_count, 2);
    assert_eq!(config.player_turn, 2);
    assert_eq!(config.board_edges, strings(&["10", "011", "00", "000", "01"]));
    assert_eq!(config.board_cells, strings(&["0,2", "0,0"]));
    assert!(config.is_well_formed());
}

#[test]
fn restore_takes_up_a_saved_game_of_a_board_that_is_not_square() {
    let lines = strings(&["1", "0", "11", "0", "00", "1", "1", "0"]);
    let config = fresh(3, 2, 4).restore(&lines).unwrap();
    assert_eq!(config.player_turn, 1);
    assert_eq!(config.board_edges, strings(&["0", "11", "0", "00", "1"]));
    assert_eq!(config.board_cells, strings(&["1", "0"]));
}

#[test]
fn restore_refuses_an_edge_row_of_wrong_length() {
    let lines = strings(&["1", "00", "00", "0", "0"]);
    assert_eq!(fresh(2, 2, 2).restore(&lines).unwrap_err(), ExitError::SaveContents);
    let lines = strings(&["1", "0", "0", "0", "0"]);
    assert_eq!(fresh(2, 2, 2).restore(&lines).unwrap_err(), ExitError::SaveContents);
}

#[test]
fn restore_refuses_a_bad_turn() {
    for turn in ["0", "3", "101", "256", "", "x", "-1"] {
        let lines = strings(&[turn, "0", "00", "0", "0"]);
        assert_eq!(fresh(2, 2, 2).restore(&lines).unwrap_err(), ExitError::SaveContents);
    }
    let lines = strings(&["2", "0", "00", "0", "0"]);
    assert_eq!(fresh(2, 2, 2).restore(&lines).unwrap().player_turn, 2);
}

#[test]
fn restore_refuses_a_wrong_number_of_lines() {
    for lines in [
        strings(&[]),
        strings(&["1"]),
        strings(&["1", "0", "00", "0"]),
        strings(&["1", "0", "00", "0", "0", "0"]),
        strings(&["1", "0", "00", "0", "0", ""]),
    ] {
        assert_eq!(fresh(2, 2, 2).restore(&lines).unwrap_err(), ExitError::SaveContents);
    }
}

#[test]
fn restore_refuses_bad_box_lines() {
    let lines = strings(&["1", "00", "000", "00", "0,3"]);
    assert_eq!(fresh(2, 3, 2).restore(&lines).unwrap_err(), ExitError::SaveContents);
    let lines = strings(&["1", "00", "000", "00", "0"]);
    assert_eq!(fresh(2, 3, 2).restore(&lines).unwrap_err(), ExitError::SaveContents);
    let lines = strings(&["1", "00", "000", "00", "0,2"]);
    assert!(fresh(2, 3, 2).restore(&lines).is_ok());
}

#[test]
fn well_formed_configurations_are_told_from_others() {
    assert!(fresh(2, 2, 2).is_well_formed());
    assert!(fresh(999, 999, 100).is_well_formed());
    assert!(!fresh(1, 2, 2).is_well_formed());
    assert!(!fresh(2, 1000, 2).is_well_formed());
    assert!(!fresh(2, 2, 1).is_well_formed());
    assert!(!fresh(2, 2, 101).is_well_formed());
    let mut config = fresh(2, 2, 2);
    config.player_turn = 3;
    assert!(!config.is_well_formed());
    config.player_turn = 0;
    assert!(!config.is_well_formed());
    let mut config = fresh(2, 2, 2);
    config.board_edges = strings(&["0", "00", "0"]);
    assert!(config.is_well_formed());
    config.board_cells = strings(&["3"]);
    assert!(!config.is_well_formed());
    config.board_cells = strings(&["2"]);
    assert!(config.is_well_formed());
    config.board_edges = strings(&["0", "00"]);
    assert!(!config.is_well_formed());
}
