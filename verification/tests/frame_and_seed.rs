use game_of_life::board::is_well_formed;
use game_of_life::frame::render;
use game_of_life::seed::{cell_from_byte, random_board, row_from_bytes};
use game_of_life::step::update;

#[test]
fn render_draws_a_bordered_frame() {
    let board = vec![vec![1u8, 0, 0], vec![0, 1, 1]];
    let expected = "---------\n| o     |\n|   o o |\n---------\n";
    assert_eq!(render(&board), expected);
}

#[test]
fn render_of_a_single_cell() {
    assert_eq!(render(&vec![vec![1u8]]), "-----\n| o |\n-----\n");
    assert_eq!(render(&vec![vec![0u8]]), "-----\n|   |\n-----\n");
}

#[test]
fn render_marks_only_live_cells() {
    assert_eq!(render(&vec![vec![2u8, 1, 255]]), "---------\n|   o   |\n---------\n");
}

#[test]
fn render_takes_the_border_from_the_first_row() {
    let ragged = vec![vec![1u8], vec![0, 1, 1]];
    assert_eq!(render(&ragged), "-----\n| o |\n|   o o |\n-----\n");
    let no_columns = vec![Vec::<u8>::new(), Vec::<u8>::new()];
    assert_eq!(render(&no_columns), "---\n| |\n| |\n---\n");
}

#[test]
fn cell_from_byte_is_the_parity() {
    for byte in 0u8..=255 {
        assert_eq!(cell_from_byte(byte), byte % 2);
    }
    assert_eq!(cell_from_byte(0), 0);
    assert_eq!(cell_from_byte(1), 1);
    assert_eq!(cell_from_byte(254), 0);
    assert_eq!(cell_from_byte(255), 1);
}

#[test]
fn row_from_bytes_keeps_order_and_length() {
    let bytes: Vec<u8> = vec![0, 1, 2, 3, 254, 255, 7, 8];
    assert_eq!(row_from_bytes(&bytes), vec![0u8, 1, 0, 1, 0, 1, 1, 0]);
    assert_eq!(row_from_bytes(&Vec::new()), Vec::<u8>::new());
    assert_eq!(bytes, vec![0u8, 1, 2, 3, 254, 255, 7, 8]);
}

#[test]
fn random_board_has_the_wanted_shape() {
    let board = random_board(7, 3).expect("the system gives random bytes");
    assert_eq!(board.len(), 3);
    for row in &board {
        assert_eq!(row.len(), 7);
        for &cell in row {
            assert!(cell <= 1);
        }
    }
    assert!(is_well_formed(&board));
}

#[test]
fn random_board_without_cells_always_comes() {
    let no_rows = random_board(4, 0);
    assert_eq!(no_rows, Some(Vec::<Vec<u8>>::new()));
    assert!(!is_well_formed(&no_rows.unwrap()));
    let no_columns = random_board(0, 2);
    assert_eq!(no_columns, Some(vec![Vec::<u8>::new(), Vec::<u8>::new()]));
    assert!(!is_well_formed(&no_columns.unwrap()));
    assert_eq!(random_board(0, 0), Some(Vec::<Vec<u8>>::new()));
}

#[test]
fn random_board_draws_both_states() {
    // 4096 cells that all came out alike would take a broken generator.
    let board = random_board(64, 64).expect("the system gives random bytes");
    let alive: usize = board.iter().map(|row| row.iter().filter(|&&c| c == 1).count()).sum();
    assert!(alive > 0);
    assert!(alive < 64 * 64);
}

#[test]
fn random_board_draws_every_row_anew() {
    let board = random_board(256, 8).expect("the system gives random bytes");
    for x in 1..board.len() {
        assert_ne!(board[x], board[0]);
    }
    let again = random_board(256, 8).expect("the system gives random bytes");
    assert_ne!(board, again);
}

#[test]
fn random_board_can_be_advanced() {
    let mut board = random_board(9, 5).expect("the system gives random bytes");
    update(&mut board);
    assert!(is_well_formed(&board));
    assert_eq!(board.len(), 5);
    assert_eq!(board[0].len(), 9);
}
