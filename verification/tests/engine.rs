use game_of_life::board::is_well_formed;
use game_of_life::modular::{after, before, m};
use game_of_life::neighbours::neighbour_count;
use game_of_life::step::{next_cell, update};

fn empty(rows: usize, cols: usize) -> Vec<Vec<u8>> {
    vec![vec![0u8; cols]; rows]
}

fn with_alive(rows: usize, cols: usize, alive: &[(usize, usize)]) -> Vec<Vec<u8>> {
    let mut board = empty(rows, cols);
    for &(x, y) in alive {
        board[x][y] = 1;
    }
    board
}

#[test]
fn m_is_the_mathematical_remainder() {
    assert_eq!(m(-1, 5), 4);
    assert_eq!(m(5, 5), 0);
    assert_eq!(m(7, 5), 2);
    assert_eq!(m(0, 5), 0);
    assert_eq!(m(-5, 5), 0);
    assert_eq!(m(-6, 5), 4);
    assert_eq!(m(-1, 1), 0);
    assert_eq!(m(3, 1), 0);
}

#[test]
fn m_does_not_overflow_on_large_moduli() {
    assert_eq!(m(19999, 20000), 19999);
    assert_eq!(m(-1, 32767), 32766);
    assert_eq!(m(32767, 32767), 0);
    assert_eq!(m(-32768, 32767), 32766);
    assert_eq!(m(-32768, 1), 0);
}

#[test]
fn before_and_after_wrap_at_the_ends() {
    assert_eq!(before(0, 5), 4);
    assert_eq!(before(3, 5), 2);
    assert_eq!(after(4, 5), 0);
    assert_eq!(after(2, 5), 3);
    assert_eq!(before(0, 1), 0);
    assert_eq!(after(0, 1), 0);
}

#[test]
fn well_formed_boards_are_accepted() {
    assert!(is_well_formed(&vec![vec![0u8]]));
    assert!(is_well_formed(&vec![vec![1u8, 0], vec![0, 1], vec![1, 1]]));
}

#[test]
fn malformed_boards_are_refused() {
    let no_rows: Vec<Vec<u8>> = Vec::new();
    assert!(!is_well_formed(&no_rows));
    assert!(!is_well_formed(&vec![Vec::<u8>::new()]));
    assert!(!is_well_formed(&vec![vec![0u8, 1], vec![0]]));
    assert!(!is_well_formed(&vec![vec![0u8], vec![0, 1]]));
    assert!(!is_well_formed(&vec![vec![0u8, 2]]));
    assert!(!is_well_formed(&vec![vec![0u8, 1], vec![255, 0]]));
}

#[test]
fn counts_stay_between_zero_and_eight() {
    let full = vec![vec![1u8; 5]; 4];
    let counts = neighbour_count(&full);
    assert_eq!(counts, vec![vec![8u8; 5]; 4]);
    let none = neighbour_count(&empty(4, 5));
    assert_eq!(none, vec![vec![0u8; 5]; 4]);
}

#[test]
fn counts_leave_the_board_alone_and_keep_its_shape() {
    let board = with_alive(3, 6, &[(0, 0), (2, 5), (1, 3)]);
    let copy = board.clone();
    let counts = neighbour_count(&board);
    assert_eq!(board, copy);
    assert_eq!(counts.len(), 3);
    for row in &counts {
        assert_eq!(row.len(), 6);
    }
}

#[test]
fn corner_cell_sees_across_the_edges() {
    let rows = 5;
    let cols = 6;
    let around = [
        (rows - 1, cols - 1),
        (rows - 1, 0),
        (rows - 1, 1),
        (0, cols - 1),
        (0, 1),
        (1, cols - 1),
        (1, 0),
        (1, 1),
    ];
    for &cell in &around {
        let counts = neighbour_count(&with_alive(rows, cols, &[cell]));
        assert_eq!(counts[0][0], 1, "cell {:?}", cell);
    }
    let counts = neighbour_count(&with_alive(rows, cols, &around));
    assert_eq!(counts[0][0], 8);
    let counts = neighbour_count(&with_alive(rows, cols, &[(0, 0), (2, 2), (3, 3), (0, 2), (2, 0)]));
    assert_eq!(counts[0][0], 0);
}

#[test]
fn counts_of_a_single_live_cell() {
    let counts = neighbour_count(&with_alive(4, 4, &[(1, 1)]));
    let expected: Vec<Vec<u8>> = vec![
        vec![1, 1, 1, 0],
        vec![1, 0, 1, 0],
        vec![1, 1, 1, 0],
        vec![0, 0, 0, 0],
    ];
    assert_eq!(counts, expected);
}

#[test]
fn narrow_boards_count_a_cell_more_than_once() {
    let row = vec![vec![1u8, 0, 0, 0]];
    assert_eq!(neighbour_count(&row), vec![vec![2u8, 3, 0, 3]]);
    let column = vec![vec![1u8], vec![0], vec![0], vec![0]];
    assert_eq!(neighbour_count(&column), vec![vec![2u8], vec![3], vec![0], vec![3]]);
    let pair = vec![vec![1u8, 0]];
    assert_eq!(neighbour_count(&pair), vec![vec![2u8, 6]]);
}

#[test]
fn single_cell_board_alive_counts_eight_and_dies() {
    let mut board = vec![vec![1u8]];
    assert_eq!(neighbour_count(&board), vec![vec![8u8]]);
    update(&mut board);
    assert_eq!(board, vec![vec![0u8]]);
}

#[test]
fn single_cell_board_dead_counts_zero_and_stays_dead() {
    let mut board = vec![vec![0u8]];
    assert_eq!(neighbour_count(&board), vec![vec![0u8]]);
    update(&mut board);
    assert_eq!(board, vec![vec![0u8]]);
}

#[test]
fn next_cell_follows_the_rule() {
    for live in 0u8..=8 {
        let born = if live == 3 { 1 } else { 0 };
        assert_eq!(next_cell(0, live), born, "dead with {}", live);
        let survives = if live == 2 || live == 3 { 1 } else { 0 };
        assert_eq!(next_cell(1, live), survives, "alive with {}", live);
    }
}

#[test]
fn update_is_deterministic() {
    let first = with_alive(6, 7, &[(0, 0), (0, 1), (1, 0), (3, 3), (3, 4), (4, 3), (5, 6), (2, 6)]);
    let mut a = first.clone();
    let mut b = first.clone();
    update(&mut a);
    update(&mut b);
    assert_eq!(a, b);
    update(&mut a);
    update(&mut b);
    assert_eq!(a, b);
}

#[test]
fn update_counts_from_the_board_before_it() {
    // A row of three on a 5x5 board: were counts taken from cells already
    // replaced, the column of three would not come out.
    let mut board = with_alive(5, 5, &[(2, 1), (2, 2), (2, 3)]);
    update(&mut board);
    assert_eq!(board, with_alive(5, 5, &[(1, 2), (2, 2), (3, 2)]));
}

#[test]
fn block_is_a_still_life() {
    let block = with_alive(4, 4, &[(1, 1), (1, 2), (2, 1), (2, 2)]);
    let mut board = block.clone();
    for _ in 0..10 {
        update(&mut board);
        assert_eq!(board, block);
    }
    let block = with_alive(6, 8, &[(2, 3), (2, 4), (3, 3), (3, 4)]);
    let mut board = block.clone();
    for _ in 0..10 {
        update(&mut board);
        assert_eq!(board, block);
    }
}

#[test]
fn blinker_oscillates_with_period_two() {
    let horizontal = with_alive(7, 7, &[(3, 2), (3, 3), (3, 4)]);
    let vertical = with_alive(7, 7, &[(2, 3), (3, 3), (4, 3)]);
    let mut board = horizontal.clone();
    update(&mut board);
    assert_eq!(board, vertical);
    update(&mut board);
    assert_eq!(board, horizontal);
}

#[test]
fn blinker_oscillates_on_the_smallest_board() {
    let horizontal = with_alive(4, 4, &[(1, 0), (1, 1), (1, 2)]);
    let vertical = with_alive(4, 4, &[(0, 1), (1, 1), (2, 1)]);
    let mut board = horizontal.clone();
    update(&mut board);
    assert_eq!(board, vertical);
    update(&mut board);
    assert_eq!(board, horizontal);
}

#[test]
fn lonely_cell_dies() {
    let mut board = with_alive(5, 5, &[(2, 2)]);
    update(&mut board);
    assert_eq!(board, empty(5, 5));
}

#[test]
fn dead_cell_with_three_neighbours_is_born() {
    // An L of three around the dead cell (2, 2).
    let mut board = with_alive(6, 6, &[(1, 1), (1, 2), (2, 1)]);
    assert_eq!(neighbour_count(&board)[2][2], 3);
    update(&mut board);
    assert_eq!(board[2][2], 1);
    assert_eq!(board, with_alive(6, 6, &[(1, 1), (1, 2), (2, 1), (2, 2)]));
}

#[test]
fn dead_cell_with_two_or_four_neighbours_stays_dead() {
    let mut two = with_alive(6, 6, &[(1, 1), (3, 3)]);
    assert_eq!(neighbour_count(&two)[2][2], 2);
    update(&mut two);
    assert_eq!(two[2][2], 0);
    let mut four = with_alive(6, 6, &[(1, 1), (1, 3), (3, 1), (3, 3)]);
    assert_eq!(neighbour_count(&four)[2][2], 4);
    update(&mut four);
    assert_eq!(four[2][2], 0);
}

#[test]
fn live_cell_survives_with_two_or_three_and_dies_otherwise() {
    let mut board = with_alive(6, 6, &[(2, 2), (1, 1), (3, 3)]);
    update(&mut board);
    assert_eq!(board[2][2], 1);
    let mut board = with_alive(6, 6, &[(2, 2), (1, 1), (3, 3), (1, 3)]);
    update(&mut board);
    assert_eq!(board[2][2], 1);
    let mut board = with_alive(6, 6, &[(2, 2), (1, 1)]);
    update(&mut board);
    assert_eq!(board[2][2], 0);
    let mut board = with_alive(6, 6, &[(2, 2), (1, 1), (1, 3), (3, 1), (3, 3)]);
    update(&mut board);
    assert_eq!(board[2][2], 0);
}

#[test]
fn update_keeps_the_board_well_formed() {
    let mut board = with_alive(3, 9, &[(0, 0), (0, 8), (2, 0), (2, 8), (1, 4), (1, 5)]);
    for _ in 0..5 {
        update(&mut board);
        assert!(is_well_formed(&board));
        assert_eq!(board.len(), 3);
        assert_eq!(board[0].len(), 9);
    }
}

#[test]
fn glider_moves_one_cell_diagonally_in_four_generations() {
    let mut board = with_alive(8, 8, &[(0, 1), (1, 2), (2, 0), (2, 1), (2, 2)]);
    for _ in 0..4 {
        update(&mut board);
    }
    assert_eq!(board, with_alive(8, 8, &[(1, 2), (2, 3), (3, 1), (3, 2), (3, 3)]));
}
