//! The board: a rectangle of binary cells, modelled as a sequence of rows.

use vstd::prelude::*;

verus! {

/// A dead cell.
pub const DEAD: u8 = 0;

/// A live cell.
pub const ALIVE: u8 = 1;

/// A board is well formed when it has at least one row and one column,
/// every row is as long as the first, and every cell is `DEAD` or `ALIVE`.
pub open spec fn well_formed(g: Seq<Seq<u8>>) -> bool {
    &&& g.len() >= 1
    &&& g[0].len() >= 1
    &&& forall|x: int| 0 <= x < g.len() ==> (#[trigger] g[x]).len() == g[0].len()
    &&& forall|x: int, y: int|
        0 <= x < g.len() && 0 <= y < g[x].len() ==> #[trigger] g[x][y] <= ALIVE
}

/// Indexing the model of a board gives the model of a row.
pub proof fn lemma_board_index(board: &Vec<Vec<u8>>, x: int)
    requires
        0 <= x < board@.len(),
    ensures
        board.deep_view().len() == board@.len(),
        board.deep_view()[x] == board@[x]@,
{
    assert(board@[x].deep_view() =~= board@[x]@);
}

/// Tells whether a row holds `width` cells, each `DEAD` or `ALIVE`.
fn row_is_valid(row: &Vec<u8>, width: usize) -> (ok: bool)
    ensures
        ok <==> row@.len() == width && forall|y: int| 0 <= y < row@.len() ==> row@[y] <= ALIVE,
{
    if row.len() != width {
        return false;
    }
    let mut y: usize = 0;
    while y < row.len()
        invariant
            y <= row@.len(),
            forall|k: int| 0 <= k < y ==> row@[k] <= ALIVE,
        decreases row@.len() - y,
    {
        if row[y] > ALIVE {
            return false;
        }
        y += 1;
    }
    true
}

/// Tells whether a board is well formed, so that a caller can refuse a
/// ragged, empty or non-binary board before the engine sees it.
pub fn is_well_formed(board: &Vec<Vec<u8>>) -> (ok: bool)
    ensures
        ok == well_formed(board.deep_view()),
{
    if board.len() == 0 {
        return false;
    }
    let width: usize = board[0].len();
    proof {
        lemma_board_index(board, 0);
    }
    if width == 0 {
        return false;
    }
    let mut x: usize = 0;
    while x < board.len()
        invariant
            x <= board@.len(),
            board@.len() >= 1,
            width == board@[0]@.len(),
            width >= 1,
            forall|i: int| 0 <= i < x ==> (#[trigger] board@[i])@.len() == width,
            forall|i: int, j: int|
                0 <= i < x && 0 <= j < board@[i]@.len() ==> #[trigger] board@[i]@[j] <= ALIVE,
        decreases board@.len() - x,
    {
        if !row_is_valid(&board[x], width) {
            proof {
                lemma_board_index(board, x as int);
                let g = board.deep_view();
                if g[x as int].len() == g[0].len() {
                    let y = choose|y: int| 0 <= y < board@[x as int]@.len() && board@[x as int]@[y] > ALIVE;
                    assert(g[x as int][y] > ALIVE);
                }
            }
            return false;
        }
        x += 1;
    }
    proof {
        let g = board.deep_view();
        assert forall|i: int| 0 <= i < g.len() implies (#[trigger] g[i]).len() == g[0].len() by {
            lemma_board_index(board, i);
        }
        assert forall|i: int, j: int| 0 <= i < g.len() && 0 <= j < g[i].len() implies #[trigger] g[i][j] <= ALIVE by {
            lemma_board_index(board, i);
        }
    }
    true
}

} // verus!
