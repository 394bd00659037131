//! Counting the live neighbours of every cell, with the board's edges
//! joined into a torus.

use vstd::prelude::*;
use crate::board::{well_formed, lemma_board_index};
use crate::modular::{modulo, before, after, lemma_modulo_range, lemma_modulo_step};

verus! {

/// The eight cells around `(x, y)` on a torus of `rows` by `cols` cells,
/// column by column from the left, each index reduced into its axis. On a
/// narrow board one cell may occur more than once.
pub open spec fn neighbours(rows: int, cols: int, x: int, y: int) -> Seq<(int, int)> {
    seq![
        (modulo(x - 1, rows), modulo(y - 1, cols)),
        (modulo(x, rows), modulo(y - 1, cols)),
        (modulo(x + 1, rows), modulo(y - 1, cols)),
        (modulo(x - 1, rows), modulo(y, cols)),
        (modulo(x + 1, rows), modulo(y, cols)),
        (modulo(x - 1, rows), modulo(y + 1, cols)),
        (modulo(x, rows), modulo(y + 1, cols)),
        (modulo(x + 1, rows), modulo(y + 1, cols)),
    ]
}

/// The state of the cell at position `p`, as a number: 1 for a live cell,
/// 0 for a dead one.
pub open spec fn state_at(g: Seq<Seq<u8>>, p: (int, int)) -> int {
    g[p.0][p.1] as int
}

/// The number of live cells among the eight neighbours of `(x, y)`; a cell
/// that occurs twice among them counts twice.
pub open spec fn alive_neighbours(g: Seq<Seq<u8>>, x: int, y: int) -> int {
    let n = neighbours(g.len() as int, g[0].len() as int, x, y);
    state_at(g, n[0]) + state_at(g, n[1]) + state_at(g, n[2]) + state_at(g, n[3])
        + state_at(g, n[4]) + state_at(g, n[5]) + state_at(g, n[6]) + state_at(g, n[7])
}

/// The board of neighbour counts: the same shape as `g`, each entry the
/// number of live neighbours of the cell at that place.
pub open spec fn neighbour_counts(g: Seq<Seq<u8>>) -> Seq<Seq<u8>> {
    Seq::new(g.len(), |x: int| Seq::new(g[x].len(), |y: int| alive_neighbours(g, x, y) as u8))
}

/// Every neighbour of a cell of a well-formed board is a cell of the board,
/// so a neighbour count lies between 0 and 8.
pub proof fn lemma_alive_neighbours_range(g: Seq<Seq<u8>>, x: int, y: int)
    requires
        well_formed(g),
        0 <= x < g.len(),
        0 <= y < g[0].len(),
    ensures
        0 <= alive_neighbours(g, x, y) <= 8,
        forall|k: int|
            0 <= k < 8 ==> {
                let p = #[trigger] neighbours(g.len() as int, g[0].len() as int, x, y)[k];
                0 <= p.0 < g.len() && 0 <= p.1 < g[0].len()
            },
{
    let r = g.len() as int;
    let c = g[0].len() as int;
    lemma_modulo_range(x - 1, r);
    lemma_modulo_range(x, r);
    lemma_modulo_range(x + 1, r);
    lemma_modulo_range(y - 1, c);
    lemma_modulo_range(y, c);
    lemma_modulo_range(y + 1, c);
    let n = neighbours(r, c, x, y);
    assert forall|k: int| 0 <= k < 8 implies 0 <= state_at(g, #[trigger] n[k]) <= 1 by {
        let p = n[k];
        assert(0 <= p.0 < g.len() && 0 <= p.1 < g[0].len());
        assert(g[p.0].len() == g[0].len());
        assert(g[p.0][p.1] <= 1);
    }
}

/// Around the corner cell `(0, 0)` the torus wraps: its neighbours are the
/// last row and the last column, the cell itself excluded, together with
/// row 1 and column 1, whose indices are reduced into the board.
pub proof fn lemma_corner_neighbours(rows: int, cols: int)
    requires
        rows >= 1,
        cols >= 1,
    ensures
        neighbours(rows, cols, 0, 0) == seq![
            (rows - 1, cols - 1),
            (0int, cols - 1),
            (modulo(1, rows), cols - 1),
            (rows - 1, 0int),
            (modulo(1, rows), 0int),
            (rows - 1, modulo(1, cols)),
            (0int, modulo(1, cols)),
            (modulo(1, rows), modulo(1, cols)),
        ],
        neighbours(rows, cols, 0, 0).contains((rows - 1, cols - 1)),
        neighbours(rows, cols, 0, 0).contains((rows - 1, 0int)),
        neighbours(rows, cols, 0, 0).contains((rows - 1, modulo(1, cols))),
        neighbours(rows, cols, 0, 0).contains((0int, cols - 1)),
        neighbours(rows, cols, 0, 0).contains((0int, modulo(1, cols))),
        neighbours(rows, cols, 0, 0).contains((modulo(1, rows), cols - 1)),
        neighbours(rows, cols, 0, 0).contains((modulo(1, rows), 0int)),
        neighbours(rows, cols, 0, 0).contains((modulo(1, rows), modulo(1, cols))),
{
    lemma_modulo_step(0, rows);
    lemma_modulo_step(0, cols);
    lemma_modulo_range(0, rows);
    lemma_modulo_range(0, cols);
    let n = neighbours(rows, cols, 0, 0);
    assert(n[0] == (rows - 1, cols - 1));
    assert(n[1] == (0int, cols - 1));
    assert(n[2] == (modulo(1, rows), cols - 1));
    assert(n[3] == (rows - 1, 0int));
    assert(n[4] == (modulo(1, rows), 0int));
    assert(n[5] == (rows - 1, modulo(1, cols)));
    assert(n[6] == (0int, modulo(1, cols)));
    assert(n[7] == (modulo(1, rows), modulo(1, cols)));
}

/// The neighbour count of a cell of a well-formed board, with the wrapped
/// indices written out: the row above row 0 is the last, the row below the
/// last is row 0, and likewise for the columns.
pub proof fn lemma_alive_neighbours_unfold(g: Seq<Seq<u8>>, x: int, y: int)
    requires
        well_formed(g),
        0 <= x < g.len(),
        0 <= y < g[0].len(),
    ensures
        ({
            let up = if x == 0 { g.len() - 1 } else { x - 1 };
            let down = if x == g.len() - 1 { 0 } else { x + 1 };
            let left = if y == 0 { g[0].len() - 1 } else { y - 1 };
            let right = if y == g[0].len() - 1 { 0 } else { y + 1 };
            alive_neighbours(g, x, y) == g[up][left] + g[x][left] + g[down][left] + g[up][y]
                + g[down][y] + g[up][right] + g[x][right] + g[down][right]
        }),
{
    let r = g.len() as int;
    let c = g[0].len() as int;
    lemma_modulo_step(x, r);
    lemma_modulo_step(y, c);
    lemma_modulo_range(x, r);
    lemma_modulo_range(y, c);
}

/// Counts, for every cell of the board, its live neighbours on the torus.
/// The board is left as it is; the counts come in a board of the same shape.
pub fn neighbour_count(board: &Vec<Vec<u8>>) -> (counts: Vec<Vec<u8>>)
    requires
        well_formed(board.deep_view()),
    ensures
        counts.deep_view() == neighbour_counts(board.deep_view()),
        counts@.len() == board@.len(),
        forall|x: int| 0 <= x < board@.len() ==> (#[trigger] counts@[x])@.len() == board@[0]@.len(),
        forall|x: int, y: int|
            0 <= x < board@.len() && 0 <= y < board@[0]@.len() ==> #[trigger] counts@[x]@[y]
                == alive_neighbours(board.deep_view(), x, y),
        forall|x: int, y: int|
            0 <= x < board@.len() && 0 <= y < board@[0]@.len() ==> #[trigger] counts@[x]@[y] <= 8,
{
    let ghost g = board.deep_view();
    proof {
        lemma_board_index(board, 0);
    }
    let rows: usize = board.len();
    let cols: usize = board[0].len();
    let mut counts: Vec<Vec<u8>> = Vec::new();
    let mut x: usize = 0;
    while x < rows
        invariant
            g == board.deep_view(),
            well_formed(g),
            rows == board@.len(),
            cols == board@[0]@.len(),
            x <= rows,
            counts@.len() == x,
            forall|i: int| 0 <= i < x ==> (#[trigger] counts@[i])@.len() == cols,
            forall|i: int, j: int|
                0 <= i < x && 0 <= j < cols ==> #[trigger] counts@[i]@[j] == alive_neighbours(
                    g,
                    i,
                    j,
                ),
        decreases rows - x,
    {
        let up: usize = before(x, rows);
        let down: usize = after(x, rows);
        proof {
            lemma_modulo_range(x as int, rows as int);
            lemma_board_index(board, x as int);
            lemma_board_index(board, up as int);
            lemma_board_index(board, down as int);
        }
        let mut row: Vec<u8> = Vec::new();
        let mut y: usize = 0;
        while y < cols
            invariant
                g == board.deep_view(),
                well_formed(g),
                rows == board@.len(),
                cols == board@[0]@.len(),
                x < rows,
                up < rows,
                down < rows,
                up == modulo(x - 1, rows as int),
                x == modulo(x as int, rows as int),
                down == modulo(x + 1, rows as int),
                g[x as int] == board@[x as int]@,
                g[up as int] == board@[up as int]@,
                g[down as int] == board@[down as int]@,
                y <= cols,
                row@.len() == y,
                forall|j: int| 0 <= j < y ==> #[trigger] row@[j] == alive_neighbours(g, x as int, j),
            decreases cols - y,
        {
            let left: usize = before(y, cols);
            let right: usize = after(y, cols);
            proof {
                lemma_modulo_range(y as int, cols as int);
                lemma_alive_neighbours_range(g, x as int, y as int);
                assert(g[x as int].len() == cols);
                assert(g[up as int].len() == cols);
                assert(g[down as int].len() == cols);
            }
            let n: u8 = board[up][left] + board[x][left] + board[down][left] + board[up][y]
                + board[down][y] + board[up][right] + board[x][right] + board[down][right];
            row.push(n);
            y += 1;
        }
        counts.push(row);
        x += 1;
    }
    proof {
        let c = counts.deep_view();
        let expected = neighbour_counts(g);
        assert(c.len() == expected.len());
        assert forall|i: int| 0 <= i < c.len() implies c[i] == expected[i] by {
            lemma_board_index(&counts, i);
            lemma_board_index(board, i);
            assert(g[i].len() == cols);
            assert(c[i] =~= expected[i]);
        }
        assert(c =~= expected);
        assert forall|i: int, j: int|
            0 <= i < board@.len() && 0 <= j < board@[0]@.len() implies #[trigger] counts@[i]@[j]
            <= 8 by {
            lemma_alive_neighbours_range(g, i, j);
        }
    }
    counts
}

} // verus!
