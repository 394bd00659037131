//! The transition rule, and one generation of the whole board.

use vstd::prelude::*;
use crate::board::{well_formed, lemma_board_index, ALIVE, DEAD};
use crate::neighbours::{alive_neighbours, neighbour_count, neighbours, state_at};

verus! {

/// The next state of one cell, given its state and the number of its live
/// neighbours: a dead cell with three live neighbours comes alive, a live
/// cell with fewer than two or more than three dies, and every other cell
/// stays as it is.
pub open spec fn next_state(state: u8, live: int) -> u8 {
    if state == DEAD && live == 3 {
        ALIVE
    } else if state == ALIVE && (live < 2 || live > 3) {
        DEAD
    } else {
        state
    }
}

/// The generation after `g`: every cell takes its next state from the
/// neighbour count it has in `g`.
pub open spec fn next_generation(g: Seq<Seq<u8>>) -> Seq<Seq<u8>> {
    Seq::new(
        g.len(),
        |x: int| Seq::new(g[x].len(), |y: int| next_state(g[x][y], alive_neighbours(g, x, y))),
    )
}

/// A generation of a well-formed board is well formed, with the same
/// number of rows and columns.
pub proof fn lemma_next_generation_well_formed(g: Seq<Seq<u8>>)
    requires
        well_formed(g),
    ensures
        well_formed(next_generation(g)),
        next_generation(g).len() == g.len(),
        next_generation(g)[0].len() == g[0].len(),
{
    let n = next_generation(g);
    assert(n[0].len() == g[0].len());
    assert forall|x: int| 0 <= x < n.len() implies (#[trigger] n[x]).len() == n[0].len() by {
        assert(g[x].len() == g[0].len());
    }
    assert forall|x: int, y: int| 0 <= x < n.len() && 0 <= y < n[x].len() implies #[trigger] n[x][y]
        <= ALIVE by {
        assert(g[x][y] <= ALIVE);
    }
}

/// The board after `n` generations.
pub open spec fn generations(g: Seq<Seq<u8>>, n: nat) -> Seq<Seq<u8>>
    decreases n,
{
    if n == 0 {
        g
    } else {
        next_generation(generations(g, (n - 1) as nat))
    }
}

/// However many generations pass, a well-formed board stays well formed and
/// keeps its number of rows and columns.
pub proof fn lemma_generations_well_formed(g: Seq<Seq<u8>>, n: nat)
    requires
        well_formed(g),
    ensures
        well_formed(generations(g, n)),
        generations(g, n).len() == g.len(),
        generations(g, n)[0].len() == g[0].len(),
    decreases n,
{
    if n > 0 {
        lemma_generations_well_formed(g, (n - 1) as nat);
        lemma_next_generation_well_formed(generations(g, (n - 1) as nat));
    }
}

/// A generation depends on nothing but the board before it: when two boards
/// hold the same cells, so do the boards that one `update` makes of them.
pub proof fn lemma_update_deterministic(
    first: Vec<Vec<u8>>,
    second: Vec<Vec<u8>>,
    first_updated: Vec<Vec<u8>>,
    second_updated: Vec<Vec<u8>>,
)
    requires
        first.deep_view() == second.deep_view(),
        first_updated.deep_view() == next_generation(first.deep_view()),
        second_updated.deep_view() == next_generation(second.deep_view()),
    ensures
        first_updated.deep_view() == second_updated.deep_view(),
{
}

/// A live cell whose eight neighbours are all dead is dead in the next
/// generation.
pub proof fn lemma_lonely_cell_dies(g: Seq<Seq<u8>>, x: int, y: int)
    requires
        well_formed(g),
        0 <= x < g.len(),
        0 <= y < g[0].len(),
        g[x][y] == ALIVE,
        forall|k: int|
            0 <= k < 8 ==> state_at(g, #[trigger] neighbours(g.len() as int, g[0].len() as int, x, y)[k])
                == 0,
    ensures
        alive_neighbours(g, x, y) == 0,
        next_generation(g)[x][y] == DEAD,
{
    assert(g[x].len() == g[0].len());
}

/// A dead cell is alive in the next generation exactly when three of its
/// neighbours are alive: with two or with four it stays dead.
pub proof fn lemma_birth_needs_three(g: Seq<Seq<u8>>, x: int, y: int)
    requires
        well_formed(g),
        0 <= x < g.len(),
        0 <= y < g[0].len(),
        g[x][y] == DEAD,
    ensures
        alive_neighbours(g, x, y) == 3 ==> next_generation(g)[x][y] == ALIVE,
        alive_neighbours(g, x, y) == 2 ==> next_generation(g)[x][y] == DEAD,
        alive_neighbours(g, x, y) == 4 ==> next_generation(g)[x][y] == DEAD,
        next_generation(g)[x][y] == ALIVE <==> alive_neighbours(g, x, y) == 3,
{
    assert(g[x].len() == g[0].len());
}

/// The next state of one cell.
pub fn next_cell(state: u8, live: u8) -> (next: u8)
    ensures
        next == next_state(state, live as int),
{
    if state == DEAD && live == 3 {
        ALIVE
    } else if state == ALIVE && (live < 2 || live > 3) {
        DEAD
    } else {
        state
    }
}

/// Advances the board by one generation, in place. The neighbour counts are
/// taken from the board as it was on entry, so no cell sees a neighbour's
/// new state.
pub fn update(board: &mut Vec<Vec<u8>>)
    requires
        well_formed(old(board).deep_view()),
    ensures
        final(board).deep_view() == next_generation(old(board).deep_view()),
        well_formed(final(board).deep_view()),
{
    let ghost g = board.deep_view();
    let counts = neighbour_count(board);
    proof {
        lemma_board_index(board, 0);
        assert forall|i: int| 0 <= i < board@.len() implies (#[trigger] board@[i])@ == g[i] by {
            lemma_board_index(board, i);
        }
    }
    let rows: usize = board.len();
    let cols: usize = board[0].len();
    let mut x: usize = 0;
    while x < rows
        invariant
            well_formed(g),
            rows == g.len(),
            cols == g[0].len(),
            x <= rows,
            counts@.len() == rows,
            forall|i: int| 0 <= i < rows ==> (#[trigger] counts@[i])@.len() == cols,
            forall|i: int, j: int|
                0 <= i < rows && 0 <= j < cols ==> #[trigger] counts@[i]@[j] == alive_neighbours(
                    g,
                    i,
                    j,
                ),
            board@.len() == rows,
            forall|i: int| 0 <= i < rows ==> (#[trigger] board@[i])@.len() == cols,
            forall|i: int, j: int|
                0 <= i < x && 0 <= j < cols ==> #[trigger] board@[i]@[j] == next_state(
                    g[i][j],
                    alive_neighbours(g, i, j),
                ),
            forall|i: int| x <= i < rows ==> (#[trigger] board@[i])@ == g[i],
        decreases rows - x,
    {
        let mut y: usize = 0;
        while y < cols
            invariant
                well_formed(g),
                rows == g.len(),
                cols == g[0].len(),
                x < rows,
                y <= cols,
                counts@.len() == rows,
                forall|i: int| 0 <= i < rows ==> (#[trigger] counts@[i])@.len() == cols,
                forall|i: int, j: int|
                    0 <= i < rows && 0 <= j < cols ==> #[trigger] counts@[i]@[j]
                        == alive_neighbours(g, i, j),
                board@.len() == rows,
                forall|i: int| 0 <= i < rows ==> (#[trigger] board@[i])@.len() == cols,
                forall|i: int, j: int|
                    0 <= i < x && 0 <= j < cols ==> #[trigger] board@[i]@[j] == next_state(
                        g[i][j],
                        alive_neighbours(g, i, j),
                    ),
                forall|j: int|
                    0 <= j < y ==> #[trigger] board@[x as int]@[j] == next_state(
                        g[x as int][j],
                        alive_neighbours(g, x as int, j),
                    ),
                forall|j: int| y <= j < cols ==> #[trigger] board@[x as int]@[j] == g[x as int][j],
                forall|i: int| x < i < rows ==> (#[trigger] board@[i])@ == g[i],
            decreases cols - y,
        {
            let next: u8 = next_cell(board[x][y], counts[x][y]);
            board[x][y] = next;
            y += 1;
        }
        x += 1;
    }
    proof {
        let after = board.deep_view();
        let expected = next_generation(g);
        assert(after.len() == expected.len());
        assert forall|i: int| 0 <= i < after.len() implies after[i] == expected[i] by {
            lemma_board_index(board, i);
            assert(g[i].len() == cols);
            assert(after[i] =~= expected[i]);
        }
        assert(after =~= expected);
        lemma_next_generation_well_formed(g);
    }
}

} // verus!
