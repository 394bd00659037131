//! Classic configurations and what the rule makes of them: the board of a
//! single cell, the block, which never changes, and the blinker, which
//! turns between a row and a column of three.

use vstd::prelude::*;
use crate::board::{well_formed, ALIVE, DEAD};
use crate::neighbours::{alive_neighbours, lemma_alive_neighbours_unfold};
use crate::step::{generations, next_generation, lemma_next_generation_well_formed};

verus! {

/// The board holds a block with its upper left corner at `(r, c)`: those
/// four cells are alive and every other cell is dead.
pub open spec fn is_block(g: Seq<Seq<u8>>, r: int, c: int) -> bool {
    forall|x: int, y: int|
        0 <= x < g.len() && 0 <= y < g[0].len() ==> #[trigger] g[x][y] == if (x == r || x == r + 1)
            && (y == c || y == c + 1) {
            ALIVE
        } else {
            DEAD
        }
}

/// The board holds a horizontal blinker centred at `(r, c)`: the three
/// cells of row `r` from column `c - 1` to `c + 1` are alive and every
/// other cell is dead.
pub open spec fn is_horizontal_blinker(g: Seq<Seq<u8>>, r: int, c: int) -> bool {
    forall|x: int, y: int|
        0 <= x < g.len() && 0 <= y < g[0].len() ==> #[trigger] g[x][y] == if x == r && c - 1 <= y
            <= c + 1 {
            ALIVE
        } else {
            DEAD
        }
}

/// The board holds a vertical blinker centred at `(r, c)`: the three cells
/// of column `c` from row `r - 1` to `r + 1` are alive and every other cell
/// is dead.
pub open spec fn is_vertical_blinker(g: Seq<Seq<u8>>, r: int, c: int) -> bool {
    forall|x: int, y: int|
        0 <= x < g.len() && 0 <= y < g[0].len() ==> #[trigger] g[x][y] == if y == c && r - 1 <= x
            <= r + 1 {
            ALIVE
        } else {
            DEAD
        }
}

/// Two well-formed boards of one shape that agree cell by cell are equal.
proof fn lemma_boards_equal(a: Seq<Seq<u8>>, b: Seq<Seq<u8>>)
    requires
        well_formed(a),
        well_formed(b),
        a.len() == b.len(),
        a[0].len() == b[0].len(),
        forall|x: int, y: int| 0 <= x < a.len() && 0 <= y < a[0].len() ==> a[x][y] == b[x][y],
    ensures
        a == b,
{
    assert forall|x: int| 0 <= x < a.len() implies a[x] == b[x] by {
        assert(a[x].len() == a[0].len());
        assert(b[x].len() == b[0].len());
        assert(a[x] =~= b[x]);
    }
    assert(a =~= b);
}

/// On a board of one cell the cell is its own neighbour eight times over:
/// alive, it counts eight live neighbours; dead, none. Either way it is
/// dead in the next generation.
pub proof fn lemma_single_cell_board(g: Seq<Seq<u8>>)
    requires
        well_formed(g),
        g.len() == 1,
        g[0].len() == 1,
    ensures
        g[0][0] == ALIVE ==> alive_neighbours(g, 0, 0) == 8,
        g[0][0] == DEAD ==> alive_neighbours(g, 0, 0) == 0,
        next_generation(g) == seq![seq![DEAD]],
{
    lemma_alive_neighbours_unfold(g, 0, 0);
    assert(g[0][0] <= ALIVE);
    lemma_next_generation_well_formed(g);
    let next = next_generation(g);
    assert(next[0] =~= seq![DEAD]);
    assert(next =~= seq![seq![DEAD]]);
}

/// A block on a board of at least four rows and four columns is a still
/// life: the next generation is the same board.
pub proof fn lemma_block_is_still(g: Seq<Seq<u8>>, r: int, c: int)
    requires
        well_formed(g),
        g.len() >= 4,
        g[0].len() >= 4,
        0 <= r,
        r + 1 < g.len(),
        0 <= c,
        c + 1 < g[0].len(),
        is_block(g, r, c),
    ensures
        next_generation(g) == g,
{
    let next = next_generation(g);
    lemma_next_generation_well_formed(g);
    assert forall|x: int, y: int| 0 <= x < g.len() && 0 <= y < g[0].len() implies next[x][y]
        == g[x][y] by {
        lemma_alive_neighbours_unfold(g, x, y);
        assert(g[x].len() == g[0].len());
    }
    lemma_boards_equal(next, g);
}

/// A block on a board of at least four rows and four columns stays as it is
/// through any number of generations.
pub proof fn lemma_block_is_still_forever(g: Seq<Seq<u8>>, r: int, c: int, n: nat)
    requires
        well_formed(g),
        g.len() >= 4,
        g[0].len() >= 4,
        0 <= r,
        r + 1 < g.len(),
        0 <= c,
        c + 1 < g[0].len(),
        is_block(g, r, c),
    ensures
        generations(g, n) == g,
    decreases n,
{
    if n > 0 {
        lemma_block_is_still_forever(g, r, c, (n - 1) as nat);
        lemma_block_is_still(g, r, c);
    }
}

/// A horizontal blinker away from the edges of a board of at least four
/// rows and four columns becomes the vertical blinker with the same centre.
pub proof fn lemma_blinker_turns_vertical(g: Seq<Seq<u8>>, r: int, c: int)
    requires
        well_formed(g),
        g.len() >= 4,
        g[0].len() >= 4,
        1 <= r,
        r + 1 < g.len(),
        1 <= c,
        c + 1 < g[0].len(),
        is_horizontal_blinker(g, r, c),
    ensures
        is_vertical_blinker(next_generation(g), r, c),
{
    let next = next_generation(g);
    lemma_next_generation_well_formed(g);
    assert forall|x: int, y: int| 0 <= x < next.len() && 0 <= y < next[0].len() implies #[trigger] next[x][y]
        == if y == c && r - 1 <= x <= r + 1 {
        ALIVE
    } else {
        DEAD
    } by {
        lemma_alive_neighbours_unfold(g, x, y);
        assert(g[x].len() == g[0].len());
    }
}

/// A vertical blinker away from the edges of a board of at least four rows
/// and four columns becomes the horizontal blinker with the same centre.
pub proof fn lemma_blinker_turns_horizontal(g: Seq<Seq<u8>>, r: int, c: int)
    requires
        well_formed(g),
        g.len() >= 4,
        g[0].len() >= 4,
        1 <= r,
        r + 1 < g.len(),
        1 <= c,
        c + 1 < g[0].len(),
        is_vertical_blinker(g, r, c),
    ensures
        is_horizontal_blinker(next_generation(g), r, c),
{
    let next = next_generation(g);
    lemma_next_generation_well_formed(g);
    assert forall|x: int, y: int| 0 <= x < next.len() && 0 <= y < next[0].len() implies #[trigger] next[x][y]
        == if x == r && c - 1 <= y <= c + 1 {
        ALIVE
    } else {
        DEAD
    } by {
        lemma_alive_neighbours_unfold(g, x, y);
        assert(g[x].len() == g[0].len());
    }
}

/// The blinker is an oscillator of period two: a horizontal blinker is
/// vertical after one generation and the board it started from after two.
pub proof fn lemma_blinker_oscillates(g: Seq<Seq<u8>>, r: int, c: int)
    requires
        well_formed(g),
        g.len() >= 4,
        g[0].len() >= 4,
        1 <= r,
        r + 1 < g.len(),
        1 <= c,
        c + 1 < g[0].len(),
        is_horizontal_blinker(g, r, c),
    ensures
        is_vertical_blinker(generations(g, 1), r, c),
        generations(g, 2) == g,
{
    let first = next_generation(g);
    let second = next_generation(first);
    lemma_next_generation_well_formed(g);
    lemma_next_generation_well_formed(first);
    lemma_blinker_turns_vertical(g, r, c);
    lemma_blinker_turns_horizontal(first, r, c);
    assert(generations(g, 0) == g);
    assert(generations(g, 1) == first);
    assert(generations(g, 2) == second);
    assert forall|x: int, y: int| 0 <= x < g.len() && 0 <= y < g[0].len() implies second[x][y]
        == g[x][y] by {
        assert(second[x][y] == if x == r && c - 1 <= y <= c + 1 { ALIVE } else { DEAD });
    }
    lemma_boards_equal(second, g);
}

} // verus!
