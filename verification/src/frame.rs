//! The board as text: one line per row between two border lines, two
//! characters per cell.

use vstd::prelude::*;
use vstd::string::StringExecFns;
use crate::board::ALIVE;
use crate::board::lemma_board_index;

verus! {

/// The text of one cell: a mark for a live cell, blanks for any other.
pub open spec fn cell_text(state: u8) -> Seq<char> {
    if state == ALIVE {
        "o "@
    } else {
        "  "@
    }
}

/// The texts of the cells of a row, one after the other.
pub open spec fn cells_text(row: Seq<u8>) -> Seq<char>
    decreases row.len(),
{
    if row.len() == 0 {
        Seq::empty()
    } else {
        cells_text(row.drop_last()) + cell_text(row.last())
    }
}

/// The line of one row: its cells between two bars.
pub open spec fn row_text(row: Seq<u8>) -> Seq<char> {
    "| "@ + cells_text(row) + "|\n"@
}

/// The lines of the rows of a board, from the first to the last.
pub open spec fn rows_text(g: Seq<Seq<u8>>) -> Seq<char>
    decreases g.len(),
{
    if g.len() == 0 {
        Seq::empty()
    } else {
        rows_text(g.drop_last()) + row_text(g.last())
    }
}

/// `width` pairs of dashes.
pub open spec fn dashes(width: nat) -> Seq<char>
    decreases width,
{
    if width == 0 {
        Seq::empty()
    } else {
        dashes((width - 1) as nat) + "--"@
    }
}

/// The border line above and below a board of `width` columns.
pub open spec fn border(width: nat) -> Seq<char> {
    "-"@ + dashes(width) + "--\n"@
}

/// The whole frame: a border as wide as the first row, the lines of the
/// rows, and the border again.
pub open spec fn frame(g: Seq<Seq<u8>>) -> Seq<char> {
    border(g[0].len()) + rows_text(g) + border(g[0].len())
}

/// Appends the border of a board of `width` columns to `text`.
fn push_border(text: &mut String, width: usize)
    ensures
        final(text)@ == old(text)@ + border(width as nat),
{
    text.append("-");
    let ghost start = text@;
    let mut y: usize = 0;
    while y < width
        invariant
            y <= width,
            text@ == start + dashes(y as nat),
        decreases width - y,
    {
        text.append("--");
        y += 1;
        assert(text@ =~= start + dashes(y as nat));
    }
    text.append("--\n");
    assert(text@ =~= old(text)@ + border(width as nat));
}

/// Appends the line of one row to `text`.
fn push_row(text: &mut String, row: &Vec<u8>)
    ensures
        final(text)@ == old(text)@ + row_text(row@),
{
    text.append("| ");
    let ghost start = text@;
    let mut y: usize = 0;
    while y < row.len()
        invariant
            y <= row@.len(),
            text@ == start + cells_text(row@.take(y as int)),
        decreases row@.len() - y,
    {
        if row[y] == ALIVE {
            text.append("o ");
        } else {
            text.append("  ");
        }
        y += 1;
        assert(row@.take(y as int).drop_last() =~= row@.take(y - 1));
        assert(text@ =~= start + cells_text(row@.take(y as int)));
    }
    assert(row@.take(y as int) =~= row@);
    text.append("|\n");
    assert(text@ =~= old(text)@ + row_text(row@));
}

/// Draws the board as text: a border line, one line per row with a mark
/// for each live cell, and the border line again.
pub fn render(board: &Vec<Vec<u8>>) -> (text: String)
    requires
        board@.len() >= 1,
    ensures
        text@ == frame(board.deep_view()),
{
    let ghost g = board.deep_view();
    proof {
        lemma_board_index(board, 0);
    }
    let width: usize = board[0].len();
    let mut text = String::new();
    push_border(&mut text, width);
    let ghost start = text@;
    let mut x: usize = 0;
    while x < board.len()
        invariant
            g == board.deep_view(),
            x <= board@.len(),
            text@ == start + rows_text(g.take(x as int)),
        decreases board@.len() - x,
    {
        push_row(&mut text, &board[x]);
        x += 1;
        proof {
            lemma_board_index(board, x - 1);
            assert(g.take(x as int).drop_last() =~= g.take(x - 1));
            assert(text@ =~= start + rows_text(g.take(x as int)));
        }
    }
    assert(g.take(x as int) =~= g);
    push_border(&mut text, width);
    assert(text@ =~= frame(g));
    text
}

} // verus!
