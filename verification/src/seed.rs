//! The first generation: a board of the wanted size whose cells are drawn
//! from the operating system's random bytes.

use vstd::prelude::*;
use rand::RngCore;
use rand::rngs::OsRng;
use crate::board::{well_formed, lemma_board_index, ALIVE, DEAD};

verus! {

/// Asks the operating system for random bytes with `OsRng::try_fill_bytes`,
/// which writes into the buffer it is given and reports a refusal of the
/// system as an error instead of panicking. The result tells whether the
/// bytes came. Either way the buffer keeps its length, and that is all that
/// is claimed: nothing is said of the bytes, which differ from call to call,
/// nor of what the buffer holds after a refusal.
#[verifier::external_body]
fn fill_from_system(buffer: &mut Vec<u8>) -> (filled: bool)
    ensures
        final(buffer)@.len() == old(buffer)@.len(),
{
    OsRng.try_fill_bytes(buffer.as_mut_slice()).is_ok()
}

/// The cell that a drawn byte stands for: alive for an odd byte, dead for
/// an even one.
pub open spec fn cell_of(byte: u8) -> u8 {
    if byte % 2 == 1 {
        ALIVE
    } else {
        DEAD
    }
}

/// Turns a drawn byte into a cell.
pub fn cell_from_byte(byte: u8) -> (cell: u8)
    ensures
        cell == cell_of(byte),
        cell <= ALIVE,
{
    byte % 2
}

/// Turns drawn bytes into a row of cells, one cell per byte and in the same
/// order.
pub fn row_from_bytes(bytes: &Vec<u8>) -> (row: Vec<u8>)
    ensures
        row@.len() == bytes@.len(),
        forall|y: int| 0 <= y < bytes@.len() ==> #[trigger] row@[y] == cell_of(bytes@[y]),
{
    let mut row: Vec<u8> = Vec::new();
    let mut y: usize = 0;
    while y < bytes.len()
        invariant
            y <= bytes@.len(),
            row@.len() == y,
            forall|j: int| 0 <= j < y ==> #[trigger] row@[j] == cell_of(bytes@[j]),
        decreases bytes@.len() - y,
    {
        row.push(cell_from_byte(bytes[y]));
        y += 1;
    }
    row
}

/// A buffer of `count` bytes, all zero, for the system to write into.
fn zeroed(count: usize) -> (buffer: Vec<u8>)
    ensures
        buffer@.len() == count,
        forall|k: int| 0 <= k < count ==> #[trigger] buffer@[k] == 0,
{
    let mut buffer: Vec<u8> = Vec::new();
    let mut k: usize = 0;
    while k < count
        invariant
            k <= count,
            buffer@.len() == k,
            forall|i: int| 0 <= i < k ==> #[trigger] buffer@[i] == 0,
        decreases count - k,
    {
        buffer.push(0);
        k += 1;
    }
    buffer
}

/// Makes a board of `height` rows and `width` columns and draws every cell
/// at random, one request to the system per row. Where the system refuses
/// a request there is no board. A board without cells needs no request and
/// always comes; a board that comes is well formed as soon as both
/// dimensions are at least one.
pub fn random_board(width: usize, height: usize) -> (board: Option<Vec<Vec<u8>>>)
    ensures
        width == 0 || height == 0 ==> board is Some,
        board matches Some(b) ==> {
            &&& b@.len() == height
            &&& forall|x: int| 0 <= x < height ==> (#[trigger] b@[x])@.len() == width
            &&& forall|x: int, y: int|
                0 <= x < height && 0 <= y < width ==> #[trigger] b@[x]@[y] <= ALIVE
            &&& well_formed(b.deep_view()) <==> width >= 1 && height >= 1
        },
{
    let mut bytes: Vec<u8> = zeroed(width);
    let mut board: Vec<Vec<u8>> = Vec::new();
    let mut x: usize = 0;
    while x < height
        invariant
            x <= height,
            bytes@.len() == width,
            board@.len() == x,
            forall|i: int| 0 <= i < x ==> (#[trigger] board@[i])@.len() == width,
            forall|i: int, j: int| 0 <= i < x && 0 <= j < width ==> #[trigger] board@[i]@[j] <= ALIVE,
        decreases height - x,
    {
        if width > 0 {
            let filled: bool = fill_from_system(&mut bytes);
            if !filled {
                return None;
            }
        }
        let row: Vec<u8> = row_from_bytes(&bytes);
        board.push(row);
        x += 1;
    }
    proof {
        let g = board.deep_view();
        if height >= 1 {
            lemma_board_index(&board, 0);
        }
        if width >= 1 && height >= 1 {
            assert forall|i: int| 0 <= i < g.len() implies (#[trigger] g[i]).len() == g[0].len() by {
                lemma_board_index(&board, i);
            }
            assert forall|i: int, j: int| 0 <= i < g.len() && 0 <= j < g[i].len() implies #[trigger] g[i][j]
                <= ALIVE by {
                lemma_board_index(&board, i);
            }
        }
    }
    Some(board)
}

} // verus!
