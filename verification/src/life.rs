//! The mathematical model: a toroidal board of cells and the rule that takes
//! one generation to the next.
//!
//! A board is a `Seq<Seq<bool>>`, one inner sequence per row. Everything here
//! is specification; the executable engine is proved against it.

use crate::arith::{lemma_join, lemma_split};
use vstd::prelude::*;

verus! {

/// A board as the contracts see it: `board[r][c]` is the cell in row `r`,
/// column `c`.
pub type Board = Seq<Seq<bool>>;

/// Number of rows of a board.
pub open spec fn rows_of(b: Board) -> int {
    b.len() as int
}

/// Number of columns of a board (of its first row; see [`rectangular`]).
pub open spec fn cols_of(b: Board) -> int {
    if b.len() > 0 {
        b[0].len() as int
    } else {
        0
    }
}

/// Every row has the same length, and there is at least one cell.
pub open spec fn rectangular(b: Board) -> bool {
    &&& rows_of(b) > 0
    &&& cols_of(b) > 0
    &&& forall|r: int| 0 <= r < rows_of(b) ==> (#[trigger] b[r]).len() == cols_of(b)
}

/// The index `i` folded onto `0 .. n`: the torus has no edge.
pub open spec fn wrap(i: int, n: int) -> int {
    i % n
}

/// The cell at `(r, c)`, both coordinates taken around the torus.
pub open spec fn cell(b: Board, r: int, c: int) -> bool {
    b[wrap(r, rows_of(b))][wrap(c, cols_of(b))]
}

/// A cell as a number: 1 when alive, 0 when dead.
pub open spec fn one(b: Board, r: int, c: int) -> int {
    if cell(b, r, c) {
        1
    } else {
        0
    }
}

/// A cell state as a byte: 1 when alive, 0 when dead.
pub open spec fn byte(alive: bool) -> u8 {
    if alive {
        1
    } else {
        0
    }
}

/// The vertical triple of column `c` at row `r`: the cell and the two cells
/// above and below it.
pub open spec fn vertical_triple(b: Board, r: int, c: int) -> int {
    one(b, r - 1, c) + one(b, r, c) + one(b, r + 1, c)
}

/// The number of living cells among the eight toroidal neighbours of `(r, c)`.
pub open spec fn neighbor_count(b: Board, r: int, c: int) -> int {
    one(b, r - 1, c - 1) + one(b, r - 1, c) + one(b, r - 1, c + 1)
        + one(b, r, c - 1) + one(b, r, c + 1)
        + one(b, r + 1, c - 1) + one(b, r + 1, c) + one(b, r + 1, c + 1)
}

/// Birth and survival: a cell lives in the next generation when it has
/// exactly three living neighbours, or is alive and has exactly two.
pub open spec fn rule(alive: bool, count: int) -> bool {
    count == 3 || (alive && count == 2)
}

/// The state of `(r, c)` one generation on.
pub open spec fn next_cell(b: Board, r: int, c: int) -> bool {
    rule(cell(b, r, c), neighbor_count(b, r, c))
}

/// The next generation of a board.
pub open spec fn step(b: Board) -> Board {
    Seq::new(
        rows_of(b) as nat,
        |r: int| Seq::new(cols_of(b) as nat, |c: int| next_cell(b, r, c)),
    )
}

/// The board `n` generations on.
pub open spec fn generation(b: Board, n: nat) -> Board
    decreases n,
{
    if n == 0 {
        b
    } else {
        step(generation(b, (n - 1) as nat))
    }
}

/// No cell of the board is alive.
pub open spec fn all_dead(b: Board) -> bool {
    forall|r: int, c: int| 0 <= r < rows_of(b) && 0 <= c < cols_of(b) ==> !(#[trigger] b[r][c])
}

/// A folded index lies on the board, and an index on the board folds onto
/// itself.
pub proof fn lemma_wrap_range(i: int, n: int)
    requires
        n > 0,
    ensures
        0 <= wrap(i, n) < n,
        0 <= i < n ==> wrap(i, n) == i,
{
    lemma_split(i, n);
    if 0 <= i < n {
        lemma_join(0, i, n);
    }
}

/// Indices one period apart fold onto the same place.
pub proof fn lemma_wrap_period(i: int, n: int)
    requires
        n > 0,
    ensures
        wrap(i + n, n) == wrap(i, n),
        wrap(i - n, n) == wrap(i, n),
{
    lemma_split(i, n);
    let q = i / n;
    assert((q + 1) * n == q * n + n && (q - 1) * n == q * n - n) by (nonlinear_arith);
    lemma_join(q + 1, i % n, n);
    lemma_join(q - 1, i % n, n);
}

/// Folding before adding changes nothing once the sum is folded.
pub proof fn lemma_wrap_add(x: int, y: int, n: int)
    requires
        n > 0,
    ensures
        wrap(wrap(x, n) + y, n) == wrap(x + y, n),
{
    lemma_split(x, n);
    lemma_split(x + y, n);
    let q = x / n;
    let p = (x + y) / n;
    assert((p - q) * n == p * n - q * n) by (nonlinear_arith);
    lemma_join(p - q, (x + y) % n, n);
}

/// Folding an index that is at most one period off.
pub proof fn lemma_wrap(i: int, n: int)
    requires
        n > 0,
        -n <= i < 2 * n,
    ensures
        wrap(i, n) == if i < 0 {
            i + n
        } else if i >= n {
            i - n
        } else {
            i
        },
{
    if i < 0 {
        lemma_join(-1, i + n, n);
    } else if i >= n {
        lemma_join(1, i - n, n);
    } else {
        lemma_join(0, i, n);
    }
}

/// The neighbour count is the sum of three adjacent vertical triples less the
/// cell itself.
pub proof fn lemma_count_from_triples(b: Board, r: int, c: int)
    ensures
        neighbor_count(b, r, c) == vertical_triple(b, r, c - 1) + vertical_triple(b, r, c)
            + vertical_triple(b, r, c + 1) - one(b, r, c),
{
}

/// With the cell left out of the count, the rule is one comparison: the count
/// with the cell's own bit or-ed in is three.
pub proof fn lemma_rule_as_mask(alive: u8, count: u8)
    requires
        alive <= 1,
    ensures
        ((count | alive) == 3) == rule(alive == 1, count as int),
{
    assert(alive <= 1 ==> (((count | alive) == 3) <==> (count == 3 || (alive == 1 && count == 2))))
        by (bit_vector);
}

/// A step keeps the shape of the board.
pub proof fn lemma_step_shape(b: Board)
    requires
        rectangular(b),
    ensures
        rectangular(step(b)),
        rows_of(step(b)) == rows_of(b),
        cols_of(step(b)) == cols_of(b),
{
}

/// Any number of steps keeps the shape of the board.
pub proof fn lemma_generation_shape(b: Board, n: nat)
    requires
        rectangular(b),
    ensures
        rectangular(generation(b, n)),
        rows_of(generation(b, n)) == rows_of(b),
        cols_of(generation(b, n)) == cols_of(b),
    decreases n,
{
    if n > 0 {
        lemma_generation_shape(b, (n - 1) as nat);
        lemma_step_shape(generation(b, (n - 1) as nat));
    }
}

} // verus!
