//! Neighbour counting by vertical triples.
//!
//! For one column of one chunk the counter reads `chunk + 2` cells: the
//! chunk's own, framed by the row above its first and the row below its last.
//! Three adjacent cells of that column sum to a vertical triple; three
//! adjacent triples, less the cell itself, are the neighbour count. The lanes
//! are plain bytes and every sum is taken lane by lane, so the result does not
//! depend on how many lanes the machine adds at once.

use crate::bits::{bits_get, bits_of};
use crate::grid::{lemma_lane, lemma_slot, Grid};
use crate::life::{
    byte, cell, lemma_rule_as_mask, lemma_wrap, neighbor_count, one, rule, vertical_triple, wrap,
};
use vstd::prelude::*;

verus! {

/// The framed column `j` of chunk `start_i`: first the last row of chunk
/// `i_dec`, then the chunk's own rows, then the first row of chunk `i_inc`.
pub open spec fn lanes(g: Grid, start_i: int, j: int, i_dec: int, i_inc: int) -> Seq<u8> {
    Seq::new(
        (g.chunk + 2) as nat,
        |m: int|
            if m == 0 {
                byte(bits_of(g.chunks@[i_dec])[(j + 1) * g.chunk - 1])
            } else if m == g.chunk + 1 {
                byte(bits_of(g.chunks@[i_inc])[j * g.chunk])
            } else {
                byte(bits_of(g.chunks@[start_i])[j * g.chunk + m - 1])
            },
    )
}

/// The inner lanes of a framed column: the chunk's own cells.
pub open spec fn alives_of(values: Seq<u8>) -> Seq<u8> {
    values.subrange(1, values.len() - 1)
}

/// Lane by lane, the wrapping sum of each lane of a framed column with the
/// two lanes that follow it.
pub open spec fn triples_of(values: Seq<u8>) -> Seq<u8> {
    Seq::new(
        (values.len() - 2) as nat,
        |k: int| values[k].wrapping_add(values[k + 1]).wrapping_add(values[k + 2]),
    )
}

/// The chunk before `i` on a torus of `n` chunks.
pub open spec fn prev_chunk(i: int, n: int) -> int {
    if i == 0 {
        n - 1
    } else {
        i - 1
    }
}

/// The chunk after `i` on a torus of `n` chunks.
pub open spec fn next_chunk(i: int, n: int) -> int {
    if i + 1 == n {
        0
    } else {
        i + 1
    }
}

/// What the one-comparison form of the rule computes on raw lanes: three
/// triples summed, the cell taken off, the cell's bit or-ed in, compared
/// with three. All arithmetic wraps, as lane arithmetic does.
pub open spec fn masked(left: u8, mid: u8, right: u8, alive: u8) -> bool {
    (left.wrapping_add(mid).wrapping_add(right).wrapping_sub(alive) | alive) == 3
}

/// Reads the cell in lane `k` of chunk `i`, column `c`, as the board sees it.
pub proof fn lemma_lane_is_cell(g: Grid, i: int, k: int, c: int)
    requires
        g.wf(),
        0 <= i < g.n_chunks(),
        0 <= k < g.chunk,
        0 <= c < g.cols,
    ensures
        0 <= c * g.chunk + k < g.chunk_bits(),
        0 <= i * g.chunk + k < g.rows,
        bits_of(g.chunks@[i])[c * g.chunk + k] == g@[i * g.chunk + k][c],
        g@[i * g.chunk + k][c] == cell(g@, i * g.chunk + k, c),
{
    let r = i * g.chunk + k;
    lemma_lane(g.chunk as int, g.n_chunks(), i, k);
    lemma_slot(g.rows as int, g.cols as int, g.chunk as int, g.n_chunks(), r, c);
    lemma_wrap(r, g.rows as int);
    lemma_wrap(c, g.cols as int);
}

/// With the frame taken from the chunks before and after, lane `m` of the
/// framed column `j` of chunk `i` is the cell in row `i * chunk + m - 1`.
pub proof fn lemma_lanes_are_cells(g: Grid, i: int, j: int, m: int)
    requires
        g.wf(),
        0 <= i < g.n_chunks(),
        0 <= j < g.cols,
        0 <= m <= g.chunk + 1,
    ensures
        lanes(g, i, j, prev_chunk(i, g.n_chunks()), next_chunk(i, g.n_chunks()))[m] == one(
            g@,
            i * g.chunk + m - 1,
            j,
        ),
{
    let n = g.n_chunks();
    let chunk = g.chunk as int;
    let rows = g.rows as int;
    let r = i * chunk + m - 1;
    lemma_lane(chunk, n, i, 0);
    lemma_lane(chunk, n, i, chunk - 1);
    lemma_wrap(r, rows);
    lemma_wrap(j, g.cols as int);
    let folded = wrap(r, rows);
    if m == 0 {
        let p = prev_chunk(i, n);
        lemma_lane_is_cell(g, p, chunk - 1, j);
        assert(p * chunk + chunk - 1 == folded) by (nonlinear_arith)
            requires
                p == if i == 0 {
                    n - 1
                } else {
                    i - 1
                },
                r == i * chunk - 1,
                n * chunk == rows,
                folded == if r < 0 {
                    r + rows
                } else {
                    r
                },
                i >= 0,
                chunk > 0,
        ;
        assert((j + 1) * chunk - 1 == j * chunk + (chunk - 1)) by (nonlinear_arith);
    } else if m == chunk + 1 {
        let q = next_chunk(i, n);
        lemma_lane_is_cell(g, q, 0, j);
        assert(q * chunk == folded) by (nonlinear_arith)
            requires
                q == if i + 1 == n {
                    0
                } else {
                    i + 1
                },
                r == i * chunk + chunk,
                n * chunk == rows,
                folded == if r >= rows {
                    r - rows
                } else {
                    r
                },
                0 <= i < n,
                chunk > 0,
        ;
    } else {
        lemma_lane_is_cell(g, i, m - 1, j);
    }
}

/// With the frame taken from the chunks before and after, the inner lanes are
/// the chunk's cells and the triples are their vertical triples.
pub proof fn lemma_triples_are_vertical(g: Grid, i: int, j: int, k: int)
    requires
        g.wf(),
        0 <= i < g.n_chunks(),
        0 <= j < g.cols,
        0 <= k < g.chunk,
    ensures
        ({
            let v = lanes(g, i, j, prev_chunk(i, g.n_chunks()), next_chunk(i, g.n_chunks()));
            &&& alives_of(v)[k] == one(g@, i * g.chunk + k, j)
            &&& triples_of(v)[k] == vertical_triple(g@, i * g.chunk + k, j)
        }),
{
    lemma_lanes_are_cells(g, i, j, k);
    lemma_lanes_are_cells(g, i, j, k + 1);
    lemma_lanes_are_cells(g, i, j, k + 2);
}

/// On real triples the one-comparison form is the rule: with `alive` a cell,
/// `mid` its vertical triple and `left`, `right` the triples beside it.
pub proof fn lemma_masked_is_rule(left: u8, mid: u8, right: u8, alive: u8)
    requires
        alive <= 1,
        left <= 3,
        right <= 3,
        alive <= mid <= 3,
    ensures
        masked(left, mid, right, alive) == rule(alive == 1, left + mid + right - alive),
{
    let count: u8 = (left + mid + right - alive) as u8;
    assert(left.wrapping_add(mid).wrapping_add(right).wrapping_sub(alive) == count);
    lemma_rule_as_mask(alive, count);
}

/// Splits a framed column into the cells of the chunk and their vertical
/// triples.
pub fn get_triple_simd(values: Vec<u8>) -> (out: (Vec<u8>, Vec<u8>))
    requires
        values@.len() >= 2,
    ensures
        out.0@ == alives_of(values@),
        out.1@ == triples_of(values@),
{
    let n: usize = values.len() - 2;
    let mut alives: Vec<u8> = Vec::with_capacity(n);
    let mut triples: Vec<u8> = Vec::with_capacity(n);
    let mut k: usize = 0;
    while k < n
        invariant
            n + 2 == values.len(),
            k <= n,
            alives@ == values@.subrange(1, k + 1),
            triples@ == triples_of(values@).subrange(0, k as int),
        decreases n - k,
    {
        alives.push(values[k + 1]);
        triples.push(values[k].wrapping_add(values[k + 1]).wrapping_add(values[k + 2]));
        k += 1;
    }
    (alives, triples)
}

/// A cell state as a byte.
fn byte_of(alive: bool) -> (b: u8)
    ensures
        b == byte(alive),
{
    if alive {
        1
    } else {
        0
    }
}

/// Reads column `j` of chunk `start_i`, framed by the last row of chunk
/// `i_dec` and the first row of chunk `i_inc`, and returns the chunk's cells
/// with their vertical triples.
pub fn get_simd_by_bits(cells_old: &Grid, start_i: usize, j: usize, i_dec: usize, i_inc: usize) -> (out:
    (Vec<u8>, Vec<u8>))
    requires
        cells_old.wf(),
        start_i < cells_old.n_chunks(),
        i_dec < cells_old.n_chunks(),
        i_inc < cells_old.n_chunks(),
        j < cells_old.cols,
    ensures
        out.0@ == alives_of(lanes(*cells_old, start_i as int, j as int, i_dec as int, i_inc as int)),
        out.1@ == triples_of(
            lanes(*cells_old, start_i as int, j as int, i_dec as int, i_inc as int),
        ),
        out.0@.len() == cells_old.chunk,
        out.1@.len() == cells_old.chunk,
        i_dec == prev_chunk(start_i as int, cells_old.n_chunks()) && i_inc == next_chunk(
            start_i as int,
            cells_old.n_chunks(),
        ) ==> forall|k: int|
            #![trigger out.0@[k]]
            #![trigger out.1@[k]]
            0 <= k < cells_old.chunk ==> out.0@[k] == one(
                cells_old@,
                start_i * cells_old.chunk + k,
                j as int,
            ) && out.1@[k] == vertical_triple(cells_old@, start_i * cells_old.chunk + k, j as int),
{
    let chunk: usize = cells_old.chunk;
    let ghost want = lanes(*cells_old, start_i as int, j as int, i_dec as int, i_inc as int);
    proof {
        lemma_lane_is_cell(*cells_old, i_dec as int, chunk - 1, j as int);
        lemma_lane_is_cell(*cells_old, i_inc as int, 0, j as int);
        assert((j + 1) * chunk - 1 == j * chunk + (chunk - 1)) by (nonlinear_arith);
    }
    let mut values: Vec<u8> = Vec::with_capacity(chunk + 2);
    values.push(byte_of(bits_get(&cells_old.chunks[i_dec], (j + 1) * chunk - 1)));
    let mut k: usize = 0;
    while k < chunk
        invariant
            cells_old.wf(),
            start_i < cells_old.n_chunks(),
            j < cells_old.cols,
            chunk == cells_old.chunk,
            k <= chunk,
            want == lanes(*cells_old, start_i as int, j as int, i_dec as int, i_inc as int),
            values@ == want.subrange(0, k + 1),
        decreases chunk - k,
    {
        proof {
            lemma_lane_is_cell(*cells_old, start_i as int, k as int, j as int);
        }
        values.push(byte_of(bits_get(&cells_old.chunks[start_i], j * chunk + k)));
        k += 1;
    }
    values.push(byte_of(bits_get(&cells_old.chunks[i_inc], j * chunk)));
    assert(values@ == want);
    proof {
        if i_dec == prev_chunk(start_i as int, cells_old.n_chunks()) && i_inc == next_chunk(
            start_i as int,
            cells_old.n_chunks(),
        ) {
            assert forall|k: int| 0 <= k < cells_old.chunk implies alives_of(want)[k] == one(
                cells_old@,
                start_i * cells_old.chunk + k,
                j as int,
            ) && triples_of(want)[k] == vertical_triple(
                cells_old@,
                start_i * cells_old.chunk + k,
                j as int,
            ) by {
                lemma_triples_are_vertical(*cells_old, start_i as int, j as int, k);
            }
        }
    }
    get_triple_simd(values)
}

/// The next state of a cell from the three vertical triples around it and
/// the cell itself, by the one-comparison form of the rule.
pub fn next_state(left: u8, mid: u8, right: u8, alive: u8) -> (lives: bool)
    ensures
        lives == masked(left, mid, right, alive),
{
    (left.wrapping_add(mid).wrapping_add(right).wrapping_sub(alive) | alive) == 3
}

/// The index before `i` on a ring of `n`.
fn ring_prev(i: usize, n: usize) -> (p: usize)
    requires
        i < n,
    ensures
        p == wrap(i - 1, n as int),
        p < n,
{
    proof {
        lemma_wrap(i - 1, n as int);
    }
    if i == 0 {
        n - 1
    } else {
        i - 1
    }
}

/// The index after `i` on a ring of `n`.
fn ring_next(i: usize, n: usize) -> (p: usize)
    requires
        i < n,
    ensures
        p == wrap(i + 1, n as int),
        p < n,
{
    proof {
        lemma_wrap(i + 1, n as int);
    }
    if i + 1 == n {
        0
    } else {
        i + 1
    }
}

/// The number of living cells among the eight toroidal neighbours of the
/// cell at `(row, col)`.
pub fn count_neighbors(cells: &Grid, row: usize, col: usize) -> (count: u8)
    requires
        cells.wf(),
        row < cells.rows,
        col < cells.cols,
    ensures
        count == neighbor_count(cells@, row as int, col as int),
{
    proof {
        lemma_wrap(row as int, cells.rows as int);
        lemma_wrap(col as int, cells.cols as int);
    }
    let up = ring_prev(row, cells.rows);
    let down = ring_next(row, cells.rows);
    let left = ring_prev(col, cells.cols);
    let right = ring_next(col, cells.cols);
    let above: u8 = byte_of(cells.get(up, left)) + byte_of(cells.get(up, col)) + byte_of(
        cells.get(up, right),
    );
    let beside: u8 = byte_of(cells.get(row, left)) + byte_of(cells.get(row, right));
    let below: u8 = byte_of(cells.get(down, left)) + byte_of(cells.get(down, col)) + byte_of(
        cells.get(down, right),
    );
    above + beside + below
}

} // verus!
