//! The step engine: one generation from the one before.
//!
//! A step reads the source grid only and writes the destination grid, chunk
//! by chunk. The chunks are independent of one another: [`compute_chunk`]
//! reads the whole source and writes one chunk's bits, so callers may run it
//! for distinct chunks in any order, or at the same time.

use crate::bits::{bits_of, bits_set, Bits};
use crate::counter::{
    get_simd_by_bits, lemma_masked_is_rule, masked, next_chunk, next_state, prev_chunk,
};
use crate::grid::{lemma_lane, lemma_slot, Grid};
use crate::life::{
    cols_of, lemma_wrap, next_cell, one, rows_of, step, vertical_triple, wrap, Board,
};
use vstd::prelude::*;

verus! {

/// The bits of chunk `i` of a board in the packed layout: column by column,
/// `chunk` lanes to a column.
pub open spec fn packed(b: Board, i: int, chunk: int) -> Seq<bool> {
    Seq::new((cols_of(b) * chunk) as nat, |at: int| b[i * chunk + at % chunk][at / chunk])
}

/// `v` holds, lane by lane, the vertical triples of column `c` for chunk `i`.
pub open spec fn is_triples(g: Grid, i: int, c: int, v: Seq<u8>) -> bool {
    &&& v.len() == g.chunk
    &&& forall|k: int| 0 <= k < g.chunk ==> #[trigger] v[k] == vertical_triple(g@, i * g.chunk + k, c)
}

/// `v` holds, lane by lane, the cells of column `c` for chunk `i`.
pub open spec fn is_alives(g: Grid, i: int, c: int, v: Seq<u8>) -> bool {
    &&& v.len() == g.chunk
    &&& forall|k: int| 0 <= k < g.chunk ==> #[trigger] v[k] == one(g@, i * g.chunk + k, c)
}

/// Columns that fold onto the same column hold the same cells.
pub proof fn lemma_column_wraps(b: Board, r: int, c: int, d: int)
    requires
        wrap(c, cols_of(b)) == wrap(d, cols_of(b)),
    ensures
        one(b, r, c) == one(b, r, d),
        vertical_triple(b, r, c) == vertical_triple(b, r, d),
{
}

/// What one application of the rule to column `j` of chunk `i` writes is the
/// next generation's packed image there.
pub proof fn lemma_column(
    g: Grid,
    i: int,
    j: int,
    left: Seq<u8>,
    mid: Seq<u8>,
    right: Seq<u8>,
    alives: Seq<u8>,
    k: int,
)
    requires
        g.wf(),
        0 <= i < g.n_chunks(),
        0 <= j < g.cols,
        0 <= k < g.chunk,
        is_triples(g, i, j - 1, left),
        is_triples(g, i, j, mid),
        is_triples(g, i, j + 1, right),
        is_alives(g, i, j, alives),
    ensures
        0 <= j * g.chunk + k < g.chunk_bits(),
        masked(left[k], mid[k], right[k], alives[k]) == packed(step(g@), i, g.chunk as int)[j
            * g.chunk + k],
{
    let chunk = g.chunk as int;
    let r = i * chunk + k;
    lemma_lane(chunk, g.cols as int, j, k);
    lemma_lane(chunk, g.n_chunks(), i, k);
    assert(left[k] == vertical_triple(g@, r, j - 1));
    assert(mid[k] == vertical_triple(g@, r, j));
    assert(right[k] == vertical_triple(g@, r, j + 1));
    assert(alives[k] == one(g@, r, j));
    lemma_masked_is_rule(left[k], mid[k], right[k], alives[k]);
    assert(step(g@)[r][j] == next_cell(g@, r, j));
    lemma_wrap(r, g.rows as int);
    lemma_wrap(j, g.cols as int);
}

/// Applies the rule to one column of a chunk: lane `k` of column `j` becomes
/// the one-comparison form on lane `k` of the four vectors. No other bit
/// changes.
fn write_column(
    cells_chunk: &mut Bits,
    j: usize,
    chunk: usize,
    left: &Vec<u8>,
    mid: &Vec<u8>,
    right: &Vec<u8>,
    alives: &Vec<u8>,
)
    requires
        chunk > 0,
        left@.len() == chunk,
        mid@.len() == chunk,
        right@.len() == chunk,
        alives@.len() == chunk,
        (j + 1) * chunk <= bits_of(*old(cells_chunk)).len(),
        bits_of(*old(cells_chunk)).len() <= usize::MAX,
    ensures
        bits_of(*final(cells_chunk)).len() == bits_of(*old(cells_chunk)).len(),
        forall|at: int|
            0 <= at < bits_of(*old(cells_chunk)).len() ==> #[trigger] bits_of(
                *final(cells_chunk),
            )[at] == if j * chunk <= at < (j + 1) * chunk {
                masked(
                    left@[at - j * chunk],
                    mid@[at - j * chunk],
                    right@[at - j * chunk],
                    alives@[at - j * chunk],
                )
            } else {
                bits_of(*old(cells_chunk))[at]
            },
{
    assert((j + 1) * chunk == j * chunk + chunk && 0 <= j * chunk) by (nonlinear_arith);
    let base: usize = j * chunk;
    let mut k: usize = 0;
    while k < chunk
        invariant
            k <= chunk,
            base == j * chunk,
            base + chunk <= bits_of(*cells_chunk).len(),
            left@.len() == chunk,
            mid@.len() == chunk,
            right@.len() == chunk,
            alives@.len() == chunk,
            bits_of(*cells_chunk).len() == bits_of(*old(cells_chunk)).len(),
            bits_of(*old(cells_chunk)).len() <= usize::MAX,
            forall|at: int|
                0 <= at < bits_of(*old(cells_chunk)).len() ==> #[trigger] bits_of(*cells_chunk)[at]
                    == if base <= at < base + k {
                    masked(left@[at - base], mid@[at - base], right@[at - base], alives@[at - base])
                } else {
                    bits_of(*old(cells_chunk))[at]
                },
        decreases chunk - k,
    {
        let lives = next_state(left[k], mid[k], right[k], alives[k]);
        bits_set(cells_chunk, base + k, lives);
        k += 1;
    }
}

/// Computes one chunk of the next generation: reads `cells_old`, writes the
/// bits of chunk `i_chunk` into `cells_chunk`.
pub fn compute_chunk(cells_old: &Grid, i_chunk: usize, cells_chunk: &mut Bits)
    requires
        cells_old.wf(),
        i_chunk < cells_old.n_chunks(),
        bits_of(*old(cells_chunk)).len() == cells_old.chunk_bits(),
    ensures
        bits_of(*final(cells_chunk)) == packed(step(cells_old@), i_chunk as int, cells_old.chunk as int),
{
    let n: usize = cells_old.chunks.len();
    let cols: usize = cells_old.cols;
    let chunk: usize = cells_old.chunk;
    let i_dec: usize = if i_chunk == 0 {
        n - 1
    } else {
        i_chunk - 1
    };
    let i_inc: usize = if i_chunk + 1 == n {
        0
    } else {
        i_chunk + 1
    };
    let ghost g = *cells_old;
    let ghost i = i_chunk as int;
    let ghost want = packed(step(g@), i, chunk as int);
    let (_, mut left) = get_simd_by_bits(cells_old, i_chunk, cols - 1, i_dec, i_inc);
    let (mut alives, first) = get_simd_by_bits(cells_old, i_chunk, 0, i_dec, i_inc);
    let mut mid = first.clone();
    proof {
        assert(mid@ =~= first@);
        lemma_wrap(-1, cols as int);
        lemma_wrap(cols - 1, cols as int);
        assert forall|k: int| 0 <= k < chunk implies #[trigger] left@[k] == vertical_triple(
            g@,
            i * chunk + k,
            -1,
        ) by {
            lemma_column_wraps(g@, i * chunk + k, -1, cols - 1);
        }
    }
    let mut j: usize = 0;
    while j < cols - 1
        invariant
            g == *cells_old,
            i == i_chunk,
            g.wf(),
            0 <= i < g.n_chunks(),
            cols == g.cols,
            chunk == g.chunk,
            i_dec == prev_chunk(i, g.n_chunks()),
            i_inc == next_chunk(i, g.n_chunks()),
            want == packed(step(g@), i, chunk as int),
            j <= cols - 1,
            0 <= j * chunk <= g.chunk_bits(),
            bits_of(*cells_chunk).len() == g.chunk_bits(),
            is_triples(g, i, j - 1, left@),
            is_triples(g, i, j as int, mid@),
            is_alives(g, i, j as int, alives@),
            is_triples(g, i, 0, first@),
            forall|at: int| 0 <= at < j * chunk ==> #[trigger] bits_of(*cells_chunk)[at] == want[at],
        decreases cols - j,
    {
        let (next_alives, right) = get_simd_by_bits(cells_old, i_chunk, j + 1, i_dec, i_inc);
        proof {
            assert((j + 1) * chunk <= cols * chunk && (j + 1) * chunk == j * chunk + chunk && 0
                <= j * chunk) by (nonlinear_arith)
                requires
                    0 <= j + 1 <= cols,
                    chunk > 0,
            ;
        }
        write_column(cells_chunk, j, chunk, &left, &mid, &right, &alives);
        proof {
            assert forall|at: int| 0 <= at < (j + 1) * chunk implies #[trigger] bits_of(
                *cells_chunk,
            )[at] == want[at] by {
                if at >= j * chunk {
                    lemma_column(g, i, j as int, left@, mid@, right@, alives@, at - j * chunk);
                }
            }
        }
        left = mid;
        mid = right;
        alives = next_alives;
        j += 1;
    }
    proof {
        lemma_wrap(cols as int, cols as int);
        lemma_wrap(0, cols as int);
        assert forall|k: int| 0 <= k < chunk implies #[trigger] first@[k] == vertical_triple(
            g@,
            i * chunk + k,
            cols as int,
        ) by {
            lemma_column_wraps(g@, i * chunk + k, cols as int, 0);
        }
        assert(cols * chunk == (cols - 1) * chunk + chunk && 0 <= (cols - 1) * chunk)
            by (nonlinear_arith)
            requires
                cols >= 1,
                chunk > 0,
        ;
    }
    write_column(cells_chunk, cols - 1, chunk, &left, &mid, &first, &alives);
    proof {
        assert forall|at: int| 0 <= at < cols * chunk implies #[trigger] bits_of(*cells_chunk)[at]
            == want[at] by {
            if at >= (cols - 1) * chunk {
                lemma_column(
                    g,
                    i,
                    cols - 1,
                    left@,
                    mid@,
                    first@,
                    alives@,
                    at - (cols - 1) * chunk,
                );
            }
        }
        assert(bits_of(*cells_chunk) =~= want);
    }
}

/// Chunks that hold the packed image of a board make a grid whose view is
/// that board.
pub proof fn lemma_packed_is_view(g: Grid, b: Board)
    requires
        g.wf(),
        rows_of(b) == g.rows,
        cols_of(b) == g.cols,
        forall|r: int| 0 <= r < g.rows ==> (#[trigger] b[r]).len() == g.cols,
        forall|i: int|
            0 <= i < g.n_chunks() ==> bits_of(#[trigger] g.chunks@[i]) == packed(
                b,
                i,
                g.chunk as int,
            ),
    ensures
        g@ == b,
{
    assert forall|r: int, c: int| 0 <= r < g.rows && 0 <= c < g.cols implies g@[r][c] == b[r][c] by {
        lemma_slot(g.rows as int, g.cols as int, g.chunk as int, g.n_chunks(), r, c);
        let i = r / (g.chunk as int);
        let k = r % (g.chunk as int);
        lemma_lane(g.chunk as int, g.cols as int, c, k);
        assert(bits_of(g.chunks@[i]) == packed(b, i, g.chunk as int));
    }
    assert(g@ =~~= b);
}

/// One generation: `cells_new` becomes the next generation of `cells_old`,
/// which is only read.
pub fn compute_cells(cells_old: &Grid, cells_new: &mut Grid)
    requires
        cells_old.wf(),
        old(cells_new).wf(),
        old(cells_new).same_shape(cells_old),
    ensures
        final(cells_new).wf(),
        final(cells_new).same_shape(cells_old),
        final(cells_new)@ == step(cells_old@),
{
    let n: usize = cells_old.chunks.len();
    let ghost next = step(cells_old@);
    assert(cells_new.n_chunks() == n) by (nonlinear_arith)
        requires
            cells_new.n_chunks() * cells_old.chunk == cells_old.rows,
            n * cells_old.chunk == cells_old.rows,
            cells_old.chunk > 0,
    ;
    let mut i: usize = 0;
    while i < n
        invariant
            cells_old.wf(),
            cells_new.wf(),
            cells_new.same_shape(cells_old),
            n == cells_old.n_chunks(),
            n == cells_new.n_chunks(),
            next == step(cells_old@),
            i <= n,
            forall|ii: int|
                0 <= ii < i ==> bits_of(#[trigger] cells_new.chunks@[ii]) == packed(
                    next,
                    ii,
                    cells_old.chunk as int,
                ),
        decreases n - i,
    {
        compute_chunk(cells_old, i, &mut cells_new.chunks[i]);
        i += 1;
    }
    proof {
        lemma_packed_is_view(*cells_new, next);
    }
}

} // verus!
