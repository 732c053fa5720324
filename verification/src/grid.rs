//! The bit-packed grid: `rows` by `cols` cells on a torus, stored in chunks
//! of `chunk` consecutive rows.
//!
//! Chunk `i` holds rows `i * chunk .. (i + 1) * chunk` in one bit-vector, laid
//! out column by column: the cell in column `c` and lane `k` of the chunk sits
//! at bit `c * chunk + k`. A column of a chunk is therefore one contiguous run
//! of bits, which is what the neighbour counter reads.

use crate::arith::{lemma_below, lemma_join, lemma_split, lemma_split_range};
use crate::bits::{bits_get, bits_len, bits_of, bits_set, bits_zeroed, max_bits, Bits};
use crate::life::{all_dead, byte, cols_of, rectangular, rows_of, Board};
use vstd::prelude::*;

verus! {

/// Why a configuration is refused.
#[derive(Clone, Copy, Debug, PartialEq, Eq, Structural)]
pub enum ConfigError {
    /// The grid has no rows or no columns.
    ZeroSized,
    /// Fewer than three columns: wrapping around would meet itself.
    ColsTooSmall,
    /// The chunk width is zero or does not divide both dimensions.
    NotDivisible,
    /// One chunk would need more bits than a bit-vector can address.
    TooLarge,
}

/// The verdict on a configuration: `None` when it is accepted, else the first
/// defect in the order of [`ConfigError`]'s variants.
pub open spec fn config_error(rows: int, cols: int, chunk: int) -> Option<ConfigError> {
    if rows == 0 || cols == 0 {
        Some(ConfigError::ZeroSized)
    } else if cols < 3 {
        Some(ConfigError::ColsTooSmall)
    } else if chunk == 0 || rows % chunk != 0 || cols % chunk != 0 {
        Some(ConfigError::NotDivisible)
    } else if cols * chunk > max_bits() {
        Some(ConfigError::TooLarge)
    } else {
        None
    }
}

/// Checks a configuration before anything is allocated.
pub fn check_config(rows: usize, cols: usize, chunk: usize) -> (res: Result<(), ConfigError>)
    ensures
        res is Ok <==> config_error(rows as int, cols as int, chunk as int) is None,
        res matches Err(e) ==> config_error(rows as int, cols as int, chunk as int) == Some(e),
{
    if rows == 0 || cols == 0 {
        return Err(ConfigError::ZeroSized);
    }
    if cols < 3 {
        return Err(ConfigError::ColsTooSmall);
    }
    if chunk == 0 || rows % chunk != 0 || cols % chunk != 0 {
        return Err(ConfigError::NotDivisible);
    }
    match cols.checked_mul(chunk) {
        None => Err(ConfigError::TooLarge),
        Some(n) => if n > usize::MAX / 8 {
            Err(ConfigError::TooLarge)
        } else {
            Ok(())
        },
    }
}

/// Where a cell lives: rows split into chunks, columns spread inside a chunk.
pub proof fn lemma_slot(rows: int, cols: int, chunk: int, n_chunks: int, r: int, c: int)
    requires
        chunk > 0,
        n_chunks * chunk == rows,
        0 <= r < rows,
        0 <= c < cols,
    ensures
        0 <= r / chunk < n_chunks,
        0 <= r % chunk < chunk,
        0 <= c * chunk + r % chunk < cols * chunk,
        r == (r / chunk) * chunk + r % chunk,
{
    lemma_split_range(r, chunk, n_chunks);
    lemma_below(c, r % chunk, chunk, cols);
}

/// The row made of chunk `i` and lane `k` splits back into `i` and `k`.
pub proof fn lemma_lane(chunk: int, n_chunks: int, i: int, k: int)
    requires
        chunk > 0,
        0 <= i < n_chunks,
        0 <= k < chunk,
    ensures
        0 <= i * chunk + k < n_chunks * chunk,
        (i * chunk + k) / chunk == i,
        (i * chunk + k) % chunk == k,
{
    lemma_below(i, k, chunk, n_chunks);
    lemma_join(i, k, chunk);
}

/// The board a well-formed grid holds has the grid's dimensions.
pub proof fn lemma_view_shape(g: Grid)
    requires
        g.wf(),
    ensures
        rectangular(g@),
        rows_of(g@) == g.rows,
        cols_of(g@) == g.cols,
{
}

/// A generation: the cells of a toroidal board, one bit each.
pub struct Grid {
    /// Number of rows.
    pub rows: usize,
    /// Number of columns.
    pub cols: usize,
    /// Rows per chunk.
    pub chunk: usize,
    /// The chunks, top to bottom; see the module text for the layout.
    pub chunks: Vec<Bits>,
}

impl View for Grid {
    type V = Board;

    open spec fn view(&self) -> Board {
        Seq::new(
            self.rows as nat,
            |r: int| Seq::new(self.cols as nat, |c: int| self.bit(r, c)),
        )
    }
}

impl Grid {
    /// The stored bit for row `r`, column `c`.
    pub open spec fn bit(&self, r: int, c: int) -> bool {
        bits_of(self.chunks@[r / (self.chunk as int)])[c * self.chunk + r % (self.chunk as int)]
    }

    /// Number of chunks.
    pub open spec fn n_chunks(&self) -> int {
        self.chunks@.len() as int
    }

    /// Bits in one chunk.
    pub open spec fn chunk_bits(&self) -> int {
        self.cols * self.chunk
    }

    /// The invariant of a grid: an accepted configuration, one bit-vector per
    /// chunk, each of `cols * chunk` bits.
    pub open spec fn wf(&self) -> bool {
        &&& config_error(self.rows as int, self.cols as int, self.chunk as int) is None
        &&& self.n_chunks() * self.chunk == self.rows
        &&& forall|i: int|
            0 <= i < self.n_chunks() ==> bits_of(#[trigger] self.chunks@[i]).len()
                == self.chunk_bits()
    }

    /// Two grids of one shape, chunking included.
    pub open spec fn same_shape(&self, other: &Grid) -> bool {
        self.rows == other.rows && self.cols == other.cols && self.chunk == other.chunk
    }

    /// An all-dead grid of the given shape, or the reason the shape is refused.
    pub fn new(rows: usize, cols: usize, chunk: usize) -> (res: Result<Grid, ConfigError>)
        ensures
            res is Ok <==> config_error(rows as int, cols as int, chunk as int) is None,
            res matches Err(e) ==> config_error(rows as int, cols as int, chunk as int) == Some(e),
            res matches Ok(g) ==> g.wf() && g.rows == rows && g.cols == cols && g.chunk == chunk
                && all_dead(g@),
    {
        match check_config(rows, cols, chunk) {
            Err(e) => Err(e),
            Ok(()) => {
                let n: usize = rows / chunk;
                let len: usize = cols * chunk;
                proof {
                    lemma_split(rows as int, chunk as int);
                }
                let mut chunks: Vec<Bits> = Vec::with_capacity(n);
                let mut i: usize = 0;
                while i < n
                    invariant
                        i <= n,
                        len <= max_bits(),
                        chunks@.len() == i,
                        forall|k: int|
                            0 <= k < i ==> bits_of(#[trigger] chunks@[k]) == Seq::new(
                                len as nat,
                                |b: int| false,
                            ),
                    decreases n - i,
                {
                    chunks.push(bits_zeroed(len));
                    i += 1;
                }
                let g = Grid { rows, cols, chunk, chunks };
                proof {
                    assert forall|r: int, c: int| 0 <= r < rows && 0 <= c < cols implies !(
                    #[trigger] g@[r][c]) by {
                        lemma_slot(rows as int, cols as int, chunk as int, n as int, r, c);
                    }
                }
                Ok(g)
            },
        }
    }

    /// Tests the invariant: callers outside the verifier's reach use it before
    /// they hand a grid to a function that requires a well-formed one.
    pub fn check(&self) -> (ok: bool)
        ensures
            ok == self.wf(),
    {
        if check_config(self.rows, self.cols, self.chunk).is_err() {
            return false;
        }
        let n: usize = self.rows / self.chunk;
        proof {
            lemma_split(self.rows as int, self.chunk as int);
            if self.n_chunks() * self.chunk == self.rows {
                lemma_join(self.n_chunks(), 0, self.chunk as int);
            }
        }
        if self.chunks.len() != n {
            return false;
        }
        let len: usize = self.cols * self.chunk;
        let mut i: usize = 0;
        while i < n
            invariant
                n == self.n_chunks(),
                len == self.chunk_bits(),
                i <= n,
                forall|k: int|
                    0 <= k < i ==> bits_of(#[trigger] self.chunks@[k]).len() == self.chunk_bits(),
            decreases n - i,
        {
            if bits_len(&self.chunks[i]) != len {
                return false;
            }
            i += 1;
        }
        true
    }

    /// Number of rows.
    pub fn rows(&self) -> (n: usize)
        ensures
            n == self.rows,
    {
        self.rows
    }

    /// Number of columns.
    pub fn cols(&self) -> (n: usize)
        ensures
            n == self.cols,
    {
        self.cols
    }

    /// Rows per chunk.
    pub fn chunk(&self) -> (n: usize)
        ensures
            n == self.chunk,
    {
        self.chunk
    }

    /// The state of the cell at `(row, col)`. Callers fold coordinates onto the
    /// torus before they ask.
    pub fn get(&self, row: usize, col: usize) -> (alive: bool)
        requires
            self.wf(),
            row < self.rows,
            col < self.cols,
        ensures
            alive == self@[row as int][col as int],
    {
        proof {
            lemma_slot(
                self.rows as int,
                self.cols as int,
                self.chunk as int,
                self.n_chunks(),
                row as int,
                col as int,
            );
        }
        bits_get(&self.chunks[row / self.chunk], col * self.chunk + row % self.chunk)
    }

    /// Overwrites the cell at `(row, col)` and no other.
    pub fn set(&mut self, row: usize, col: usize, value: bool)
        requires
            old(self).wf(),
            row < old(self).rows,
            col < old(self).cols,
        ensures
            final(self).wf(),
            final(self).same_shape(old(self)),
            final(self)@ == old(self)@.update(
                row as int,
                old(self)@[row as int].update(col as int, value),
            ),
    {
        proof {
            lemma_slot(
                self.rows as int,
                self.cols as int,
                self.chunk as int,
                self.n_chunks(),
                row as int,
                col as int,
            );
        }
        let i: usize = row / self.chunk;
        let at: usize = col * self.chunk + row % self.chunk;
        bits_set(&mut self.chunks[i], at, value);
        proof {
            let before = old(self)@;
            let after = self@;
            let want = before.update(row as int, before[row as int].update(col as int, value));
            assert forall|r: int, c: int| 0 <= r < self.rows && 0 <= c < self.cols implies
                after[r][c] == want[r][c] by {
                lemma_slot(
                    self.rows as int,
                    self.cols as int,
                    self.chunk as int,
                    self.n_chunks(),
                    r,
                    c,
                );
                lemma_join(c, r % (self.chunk as int), self.chunk as int);
                lemma_join(col as int, (row % self.chunk) as int, self.chunk as int);
            }
            assert(after =~~= want);
        }
    }

    /// The cells of row `row` in the columns `from .. to`, one byte each: 1
    /// for a living cell, 0 for a dead one.
    pub fn row_slice(&self, row: usize, from: usize, to: usize) -> (out: Vec<u8>)
        requires
            self.wf(),
            row < self.rows,
            from <= to <= self.cols,
        ensures
            out@ == Seq::new((to - from) as nat, |k: int| byte(self@[row as int][from + k])),
    {
        let ghost want = Seq::new((to - from) as nat, |k: int| byte(self@[row as int][from + k]));
        let mut out: Vec<u8> = Vec::with_capacity(to - from);
        let mut col: usize = from;
        while col < to
            invariant
                self.wf(),
                row < self.rows,
                from <= col <= to <= self.cols,
                want == Seq::new((to - from) as nat, |k: int| byte(self@[row as int][from + k])),
                out@ == want.subrange(0, col - from),
            decreases to - col,
        {
            let alive = self.get(row, col);
            out.push(if alive {
                1u8
            } else {
                0u8
            });
            col += 1;
        }
        out
    }
}

} // verus!
