//! Seeding: the first generation from a block of random words.
//!
//! A chunk's bits are filled 128 at a time. Block `j` of chunk `i` takes the
//! seed word at index `(i ^ j * j) % len`, so a short seed array covers a
//! large grid and one seed array always gives the same grid. Drawing the
//! words is the only step that involves chance, and it is kept apart from
//! the filling.

use crate::arith::lemma_join;
use crate::bits::{bit_of, bits_of, bits_store};
use crate::grid::{lemma_slot, Grid};
use crate::life::Board;
use vstd::prelude::*;

verus! {

/// Bits filled by one seed word.
pub const SEED_BITS: usize = 128;

/// The seed word used for block `j` of chunk `i`, with `n` words to choose
/// from.
pub open spec fn seed_index(i: int, j: int, n: int) -> int {
    (((i as u128) ^ ((j * j) as u128)) % (n as u128)) as int
}

/// Bit `at` of chunk `i` after seeding.
pub open spec fn seeded_bit(seed: Seq<u128>, i: int, at: int) -> bool {
    bit_of(
        seed[seed_index(i, at / (SEED_BITS as int), seed.len() as int)],
        at % (SEED_BITS as int),
    )
}

/// The board that seeding gives for a shape and a seed array.
pub open spec fn seeded(seed: Seq<u128>, rows: int, cols: int, chunk: int) -> Board {
    Seq::new(
        rows as nat,
        |r: int| Seq::new(cols as nat, |c: int| seeded_bit(seed, r / chunk, c * chunk + r % chunk)),
    )
}

/// `rand::random::<u128>()`: one word from the thread's random generator.
/// Nothing is promised of its value.
#[verifier::external_body]
fn random_u128() -> (word: u128) {
    rand::random::<u128>()
}

/// Draws `len` random seed words.
pub fn random_seed(len: usize) -> (seed: Vec<u128>)
    ensures
        seed@.len() == len,
{
    let mut seed: Vec<u128> = Vec::with_capacity(len);
    let mut k: usize = 0;
    while k < len
        invariant
            k <= len,
            seed@.len() == k,
        decreases len - k,
    {
        seed.push(random_u128());
        k += 1;
    }
    seed
}

/// The square of a machine index fits in 128 bits.
proof fn lemma_square_fits(j: int)
    requires
        0 <= j <= 0xFFFF_FFFF_FFFF_FFFF,
    ensures
        0 <= j * j <= 0xFFFF_FFFF_FFFF_FFFE_0000_0000_0000_0001,
{
    assert(0 <= j * j <= 0xFFFF_FFFF_FFFF_FFFF * 0xFFFF_FFFF_FFFF_FFFF) by (nonlinear_arith)
        requires
            0 <= j <= 0xFFFF_FFFF_FFFF_FFFF,
    ;
}

/// Picks the seed word for block `j` of chunk `i`.
fn pick(seed: &Vec<u128>, i: usize, j: usize) -> (word: u128)
    requires
        seed@.len() > 0,
    ensures
        0 <= seed_index(i as int, j as int, seed@.len() as int) < seed@.len(),
        word == seed@[seed_index(i as int, j as int, seed@.len() as int)],
{
    proof {
        lemma_square_fits(j as int);
    }
    let n: u128 = seed.len() as u128;
    let mixed: u128 = (i as u128) ^ ((j as u128) * (j as u128));
    let at: u128 = mixed % n;
    seed[at as usize]
}

impl Grid {
    /// Fills the grid from `seed`: every cell is a bit of one of its words,
    /// chosen by the cell's place alone.
    pub fn seed(&mut self, seed: &Vec<u128>)
        requires
            old(self).wf(),
            seed@.len() > 0,
        ensures
            final(self).wf(),
            final(self).same_shape(old(self)),
            final(self)@ == seeded(
                seed@,
                old(self).rows as int,
                old(self).cols as int,
                old(self).chunk as int,
            ),
    {
        let n: usize = self.chunks.len();
        let len: usize = self.cols * self.chunk;
        let mut i: usize = 0;
        while i < n
            invariant
                self.wf(),
                self.same_shape(old(self)),
                n == self.n_chunks(),
                len == self.chunk_bits(),
                seed@.len() > 0,
                i <= n,
                forall|ii: int, at: int|
                    0 <= ii < i && 0 <= at < len ==> #[trigger] bits_of(self.chunks@[ii])[at]
                        == seeded_bit(seed@, ii, at),
            decreases n - i,
        {
            let mut j: usize = 0;
            let mut at: usize = 0;
            while at < len
                invariant
                    self.wf(),
                    self.same_shape(old(self)),
                    n == self.n_chunks(),
                    len == self.chunk_bits(),
                    seed@.len() > 0,
                    i < n,
                    at == j * SEED_BITS || at == len,
                    at <= len,
                    j * SEED_BITS <= len + SEED_BITS,
                    forall|ii: int, b: int|
                        0 <= ii < i && 0 <= b < len ==> #[trigger] bits_of(self.chunks@[ii])[b]
                            == seeded_bit(seed@, ii, b),
                    forall|b: int|
                        0 <= b < at ==> #[trigger] bits_of(self.chunks@[i as int])[b] == seeded_bit(
                            seed@,
                            i as int,
                            b,
                        ),
                decreases len - at,
            {
                let width: usize = if len - at < SEED_BITS {
                    len - at
                } else {
                    SEED_BITS
                };
                let word = pick(seed, i, j);
                bits_store(&mut self.chunks[i], at, width, word);
                proof {
                    assert forall|b: int| 0 <= b < at + width implies #[trigger] bits_of(
                        self.chunks@[i as int],
                    )[b] == seeded_bit(seed@, i as int, b) by {
                        if b >= at {
                            lemma_join(j as int, b - at, SEED_BITS as int);
                        }
                    }
                }
                at = at + width;
                j = j + 1;
            }
            i += 1;
        }
        proof {
            let want = seeded(seed@, self.rows as int, self.cols as int, self.chunk as int);
            assert forall|r: int, c: int| 0 <= r < self.rows && 0 <= c < self.cols implies self@[r][c]
                == want[r][c] by {
                lemma_slot(
                    self.rows as int,
                    self.cols as int,
                    self.chunk as int,
                    self.n_chunks(),
                    r,
                    c,
                );
            }
            assert(self@ =~~= want);
        }
    }
}

} // verus!
