//! What holds of every board: the laws of the rule on a torus.

use crate::arith::lemma_join;
use crate::grid::{lemma_lane, Grid};
use crate::life::{
    all_dead, cell, cols_of, generation, lemma_generation_shape, lemma_step_shape, lemma_wrap,
    lemma_wrap_add, lemma_wrap_period, lemma_wrap_range, neighbor_count, next_cell, one,
    rectangular, rows_of, step,
    wrap, Board,
};
use crate::render::{
    block_count, cell_color, dark_block, dark_row, lemma_pixel_pos, lemma_shade_level, pixel,
    rendered, row_count, shade, shrunk, RenderMode,
};
use crate::seed::seeded;
use vstd::prelude::*;

verus! {

/// The board moved by `dr` rows and `dc` columns around the torus: the cell
/// that was at `(r, c)` is now at `(r + dr, c + dc)`.
pub open spec fn shifted(b: Board, dr: int, dc: int) -> Board {
    Seq::new(
        rows_of(b) as nat,
        |r: int| Seq::new(cols_of(b) as nat, |c: int| cell(b, r - dr, c - dc)),
    )
}

/// A cell of a moved board is the cell it came from.
pub proof fn lemma_shifted_cell(b: Board, dr: int, dc: int, r: int, c: int)
    requires
        rectangular(b),
    ensures
        cell(shifted(b, dr, dc), r, c) == cell(b, r - dr, c - dc),
        one(shifted(b, dr, dc), r, c) == one(b, r - dr, c - dc),
{
    lemma_wrap_range(r, rows_of(b));
    lemma_wrap_range(c, cols_of(b));
    lemma_wrap_add(r, -dr, rows_of(b));
    lemma_wrap_add(c, -dc, cols_of(b));
}

/// Moving a board keeps its shape.
pub proof fn lemma_shifted_shape(b: Board, dr: int, dc: int)
    requires
        rectangular(b),
    ensures
        rectangular(shifted(b, dr, dc)),
        rows_of(shifted(b, dr, dc)) == rows_of(b),
        cols_of(shifted(b, dr, dc)) == cols_of(b),
{
}

/// Two moves in a row are one move by the sum.
pub proof fn lemma_shifted_twice(b: Board, dr: int, dc: int, er: int, ec: int)
    requires
        rectangular(b),
    ensures
        shifted(shifted(b, dr, dc), er, ec) == shifted(b, dr + er, dc + ec),
{
    let once = shifted(b, dr, dc);
    let twice = shifted(once, er, ec);
    let direct = shifted(b, dr + er, dc + ec);
    lemma_shifted_shape(b, dr, dc);
    assert forall|r: int, c: int| 0 <= r < rows_of(b) && 0 <= c < cols_of(b) implies twice[r][c]
        == direct[r][c] by {
        lemma_shifted_cell(b, dr, dc, r - er, c - ec);
    }
    assert(twice =~~= direct);
}

/// The cell at an offset from `(r, c)` on a moved board is the cell at the
/// same offset from where `(r, c)` came from.
proof fn lemma_shifted_neighbor(b: Board, dr: int, dc: int, r: int, c: int, a: int, e: int)
    requires
        rectangular(b),
    ensures
        one(shifted(b, dr, dc), r + a, c + e) == one(
            b,
            wrap(r - dr, rows_of(b)) + a,
            wrap(c - dc, cols_of(b)) + e,
        ),
{
    lemma_shifted_cell(b, dr, dc, r + a, c + e);
    lemma_wrap_add(r - dr, a, rows_of(b));
    lemma_wrap_add(c - dc, e, cols_of(b));
}

/// The torus has no edge and no origin: moving a board and then stepping it
/// gives what stepping it and then moving it gives.
pub proof fn law_step_commutes_with_shift(b: Board, dr: int, dc: int)
    requires
        rectangular(b),
    ensures
        step(shifted(b, dr, dc)) == shifted(step(b), dr, dc),
{
    let moved = shifted(b, dr, dc);
    let left = step(moved);
    let right = shifted(step(b), dr, dc);
    let rows = rows_of(b);
    let cols = cols_of(b);
    assert forall|r: int, c: int| 0 <= r < rows && 0 <= c < cols implies left[r][c] == right[r][c] by {
        let r0 = wrap(r - dr, rows);
        let c0 = wrap(c - dc, cols);
        lemma_wrap_range(r - dr, rows);
        lemma_wrap_range(c - dc, cols);
        assert(left[r][c] == next_cell(moved, r, c));
        assert(right[r][c] == next_cell(b, r0, c0));
        lemma_shifted_neighbor(b, dr, dc, r, c, 0, 0);
        lemma_shifted_neighbor(b, dr, dc, r, c, -1, -1);
        lemma_shifted_neighbor(b, dr, dc, r, c, -1, 0);
        lemma_shifted_neighbor(b, dr, dc, r, c, -1, 1);
        lemma_shifted_neighbor(b, dr, dc, r, c, 0, -1);
        lemma_shifted_neighbor(b, dr, dc, r, c, 0, 1);
        lemma_shifted_neighbor(b, dr, dc, r, c, 1, -1);
        lemma_shifted_neighbor(b, dr, dc, r, c, 1, 0);
        lemma_shifted_neighbor(b, dr, dc, r, c, 1, 1);
    }
    assert(left =~~= right);
}

/// Moving a board and then running it for `n` generations gives what running
/// it and then moving it gives: a pattern that travels travels across the
/// edges as it does anywhere else.
pub proof fn law_run_commutes_with_shift(b: Board, dr: int, dc: int, n: nat)
    requires
        rectangular(b),
    ensures
        generation(shifted(b, dr, dc), n) == shifted(generation(b, n), dr, dc),
    decreases n,
{
    if n > 0 {
        let before = generation(b, (n - 1) as nat);
        law_run_commutes_with_shift(b, dr, dc, (n - 1) as nat);
        lemma_generation_shape(b, (n - 1) as nat);
        law_step_commutes_with_shift(before, dr, dc);
    }
}

/// Every living cell has two or three living neighbours, and no dead cell
/// has exactly three.
pub open spec fn still(b: Board) -> bool {
    forall|r: int, c: int|
        0 <= r < rows_of(b) && 0 <= c < cols_of(b) ==> if b[r][c] {
            #[trigger] neighbor_count(b, r, c) == 2 || neighbor_count(b, r, c) == 3
        } else {
            neighbor_count(b, r, c) != 3
        }
}

/// Still-life invariance: a board on which every living cell has two or
/// three living neighbours and no dead cell has exactly three is its own next
/// generation.
pub proof fn law_still_life(b: Board)
    requires
        rectangular(b),
        still(b),
    ensures
        step(b) == b,
{
    assert forall|r: int, c: int| 0 <= r < rows_of(b) && 0 <= c < cols_of(b) implies step(b)[r][c]
        == b[r][c] by {
        lemma_wrap_range(r, rows_of(b));
        lemma_wrap_range(c, cols_of(b));
        assert(step(b)[r][c] == next_cell(b, r, c));
        assert(cell(b, r, c) == b[r][c]);
    }
    assert(step(b) =~~= b);
}

/// A still life stays as it is for any number of generations.
pub proof fn law_still_life_forever(b: Board, n: nat)
    requires
        rectangular(b),
        still(b),
    ensures
        generation(b, n) == b,
    decreases n,
{
    if n > 0 {
        law_still_life_forever(b, (n - 1) as nat);
        law_still_life(b);
    }
}

/// Toroidal wraparound: a living cell in the corner `(0, 0)` is counted as a
/// neighbour by the cells across every edge: in the last row, in the last
/// column, and in the opposite corner.
pub proof fn law_corner_wraps(b: Board)
    requires
        rectangular(b),
        b[0][0],
    ensures
        neighbor_count(b, rows_of(b) - 1, cols_of(b) - 1) >= 1,
        neighbor_count(b, rows_of(b) - 1, 0) >= 1,
        neighbor_count(b, rows_of(b) - 1, 1) >= 1,
        neighbor_count(b, 0, cols_of(b) - 1) >= 1,
        neighbor_count(b, 1, cols_of(b) - 1) >= 1,
{
    let rows = rows_of(b);
    let cols = cols_of(b);
    lemma_wrap_range(0, rows);
    lemma_wrap_range(0, cols);
    lemma_wrap_period(0, rows);
    lemma_wrap_period(0, cols);
    assert(one(b, 0, 0) == 1);
    assert(one(b, rows, 0) == 1);
    assert(one(b, 0, cols) == 1);
    assert(one(b, rows, cols) == 1);
}

/// With at least three rows and three columns and the corner `(0, 0)` the
/// only living cell, each of the cells across an edge from it counts exactly
/// one living neighbour.
pub proof fn law_lone_corner(b: Board)
    requires
        rectangular(b),
        rows_of(b) >= 3,
        cols_of(b) >= 3,
        forall|r: int, c: int|
            0 <= r < rows_of(b) && 0 <= c < cols_of(b) ==> (#[trigger] b[r][c] <==> r == 0 && c == 0),
    ensures
        neighbor_count(b, rows_of(b) - 1, cols_of(b) - 1) == 1,
        neighbor_count(b, rows_of(b) - 1, 0) == 1,
        neighbor_count(b, rows_of(b) - 1, 1) == 1,
        neighbor_count(b, 0, cols_of(b) - 1) == 1,
        neighbor_count(b, 1, cols_of(b) - 1) == 1,
{
    let rows = rows_of(b);
    let cols = cols_of(b);
    assert forall|r: int, c: int| -1 <= r <= rows && -1 <= c <= cols implies #[trigger] one(b, r, c)
        == if wrap(r, rows) == 0 && wrap(c, cols) == 0 {
        1int
    } else {
        0int
    } by {
        lemma_wrap_range(r, rows);
        lemma_wrap_range(c, cols);
        assert(b[wrap(r, rows)][wrap(c, cols)] <==> wrap(r, rows) == 0 && wrap(c, cols) == 0);
    }
    lemma_wrap_period(0, rows);
    lemma_wrap_period(0, cols);
    lemma_wrap_period(-1, rows);
    lemma_wrap_period(-1, cols);
    lemma_wrap_range(0, rows);
    lemma_wrap_range(0, cols);
    lemma_wrap_range(1, rows);
    lemma_wrap_range(1, cols);
    lemma_wrap_range(2, rows);
    lemma_wrap_range(2, cols);
    lemma_wrap_range(rows - 1, rows);
    lemma_wrap_range(cols - 1, cols);
    lemma_wrap_range(rows - 2, rows);
    lemma_wrap_range(cols - 2, cols);
}

/// An all-dead board has an all-dead next generation.
pub proof fn law_empty_step(b: Board)
    requires
        rectangular(b),
        all_dead(b),
    ensures
        all_dead(step(b)),
        step(b) == b,
{
    assert forall|r: int, c: int| !cell(b, r, c) by {
        lemma_wrap_range(r, rows_of(b));
        lemma_wrap_range(c, cols_of(b));
        assert(!b[wrap(r, rows_of(b))][wrap(c, cols_of(b))]);
    }
    assert forall|r: int, c: int| 0 <= r < rows_of(b) && 0 <= c < cols_of(b) implies !(
    #[trigger] step(b)[r][c]) by {
        assert(step(b)[r][c] == next_cell(b, r, c));
        assert(one(b, r - 1, c - 1) == 0 && one(b, r - 1, c) == 0 && one(b, r - 1, c + 1) == 0);
        assert(one(b, r, c - 1) == 0 && one(b, r, c + 1) == 0);
        assert(one(b, r + 1, c - 1) == 0 && one(b, r + 1, c) == 0 && one(b, r + 1, c + 1) == 0);
    }
    assert(step(b) =~~= b);
}

/// Idempotent empty grid: an all-dead board is all-dead after any number of
/// generations.
pub proof fn law_empty_forever(b: Board, n: nat)
    requires
        rectangular(b),
        all_dead(b),
    ensures
        all_dead(generation(b, n)),
        generation(b, n) == b,
    decreases n,
{
    if n > 0 {
        law_empty_forever(b, (n - 1) as nat);
        law_empty_step(b);
    }
}

/// A block of one cell counts that cell.
proof fn lemma_single_block(b: Board, top: int, left: int)
    ensures
        block_count(b, top, left, 1, 1) == if b[top][left] {
            1int
        } else {
            0int
        },
{
    assert(row_count(b, top, left, 0) == 0);
    assert(row_count(b, top, left, 1) == row_count(b, top, left, 0) + if b[top][left + 1 - 1] {
        1int
    } else {
        0int
    });
    assert(block_count(b, top, left, 0, 1) == 0);
    assert(block_count(b, top, left, 1, 1) == block_count(b, top, left, 0, 1) + row_count(
        b,
        top + 1 - 1,
        left,
        1,
    ));
}

/// Render-mode consistency, first half: reducing by a scale of one paints
/// what painting one pixel per cell paints.
pub proof fn law_reduce_by_one(b: Board)
    requires
        rectangular(b),
    ensures
        rendered(b, RenderMode::Reduce { scale: 1 }, cols_of(b), rows_of(b)) == rendered(
            b,
            RenderMode::OneToOne,
            cols_of(b),
            rows_of(b),
        ),
{
    let reduced = rendered(b, RenderMode::Reduce { scale: 1 }, cols_of(b), rows_of(b));
    let plain = rendered(b, RenderMode::OneToOne, cols_of(b), rows_of(b));
    assert(reduced.len() == plain.len());
    assert forall|i: int| 0 <= i < plain.len() implies reduced[i] == plain[i] by {
        lemma_pixel_pos(cols_of(b), rows_of(b), i);
        let x = i % cols_of(b);
        let y = i / cols_of(b);
        lemma_single_block(b, y, x);
        lemma_shade_level(1, 0);
        lemma_shade_level(1, 1);
        let unit: usize = 1;
        assert(reduced[i] == pixel(b, RenderMode::Reduce { scale: unit }, x, y));
        assert(unit * unit == 1 && y * unit == y && x * unit == x) by (nonlinear_arith)
            requires
                unit == 1,
        ;
        assert(pixel(b, RenderMode::Reduce { scale: unit }, x, y) == shade(
            unit * unit,
            block_count(b, y * unit, x * unit, unit as nat, unit as nat),
        ));
        assert(plain[i] == cell_color(b[y][x]));
    }
    assert(reduced =~= plain);
}

/// In an enlarged image, a run of pixels inside one cell's block is all of
/// that cell's colour.
proof fn lemma_enlarged_row(b: Board, scale: usize, cx: int, cy: int, dy: int, n: nat)
    requires
        rectangular(b),
        scale > 0,
        0 <= cx < cols_of(b),
        0 <= cy < rows_of(b),
        0 <= dy < scale,
        n <= scale,
    ensures
        dark_row(
            rendered(b, RenderMode::Enlarge { scale }, cols_of(b) * scale, rows_of(b) * scale),
            cols_of(b) * scale,
            cy * scale + dy,
            cx * scale,
            n,
        ) == if b[cy][cx] {
            n as int
        } else {
            0
        },
    decreases n,
{
    if n > 0 {
        lemma_enlarged_row(b, scale, cx, cy, dy, (n - 1) as nat);
        let width = cols_of(b) * scale;
        let height = rows_of(b) * scale;
        let image = rendered(b, RenderMode::Enlarge { scale }, width, height);
        let y = cy * scale + dy;
        let x = cx * scale + n - 1;
        let s = scale as int;
        lemma_lane(s, cols_of(b), cx, n - 1);
        lemma_lane(s, rows_of(b), cy, dy);
        assert(0 <= x < width && 0 <= y < height);
        lemma_lane(width, height, y, x);
        assert(height * width == width * height) by (nonlinear_arith);
        let at = y * width + x;
        assert(image[at] == pixel(b, RenderMode::Enlarge { scale }, at % width, at / width));
        assert(image[at] == cell_color(b[cy][cx]));
        assert(y * width + cx * scale + n - 1 == at);
    }
}

/// In an enlarged image, the first rows of one cell's block hold only that
/// cell's colour.
proof fn lemma_enlarged_block(b: Board, scale: usize, cx: int, cy: int, m: nat)
    requires
        rectangular(b),
        scale > 0,
        0 <= cx < cols_of(b),
        0 <= cy < rows_of(b),
        m <= scale,
    ensures
        dark_block(
            rendered(b, RenderMode::Enlarge { scale }, cols_of(b) * scale, rows_of(b) * scale),
            cols_of(b) * scale,
            cy * scale,
            cx * scale,
            m,
            scale as nat,
        ) == if b[cy][cx] {
            m * scale
        } else {
            0
        },
    decreases m,
{
    if m > 0 {
        lemma_enlarged_block(b, scale, cx, cy, (m - 1) as nat);
        lemma_enlarged_row(b, scale, cx, cy, m - 1, scale as nat);
        assert(m * scale == (m - 1) * scale + scale) by (nonlinear_arith);
    } else {
        assert(m * scale == 0) by (nonlinear_arith)
            requires
                m == 0,
        ;
    }
}

/// Render-mode consistency, second half: an image enlarged by `scale` and
/// shrunk back by `scale`, each block by majority vote, is the image painted
/// one pixel per cell.
pub proof fn law_enlarge_then_shrink(b: Board, scale: usize)
    requires
        rectangular(b),
        scale > 0,
    ensures
        shrunk(
            rendered(b, RenderMode::Enlarge { scale }, cols_of(b) * scale, rows_of(b) * scale),
            cols_of(b) * scale,
            rows_of(b) * scale,
            scale as int,
        ) == rendered(b, RenderMode::OneToOne, cols_of(b), rows_of(b)),
{
    let cols = cols_of(b);
    let rows = rows_of(b);
    let s = scale as int;
    let image = rendered(b, RenderMode::Enlarge { scale }, cols * s, rows * s);
    let back = shrunk(image, cols * s, rows * s, s);
    let plain = rendered(b, RenderMode::OneToOne, cols, rows);
    lemma_join(cols, 0, s);
    lemma_join(rows, 0, s);
    assert(back.len() == plain.len());
    assert forall|i: int| 0 <= i < plain.len() implies back[i] == plain[i] by {
        lemma_pixel_pos(cols, rows, i);
        let x = i % cols;
        let y = i / cols;
        lemma_enlarged_block(b, scale, x, y, scale as nat);
        assert(s * s > 0) by (nonlinear_arith)
            requires
                s > 0,
        ;
    }
    assert(back =~= plain);
}

/// Determinism: two runs that start from the same seed words and the same
/// dimensions hold the same board at every generation.
pub proof fn law_same_seed_same_run(
    seed: Seq<u128>,
    rows: int,
    cols: int,
    chunk: int,
    first: Board,
    second: Board,
    n: nat,
)
    requires
        first == seeded(seed, rows, cols, chunk),
        second == seeded(seed, rows, cols, chunk),
    ensures
        generation(first, n) == generation(second, n),
{
}

/// Chunking is invisible: two grids that hold the same board, whatever their
/// chunk widths, hold the same board at every later generation.
pub proof fn law_chunking_is_invisible(first: Grid, second: Grid, n: nat)
    requires
        first.wf(),
        second.wf(),
        first@ == second@,
    ensures
        generation(first@, n) == generation(second@, n),
{
}

/// The living cells of a board are exactly the places in `alive`.
pub open spec fn holds_exactly(b: Board, alive: Set<(int, int)>) -> bool {
    forall|r: int, c: int|
        0 <= r < rows_of(b) && 0 <= c < cols_of(b) ==> #[trigger] b[r][c] == alive.contains((r, c))
}

/// The two-by-two block with its top-left corner at `(1, 1)`.
pub open spec fn block() -> Set<(int, int)> {
    Set::new(|p: (int, int)| 1 <= p.0 <= 2 && 1 <= p.1 <= 2)
}

/// The horizontal phase of the blinker centred on `(2, 2)`.
pub open spec fn blinker_flat() -> Set<(int, int)> {
    Set::new(|p: (int, int)| p.0 == 2 && 1 <= p.1 <= 3)
}

/// The vertical phase of the blinker centred on `(2, 2)`.
pub open spec fn blinker_upright() -> Set<(int, int)> {
    Set::new(|p: (int, int)| p.1 == 2 && 1 <= p.0 <= 3)
}

/// An index at most one step off a side of length `n`, folded onto it.
pub open spec fn fold(i: int, n: int) -> int {
    if i < 0 {
        i + n
    } else if i >= n {
        i - n
    } else {
        i
    }
}

/// On a board that holds exactly the places in `alive`, a cell at most one
/// step off the board is alive when the place it folds onto is in `alive`.
proof fn lemma_known_cell(b: Board, alive: Set<(int, int)>, r: int, c: int)
    requires
        rectangular(b),
        holds_exactly(b, alive),
        -1 <= r <= rows_of(b),
        -1 <= c <= cols_of(b),
    ensures
        one(b, r, c) == if alive.contains((fold(r, rows_of(b)), fold(c, cols_of(b)))) {
            1int
        } else {
            0int
        },
{
    lemma_wrap(r, rows_of(b));
    lemma_wrap(c, cols_of(b));
    let rr = wrap(r, rows_of(b));
    let cc = wrap(c, cols_of(b));
    assert(b[rr][cc] == alive.contains((rr, cc)));
}

/// The next state of a cell on a board that holds exactly the places in
/// `alive`, from the nine places around and at it.
proof fn lemma_known_next(b: Board, alive: Set<(int, int)>, r: int, c: int)
    requires
        rectangular(b),
        holds_exactly(b, alive),
        0 <= r < rows_of(b),
        0 <= c < cols_of(b),
    ensures
        step(b)[r][c] == ({
            let up = fold(r - 1, rows_of(b));
            let down = fold(r + 1, rows_of(b));
            let left = fold(c - 1, cols_of(b));
            let right = fold(c + 1, cols_of(b));
            let count = tally(alive, up, left) + tally(alive, up, c) + tally(alive, up, right)
                + tally(alive, r, left) + tally(alive, r, right) + tally(alive, down, left) + tally(
                alive,
                down,
                c,
            ) + tally(alive, down, right);
            count == 3 || (alive.contains((r, c)) && count == 2)
        }),
{
    lemma_known_cell(b, alive, r - 1, c - 1);
    lemma_known_cell(b, alive, r - 1, c);
    lemma_known_cell(b, alive, r - 1, c + 1);
    lemma_known_cell(b, alive, r, c - 1);
    lemma_known_cell(b, alive, r, c);
    lemma_known_cell(b, alive, r, c + 1);
    lemma_known_cell(b, alive, r + 1, c - 1);
    lemma_known_cell(b, alive, r + 1, c);
    lemma_known_cell(b, alive, r + 1, c + 1);
    assert(step(b)[r][c] == next_cell(b, r, c));
}

/// One for a place in `alive`, zero for any other.
pub open spec fn tally(alive: Set<(int, int)>, r: int, c: int) -> int {
    if alive.contains((r, c)) {
        1
    } else {
        0
    }
}

/// The block is a still life: a board of at least four rows and four columns
/// that holds the two-by-two block and nothing else is its own next
/// generation.
pub proof fn law_block_stays(b: Board)
    requires
        rectangular(b),
        rows_of(b) >= 4,
        cols_of(b) >= 4,
        holds_exactly(b, block()),
    ensures
        step(b) == b,
{
    assert forall|r: int, c: int| 0 <= r < rows_of(b) && 0 <= c < cols_of(b) implies step(b)[r][c]
        == b[r][c] by {
        lemma_known_next(b, block(), r, c);
    }
    assert(step(b) =~~= b);
}

/// Blinker, first half: on a board of at least five rows and five columns
/// that holds the three-cell horizontal line and nothing else, the next
/// generation holds the three-cell vertical line and nothing else.
pub proof fn law_blinker_rises(b: Board)
    requires
        rectangular(b),
        rows_of(b) >= 5,
        cols_of(b) >= 5,
        holds_exactly(b, blinker_flat()),
    ensures
        holds_exactly(step(b), blinker_upright()),
{
    assert forall|r: int, c: int| 0 <= r < rows_of(b) && 0 <= c < cols_of(b) implies #[trigger] step(
        b,
    )[r][c] == blinker_upright().contains((r, c)) by {
        lemma_known_next(b, blinker_flat(), r, c);
    }
}

/// Blinker, second half: the vertical line falls back to the horizontal one.
pub proof fn law_blinker_falls(b: Board)
    requires
        rectangular(b),
        rows_of(b) >= 5,
        cols_of(b) >= 5,
        holds_exactly(b, blinker_upright()),
    ensures
        holds_exactly(step(b), blinker_flat()),
{
    assert forall|r: int, c: int| 0 <= r < rows_of(b) && 0 <= c < cols_of(b) implies #[trigger] step(
        b,
    )[r][c] == blinker_flat().contains((r, c)) by {
        lemma_known_next(b, blinker_upright(), r, c);
    }
}

/// Blinker period-two oscillation: a board of at least five rows and five
/// columns that holds the three-cell horizontal line and nothing else holds
/// the vertical line after one generation and is itself again after two.
pub proof fn law_blinker_period(b: Board)
    requires
        rectangular(b),
        rows_of(b) >= 5,
        cols_of(b) >= 5,
        holds_exactly(b, blinker_flat()),
    ensures
        holds_exactly(generation(b, 1), blinker_upright()),
        generation(b, 2) == b,
{
    reveal_with_fuel(generation, 3);
    law_blinker_rises(b);
    lemma_step_shape(b);
    law_blinker_falls(step(b));
    lemma_step_shape(step(b));
    assert(step(step(b)) =~~= b);
}

/// The glider that travels down and to the right, `k` generations after it
/// stood with its top-left corner at `(1, 1)`, for `k` from zero to four. The
/// fifth shape is the first, one row down and one column to the right.
pub open spec fn glider(k: int) -> Set<(int, int)> {
    if k == 0 {
        Set::new(|p: (int, int)| p == (1int, 2int) || p == (2int, 3int) || p == (3int, 1int) || p == (3int, 2int) || p == (3int, 3int))
    } else if k == 1 {
        Set::new(|p: (int, int)| p == (2int, 1int) || p == (2int, 3int) || p == (3int, 2int) || p == (3int, 3int) || p == (4int, 2int))
    } else if k == 2 {
        Set::new(|p: (int, int)| p == (2int, 3int) || p == (3int, 1int) || p == (3int, 3int) || p == (4int, 2int) || p == (4int, 3int))
    } else if k == 3 {
        Set::new(|p: (int, int)| p == (2int, 2int) || p == (3int, 3int) || p == (3int, 4int) || p == (4int, 2int) || p == (4int, 3int))
    } else {
        Set::new(|p: (int, int)| p == (2int, 3int) || p == (3int, 4int) || p == (4int, 2int) || p == (4int, 3int) || p == (4int, 4int))
    }
}

/// One generation of the glider: a board of at least five rows and five
/// columns that holds shape `k` of the glider and nothing else holds shape
/// `k + 1` one generation on.
pub proof fn law_glider_step(b: Board, k: int)
    requires
        rectangular(b),
        rows_of(b) >= 5,
        cols_of(b) >= 5,
        0 <= k < 4,
        holds_exactly(b, glider(k)),
    ensures
        holds_exactly(step(b), glider(k + 1)),
{
    assert forall|r: int, c: int| 0 <= r < rows_of(b) && 0 <= c < cols_of(b) implies #[trigger] step(
        b,
    )[r][c] == glider(k + 1).contains((r, c)) by {
        lemma_known_next(b, glider(k), r, c);
    }
}

/// Glider translation: a board of at least five rows and five columns that
/// holds the glider and nothing else is, four generations on, the same
/// board moved one row down and one column to the right.
pub proof fn law_glider_travels(b: Board)
    requires
        rectangular(b),
        rows_of(b) >= 5,
        cols_of(b) >= 5,
        holds_exactly(b, glider(0)),
    ensures
        holds_exactly(generation(b, 4), glider(4)),
        generation(b, 4) == shifted(b, 1, 1),
{
    reveal_with_fuel(generation, 5);
    let g1 = step(b);
    let g2 = step(g1);
    let g3 = step(g2);
    let g4 = step(g3);
    law_glider_step(b, 0);
    lemma_step_shape(b);
    law_glider_step(g1, 1);
    lemma_step_shape(g1);
    law_glider_step(g2, 2);
    lemma_step_shape(g2);
    law_glider_step(g3, 3);
    lemma_step_shape(g3);
    assert(generation(b, 4) == g4);
    let moved = shifted(b, 1, 1);
    assert forall|r: int, c: int| 0 <= r < rows_of(b) && 0 <= c < cols_of(b) implies g4[r][c]
        == moved[r][c] by {
        lemma_wrap(r - 1, rows_of(b));
        lemma_wrap(c - 1, cols_of(b));
        let r0 = wrap(r - 1, rows_of(b));
        let c0 = wrap(c - 1, cols_of(b));
        assert(b[r0][c0] == glider(0).contains((r0, c0)));
        assert(g4[r][c] == glider(4).contains((r, c)));
    }
    assert(g4 =~~= moved);
}

/// Glider translation anywhere on the torus: wherever the glider stands, be
/// it across an edge or a corner of the board, four generations move the
/// board one row down and one column to the right.
pub proof fn law_glider_travels_anywhere(b: Board, dr: int, dc: int)
    requires
        rectangular(b),
        rows_of(b) >= 5,
        cols_of(b) >= 5,
        holds_exactly(b, glider(0)),
    ensures
        generation(shifted(b, dr, dc), 4) == shifted(shifted(b, dr, dc), 1, 1),
{
    law_run_commutes_with_shift(b, dr, dc, 4);
    law_glider_travels(b);
    lemma_shifted_twice(b, 1, 1, dr, dc);
    lemma_shifted_twice(b, dr, dc, 1, 1);
}

/// Blinker oscillation anywhere on the torus: wherever the three-cell line
/// stands, two generations give the board back.
pub proof fn law_blinker_period_anywhere(b: Board, dr: int, dc: int)
    requires
        rectangular(b),
        rows_of(b) >= 5,
        cols_of(b) >= 5,
        holds_exactly(b, blinker_flat()),
    ensures
        generation(shifted(b, dr, dc), 2) == shifted(b, dr, dc),
{
    law_run_commutes_with_shift(b, dr, dc, 2);
    law_blinker_period(b);
}

} // verus!
