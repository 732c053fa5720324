//! The renderer: a generation painted into a flat buffer of packed 32-bit
//! pixels, row by row.
//!
//! Four modes map cells to pixels. `OneToOne` and `Crop` paint one cell per
//! pixel, `Enlarge` paints each cell as a square block of pixels, and `Reduce`
//! paints each square block of cells as one pixel whose shade tells how many
//! of them live. Every pixel is a function of the grid and its own position,
//! so any range of rows can be painted on its own.

use crate::arith::{lemma_below, lemma_div_ordered, lemma_join, lemma_split, lemma_split_range};
use crate::grid::Grid;
use crate::life::Board;
use vstd::prelude::*;

verus! {

/// How cells are mapped to pixels.
#[derive(Clone, Copy, Debug, PartialEq, Eq)]
pub enum RenderMode {
    /// One pixel per cell; the output has the grid's dimensions.
    OneToOne,
    /// A `scale` by `scale` block of equal pixels per cell.
    Enlarge { scale: usize },
    /// One pixel per `scale` by `scale` block of cells.
    Reduce { scale: usize },
    /// One pixel per cell of the top-left corner of the grid.
    Crop,
}

/// Why an output cannot be set up.
#[derive(Clone, Copy, Debug, PartialEq, Eq, Structural)]
pub enum ViewError {
    /// The scale factor is zero.
    ZeroScale,
    /// The output would have no pixels.
    Empty,
    /// The cropped window is larger than the grid.
    Outside,
    /// The pixel count, or the palette, does not fit the machine.
    TooLarge,
}

/// The colour of a living cell: black.
pub const ALIVE_COLOR: u32 = 0x0000_0000;

/// The colour of a dead cell: white.
pub const DEAD_COLOR: u32 = 0xFFFF_FFFF;

/// The two-entry palette, keyed by the cell's state.
pub open spec fn cell_color(alive: bool) -> u32 {
    if alive {
        ALIVE_COLOR
    } else {
        DEAD_COLOR
    }
}

/// The colour of a cell.
pub fn get_cell_color(val: bool) -> (color: u32)
    ensures
        color == cell_color(val),
{
    match val {
        true => ALIVE_COLOR,
        false => DEAD_COLOR,
    }
}

/// One output dimension for a grid dimension `val`; `def` is the size of the
/// cropped window.
pub open spec fn scaled(mode: RenderMode, val: int, def: int) -> int {
    match mode {
        RenderMode::OneToOne => val,
        RenderMode::Enlarge { scale } => val * scale,
        RenderMode::Reduce { scale } => val / (scale as int),
        RenderMode::Crop => def,
    }
}

/// One output dimension from one grid dimension.
pub fn scale_by_mode(mode: RenderMode, val: usize, def: usize) -> (out: usize)
    requires
        mode matches RenderMode::Enlarge { scale } ==> val * scale <= usize::MAX,
        mode matches RenderMode::Reduce { scale } ==> scale > 0,
    ensures
        out == scaled(mode, val as int, def as int),
{
    match mode {
        RenderMode::OneToOne => val,
        RenderMode::Enlarge { scale } => val * scale,
        RenderMode::Reduce { scale } => val / scale,
        RenderMode::Crop => def,
    }
}

/// Entry `k` of the grey palette for blocks of `n` cells: white at `k == 0`,
/// black at `k == n`, and evenly spaced levels between, the same level in
/// each of the four bytes.
pub open spec fn shade(n: int, k: int) -> u32 {
    ((255 - (255 * k) / n) * 0x0101_0101) as u32
}

/// Living cells among the first `n` cells of row `r` from column `left` on.
pub open spec fn row_count(b: Board, r: int, left: int, n: nat) -> int
    decreases n,
{
    if n == 0 {
        0
    } else {
        row_count(b, r, left, (n - 1) as nat) + if b[r][left + n - 1] {
            1int
        } else {
            0int
        }
    }
}

/// Living cells in the block of `m` rows and `n` columns whose top-left cell
/// is `(top, left)`.
pub open spec fn block_count(b: Board, top: int, left: int, m: nat, n: nat) -> int
    decreases m,
{
    if m == 0 {
        0
    } else {
        block_count(b, top, left, (m - 1) as nat, n) + row_count(b, top + m - 1, left, n)
    }
}

/// The pixel at column `x`, row `y` of the output.
pub open spec fn pixel(b: Board, mode: RenderMode, x: int, y: int) -> u32 {
    match mode {
        RenderMode::OneToOne => cell_color(b[y][x]),
        RenderMode::Crop => cell_color(b[y][x]),
        RenderMode::Enlarge { scale } => cell_color(b[y / (scale as int)][x / (scale as int)]),
        RenderMode::Reduce { scale } => shade(
            scale * scale,
            block_count(b, y * scale, x * scale, scale as nat, scale as nat),
        ),
    }
}

/// The whole output: `height` rows of `width` pixels, row after row.
pub open spec fn rendered(b: Board, mode: RenderMode, width: int, height: int) -> Seq<u32> {
    Seq::new((width * height) as nat, |i: int| pixel(b, mode, i % width, i / width))
}

/// The grey palette for blocks of `n` cells: `n + 1` entries.
pub open spec fn grey_palette(n: int) -> Seq<u32> {
    Seq::new((n + 1) as nat, |k: int| shade(n, k))
}

/// A row holds no more living cells than cells.
pub proof fn lemma_row_count_bound(b: Board, r: int, left: int, n: nat)
    ensures
        0 <= row_count(b, r, left, n) <= n,
    decreases n,
{
    if n > 0 {
        lemma_row_count_bound(b, r, left, (n - 1) as nat);
    }
}

/// A block holds no more living cells than cells.
pub proof fn lemma_block_count_bound(b: Board, top: int, left: int, m: nat, n: nat)
    ensures
        0 <= block_count(b, top, left, m, n) <= m * n,
    decreases m,
{
    if m > 0 {
        lemma_block_count_bound(b, top, left, (m - 1) as nat, n);
        lemma_row_count_bound(b, top + m - 1, left, n);
        assert(m * n == (m - 1) * n + n) by (nonlinear_arith);
    } else {
        assert(m * n == 0) by (nonlinear_arith)
            requires
                m == 0,
        ;
    }
}

/// The grey level behind a shade stays in a byte, and the shade is that level
/// in each of its four bytes.
pub proof fn lemma_shade_level(n: int, k: int)
    requires
        0 <= k <= n,
        n > 0,
    ensures
        0 <= 255 - (255 * k) / n <= 255,
        shade(n, k) == (255 - (255 * k) / n) * 0x0101_0101,
        k == 0 ==> shade(n, k) == DEAD_COLOR,
        k == n ==> shade(n, k) == ALIVE_COLOR,
{
    assert(255 * k < 256 * n);
    lemma_split_range(255 * k, n, 256);
    if k == 0 {
        lemma_join(0, 0, n);
    }
    if k == n {
        lemma_join(255, 0, n);
    }
}

/// The palette darkens as the block fills: more living cells never give a
/// lighter shade.
pub proof fn lemma_shade_monotonic(n: int, k1: int, k2: int)
    requires
        n > 0,
        0 <= k1 <= k2 <= n,
    ensures
        shade(n, k1) >= shade(n, k2),
{
    lemma_shade_level(n, k1);
    lemma_shade_level(n, k2);
    lemma_div_ordered(255 * k1, 255 * k2, n);
}

/// An output set up for one grid shape: the mode, the resolution, and for
/// `Reduce` the grey palette.
pub struct Viewport {
    /// The mode.
    pub mode: RenderMode,
    /// Pixels per output row.
    pub width: usize,
    /// Number of output rows.
    pub height: usize,
    /// The grey palette of `Reduce`; empty in the other modes.
    pub palette: Vec<u32>,
}

/// The verdict on an output for a `rows` by `cols` grid: `None` when it can
/// be set up, else the first defect in the order of [`ViewError`]'s variants.
/// `def_w` and `def_h` are the size of the cropped window.
pub open spec fn view_error(rows: int, cols: int, mode: RenderMode, def_w: int, def_h: int) -> Option<
    ViewError,
> {
    let w = scaled(mode, cols, def_w);
    let h = scaled(mode, rows, def_h);
    if (mode matches RenderMode::Enlarge { scale } && scale == 0) || (mode matches RenderMode::Reduce {
        scale,
    } && scale == 0) {
        Some(ViewError::ZeroScale)
    } else if w == 0 || h == 0 {
        Some(ViewError::Empty)
    } else if mode is Crop && (def_w > cols || def_h > rows) {
        Some(ViewError::Outside)
    } else if w > usize::MAX || h > usize::MAX || w * h > usize::MAX || (mode matches RenderMode::Reduce {
        scale,
    } && scale * scale + 1 > usize::MAX) {
        Some(ViewError::TooLarge)
    } else {
        None
    }
}

impl Viewport {
    /// The invariant of an output set up for a `rows` by `cols` grid.
    pub open spec fn fits(&self, rows: int, cols: int) -> bool {
        &&& view_error(rows, cols, self.mode, self.width as int, self.height as int) is None
        &&& self.width == scaled(self.mode, cols, self.width as int)
        &&& self.height == scaled(self.mode, rows, self.height as int)
        &&& self.palette@ == match self.mode {
            RenderMode::Reduce { scale } => grey_palette(scale * scale),
            _ => Seq::<u32>::empty(),
        }
    }

    /// Number of pixels of the output.
    pub open spec fn pixels(&self) -> int {
        self.width * self.height
    }

    /// Sets up the output for a `rows` by `cols` grid, or says why it cannot
    /// be. `def_w` and `def_h` give the window of `Crop` and are ignored by
    /// the other modes.
    pub fn new(rows: usize, cols: usize, mode: RenderMode, def_w: usize, def_h: usize) -> (res: Result<
        Viewport,
        ViewError,
    >)
        ensures
            res is Ok <==> view_error(rows as int, cols as int, mode, def_w as int, def_h as int)
                is None,
            res matches Err(e) ==> view_error(
                rows as int,
                cols as int,
                mode,
                def_w as int,
                def_h as int,
            ) == Some(e),
            res matches Ok(v) ==> v.fits(rows as int, cols as int) && v.mode == mode && v.width
                == scaled(mode, cols as int, def_w as int) && v.height == scaled(
                mode,
                rows as int,
                def_h as int,
            ),
    {
        let mut palette: Vec<u32> = Vec::new();
        let width: usize;
        let height: usize;
        match mode {
            RenderMode::OneToOne => {
                width = scale_by_mode(mode, cols, def_w);
                height = scale_by_mode(mode, rows, def_h);
                if width == 0 || height == 0 {
                    return Err(ViewError::Empty);
                }
            },
            RenderMode::Crop => {
                width = scale_by_mode(mode, cols, def_w);
                height = scale_by_mode(mode, rows, def_h);
                if width == 0 || height == 0 {
                    return Err(ViewError::Empty);
                }
                if def_w > cols || def_h > rows {
                    return Err(ViewError::Outside);
                }
            },
            RenderMode::Enlarge { scale } => {
                if scale == 0 {
                    return Err(ViewError::ZeroScale);
                }
                if cols == 0 || rows == 0 {
                    assert(cols * scale == 0 || rows * scale == 0) by (nonlinear_arith)
                        requires
                            cols == 0 || rows == 0,
                    ;
                    return Err(ViewError::Empty);
                }
                assert(cols * scale > 0 && rows * scale > 0) by (nonlinear_arith)
                    requires
                        cols > 0,
                        rows > 0,
                        scale > 0,
                ;
                match (cols.checked_mul(scale), rows.checked_mul(scale)) {
                    (Some(_), Some(_)) => {
                        width = scale_by_mode(mode, cols, def_w);
                        height = scale_by_mode(mode, rows, def_h);
                    },
                    _ => {
                        return Err(ViewError::TooLarge);
                    },
                }
            },
            RenderMode::Reduce { scale } => {
                if scale == 0 {
                    return Err(ViewError::ZeroScale);
                }
                width = scale_by_mode(mode, cols, def_w);
                height = scale_by_mode(mode, rows, def_h);
                if width == 0 || height == 0 {
                    return Err(ViewError::Empty);
                }
                let cells: usize = match scale.checked_mul(scale) {
                    Some(n) => n,
                    None => {
                        return Err(ViewError::TooLarge);
                    },
                };
                if cells == usize::MAX {
                    return Err(ViewError::TooLarge);
                }
                assert(cells > 0) by (nonlinear_arith)
                    requires
                        cells == scale * scale,
                        scale > 0,
                ;
                palette = make_palette(cells);
            },
        }
        match width.checked_mul(height) {
            None => Err(ViewError::TooLarge),
            Some(_) => Ok(Viewport { mode, width, height, palette }),
        }
    }
}

impl Viewport {
    /// Tests the invariant for a `rows` by `cols` grid: callers outside the
    /// verifier's reach use it before they render.
    pub fn check(&self, rows: usize, cols: usize) -> (ok: bool)
        ensures
            ok == self.fits(rows as int, cols as int),
    {
        match Viewport::new(rows, cols, self.mode, self.width, self.height) {
            Err(_) => false,
            Ok(v) => {
                if v.width != self.width || v.height != self.height {
                    return false;
                }
                let n: usize = v.palette.len();
                if self.palette.len() != n {
                    return false;
                }
                let mut k: usize = 0;
                while k < n
                    invariant
                        v.fits(rows as int, cols as int),
                        v.mode == self.mode,
                        n == v.palette@.len(),
                        n == self.palette@.len(),
                        k <= n,
                        forall|j: int| 0 <= j < k ==> self.palette@[j] == v.palette@[j],
                    decreases n - k,
                {
                    if self.palette[k] != v.palette[k] {
                        return false;
                    }
                    k += 1;
                }
                assert(self.palette@ =~= v.palette@);
                true
            },
        }
    }
}

/// A side divided by a scale, times the scale, does not exceed the side, nor
/// does the quotient.
pub proof fn lemma_reduced_side(n: int, scale: int)
    requires
        scale > 0,
        n >= 0,
    ensures
        0 <= n / scale <= n,
        (n / scale) * scale <= n,
{
    lemma_split(n, scale);
    let q = n / scale;
    let r = n % scale;
    assert(0 <= q <= n) by (nonlinear_arith)
        requires
            scale > 0,
            n == q * scale + r,
            0 <= r < scale,
            n >= 0,
    ;
}

/// Builds the grey palette for blocks of `n` cells.
pub fn make_palette(n: usize) -> (palette: Vec<u32>)
    requires
        0 < n < usize::MAX,
    ensures
        palette@ == grey_palette(n as int),
{
    let mut palette: Vec<u32> = Vec::with_capacity(n + 1);
    let mut k: usize = 0;
    while k <= n
        invariant
            0 < n < usize::MAX,
            k <= n + 1,
            palette@ == grey_palette(n as int).subrange(0, k as int),
        decreases n + 1 - k,
    {
        proof {
            lemma_shade_level(n as int, k as int);
        }
        let dark: u128 = (255u128 * (k as u128)) / (n as u128);
        let level: u32 = (255u128 - dark) as u32;
        palette.push(level * 0x0101_0101u32);
        k += 1;
    }
    palette
}

/// Pixel `i` of an output lies in row `i / width`, column `i % width`.
pub proof fn lemma_pixel_pos(width: int, height: int, i: int)
    requires
        width > 0,
        0 <= i < width * height,
    ensures
        0 <= i / width < height,
        0 <= i % width < width,
        i == (i / width) * width + i % width,
{
    assert(width * height == height * width) by (nonlinear_arith);
    lemma_split_range(i, width, height);
}

/// An enlarged pixel falls on a cell of the grid.
pub proof fn lemma_enlarged_pos(n: int, scale: int, y: int)
    requires
        scale > 0,
        0 <= y < n * scale,
    ensures
        0 <= y / scale < n,
{
    lemma_split_range(y, scale, n);
}

/// Every cell of a reduced pixel's block lies on the grid.
pub proof fn lemma_reduced_pos(n: int, scale: int, y: int, d: int)
    requires
        scale > 0,
        0 <= y < n / scale,
        0 <= d < scale,
    ensures
        0 <= y * scale + d < n,
        0 <= y * scale,
{
    lemma_split(n, scale);
    lemma_below(y, d, scale, n / scale);
}

/// Counts the living cells of the `scale` by `scale` block whose top-left
/// cell is `(top, left)`.
fn count_block(cells: &Grid, top: usize, left: usize, scale: usize) -> (count: usize)
    requires
        cells.wf(),
        top + scale <= cells.rows,
        left + scale <= cells.cols,
        scale * scale <= usize::MAX,
    ensures
        count == block_count(cells@, top as int, left as int, scale as nat, scale as nat),
        count <= scale * scale,
{
    let mut count: usize = 0;
    let mut dy: usize = 0;
    while dy < scale
        invariant
            cells.wf(),
            top + scale <= cells.rows,
            left + scale <= cells.cols,
            scale * scale <= usize::MAX,
            dy <= scale,
            count == block_count(cells@, top as int, left as int, dy as nat, scale as nat),
        decreases scale - dy,
    {
        proof {
            lemma_block_count_bound(cells@, top as int, left as int, dy as nat, scale as nat);
            assert(dy * scale + scale <= scale * scale) by (nonlinear_arith)
                requires
                    dy < scale,
            ;
        }
        let mut dx: usize = 0;
        let ghost before = count;
        while dx < scale
            invariant
                cells.wf(),
                top + dy < cells.rows,
                left + scale <= cells.cols,
                dx <= scale,
                before + scale <= usize::MAX,
                count == before + row_count(cells@, top + dy, left as int, dx as nat),
                count <= before + dx,
            decreases scale - dx,
        {
            if cells.get(top + dy, left + dx) {
                count += 1;
            }
            dx += 1;
        }
        dy += 1;
    }
    proof {
        lemma_block_count_bound(cells@, top as int, left as int, scale as nat, scale as nat);
    }
    count
}

/// Paints one pixel: pixel `i` of the output, counted row after row.
pub fn render_pixel(cells: &Grid, view: &Viewport, i: usize) -> (color: u32)
    requires
        cells.wf(),
        view.fits(cells.rows as int, cells.cols as int),
        i < view.pixels(),
    ensures
        color == rendered(cells@, view.mode, view.width as int, view.height as int)[i as int],
{
    proof {
        lemma_pixel_pos(view.width as int, view.height as int, i as int);
    }
    let y: usize = i / view.width;
    let x: usize = i % view.width;
    match view.mode {
        RenderMode::OneToOne => get_cell_color(cells.get(y, x)),
        RenderMode::Crop => get_cell_color(cells.get(y, x)),
        RenderMode::Enlarge { scale } => {
            proof {
                lemma_enlarged_pos(cells.rows as int, scale as int, y as int);
                lemma_enlarged_pos(cells.cols as int, scale as int, x as int);
            }
            get_cell_color(cells.get(y / scale, x / scale))
        },
        RenderMode::Reduce { scale } => {
            proof {
                lemma_reduced_pos(cells.rows as int, scale as int, y as int, scale - 1);
                lemma_reduced_pos(cells.cols as int, scale as int, x as int, scale - 1);
            }
            let count = count_block(cells, y * scale, x * scale, scale);
            view.palette[count]
        },
    }
}

/// Paints the output rows `from .. to` and leaves every other pixel as it
/// was.
pub fn render_rows(cells: &Grid, buffer: &mut Vec<u32>, view: &Viewport, from: usize, to: usize)
    requires
        cells.wf(),
        view.fits(cells.rows as int, cells.cols as int),
        old(buffer)@.len() == view.pixels(),
        from <= to <= view.height,
    ensures
        final(buffer)@.len() == old(buffer)@.len(),
        forall|i: int|
            0 <= i < view.pixels() ==> #[trigger] final(buffer)@[i] == if from * view.width <= i < to
                * view.width {
                rendered(cells@, view.mode, view.width as int, view.height as int)[i]
            } else {
                old(buffer)@[i]
            },
{
    assert(0 <= from * view.width <= to * view.width <= view.width * view.height)
        by (nonlinear_arith)
        requires
            0 <= from <= to <= view.height,
            view.width >= 0,
    ;
    let start: usize = from * view.width;
    let end: usize = to * view.width;
    let mut i: usize = start;
    while i < end
        invariant
            cells.wf(),
            view.fits(cells.rows as int, cells.cols as int),
            buffer@.len() == view.pixels(),
            buffer@.len() == old(buffer)@.len(),
            start <= i <= end <= view.pixels(),
            forall|p: int|
                0 <= p < view.pixels() ==> #[trigger] buffer@[p] == if start <= p < i {
                    rendered(cells@, view.mode, view.width as int, view.height as int)[p]
                } else {
                    old(buffer)@[p]
                },
        decreases end - i,
    {
        let color = render_pixel(cells, view, i);
        buffer.set(i, color);
        i += 1;
    }
}

/// Paints the whole output from a finished generation.
pub fn render_cells(cells_new: &Grid, buffer: &mut Vec<u32>, view: &Viewport)
    requires
        cells_new.wf(),
        view.fits(cells_new.rows as int, cells_new.cols as int),
        old(buffer)@.len() == view.pixels(),
    ensures
        final(buffer)@ == rendered(cells_new@, view.mode, view.width as int, view.height as int),
{
    assert(view.height * view.width == view.width * view.height) by (nonlinear_arith);
    render_rows(cells_new, buffer, view, 0, view.height);
    assert(buffer@ =~= rendered(cells_new@, view.mode, view.width as int, view.height as int));
}

/// Pixels of the living colour among the first `n` pixels of image row `y`
/// from column `left` on, in an image `width` pixels wide.
pub open spec fn dark_row(pixels: Seq<u32>, width: int, y: int, left: int, n: nat) -> int
    decreases n,
{
    if n == 0 {
        0
    } else {
        dark_row(pixels, width, y, left, (n - 1) as nat) + if pixels[y * width + left + n - 1]
            == ALIVE_COLOR {
            1int
        } else {
            0int
        }
    }
}

/// Pixels of the living colour in the block of `m` rows and `n` columns whose
/// top-left pixel is `(left, top)`.
pub open spec fn dark_block(pixels: Seq<u32>, width: int, top: int, left: int, m: nat, n: nat) -> int
    decreases m,
{
    if m == 0 {
        0
    } else {
        dark_block(pixels, width, top, left, (m - 1) as nat, n) + dark_row(
            pixels,
            width,
            top + m - 1,
            left,
            n,
        )
    }
}

/// The majority vote of the `scale` by `scale` block of pixels at block
/// column `x`, block row `y`: the living colour when more than half of the
/// block has it, else the dead colour.
pub open spec fn majority_pixel(pixels: Seq<u32>, width: int, x: int, y: int, scale: int) -> u32 {
    if 2 * dark_block(pixels, width, y * scale, x * scale, scale as nat, scale as nat) > scale
        * scale {
        ALIVE_COLOR
    } else {
        DEAD_COLOR
    }
}

/// An image of `width` by `height` pixels shrunk by `scale` in both
/// directions, each block of pixels replaced by its majority vote.
pub open spec fn shrunk(pixels: Seq<u32>, width: int, height: int, scale: int) -> Seq<u32> {
    Seq::new(
        ((width / scale) * (height / scale)) as nat,
        |i: int| majority_pixel(pixels, width, i % (width / scale), i / (width / scale), scale),
    )
}

/// A row of pixels holds no more dark pixels than pixels.
pub proof fn lemma_dark_row_bound(pixels: Seq<u32>, width: int, y: int, left: int, n: nat)
    ensures
        0 <= dark_row(pixels, width, y, left, n) <= n,
    decreases n,
{
    if n > 0 {
        lemma_dark_row_bound(pixels, width, y, left, (n - 1) as nat);
    }
}

/// A block of pixels holds no more dark pixels than pixels.
pub proof fn lemma_dark_block_bound(
    pixels: Seq<u32>,
    width: int,
    top: int,
    left: int,
    m: nat,
    n: nat,
)
    ensures
        0 <= dark_block(pixels, width, top, left, m, n) <= m * n,
    decreases m,
{
    if m > 0 {
        lemma_dark_block_bound(pixels, width, top, left, (m - 1) as nat, n);
        lemma_dark_row_bound(pixels, width, top + m - 1, left, n);
        assert(m * n == (m - 1) * n + n) by (nonlinear_arith);
    } else {
        assert(m * n == 0) by (nonlinear_arith)
            requires
                m == 0,
        ;
    }
}

/// Counts the pixels of the living colour in one `scale` by `scale` block.
fn count_dark(pixels: &Vec<u32>, width: usize, top: usize, left: usize, scale: usize) -> (count:
    usize)
    requires
        left + scale <= width,
        (top + scale) * width <= pixels@.len(),
        scale * scale <= usize::MAX,
    ensures
        count == dark_block(pixels@, width as int, top as int, left as int, scale as nat, scale as nat),
        count <= scale * scale,
{
    let len: usize = pixels.len();
    let mut count: usize = 0;
    let mut dy: usize = 0;
    while dy < scale
        invariant
            len == pixels@.len(),
            left + scale <= width,
            (top + scale) * width <= pixels@.len(),
            scale * scale <= usize::MAX,
            dy <= scale,
            count == dark_block(pixels@, width as int, top as int, left as int, dy as nat, scale as nat),
        decreases scale - dy,
    {
        proof {
            lemma_dark_block_bound(pixels@, width as int, top as int, left as int, dy as nat, scale as nat);
            assert(dy * scale + scale <= scale * scale) by (nonlinear_arith)
                requires
                    dy < scale,
            ;
            assert(0 <= (top + dy) * width && (top + dy) * width + width <= (top + scale) * width
                && top + scale <= (top + scale) * width) by (nonlinear_arith)
                requires
                    0 <= dy < scale,
                    width >= 1,
                    top >= 0,
            ;
        }
        let base: usize = (top + dy) * width + left;
        let ghost before = count;
        let mut dx: usize = 0;
        while dx < scale
            invariant
                len == pixels@.len(),
                base == (top + dy) * width + left,
                base + scale <= pixels@.len(),
                dx <= scale,
                before + scale <= usize::MAX,
                count == before + dark_row(pixels@, width as int, top + dy, left as int, dx as nat),
                count <= before + dx,
            decreases scale - dx,
        {
            if pixels[base + dx] == ALIVE_COLOR {
                count += 1;
            }
            dx += 1;
        }
        dy += 1;
    }
    proof {
        lemma_dark_block_bound(pixels@, width as int, top as int, left as int, scale as nat, scale as nat);
    }
    count
}

/// Shrinks an image by `scale` in both directions: each `scale` by `scale`
/// block of pixels becomes one pixel, by majority vote between the two cell
/// colours. Pixels beyond the last whole block are dropped.
pub fn shrink_by_majority(pixels: &Vec<u32>, width: usize, height: usize, scale: usize) -> (out: Vec<
    u32,
>)
    requires
        scale > 0,
        pixels@.len() == width * height,
    ensures
        out@ == shrunk(pixels@, width as int, height as int, scale as int),
{
    let len: usize = pixels.len();
    let w: usize = width / scale;
    let h: usize = height / scale;
    let mut out: Vec<u32> = Vec::new();
    if w == 0 || h == 0 {
        assert(w * h == 0) by (nonlinear_arith)
            requires
                w == 0 || h == 0,
        ;
        assert(out@ =~= shrunk(pixels@, width as int, height as int, scale as int));
        return out;
    }
    proof {
        lemma_reduced_side(width as int, scale as int);
        lemma_reduced_side(height as int, scale as int);
        lemma_below(0, 0, scale as int, w as int);
        lemma_below(0, 0, scale as int, h as int);
        assert(scale * scale <= width * height && w * h <= width * height) by (nonlinear_arith)
            requires
                0 < scale <= width,
                scale <= height,
                0 <= w <= width,
                0 <= h <= height,
        ;
    }
    let block: usize = scale * scale;
    let total: usize = w * h;
    let ghost want = shrunk(pixels@, width as int, height as int, scale as int);
    let mut i: usize = 0;
    while i < total
        invariant
            scale > 0,
            pixels@.len() == width * height,
            w == width / scale,
            h == height / scale,
            w > 0,
            h > 0,
            w * scale <= width,
            h * scale <= height,
            block == scale * scale,
            total == w * h,
            want == shrunk(pixels@, width as int, height as int, scale as int),
            i <= total,
            out@ == want.subrange(0, i as int),
        decreases total - i,
    {
        proof {
            lemma_pixel_pos(w as int, h as int, i as int);
        }
        let y: usize = i / w;
        let x: usize = i % w;
        proof {
            assert(0 <= x * scale && x * scale + scale <= w * scale && 0 <= y * scale && y * scale
                + scale <= h * scale) by (nonlinear_arith)
                requires
                    0 <= x < w,
                    0 <= y < h,
                    scale > 0,
            ;
            assert((y * scale + scale) * width <= height * width && height * width == width
                * height) by (nonlinear_arith)
                requires
                    0 <= y * scale + scale <= height,
                    width >= 0,
            ;
        }
        let count = count_dark(pixels, width, y * scale, x * scale, scale);
        let color: u32 = if count > block - count {
            ALIVE_COLOR
        } else {
            DEAD_COLOR
        };
        out.push(color);
        i += 1;
    }
    out
}

} // verus!
