//! The frame scheduler: which buffer is read and which is written, when the
//! loop ends, and how long to rest between generations.
//!
//! The scheduler never looks at a clock or a window itself. Its caller
//! measures the time, asks the display whether it is still open, and does
//! the sleeping; the scheduler decides.

use crate::grid::{config_error, ConfigError, Grid};
use crate::life::{step, Board};
use crate::render::{render_cells, rendered, Viewport};
use crate::seed::seeded;
use crate::step::compute_cells;
use vstd::prelude::*;

verus! {

/// Computes the next generation into `cells_new` and paints it into
/// `buffer`.
pub fn do_step(cells_old: &Grid, cells_new: &mut Grid, buffer: &mut Vec<u32>, view: &Viewport)
    requires
        cells_old.wf(),
        old(cells_new).wf(),
        old(cells_new).same_shape(cells_old),
        view.fits(cells_old.rows as int, cells_old.cols as int),
        old(buffer)@.len() == view.pixels(),
    ensures
        final(cells_new).wf(),
        final(cells_new).same_shape(cells_old),
        final(cells_new)@ == step(cells_old@),
        final(buffer)@ == rendered(
            step(cells_old@),
            view.mode,
            view.width as int,
            view.height as int,
        ),
{
    compute_cells(cells_old, cells_new);
    render_cells(cells_new, buffer, view);
}

/// The two buffers of a run and the flag that tells their roles.
pub struct Generations {
    /// Read when the flag is set, written when it is clear.
    pub cells1: Grid,
    /// Read when the flag is clear, written when it is set.
    pub cells2: Grid,
    /// Which buffer holds the current generation.
    pub flag: bool,
}

impl Generations {
    /// Both buffers are grids of one shape.
    pub open spec fn wf(&self) -> bool {
        &&& self.cells1.wf()
        &&& self.cells2.wf()
        &&& self.cells1.same_shape(&self.cells2)
    }

    /// The current generation.
    pub open spec fn current(&self) -> Board {
        if self.flag {
            self.cells1@
        } else {
            self.cells2@
        }
    }

    /// Two buffers of the given shape, both filled from `seed`.
    pub fn new(rows: usize, cols: usize, chunk: usize, seed: &Vec<u128>) -> (res: Result<
        Generations,
        ConfigError,
    >)
        requires
            seed@.len() > 0,
        ensures
            res is Ok <==> config_error(rows as int, cols as int, chunk as int)
                is None,
            res matches Err(e) ==> config_error(
                rows as int,
                cols as int,
                chunk as int,
            ) == Some(e),
            res matches Ok(g) ==> g.wf() && !g.flag && g.cells1.rows == rows && g.cells1.cols
                == cols && g.cells1.chunk == chunk && g.cells1@ == seeded(
                seed@,
                rows as int,
                cols as int,
                chunk as int,
            ) && g.cells2@ == g.cells1@,
    {
        let mut cells1 = match Grid::new(rows, cols, chunk) {
            Ok(g) => g,
            Err(e) => {
                return Err(e);
            },
        };
        let mut cells2 = match Grid::new(rows, cols, chunk) {
            Ok(g) => g,
            Err(e) => {
                return Err(e);
            },
        };
        cells1.seed(seed);
        cells2.seed(seed);
        Ok(Generations { cells1, cells2, flag: false })
    }

    /// Tests the invariant: callers outside the verifier's reach use it before
    /// they advance.
    pub fn check(&self) -> (ok: bool)
        ensures
            ok == self.wf(),
    {
        self.cells1.check() && self.cells2.check() && self.cells1.rows == self.cells2.rows
            && self.cells1.cols == self.cells2.cols && self.cells1.chunk == self.cells2.chunk
    }

    /// The grid that holds the current generation.
    pub fn newest(&self) -> (g: &Grid)
        requires
            self.wf(),
        ensures
            g.wf(),
            g@ == self.current(),
            g.same_shape(&self.cells1),
    {
        if self.flag {
            &self.cells1
        } else {
            &self.cells2
        }
    }

    /// The two buffers by their roles for the coming step: the one to read
    /// and the one to write.
    pub fn roles(&mut self) -> (pair: (&Grid, &mut Grid))
        requires
            old(self).wf(),
        ensures
            *pair.0 == (if old(self).flag {
                old(self).cells1
            } else {
                old(self).cells2
            }),
            *pair.1 == (if old(self).flag {
                old(self).cells2
            } else {
                old(self).cells1
            }),
            final(self).flag == old(self).flag,
            final(self).cells1 == (if old(self).flag {
                old(self).cells1
            } else {
                *final(pair.1)
            }),
            final(self).cells2 == (if old(self).flag {
                *final(pair.1)
            } else {
                old(self).cells2
            }),
    {
        if self.flag {
            (&self.cells1, &mut self.cells2)
        } else {
            (&self.cells2, &mut self.cells1)
        }
    }

    /// Swaps the roles of the two buffers.
    pub fn flip(&mut self)
        ensures
            final(self).flag == !old(self).flag,
            final(self).cells1 == old(self).cells1,
            final(self).cells2 == old(self).cells2,
    {
        self.flag = !self.flag;
    }

    /// Advances one generation and paints it: the buffer that was read is
    /// left as it was, the other receives the next generation, and the roles
    /// are swapped.
    pub fn advance(&mut self, buffer: &mut Vec<u32>, view: &Viewport)
        requires
            old(self).wf(),
            view.fits(old(self).cells1.rows as int, old(self).cells1.cols as int),
            old(buffer)@.len() == view.pixels(),
        ensures
            final(self).wf(),
            final(self).cells1.same_shape(&old(self).cells1),
            final(self).flag == !old(self).flag,
            final(self).current() == step(old(self).current()),
            old(self).flag ==> final(self).cells1 == old(self).cells1,
            !old(self).flag ==> final(self).cells2 == old(self).cells2,
            final(buffer)@ == rendered(
                step(old(self).current()),
                view.mode,
                view.width as int,
                view.height as int,
            ),
    {
        if self.flag {
            do_step(&self.cells1, &mut self.cells2, buffer, view);
        } else {
            do_step(&self.cells2, &mut self.cells1, buffer, view);
        }
        self.flag = !self.flag;
    }
}

/// What the loop does after a generation.
#[derive(Clone, Copy, Debug, PartialEq, Eq, Structural)]
pub struct Pace {
    /// Microseconds to sleep before the next generation; zero when the
    /// generation used up its budget.
    pub sleep_micros: u64,
    /// Whether to report the frame rate now.
    pub report: bool,
}

/// The timing of a run.
#[derive(Clone, Copy, Debug, PartialEq, Eq, Structural)]
pub struct FrameScheduler {
    /// The time one generation may take, in microseconds.
    pub budget_micros: u64,
    /// The least time between two reports, in milliseconds.
    pub report_millis: u64,
    /// The run ends after this many seconds, if set.
    pub limit_secs: Option<u64>,
}

/// Microseconds left of the budget after `elapsed_micros`.
pub open spec fn rest(budget_micros: u64, elapsed_micros: u128) -> u64 {
    if elapsed_micros < budget_micros {
        (budget_micros - elapsed_micros) as u64
    } else {
        0
    }
}

/// Frames per second, in thousandths, at `elapsed_micros` per frame.
pub open spec fn milli_fps(elapsed_micros: u128) -> int {
    1_000_000_000int / (elapsed_micros as int)
}

impl FrameScheduler {
    /// About sixty generations a second, a report every fifth of a second,
    /// no time limit.
    pub fn sixty_hertz() -> (s: FrameScheduler)
        ensures
            s == (FrameScheduler { budget_micros: 16600, report_millis: 200, limit_secs: None }),
    {
        FrameScheduler { budget_micros: 16600, report_millis: 200, limit_secs: None }
    }

    /// Whether the loop goes on: the display is open, nobody asked to close
    /// it, and the time limit, if there is one, is not reached.
    pub fn keep_running(&self, open: bool, close_requested: bool, running_secs: u64) -> (go: bool)
        ensures
            go == (open && !close_requested && match self.limit_secs {
                Some(limit) => running_secs < limit,
                None => true,
            }),
    {
        if !open || close_requested {
            return false;
        }
        match self.limit_secs {
            Some(limit) => running_secs < limit,
            None => true,
        }
    }

    /// The pacing after a generation that took `elapsed_micros`, with
    /// `since_report_millis` gone since the last report: sleep for what is
    /// left of the budget, and report when the report interval is over.
    pub fn pace(&self, elapsed_micros: u128, since_report_millis: u128) -> (p: Pace)
        ensures
            p.sleep_micros == rest(self.budget_micros, elapsed_micros),
            p.report == (since_report_millis > self.report_millis),
    {
        let sleep_micros: u64 = if elapsed_micros < self.budget_micros as u128 {
            (self.budget_micros as u128 - elapsed_micros) as u64
        } else {
            0
        };
        Pace { sleep_micros, report: since_report_millis > self.report_millis as u128 }
    }
}

/// The frame rate at `elapsed_micros` per frame, in thousandths of a frame
/// per second; `None` for a frame that took no measurable time.
pub fn frame_rate(elapsed_micros: u128) -> (rate: Option<u128>)
    ensures
        elapsed_micros == 0 <==> rate is None,
        rate matches Some(r) ==> r == milli_fps(elapsed_micros),
{
    if elapsed_micros == 0 {
        None
    } else {
        Some(1_000_000_000u128 / elapsed_micros)
    }
}

/// The frames seen since the last report and the time they took together.
#[derive(Clone, Copy, Debug, PartialEq, Eq, Structural)]
pub struct FrameMeter {
    /// Frames recorded since the last reset.
    pub frames: u64,
    /// Their total time in microseconds.
    pub micros: u128,
}

/// A sum that stops at the largest value instead of wrapping.
pub open spec fn capped_u64(sum: int) -> u64 {
    if sum > u64::MAX {
        u64::MAX
    } else {
        sum as u64
    }
}

/// A sum that stops at the largest value instead of wrapping.
pub open spec fn capped_u128(sum: int) -> u128 {
    if sum > u128::MAX {
        u128::MAX
    } else {
        sum as u128
    }
}

/// The average frame rate over a window of `frames` frames that took
/// `micros` microseconds together, in thousandths of a frame per second.
pub open spec fn window_milli_fps(frames: u64, micros: u128) -> int {
    (frames * 1_000_000_000) / (micros as int)
}

impl FrameMeter {
    /// An empty window.
    pub fn new() -> (m: FrameMeter)
        ensures
            m == (FrameMeter { frames: 0, micros: 0 }),
    {
        FrameMeter { frames: 0, micros: 0 }
    }

    /// Adds one frame that took `elapsed_micros` to the window.
    pub fn record(&mut self, elapsed_micros: u128)
        ensures
            final(self).frames == capped_u64(old(self).frames + 1),
            final(self).micros == capped_u128(old(self).micros + elapsed_micros),
    {
        self.frames = if self.frames == u64::MAX {
            u64::MAX
        } else {
            self.frames + 1
        };
        self.micros = if elapsed_micros > u128::MAX - self.micros {
            u128::MAX
        } else {
            self.micros + elapsed_micros
        };
    }

    /// The average frame rate over the window, in thousandths of a frame per
    /// second; `None` while the window holds no measurable time.
    pub fn average(&self) -> (rate: Option<u128>)
        ensures
            self.micros == 0 <==> rate is None,
            rate matches Some(r) ==> r == window_milli_fps(self.frames, self.micros),
    {
        if self.micros == 0 {
            None
        } else {
            assert(self.frames * 1_000_000_000 <= u64::MAX * 1_000_000_000) by (nonlinear_arith)
                requires
                    0 <= self.frames <= u64::MAX,
            ;
            Some((self.frames as u128 * 1_000_000_000u128) / self.micros)
        }
    }

    /// Empties the window.
    pub fn reset(&mut self)
        ensures
            *final(self) == (FrameMeter { frames: 0, micros: 0 }),
    {
        self.frames = 0;
        self.micros = 0;
    }
}

/// A window of one frame averages to that frame's own rate.
pub proof fn lemma_window_of_one(elapsed_micros: u128)
    ensures
        window_milli_fps(1, elapsed_micros) == milli_fps(elapsed_micros),
{
}

} // verus!
