//! The frame orchestrator: once per display tick it takes the newest
//! spectrum of both channels, decides whether there is anything to show,
//! and if so advances the grid and draws it.

use crate::config::WereSoCoolSpectrumConfig;
use crate::fft_handler::{window, FFTHandler};
use crate::grid::{Cell, Grid, GridView, Heat};
use vstd::prelude::*;

verus! {

/// One bin of a spectrum, as the grid needs it.
///
/// A magnitude is a real number; what the orchestrator reads of it is
/// whether it is exactly zero, and how many rows of the grid a bar of that
/// magnitude spans: the magnitude times the grid's height, rounded.
#[derive(Clone, Copy, Debug, PartialEq, Eq, Structural)]
pub struct Magnitude {
    /// The bar's height in rows, before it is capped at the grid's height.
    pub level: usize,
    /// Whether the magnitude is exactly zero.
    pub silent: bool,
}

/// What a tick did.
#[derive(Clone, Copy, Debug, PartialEq, Eq, Structural)]
pub enum Frame {
    /// Both snapshots were silent: the grid and the screen were left alone,
    /// and there is nothing to present.
    Skipped,
    /// The grid was advanced and drawn: the screen is to be presented.
    Drawn,
}

/// Whether every bin of the snapshot is exactly zero.
pub open spec fn all_silent(snapshot: Seq<Magnitude>) -> bool {
    forall|i: int| 0 <= i < snapshot.len() ==> (#[trigger] snapshot[i]).silent
}

/// The bar heights of a snapshot.
pub open spec fn levels(snapshot: Seq<Magnitude>) -> Seq<usize> {
    Seq::new(snapshot.len(), |i: int| snapshot[i].level)
}

/// What a graph handler is, as mathematics.
pub struct HandlerView {
    /// The surface.
    pub grid: GridView,
    /// The bin at which the left snapshot ends.
    pub num_results_l: nat,
    /// The bin at which the right snapshot ends.
    pub num_results_r: nat,
    /// The alpha byte for each number of coolings.
    pub glow: Seq<u8>,
}

/// After a resize nothing of the old grid is left: the first tick on the
/// new grid gives a frame of four bytes for each cell of the new size, and
/// every cell is either lit by that tick or as dead and cold as on an idle
/// grid.
pub proof fn lemma_resized_grid_is_fresh(
    width: nat,
    height: nat,
    left: Seq<usize>,
    right: Seq<usize>,
    glow: Seq<u8>,
)
    requires
        width > 0,
        height > 0,
    ensures
        ({
            let resized = GridView::idle(width, height);
            let after = resized.updated(left, right);
            &&& after.wf()
            &&& after.width == width
            &&& after.height == height
            &&& after.frame(glow).len() == 4 * width * height
            &&& forall|i: int|
                0 <= i < width * height ==> #[trigger] after.cells[i] == if resized.lit(left + right, i) {
                    Cell { alive: true, heat: Heat::Cooled(1), activated_this_turn: true }
                } else {
                    Cell { alive: false, heat: Heat::Cold, activated_this_turn: false }
                }
        }),
{
    assert(4 * (width * height) == 4 * width * height) by (nonlinear_arith);
}

/// Owns the grid and the windowing policy of both channels.
pub struct GraphHandler {
    grid: Grid,
    fft_handler_l: FFTHandler,
    fft_handler_r: FFTHandler,
    glow: Vec<u8>,
}

impl View for GraphHandler {
    type V = HandlerView;

    closed spec fn view(&self) -> HandlerView {
        HandlerView {
            grid: self.grid@,
            num_results_l: self.fft_handler_l.num_results as nat,
            num_results_r: self.fft_handler_r.num_results as nat,
            glow: self.glow@,
        }
    }
}

/// Whether every bin of the snapshot is exactly zero.
fn is_silent(snapshot: &[Magnitude]) -> (silent: bool)
    ensures
        silent == all_silent(snapshot@),
{
    let mut i: usize = 0;
    while i < snapshot.len()
        invariant
            i <= snapshot@.len(),
            forall|j: int| 0 <= j < i ==> (#[trigger] snapshot@[j]).silent,
        decreases snapshot@.len() - i,
    {
        if !snapshot[i].silent {
            return false;
        }
        i += 1;
    }
    true
}

/// The items of `items` in reverse order.
fn reversed<T: Copy>(items: &[T]) -> (mirrored: Vec<T>)
    ensures
        mirrored@ == items@.reverse(),
{
    let len: usize = items.len();
    let mut mirrored: Vec<T> = Vec::with_capacity(len);
    let mut i: usize = 0;
    while i < len
        invariant
            len == items@.len(),
            i <= len,
            mirrored@.len() == i,
            forall|j: int| 0 <= j < i ==> mirrored@[j] == items@[len - 1 - j],
        decreases len - i,
    {
        mirrored.push(items[len - 1 - i]);
        i += 1;
    }
    assert(mirrored@ =~= items@.reverse());
    mirrored
}

/// The bar heights of a snapshot.
fn bar_levels(snapshot: &[Magnitude]) -> (heights: Vec<usize>)
    ensures
        heights@ == levels(snapshot@),
{
    let len: usize = snapshot.len();
    let mut heights: Vec<usize> = Vec::with_capacity(len);
    let mut i: usize = 0;
    while i < len
        invariant
            len == snapshot@.len(),
            i <= len,
            heights@.len() == i,
            forall|j: int| 0 <= j < i ==> heights@[j] == snapshot@[j].level,
        decreases len - i,
    {
        heights.push(snapshot[i].level);
        i += 1;
    }
    assert(heights@ =~= levels(snapshot@));
    heights
}

impl GraphHandler {
    /// The handler is well formed: its grid is, and the two snapshots
    /// together have a length that can be counted.
    pub open spec fn wf(&self) -> bool {
        &&& self@.grid.wf()
        &&& self@.num_results_l + self@.num_results_r <= usize::MAX
    }

    /// A handler with an idle grid of the given size. `glow[n]` is the alpha
    /// byte of a cell that has been cooled `n` times.
    pub fn new(config: &WereSoCoolSpectrumConfig, width: u32, height: u32, glow: Vec<u8>) -> (handler:
        Self)
        requires
            config.fft_div != 0,
            2 * (config.visual_buffer_size / config.fft_div) <= usize::MAX,
            width != 0,
            height != 0,
            width * height <= usize::MAX,
        ensures
            handler.wf(),
            handler@ == (HandlerView {
                grid: GridView::idle(width as nat, height as nat),
                num_results_l: (config.visual_buffer_size / config.fft_div) as nat,
                num_results_r: (config.visual_buffer_size / config.fft_div) as nat,
                glow: glow@,
            }),
    {
        let grid = Grid::new_bargraph(width as usize, height as usize);
        let fft_handler_l = FFTHandler::new(config);
        let fft_handler_r = FFTHandler::new(config);
        GraphHandler { grid, fft_handler_l, fft_handler_r, glow }
    }

    /// Number of columns of the grid.
    pub fn width(&self) -> (width: usize)
        ensures
            width == self@.grid.width,
    {
        self.grid.width()
    }

    /// Number of rows of the grid.
    pub fn height(&self) -> (height: usize)
        ensures
            height == self@.grid.height,
    {
        self.grid.height()
    }

    /// The bin at which the left snapshot ends.
    pub fn num_results_l(&self) -> (num_results: usize)
        ensures
            num_results == self@.num_results_l,
    {
        self.fft_handler_l.num_results
    }

    /// The bin at which the right snapshot ends.
    pub fn num_results_r(&self) -> (num_results: usize)
        ensures
            num_results == self@.num_results_r,
    {
        self.fft_handler_r.num_results
    }

    /// The grid.
    pub fn grid(&self) -> (grid: &Grid)
        ensures
            grid@ == self@.grid,
    {
        &self.grid
    }

    /// One display tick, given the engine's latest output for each channel.
    ///
    /// The snapshot of each channel is cut from its output. If every bin of
    /// both is exactly zero, nothing is done. Otherwise the grid is advanced
    /// by the left snapshot, mirrored, followed by the right one, and drawn
    /// into `screen`.
    pub fn update_and_draw(
        &mut self,
        spectrum_l: &[Magnitude],
        spectrum_r: &[Magnitude],
        screen: &mut [u8],
    ) -> (frame: Frame)
        requires
            old(self).wf(),
            2 <= old(self)@.num_results_l <= spectrum_l@.len(),
            2 <= old(self)@.num_results_r <= spectrum_r@.len(),
            old(screen)@.len() == 4 * old(self)@.grid.cells.len(),
        ensures
            final(self).wf(),
            ({
                let before = old(self)@;
                let left = window(spectrum_l@, before.num_results_l);
                let right = window(spectrum_r@, before.num_results_r);
                if all_silent(left) && all_silent(right) {
                    &&& frame == Frame::Skipped
                    &&& final(self)@ == before
                    &&& final(screen)@ == old(screen)@
                } else {
                    &&& frame == Frame::Drawn
                    &&& final(self)@ == (HandlerView {
                        grid: before.grid.updated(levels(left.reverse()), levels(right)),
                        ..before
                    })
                    &&& final(screen)@ == final(self)@.grid.frame(before.glow)
                }
            }),
    {
        let fft_results_l = self.fft_handler_l.read_results(spectrum_l);
        let fft_results_r = self.fft_handler_r.read_results(spectrum_r);
        if is_silent(fft_results_l.as_slice()) && is_silent(fft_results_r.as_slice()) {
            return Frame::Skipped;
        }
        proof {
            let left = fft_results_l@;
            let right = fft_results_r@;
            if !all_silent(left) {
                let i = choose|i: int| 0 <= i < left.len() && !(#[trigger] left[i]).silent;
                assert(left.len() > 0);
            } else {
                let i = choose|i: int| 0 <= i < right.len() && !(#[trigger] right[i]).silent;
                assert(right.len() > 0);
            }
        }
        let mirrored = reversed(fft_results_l.as_slice());
        let heights_l = bar_levels(mirrored.as_slice());
        let heights_r = bar_levels(fft_results_r.as_slice());
        self.grid.update_bargraph(heights_l.as_slice(), heights_r.as_slice());
        self.grid.draw(screen, self.glow.as_slice());
        Frame::Drawn
    }

    /// Follows a resize of the surface: the grid is dropped and a new one of
    /// the given size takes its place, showing the idle pattern.
    pub fn resize_surface(&mut self, width: u32, height: u32)
        requires
            old(self).wf(),
            width != 0,
            height != 0,
            width * height <= usize::MAX,
        ensures
            final(self).wf(),
            final(self)@ == (HandlerView {
                grid: GridView::idle(width as nat, height as nat),
                ..old(self)@
            }),
    {
        self.grid = Grid::new_bargraph(width as usize, height as usize);
    }
}

} // verus!
