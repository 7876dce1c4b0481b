//! The bar-graph surface: a grid of cells that are lit by the bars of a
//! spectrum and keep an afterglow once the bar has gone.

use vstd::prelude::*;

verus! {

/// How warm a cell still is.
///
/// A cell's heat is reset to one when the cell is activated and multiplied by
/// the grid's decay factor on every tick. The heat is therefore fixed by how
/// often the cell has been cooled since it was last activated, and that count
/// is what is kept: `Cooled(n)` stands for one multiplied `n` times by the
/// decay factor, `Cold` for no heat at all. The count saturates at
/// `u64::MAX`.
#[derive(Clone, Copy, Debug, PartialEq, Eq, Structural)]
pub enum Heat {
    /// Never activated: there is nothing to decay.
    Cold,
    /// Activated, and cooled this many times since.
    Cooled(u64),
}

/// One, multiplied `times` times by `decay`.
pub open spec fn decayed(decay: real, times: nat) -> real
    decreases times,
{
    if times == 0 {
        1 as real
    } else {
        decayed(decay, (times - 1) as nat) * decay
    }
}

impl Heat {
    /// The heat after one more tick of decay.
    pub open spec fn cooled(self) -> Heat {
        match self {
            Heat::Cold => Heat::Cold,
            Heat::Cooled(n) => Heat::Cooled(
                if n < u64::MAX {
                    (n + 1) as u64
                } else {
                    n
                },
            ),
        }
    }

    /// `self` is no warmer than `other`: it is cold, or it has been cooled at
    /// least as often.
    pub open spec fn at_most(self, other: Heat) -> bool {
        match (self, other) {
            (Heat::Cold, _) => true,
            (Heat::Cooled(_), Heat::Cold) => false,
            (Heat::Cooled(n), Heat::Cooled(m)) => n >= m,
        }
    }

    /// The heat as a number, on a grid whose decay factor is `decay`: one,
    /// multiplied by the factor once for each cooling; nothing for a cold
    /// cell.
    pub open spec fn value(self, decay: real) -> real {
        match self {
            Heat::Cold => 0 as real,
            Heat::Cooled(n) => decayed(decay, n as nat),
        }
    }

    /// The alpha byte that shows this heat. `glow[n]` is the byte of a cell
    /// cooled `n` times; past the end of the table the glow has faded out.
    pub open spec fn alpha(self, glow: Seq<u8>) -> u8 {
        match self {
            Heat::Cold => 0,
            Heat::Cooled(n) => if n < glow.len() {
                glow[n as int]
            } else {
                0
            },
        }
    }

    /// One tick of decay.
    pub fn cool_off(self) -> (after: Heat)
        ensures
            after == self.cooled(),
    {
        match self {
            Heat::Cold => Heat::Cold,
            Heat::Cooled(n) => if n < u64::MAX {
                Heat::Cooled(n + 1)
            } else {
                Heat::Cooled(n)
            },
        }
    }

    /// Looks the heat up in the table of alpha bytes.
    pub fn to_alpha(self, glow: &[u8]) -> (byte: u8)
        ensures
            byte == self.alpha(glow@),
    {
        match self {
            Heat::Cold => 0,
            Heat::Cooled(n) => if n < glow.len() as u64 {
                glow[n as usize]
            } else {
                0
            },
        }
    }
}

/// The heat of a cell lies between nothing and one, and cooling never
/// raises it: short of saturation it multiplies the heat by the decay
/// factor, exactly.
pub proof fn lemma_cooling_multiplies_by_decay(heat: Heat, decay: real)
    requires
        (0 as real) < decay < (1 as real),
    ensures
        (0 as real) <= heat.value(decay) <= (1 as real),
        heat.cooled().value(decay) <= heat.value(decay),
        heat != Heat::Cooled(u64::MAX) ==> heat.cooled().value(decay) == heat.value(decay) * decay,
{
    match heat {
        Heat::Cold => {},
        Heat::Cooled(n) => {
            lemma_decayed_is_a_fraction(decay, n as nat);
            let before = decayed(decay, n as nat);
            assert(before * decay <= before) by (nonlinear_arith)
                requires
                    (0 as real) <= before,
                    (0 as real) < decay < (1 as real),
            ;
        },
    }
}

proof fn lemma_decayed_is_a_fraction(decay: real, times: nat)
    requires
        (0 as real) < decay < (1 as real),
    ensures
        (0 as real) < decayed(decay, times) <= (1 as real),
    decreases times,
{
    if times > 0 {
        lemma_decayed_is_a_fraction(decay, (times - 1) as nat);
        let before = decayed(decay, (times - 1) as nat);
        assert((0 as real) < before * decay <= (1 as real)) by (nonlinear_arith)
            requires
                (0 as real) < before <= (1 as real),
                (0 as real) < decay < (1 as real),
        ;
    }
}

/// One cell of the surface.
#[derive(Clone, Copy, Debug, PartialEq, Eq, Structural)]
pub struct Cell {
    /// Whether a bar covers the cell on this tick.
    pub alive: bool,
    /// The afterglow, which outlives `alive`.
    pub heat: Heat,
    /// Whether the cell was activated by the tick in progress.
    pub activated_this_turn: bool,
}

impl Cell {
    /// The cell once a bar has reached it: alive, at full heat.
    pub open spec fn activated(self) -> Cell {
        Cell { alive: true, heat: Heat::Cooled(0), activated_this_turn: true }
    }

    /// The cell with both flags dropped and its heat kept.
    pub open spec fn cleared(self) -> Cell {
        Cell { alive: false, heat: self.heat, activated_this_turn: false }
    }

    /// The cell after one tick of decay.
    pub open spec fn cooled(self) -> Cell {
        Cell { alive: self.alive, heat: self.heat.cooled(), activated_this_turn: self.activated_this_turn }
    }

    /// The four bytes that show the cell: a tint chosen by liveness, and the
    /// heat as alpha.
    pub open spec fn pixel(self, glow: Seq<u8>) -> Seq<u8> {
        if self.alive {
            seq![144u8, 100u8, 223u8, self.heat.alpha(glow)]
        } else {
            seq![193u8, 140u8, 183u8, self.heat.alpha(glow)]
        }
    }

    /// A cell that no tick has touched yet.
    pub fn new(alive: bool, heat: Heat) -> (cell: Cell)
        ensures
            cell == (Cell { alive, heat, activated_this_turn: false }),
    {
        Cell { alive, heat, activated_this_turn: false }
    }

    /// Applies one tick of decay to the heat.
    pub fn cool_off(&mut self)
        ensures
            *final(self) == old(self).cooled(),
    {
        self.heat = self.heat.cool_off();
    }

    /// Puts the heat back to one.
    pub fn reset_heat(&mut self)
        ensures
            *final(self) == (Cell { heat: Heat::Cooled(0), ..*old(self) }),
    {
        self.heat = Heat::Cooled(0);
    }

    /// Activates the cell if `alive` holds, and leaves it alone otherwise.
    pub fn update_state(&mut self, alive: bool)
        ensures
            *final(self) == if alive {
                old(self).activated()
            } else {
                *old(self)
            },
    {
        if alive {
            self.alive = true;
            self.reset_heat();
            self.activated_this_turn = true;
        }
    }
}

impl Default for Cell {
    fn default() -> (cell: Cell)
        ensures
            cell == (Cell { alive: false, heat: Heat::Cold, activated_this_turn: false }),
    {
        Cell { alive: false, heat: Heat::Cold, activated_this_turn: false }
    }
}


/// What a grid is, as mathematics: its size and its cells in row-major order.
pub struct GridView {
    /// Number of columns.
    pub width: nat,
    /// Number of rows.
    pub height: nat,
    /// The cells, row after row.
    pub cells: Seq<Cell>,
}

/// The height of a bar of the given level on a surface of `height` rows:
/// the level itself, capped at the number of rows.
pub open spec fn bar_height(height: nat, level: usize) -> nat {
    if level < height {
        level as nat
    } else {
        height
    }
}

/// Whether the bars `heights` light the cell in column `x` and row `y`.
///
/// The width is cut into `heights.len()` bars of `width / heights.len()`
/// columns each; columns to the right of the last bar belong to no bar. A bar
/// lights the rows whose index exceeds the number of rows less the bar's
/// height.
pub open spec fn lit_at(width: nat, height: nat, heights: Seq<usize>, x: int, y: int) -> bool {
    let bar_width = width as int / heights.len() as int;
    &&& heights.len() > 0
    &&& bar_width > 0
    &&& 0 <= x / bar_width < heights.len()
    &&& y > height - bar_height(height, heights[x / bar_width])
}

impl GridView {
    /// Both sides are positive and there is one cell for each position.
    pub open spec fn wf(self) -> bool {
        &&& self.width > 0
        &&& self.height > 0
        &&& self.cells.len() == self.width * self.height
    }

    /// A grid of the given size whose cells are all `cell`.
    pub open spec fn uniform(width: nat, height: nat, cell: Cell) -> GridView {
        GridView { width, height, cells: Seq::new(width * height, |i: int| cell) }
    }

    /// The idle pattern: every cell dead and cold.
    pub open spec fn idle(width: nat, height: nat) -> GridView {
        Self::uniform(width, height, Cell { alive: false, heat: Heat::Cold, activated_this_turn: false })
    }

    /// Whether the bars `heights` light the cell at index `i`.
    pub open spec fn lit(self, heights: Seq<usize>, i: int) -> bool {
        lit_at(self.width, self.height, heights, i % self.width as int, i / self.width as int)
    }

    /// The grid with the flags of every cell dropped.
    pub open spec fn cleared(self) -> GridView {
        GridView {
            width: self.width,
            height: self.height,
            cells: Seq::new(self.cells.len(), |i: int| self.cells[i].cleared()),
        }
    }

    /// The grid after the bars have activated the cells they cover and every
    /// cell, activated or not, has then been cooled once.
    pub open spec fn filled(self, heights: Seq<usize>) -> GridView {
        GridView {
            width: self.width,
            height: self.height,
            cells: Seq::new(
                self.cells.len(),
                |i: int|
                    if self.lit(heights, i) {
                        self.cells[i].activated().cooled()
                    } else {
                        self.cells[i].cooled()
                    },
            ),
        }
    }

    /// The grid after one tick with the bars of the left side followed by
    /// those of the right.
    pub open spec fn updated(self, left: Seq<usize>, right: Seq<usize>) -> GridView {
        self.cleared().filled(left + right)
    }

    /// The RGBA bytes that show the grid: four for each cell, in cell order.
    pub open spec fn frame(self, glow: Seq<u8>) -> Seq<u8> {
        Seq::new(4 * self.cells.len(), |k: int| self.cells[k / 4].pixel(glow)[k % 4])
    }
}

/// A tick keeps the size of a grid, and with it its well-formedness.
pub proof fn lemma_update_keeps_shape(grid: GridView, left: Seq<usize>, right: Seq<usize>)
    requires
        grid.wf(),
    ensures
        grid.updated(left, right).wf(),
        grid.updated(left, right).width == grid.width,
        grid.updated(left, right).height == grid.height,
{
}

/// Decay is monotone and exact: a cell that the tick does not activate ends
/// it dead, with the heat it had, cooled once. On a grid with decay factor
/// `decay` that heat is no more than before, and short of saturation it is
/// the heat before times the factor.
pub proof fn lemma_heat_decays(
    grid: GridView,
    left: Seq<usize>,
    right: Seq<usize>,
    i: int,
    decay: real,
)
    requires
        grid.wf(),
        0 <= i < grid.cells.len(),
        !grid.lit(left + right, i),
        (0 as real) < decay < (1 as real),
    ensures
        ({
            let before = grid.cells[i];
            let after = grid.updated(left, right).cells[i];
            &&& !after.alive
            &&& !after.activated_this_turn
            &&& after.heat == before.heat.cooled()
            &&& after.heat.at_most(before.heat)
            &&& after.heat.value(decay) <= before.heat.value(decay)
            &&& before.heat != Heat::Cooled(u64::MAX) ==> after.heat.value(decay) == before.heat.value(
                decay,
            ) * decay
        }),
{
    lemma_cooling_multiplies_by_decay(grid.cells[i].heat, decay);
}

/// Activation resets the heat: a cell that the tick activates ends it
/// alive, and its heat is that of a cell set to one and cooled once, the
/// decay factor itself, whatever heat it had before.
pub proof fn lemma_activation_resets_heat(
    grid: GridView,
    left: Seq<usize>,
    right: Seq<usize>,
    i: int,
    decay: real,
)
    requires
        grid.wf(),
        0 <= i < grid.cells.len(),
        grid.lit(left + right, i),
    ensures
        grid.updated(left, right).cells[i] == (Cell {
            alive: true,
            heat: Heat::Cooled(1),
            activated_this_turn: true,
        }),
        grid.updated(left, right).cells[i].heat.value(decay) == decay,
{
    assert(decayed(decay, 1) == decayed(decay, 0) * decay);
}

/// The bar-graph surface.
pub struct Grid {
    cells: Vec<Cell>,
    width: usize,
    height: usize,
}

impl View for Grid {
    type V = GridView;

    closed spec fn view(&self) -> GridView {
        GridView { width: self.width as nat, height: self.height as nat, cells: self.cells@ }
    }
}

proof fn lemma_cell_index(width: int, height: int, x: int, y: int)
    requires
        0 <= x < width,
        0 <= y < height,
    ensures
        0 <= y * width,
        0 <= x + y * width < width * height,
        (x + y * width) % width == x,
        (x + y * width) / width == y,
{
    assert(0 <= y * width && y * width + width <= height * width) by (nonlinear_arith)
        requires
            0 <= y < height,
            0 < width,
    ;
    assert(width * height == height * width) by (nonlinear_arith);
    vstd::arithmetic::div_mod::lemma_fundamental_div_mod_converse(x + y * width, width, y, x);
}

proof fn lemma_cell_position(width: int, height: int, i: int)
    requires
        0 < width,
        0 <= i < width * height,
    ensures
        0 <= i % width < width,
        0 <= i / width < height,
        i == i % width + (i / width) * width,
{
    vstd::arithmetic::div_mod::lemma_fundamental_div_mod(i, width);
    assert((i / width) * width == width * (i / width)) by (nonlinear_arith);
    assert(0 <= i / width < height) by (nonlinear_arith)
        requires
            0 < width,
            0 <= i < width * height,
            i == width * (i / width) + i % width,
            0 <= i % width < width,
    ;
}

proof fn lemma_bar_of_column(bar_width: int, bar: int, x: int)
    requires
        0 <= bar,
        bar * bar_width <= x < (bar + 1) * bar_width,
    ensures
        bar_width > 0,
        x / bar_width == bar,
{
    assert(bar_width > 0) by (nonlinear_arith)
        requires
            bar * bar_width < (bar + 1) * bar_width,
    ;
    assert((bar + 1) * bar_width == bar * bar_width + bar_width) by (nonlinear_arith);
    vstd::arithmetic::div_mod::lemma_fundamental_div_mod_converse(
        x,
        bar_width,
        bar,
        x - bar * bar_width,
    );
}

proof fn lemma_bars_fit(width: int, bars: int, bar: int)
    requires
        0 <= width,
        0 <= bar < bars,
    ensures
        0 <= bar * (width / bars),
        (bar + 1) * (width / bars) <= bars * (width / bars) <= width,
        bar * (width / bars) <= (bar + 1) * (width / bars),
{
    let bar_width = width / bars;
    vstd::arithmetic::div_mod::lemma_fundamental_div_mod(width, bars);
    vstd::arithmetic::div_mod::lemma_div_pos_is_pos(width, bars);
    assert(0 <= bar * bar_width && (bar + 1) * bar_width <= bars * bar_width && bar * bar_width <= (bar
        + 1) * bar_width) by (nonlinear_arith)
        requires
            0 <= bar < bars,
            0 <= bar_width,
    ;
}

proof fn lemma_column_has_bar(bar_width: int, bars: int, x: int)
    requires
        0 < bar_width,
        0 <= bars,
        0 <= x,
    ensures
        x / bar_width < bars <==> x < bars * bar_width,
        0 <= x / bar_width,
{
    vstd::arithmetic::div_mod::lemma_fundamental_div_mod(x, bar_width);
    let q = x / bar_width;
    assert(0 <= q) by (nonlinear_arith)
        requires
            0 < bar_width,
            0 <= x,
            x == bar_width * q + x % bar_width,
            0 <= x % bar_width < bar_width,
    ;
    if q < bars {
        assert(x < bars * bar_width) by (nonlinear_arith)
            requires
                q + 1 <= bars,
                0 < bar_width,
                x == bar_width * q + x % bar_width,
                x % bar_width < bar_width,
        ;
    } else {
        assert(x >= bars * bar_width) by (nonlinear_arith)
            requires
                q >= bars,
                0 < bar_width,
                x == bar_width * q + x % bar_width,
                0 <= x % bar_width,
        ;
    }
}

/// The cell at index `i` once the bars have swept every column before `col`
/// and, in column `col`, every row before `row`.
spec fn swept(before: GridView, heights: Seq<usize>, col: int, row: int, i: int) -> Cell {
    let x = i % before.width as int;
    let y = i / before.width as int;
    if (x < col || (x == col && y < row)) && before.lit(heights, i) {
        before.cells[i].activated()
    } else {
        before.cells[i]
    }
}

impl Grid {
    /// The grid is well formed: see [`GridView::wf`].
    pub open spec fn wf(&self) -> bool {
        self@.wf()
    }

    proof fn lemma_size_fits(&self)
        requires
            self.wf(),
        ensures
            self@.width * self@.height <= usize::MAX,
    {
        assert(self.cells.len() == self.cells@.len());
    }

    /// Number of columns.
    pub fn width(&self) -> (width: usize)
        ensures
            width == self@.width,
    {
        self.width
    }

    /// Number of rows.
    pub fn height(&self) -> (height: usize)
        ensures
            height == self@.height,
    {
        self.height
    }

    /// The index of the cell in column `x` and row `y`, if the grid has one.
    pub fn grid_idx(&self, x: usize, y: usize) -> (idx: Option<usize>)
        requires
            self.wf(),
        ensures
            idx is Some <==> x < self@.width && y < self@.height,
            idx matches Some(i) ==> i == x + y * self@.width && i < self@.cells.len(),
    {
        if x < self.width && y < self.height {
            proof {
                self.lemma_size_fits();
                lemma_cell_index(self.width as int, self.height as int, x as int, y as int);
            }
            Some(x + y * self.width)
        } else {
            None
        }
    }

    /// The cell in column `x` and row `y`, if the grid has one.
    pub fn cell(&self, x: usize, y: usize) -> (cell: Option<Cell>)
        requires
            self.wf(),
        ensures
            cell == if x < self@.width && y < self@.height {
                Some(self@.cells[x + y * self@.width])
            } else {
                None
            },
    {
        match self.grid_idx(x, y) {
            Some(idx) => Some(self.cells[idx]),
            None => None,
        }
    }

    /// A grid of dead, cold cells.
    pub fn new_empty(width: usize, height: usize) -> (grid: Grid)
        requires
            width != 0,
            height != 0,
            width * height <= usize::MAX,
        ensures
            grid.wf(),
            grid@ == GridView::uniform(width as nat, height as nat, Cell { alive: false, heat: Heat::Cold, activated_this_turn: false }),
    {
        let size: usize = width * height;
        let cell = Cell::new(false, Heat::Cold);
        let mut cells: Vec<Cell> = Vec::with_capacity(size);
        let mut i: usize = 0;
        while i < size
            invariant
                i <= size,
                cells@.len() == i,
                forall|j: int| 0 <= j < i ==> cells@[j] == cell,
            decreases size - i,
        {
            cells.push(cell);
            i += 1;
        }
        let grid = Grid { cells, width, height };
        assert(grid@.cells =~= GridView::uniform(width as nat, height as nat, cell).cells);
        grid
    }

    /// Activates the cells that the bars cover, then cools every cell once.
    pub fn fill_bargraph(&mut self, heights: &[usize])
        requires
            old(self).wf(),
            heights@.len() > 0,
        ensures
            final(self).wf(),
            final(self)@ == old(self)@.filled(heights@),
    {
        let ghost before = self@;
        proof {
            self.lemma_size_fits();
        }
        let bars: usize = heights.len();
        let bar_width: usize = self.width / bars;
        let mut bar_idx: usize = 0;
        while bar_idx < bars
            invariant
                before.wf(),
                before.cells.len() <= usize::MAX,
                bars == heights@.len(),
                bars > 0,
                bar_width == before.width / bars as nat,
                bar_idx <= bars,
                self@.width == before.width,
                self@.height == before.height,
                self@.cells.len() == before.cells.len(),
                0 <= bar_idx * bar_width <= before.width,
                forall|i: int|
                    0 <= i < before.cells.len() ==> #[trigger] self@.cells[i] == swept(
                        before,
                        heights@,
                        bar_idx * bar_width,
                        0,
                        i,
                    ),
            decreases bars - bar_idx,
        {
            proof {
                lemma_bars_fit(self.width as int, bars as int, bar_idx as int);
            }
            let level: usize = heights[bar_idx];
            let grid_height: usize = if level < self.height {
                level
            } else {
                self.height
            };
            let first: usize = bar_idx * bar_width;
            let end: usize = (bar_idx + 1) * bar_width;
            let mut bar_x: usize = first;
            while bar_x < end
                invariant
                    before.wf(),
                    before.cells.len() <= usize::MAX,
                    bars == heights@.len(),
                    bar_idx < bars,
                    bar_width == before.width / bars as nat,
                    first == bar_idx * bar_width,
                    end == (bar_idx + 1) * bar_width,
                    first <= bar_x <= end <= before.width,
                    grid_height == bar_height(before.height, heights@[bar_idx as int]),
                    self@.width == before.width,
                    self@.height == before.height,
                    self@.cells.len() == before.cells.len(),
                    forall|i: int|
                        0 <= i < before.cells.len() ==> #[trigger] self@.cells[i] == swept(
                            before,
                            heights@,
                            bar_x as int,
                            0,
                            i,
                        ),
                decreases end - bar_x,
            {
                let mut y: usize = 0;
                while y < self.height
                    invariant
                        before.wf(),
                        before.cells.len() <= usize::MAX,
                        bars == heights@.len(),
                        bar_idx < bars,
                        bar_width == before.width / bars as nat,
                        first == bar_idx * bar_width,
                        end == (bar_idx + 1) * bar_width,
                        first <= bar_x < end <= before.width,
                        grid_height == bar_height(before.height, heights@[bar_idx as int]),
                        y <= before.height,
                        self@.width == before.width,
                        self@.height == before.height,
                        self@.cells.len() == before.cells.len(),
                        forall|i: int|
                            0 <= i < before.cells.len() ==> #[trigger] self@.cells[i] == swept(
                                before,
                                heights@,
                                bar_x as int,
                                y as int,
                                i,
                            ),
                    decreases before.height - y,
                {
                    proof {
                        lemma_cell_index(
                            self.width as int,
                            self.height as int,
                            bar_x as int,
                            y as int,
                        );
                        lemma_bar_of_column(bar_width as int, bar_idx as int, bar_x as int);
                    }
                    let idx: usize = bar_x + y * self.width;
                    let alive: bool = y > self.height - grid_height;
                    let ghost stage = self@.cells;
                    self.cells[idx].update_state(alive);
                    proof {
                        assert(alive == before.lit(heights@, idx as int));
                        assert forall|i: int| 0 <= i < before.cells.len() implies #[trigger] self@.cells[i]
                            == swept(before, heights@, bar_x as int, y + 1, i) by {
                            lemma_cell_position(before.width as int, before.height as int, i);
                            if i != idx {
                                assert(self@.cells[i] == stage[i]);
                            }
                        }
                    }
                    y += 1;
                }
                proof {
                    assert forall|i: int| 0 <= i < before.cells.len() implies #[trigger] self@.cells[i]
                        == swept(before, heights@, bar_x + 1, 0, i) by {
                        lemma_cell_position(before.width as int, before.height as int, i);
                    }
                }
                bar_x += 1;
            }
            bar_idx += 1;
        }
        let ghost stage = self@.cells;
        proof {
            assert forall|i: int| 0 <= i < before.cells.len() implies #[trigger] stage[i] == (if before.lit(
                heights@,
                i,
            ) {
                before.cells[i].activated()
            } else {
                before.cells[i]
            }) by {
                lemma_cell_position(before.width as int, before.height as int, i);
                if bar_width > 0 {
                    lemma_column_has_bar(bar_width as int, bars as int, i % before.width as int);
                }
            }
        }
        let size: usize = self.cells.len();
        let mut k: usize = 0;
        while k < size
            invariant
                k <= size,
                size == stage.len(),
                self@.cells.len() == stage.len(),
                self@.width == before.width,
                self@.height == before.height,
                forall|i: int| 0 <= i < k ==> #[trigger] self@.cells[i] == stage[i].cooled(),
                forall|i: int| k <= i < size ==> #[trigger] self@.cells[i] == stage[i],
            decreases size - k,
        {
            self.cells[k].cool_off();
            k += 1;
        }
        assert(self@.cells =~= before.filled(heights@).cells);
    }

    /// A grid showing the idle pattern: as many bars as columns, all of
    /// level zero, so that every cell is dead and cold.
    pub fn new_bargraph(width: usize, height: usize) -> (grid: Grid)
        requires
            width != 0,
            height != 0,
            width * height <= usize::MAX,
        ensures
            grid.wf(),
            grid@ == GridView::idle(width as nat, height as nat),
    {
        let mut result = Self::new_empty(width, height);
        let mut heights: Vec<usize> = Vec::with_capacity(width);
        let mut x: usize = 0;
        while x < width
            invariant
                x <= width,
                heights@.len() == x,
                forall|j: int| 0 <= j < x ==> heights@[j] == 0,
            decreases width - x,
        {
            heights.push(0);
            x += 1;
        }
        let ghost empty = result@;
        result.fill_bargraph(heights.as_slice());
        proof {
            assert forall|i: int| 0 <= i < empty.cells.len() implies !empty.lit(heights@, i) by {
                lemma_cell_position(width as int, height as int, i);
            }
            assert(result@.cells =~= GridView::idle(width as nat, height as nat).cells);
        }
        result
    }

    /// One tick: drops the flags of every cell, activates the cells under
    /// the bars of `new_heights_l` followed by those of `new_heights_r`, and
    /// cools every cell once.
    pub fn update_bargraph(&mut self, new_heights_l: &[usize], new_heights_r: &[usize])
        requires
            old(self).wf(),
            0 < new_heights_l@.len() + new_heights_r@.len() <= usize::MAX,
        ensures
            final(self).wf(),
            final(self)@ == old(self)@.updated(new_heights_l@, new_heights_r@),
    {
        let ghost before = self@;
        let size: usize = self.cells.len();
        let mut k: usize = 0;
        while k < size
            invariant
                k <= size,
                size == before.cells.len(),
                self@.cells.len() == before.cells.len(),
                self@.width == before.width,
                self@.height == before.height,
                forall|i: int| 0 <= i < k ==> #[trigger] self@.cells[i] == before.cells[i].cleared(),
                forall|i: int| k <= i < size ==> #[trigger] self@.cells[i] == before.cells[i],
            decreases size - k,
        {
            self.cells[k].alive = false;
            self.cells[k].activated_this_turn = false;
            k += 1;
        }
        assert(self@.cells =~= before.cleared().cells);
        let heights = concat(new_heights_l, new_heights_r);
        self.fill_bargraph(heights.as_slice());
    }

    /// Writes the grid into `screen` as RGBA bytes, four for each cell in
    /// cell order. `glow` maps a heat to its alpha byte: see [`Heat::alpha`].
    pub fn draw(&self, screen: &mut [u8], glow: &[u8])
        requires
            self.wf(),
            old(screen)@.len() == 4 * self@.cells.len(),
        ensures
            final(screen)@ == self@.frame(glow@),
    {
        let size: usize = self.cells.len();
        assert(4 * size <= usize::MAX) by {
            assert(screen.len() == screen@.len());
        }
        let mut k: usize = 0;
        while k < size
            invariant
                k <= size,
                size == self@.cells.len(),
                screen@.len() == 4 * size <= usize::MAX,
                forall|j: int| 0 <= j < 4 * k ==> #[trigger] screen@[j] == self@.frame(glow@)[j],
            decreases size - k,
        {
            let c = self.cells[k];
            let alpha: u8 = c.heat.to_alpha(glow);
            let base: usize = 4 * k;
            if c.alive {
                screen[base] = 144u8;
                screen[base + 1] = 100u8;
                screen[base + 2] = 223u8;
            } else {
                screen[base] = 193u8;
                screen[base + 1] = 140u8;
                screen[base + 2] = 183u8;
            }
            screen[base + 3] = alpha;
            k += 1;
        }
        assert(screen@ =~= self@.frame(glow@));
    }
}

/// The items of `left` followed by those of `right`.
fn concat<T: Copy>(left: &[T], right: &[T]) -> (joined: Vec<T>)
    requires
        left@.len() + right@.len() <= usize::MAX,
    ensures
        joined@ == left@ + right@,
{
    let mut joined: Vec<T> = Vec::with_capacity(left.len() + right.len());
    let mut i: usize = 0;
    while i < left.len()
        invariant
            i <= left@.len(),
            joined@ == left@.subrange(0, i as int),
        decreases left@.len() - i,
    {
        joined.push(left[i]);
        i += 1;
        assert(joined@ =~= left@.subrange(0, i as int));
    }
    let mut j: usize = 0;
    while j < right.len()
        invariant
            j <= right@.len(),
            joined@ == left@ + right@.subrange(0, j as int),
        decreases right@.len() - j,
    {
        joined.push(right[j]);
        j += 1;
        assert(joined@ =~= left@ + right@.subrange(0, j as int));
    }
    assert(joined@ =~= left@ + right@);
    joined
}

} // verus!
