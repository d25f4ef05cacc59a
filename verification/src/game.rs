//! The simulation: the board in memory, and the tick that advances it.
//!
//! Two ways of writing a cell exist. [`Simulation::set`] is the guarded
//! write: it leaves a cell alone that already carries the mark of the
//! running tick, so that no cell is written twice in one tick; the tick
//! commits every movement through it. [`Simulation::overwrite`] is the
//! unconditional write: it replaces what the cell holds and marks it,
//! marked or not; painting and clearing between two ticks go through it.

use crate::brush::Brush;
use crate::grid::Grid;
use crate::materials::{IndexShift, MaterialColor, MaterialId, Materials, Movement, MovementRule};
use vstd::prelude::*;

verus! {

/// One cell of the board: its occupant, and whether it was written in the
/// running tick.
#[derive(Copy, Clone, Debug, PartialEq, Eq)]
pub struct Cell {
    pub value: Option<MaterialId>,
    pub updated: bool,
}

/// How a rule sees a position.
#[derive(Copy, Clone, Debug, PartialEq, Eq)]
pub enum CellStatus {
    /// On the board, not yet written in this tick, and empty.
    Empty,
    /// On the board, not yet written in this tick, and holding a material.
    Occupied(MaterialId),
    /// Off the board, or already written in this tick.
    Inaccessible,
}

/// A position of a `height` by `width` board has its place in a row-major
/// array of `width * height` cells.
proof fn lemma_flat_index_in_range(row: int, column: int, width: int, height: int)
    requires
        0 <= row < height,
        0 <= column < width,
    ensures
        0 <= row * width + column < width * height,
{
    assert(row * width + column < width * height) by (nonlinear_arith)
        requires
            0 <= row < height,
            0 <= column < width,
    {
        assert((row + 1) * width <= height * width);
    }
    assert(0 <= row * width) by (nonlinear_arith)
        requires
            0 <= row,
            0 <= width,
    ;
}

/// Two positions with the same place in the array are the same position.
proof fn lemma_flat_index_injective(r1: int, c1: int, r2: int, c2: int, width: int)
    requires
        0 <= c1 < width,
        0 <= c2 < width,
        r1 * width + c1 == r2 * width + c2,
    ensures
        r1 == r2,
        c1 == c2,
{
    assert(r1 == r2) by (nonlinear_arith)
        requires
            0 <= c1 < width,
            0 <= c2 < width,
            r1 * width + c1 == r2 * width + c2,
    {
        if r1 < r2 {
            assert((r1 + 1) * width <= r2 * width);
        } else if r2 < r1 {
            assert((r2 + 1) * width <= r1 * width);
        }
    }
}

/// The board, its cells in row-major order, and the catalog of the
/// materials that may stand on it.
pub struct Simulation {
    grid: Vec<Cell>,
    width: usize,
    height: usize,
    materials: Materials,
}

impl View for Simulation {
    type V = Grid;

    closed spec fn view(&self) -> Grid {
        Grid {
            width: self.width as nat,
            height: self.height as nat,
            cells: Map::new(
                |p: (int, int)| 0 <= p.0 < self.height && 0 <= p.1 < self.width,
                |p: (int, int)| self.grid@[p.0 * self.width + p.1],
            ),
        }
    }
}

impl Simulation {
    /// The catalog of the simulation.
    pub closed spec fn catalog(&self) -> Materials {
        self.materials
    }

    /// The array holds one cell for each position.
    pub closed spec fn laid_out(&self) -> bool {
        self.grid@.len() == self.width * self.height
    }

    /// The board is laid out, its catalog is well formed, and every
    /// occupant is a material of the catalog.
    pub open spec fn wf(&self) -> bool {
        &&& self.laid_out()
        &&& self@.wf()
        &&& self.catalog().wf()
        &&& self@.known(self.catalog())
    }

    /// A board of `height` rows and `width` columns, every cell empty and
    /// unmarked.
    pub fn new(width: usize, height: usize, materials: Materials) -> (simulation: Self)
        requires
            width * height <= usize::MAX,
            materials.wf(),
        ensures
            simulation.wf(),
            simulation.catalog() == materials,
            simulation@.width == width,
            simulation@.height == height,
            forall|p: (int, int)|
                simulation@.in_bounds(p.0, p.1) ==> #[trigger] simulation@.cells[p] == (Cell {
                    value: None,
                    updated: false,
                }),
    {
        let count: usize = width * height;
        let mut grid: Vec<Cell> = Vec::new();
        let mut i: usize = 0;
        while i < count
            invariant
                0 <= i <= count,
                grid@.len() == i,
                forall|k: int| 0 <= k < i ==> #[trigger] grid@[k] == (Cell { value: None, updated: false }),
            decreases count - i,
        {
            grid.push(Cell { value: None, updated: false });
            i += 1;
        }
        let simulation = Self { grid, width, height, materials };
        proof {
            assert forall|p: (int, int)| simulation@.in_bounds(p.0, p.1) implies #[trigger] simulation@.cells[p]
                == (Cell { value: None, updated: false }) by {
                lemma_flat_index_in_range(p.0, p.1, width as int, height as int);
            }
        }
        simulation
    }

    /// The number of columns.
    pub fn width(&self) -> (width: usize)
        ensures
            width == self@.width,
    {
        self.width
    }

    /// The number of rows.
    pub fn height(&self) -> (height: usize)
        ensures
            height == self@.height,
    {
        self.height
    }

    /// The catalog of the simulation.
    pub fn materials(&self) -> (materials: &Materials)
        ensures
            *materials == self.catalog(),
    {
        &self.materials
    }

    /// The place of `(row, column)` in the array.
    fn flat_index(&self, row: usize, column: usize) -> (index: usize)
        requires
            self.laid_out(),
            row < self.height,
            column < self.width,
        ensures
            index == row * self.width + column,
            index < self.grid@.len(),
    {
        proof {
            lemma_flat_index_in_range(row as int, column as int, self.width as int, self.height as int);
            assert(row * self.width >= 0) by (nonlinear_arith)
                requires
                    row >= 0,
                    self.width >= 0,
            ;
            assert(self.grid.len() == self.grid@.len());
        }
        row * self.width + column
    }

    /// The color in which `(row, column)` has to be drawn again: that of
    /// its occupant, or the background's where it is empty, if the cell
    /// carries the mark; nothing if it does not.
    pub fn redraw_color(&self, row: usize, column: usize) -> (color: Option<MaterialColor>)
        requires
            self.wf(),
            self@.in_bounds(row as int, column as int),
        ensures
            color == if self@.cell(row as int, column as int).updated {
                Some(
                    match self@.cell(row as int, column as int).value {
                        Some(id) => self.catalog().entry(id).color,
                        None => self.catalog().board().background,
                    },
                )
            } else {
                None
            },
    {
        let cell = *self.get(row, column);
        if cell.updated {
            assert(cell.value matches Some(id) ==> self.catalog().contains(id)) by {
                assert(self@.cells[(row as int, column as int)] == cell);
            }
            Some(self.materials.get_color(cell.value))
        } else {
            None
        }
    }

    /// Replaces the cell at `(row, column)`.
    fn put(&mut self, row: usize, column: usize, cell: Cell)
        requires
            old(self).wf(),
            old(self)@.in_bounds(row as int, column as int),
            cell.value matches Some(id) ==> old(self).catalog().contains(id),
        ensures
            final(self).wf(),
            final(self).catalog() == old(self).catalog(),
            final(self)@ == old(self)@.put(row as int, column as int, cell),
    {
        let index: usize = self.flat_index(row, column);
        self.grid[index] = cell;
        proof {
            let width: int = self.width as int;
            let height: int = self.height as int;
            assert forall|p: (int, int)| self@.in_bounds(p.0, p.1) implies #[trigger] self@.cells[p] == old(
                self,
            )@.put(row as int, column as int, cell).cells[p] by {
                lemma_flat_index_in_range(p.0, p.1, width, height);
                if p != (row as int, column as int) {
                    if p.0 * width + p.1 == row * width + column {
                        lemma_flat_index_injective(p.0, p.1, row as int, column as int, width);
                    }
                }
            }
            assert(self@.cells =~= old(self)@.put(row as int, column as int, cell).cells);
            assert forall|p: (int, int)| self@.in_bounds(p.0, p.1) implies match (#[trigger] self@.cells[p]).value {
                Some(id) => self.catalog().contains(id),
                None => true,
            } by {
                if p != (row as int, column as int) {
                    assert(self@.cells[p] == old(self)@.cells[p]);
                }
            }
        }
    }

    /// The cell at `(row, column)`.
    pub fn get(&self, row: usize, column: usize) -> (cell: &Cell)
        requires
            self.wf(),
            self@.in_bounds(row as int, column as int),
        ensures
            *cell == self@.cell(row as int, column as int),
    {
        let index: usize = self.flat_index(row, column);
        &self.grid[index]
    }

    /// The guarded write: writes `value` to `(row, column)` and marks the
    /// cell, unless the cell carries the mark already; then nothing
    /// changes.
    pub fn set(&mut self, row: usize, column: usize, value: Option<MaterialId>)
        requires
            old(self).wf(),
            old(self)@.in_bounds(row as int, column as int),
            value matches Some(id) ==> old(self).catalog().contains(id),
        ensures
            final(self).wf(),
            final(self).catalog() == old(self).catalog(),
            final(self)@ == if old(self)@.cell(row as int, column as int).updated {
                old(self)@
            } else {
                old(self)@.write(row as int, column as int, value)
            },
            final(self)@ == old(self)@.write_once(row as int, column as int, value),
    {
        if !self.get(row, column).updated {
            self.put(row, column, Cell { value, updated: true });
        }
    }

    /// The unconditional write: writes `value` to `(row, column)` and marks
    /// the cell, whatever it held and whether or not it was marked.
    pub fn overwrite(&mut self, row: usize, column: usize, value: Option<MaterialId>)
        requires
            old(self).wf(),
            old(self)@.in_bounds(row as int, column as int),
            value matches Some(id) ==> old(self).catalog().contains(id),
        ensures
            final(self).wf(),
            final(self).catalog() == old(self).catalog(),
            final(self)@ == old(self)@.write(row as int, column as int, value),
    {
        self.put(row, column, Cell { value, updated: true });
    }

    /// Marks the cell at `(row, column)`; the cell keeps its occupant.
    fn mark(&mut self, row: usize, column: usize)
        requires
            old(self).wf(),
            old(self)@.in_bounds(row as int, column as int),
        ensures
            final(self).wf(),
            final(self).catalog() == old(self).catalog(),
            final(self)@ == old(self)@.mark(row as int, column as int),
    {
        let value = self.get(row, column).value;
        assert(value matches Some(id) ==> self.catalog().contains(id)) by {
            assert(self@.cells[(row as int, column as int)].value == value);
        }
        self.put(row, column, Cell { value, updated: true });
    }

    /// Whether `(row, column)` is a position of the board.
    pub fn in_bounds(&self, row: i64, column: i64) -> (inside: bool)
        ensures
            inside == self@.in_bounds(row as int, column as int),
    {
        row >= 0 && column >= 0 && (row as u64) < (self.height as u64) && (column as u64) < (
        self.width as u64)
    }

    /// How a rule sees `(row, column)`.
    pub fn get_status(&self, row: i64, column: i64) -> (status: CellStatus)
        requires
            self.wf(),
        ensures
            status == self@.status(row as int, column as int),
    {
        self.status_at(row as i128, column as i128)
    }

    /// How a rule sees `(row, column)`, for coordinates of any size that a
    /// position and a shift can add up to.
    fn status_at(&self, row: i128, column: i128) -> (status: CellStatus)
        requires
            self.wf(),
        ensures
            status == self@.status(row as int, column as int),
    {
        if row < 0 || column < 0 || row >= self.height as i128 || column >= self.width as i128 {
            return CellStatus::Inaccessible;
        }
        let cell = self.get(row as usize, column as usize);
        if cell.updated {
            CellStatus::Inaccessible
        } else if let Some(value) = cell.value {
            CellStatus::Occupied(value)
        } else {
            CellStatus::Empty
        }
    }

    /// Clears the mark of every cell; the occupants stay.
    pub fn reset(&mut self)
        requires
            old(self).wf(),
        ensures
            final(self).wf(),
            final(self).catalog() == old(self).catalog(),
            final(self)@ == old(self)@.unmarked(),
            final(self)@.fresh(),
    {
        let count: usize = self.grid.len();
        let mut i: usize = 0;
        while i < count
            invariant
                0 <= i <= count,
                count == self.grid@.len(),
                count == old(self).grid@.len(),
                self.width == old(self).width,
                self.height == old(self).height,
                self.materials == old(self).materials,
                forall|k: int|
                    0 <= k < i ==> #[trigger] self.grid@[k] == (Cell {
                        value: old(self).grid@[k].value,
                        updated: false,
                    }),
                forall|k: int| i <= k < count ==> #[trigger] self.grid@[k] == old(self).grid@[k],
            decreases count - i,
        {
            let value = self.grid[i].value;
            self.grid[i] = Cell { value, updated: false };
            i += 1;
        }
        proof {
            assert forall|p: (int, int)| self@.in_bounds(p.0, p.1) implies #[trigger] self@.cells[p] == old(
                self,
            )@.unmarked().cells[p] by {
                lemma_flat_index_in_range(p.0, p.1, self.width as int, self.height as int);
            }
            assert(self@.cells =~= old(self)@.unmarked().cells);
            assert forall|p: (int, int)| self@.in_bounds(p.0, p.1) implies match (#[trigger] self@.cells[p]).value {
                Some(id) => self.catalog().contains(id),
                None => true,
            } by {
                assert(self@.cells[p].value == old(self)@.cells[p].value);
            }
        }
    }

    /// Empties every cell and marks it, marked or not.
    pub fn clear(&mut self)
        requires
            old(self).wf(),
        ensures
            final(self).wf(),
            final(self).catalog() == old(self).catalog(),
            final(self)@ == old(self)@.cleared(),
    {
        let count: usize = self.grid.len();
        let mut i: usize = 0;
        while i < count
            invariant
                0 <= i <= count,
                count == self.grid@.len(),
                count == old(self).grid@.len(),
                self.width == old(self).width,
                self.height == old(self).height,
                self.materials == old(self).materials,
                forall|k: int| 0 <= k < i ==> #[trigger] self.grid@[k] == (Cell { value: None, updated: true }),
            decreases count - i,
        {
            self.grid[i] = Cell { value: None, updated: true };
            i += 1;
        }
        proof {
            assert forall|p: (int, int)| self@.in_bounds(p.0, p.1) implies #[trigger] self@.cells[p] == old(
                self,
            )@.cleared().cells[p] by {
                lemma_flat_index_in_range(p.0, p.1, self.width as int, self.height as int);
            }
            assert(self@.cells =~= old(self)@.cleared().cells);
        }
    }

    /// Paints with a square brush of `radius` cells around `(row, column)`,
    /// as far as the brush lies on the board: a material lands on the empty
    /// cells under the brush, the eraser (`None`) on all of them. The brush
    /// writes unconditionally: a mark on a cell does not keep it from being
    /// painted, and each cell painted is marked.
    pub fn spawn(&mut self, row: usize, column: usize, radius: u8, material: Option<MaterialId>)
        requires
            old(self).wf(),
            material matches Some(id) ==> old(self).catalog().contains(id),
        ensures
            final(self).wf(),
            final(self).catalog() == old(self).catalog(),
            final(self)@ == old(self)@.painted(row as int, column as int, radius as int, material),
    {
        let ghost before = self@;
        let ghost catalog = self.catalog();
        let ghost goal = before.painted(row as int, column as int, radius as int, material);
        let reach: usize = radius as usize;
        let row_from: usize = if row >= reach {
            row - reach
        } else {
            0
        };
        let row_end: usize = if row >= self.height || reach >= self.height - row {
            self.height
        } else {
            row + reach + 1
        };
        let column_from: usize = if column >= reach {
            column - reach
        } else {
            0
        };
        let column_end: usize = if column >= self.width || reach >= self.width - column {
            self.width
        } else {
            column + reach + 1
        };
        let mut i: usize = row_from;
        while i < row_end
            invariant
                self.wf(),
                self.catalog() == catalog,
                self@.width == before.width,
                self@.height == before.height,
                self.height == before.height,
                self.width == before.width,
                material matches Some(id) ==> catalog.contains(id),
                row_from <= i,
                row_end <= self.height,
                column_end <= self.width,
                row_from == if row >= radius { row - radius } else { 0 },
                column_from == if column >= radius { column - radius } else { 0 },
                row_end == if row + radius + 1 <= self.height { row + radius + 1 } else { self.height as int },
                column_end == if column + radius + 1 <= self.width { column + radius + 1 } else { self.width as int },
                before.wf(),
                goal == before.painted(row as int, column as int, radius as int, material),
                forall|p: (int, int)|
                    before.in_bounds(p.0, p.1) ==> #[trigger] self@.cells[p] == if p.0 < i {
                        goal.cells[p]
                    } else {
                        before.cells[p]
                    },
            decreases row_end - i,
        {
            let mut j: usize = column_from;
            while j < column_end
                invariant
                    self.wf(),
                    self.catalog() == catalog,
                    self@.width == before.width,
                    self@.height == before.height,
                    self.height == before.height,
                    self.width == before.width,
                    material matches Some(id) ==> catalog.contains(id),
                    row_from <= i < row_end,
                    column_from <= j,
                    row_end <= self.height,
                    column_end <= self.width,
                    row_from == if row >= radius { row - radius } else { 0 },
                    column_from == if column >= radius { column - radius } else { 0 },
                    row_end == if row + radius + 1 <= self.height { row + radius + 1 } else { self.height as int },
                    column_end == if column + radius + 1 <= self.width { column + radius + 1 } else { self.width as int },
                    before.wf(),
                    goal == before.painted(row as int, column as int, radius as int, material),
                    forall|p: (int, int)|
                        before.in_bounds(p.0, p.1) ==> #[trigger] self@.cells[p] == if p.0 < i || (p.0 == i
                            && p.1 < j) {
                            goal.cells[p]
                        } else {
                            before.cells[p]
                        },
                decreases column_end - j,
            {
                if self.get(i, j).value.is_none() || material.is_none() {
                    self.overwrite(i, j, material);
                }
                j += 1;
            }
            i += 1;
        }
        assert(self@.cells =~= goal.cells);
    }

    /// Whether `(row, column)` can be seen and holds nothing.
    pub fn is_empty(&self, row: i128, column: i128) -> (empty: bool)
        requires
            self.wf(),
        ensures
            empty == self@.is_empty(row as int, column as int),
    {
        match self.status_at(row, column) {
            CellStatus::Empty => true,
            _ => false,
        }
    }

    /// Whether `(row, column)` can be seen and holds a material other than
    /// `relative_to`.
    pub fn is_occupied(&self, row: i128, column: i128, relative_to: MaterialId) -> (occupied: bool)
        requires
            self.wf(),
        ensures
            occupied == self@.is_occupied(row as int, column as int, relative_to),
    {
        let status = self.status_at(row, column);
        if let CellStatus::Occupied(material) = status {
            relative_to != material
        } else {
            false
        }
    }

    /// Whether the material `relative_to` at `(row, column)` may go to the
    /// shifted position.
    pub fn is_valid_shift(&self, row: usize, column: usize, shift: &IndexShift, relative_to: MaterialId) -> (valid:
        bool)
        requires
            self.wf(),
        ensures
            valid == self@.is_valid_shift(row as int, column as int, *shift, relative_to),
    {
        let status = self.status_at(row as i128 + shift.row as i128, column as i128 + shift.column as i128);
        match status {
            CellStatus::Inaccessible => false,
            CellStatus::Occupied(material) => material != relative_to,
            CellStatus::Empty => true,
        }
    }

    /// Whether the destination of `movement`, if it has one, is valid.
    pub fn is_valid_movement(&self, row: usize, column: usize, movement: &Movement, relative_to: MaterialId) -> (valid:
        bool)
        requires
            self.wf(),
        ensures
            valid == self@.is_valid_movement(row as int, column as int, *movement, relative_to),
    {
        match movement {
            Movement::Move(shift) => self.is_valid_shift(row, column, shift, relative_to),
            Movement::Copy(shift) => self.is_valid_shift(row, column, shift, relative_to),
            Movement::Stay => true,
        }
    }

    /// Whether `rule` fires for the material `value` at `(row, column)`.
    pub fn is_matching_rule(&self, rule: &MovementRule, row: usize, column: usize, value: MaterialId) -> (matching:
        bool)
        requires
            self.wf(),
        ensures
            matching == self@.rule_matches(*rule, row as int, column as int, value),
            self@.leaves_board(*rule, row as int, column as int) ==> !matching,
    {
        proof {
            if self@.leaves_board(*rule, row as int, column as int) {
                self@.lemma_off_board_rule_never_fires(*rule, row as int, column as int, value);
            }
        }
        let mut k: usize = 0;
        while k < rule.if_empty.len()
            invariant
                self.wf(),
                0 <= k <= rule.if_empty@.len(),
                forall|j: int|
                    0 <= j < k ==> self@.is_empty(
                        row + (#[trigger] rule.if_empty@[j]).row,
                        column + rule.if_empty@[j].column,
                    ),
            decreases rule.if_empty@.len() - k,
        {
            let shift = &rule.if_empty[k];
            if !self.is_empty(row as i128 + shift.row as i128, column as i128 + shift.column as i128) {
                return false;
            }
            k += 1;
        }
        let mut k: usize = 0;
        while k < rule.if_occupied.len()
            invariant
                self.wf(),
                0 <= k <= rule.if_occupied@.len(),
                forall|j: int|
                    0 <= j < k ==> self@.is_occupied(
                        row + (#[trigger] rule.if_occupied@[j]).row,
                        column + rule.if_occupied@[j].column,
                        value,
                    ),
            decreases rule.if_occupied@.len() - k,
        {
            let shift = &rule.if_occupied[k];
            if !self.is_occupied(row as i128 + shift.row as i128, column as i128 + shift.column as i128, value) {
                return false;
            }
            k += 1;
        }
        self.is_valid_movement(row, column, &rule.movement, value)
    }

    /// The movement that the material `value` at `(row, column)` makes:
    /// that of the first of its rules that fires, if any does.
    pub fn apply_rules(&self, row: usize, column: usize, value: MaterialId) -> (movement: Option<Movement>)
        requires
            self.wf(),
            self.catalog().contains(value),
        ensures
            movement == self@.first_match(self.catalog().rules_of(value), row as int, column as int, value),
            movement matches Some(m) ==> self@.is_valid_movement(row as int, column as int, m, value),
    {
        let rules = self.materials.get_rules(value);
        let mut i: usize = 0;
        while i < rules.len()
            invariant
                self.wf(),
                rules@ == self.catalog().rules_of(value),
                0 <= i <= rules@.len(),
                forall|k: int|
                    0 <= k < i ==> !self@.rule_matches(#[trigger] rules@[k], row as int, column as int, value),
            decreases rules@.len() - i,
        {
            if self.is_matching_rule(&rules[i], row, column, value) {
                proof {
                    self@.lemma_first_match_wins(rules@, i as int, row as int, column as int, value);
                }
                return Some(rules[i].movement);
            }
            i += 1;
        }
        proof {
            self@.lemma_no_match(rules@, row as int, column as int, value);
        }
        None
    }

    /// Lets the material `value` at `(row, column)` make `movement`,
    /// through guarded writes: a move empties `(row, column)` and fills the
    /// destination, a copy marks `(row, column)` and fills the destination,
    /// and a cell that carries the mark already is left as it is.
    pub fn move_cell(&mut self, row: usize, column: usize, value: MaterialId, movement: Movement)
        requires
            old(self).wf(),
            old(self).catalog().contains(value),
            old(self)@.in_bounds(row as int, column as int),
            match movement {
                Movement::Stay => true,
                Movement::Move(shift) => old(self)@.in_bounds(row + shift.row, column + shift.column),
                Movement::Copy(shift) => old(self)@.in_bounds(row + shift.row, column + shift.column),
            },
        ensures
            final(self).wf(),
            final(self).catalog() == old(self).catalog(),
            final(self)@ == old(self)@.commit(row as int, column as int, value, movement),
    {
        match movement {
            Movement::Stay => {},
            Movement::Move(shift) => {
                let to_row: usize = (row as i128 + shift.row as i128) as usize;
                let to_column: usize = (column as i128 + shift.column as i128) as usize;
                self.set(row, column, None);
                self.set(to_row, to_column, Some(value));
            },
            Movement::Copy(shift) => {
                let to_row: usize = (row as i128 + shift.row as i128) as usize;
                let to_column: usize = (column as i128 + shift.column as i128) as usize;
                self.mark(row, column);
                self.set(to_row, to_column, Some(value));
            },
        }
    }

    /// Runs one tick: visits the positions row by row, left to right, and
    /// lets the occupant of each cell that is not marked make the movement
    /// of the first of its rules that fires.
    pub fn step(&mut self)
        requires
            old(self).wf(),
        ensures
            final(self).wf(),
            final(self).catalog() == old(self).catalog(),
            final(self)@ == old(self)@.tick(old(self).catalog()),
            final(self)@.width == old(self)@.width,
            final(self)@.height == old(self)@.height,
            forall|p: (int, int)|
                old(self)@.in_bounds(p.0, p.1) && (#[trigger] old(self)@.cells[p]).updated
                    ==> final(self)@.cells[p] == old(self)@.cells[p],
            forall|p: (int, int)|
                old(self)@.in_bounds(p.0, p.1) && (#[trigger] final(self)@.cells[p]) != old(self)@.cells[p]
                    ==> final(self)@.cells[p].updated,
    {
        let ghost before = self@;
        let ghost catalog = self.catalog();
        proof {
            assert forall|p: (int, int)| before.in_bounds(p.0, p.1) implies (before.cells[p].updated
                ==> before.tick(catalog).cells[p] == before.cells[p]) && (before.tick(catalog).cells[p]
                != before.cells[p] ==> before.tick(catalog).cells[p].updated) by {
                before.lemma_tick_marks_changes(catalog, p);
            }
        }
        let mut row: usize = 0;
        while row < self.height
            invariant
                self.wf(),
                self.catalog() == catalog,
                self@.width == before.width,
                self@.height == before.height,
                self.height == before.height,
                0 <= row <= self.height,
                self@ == before.scan(catalog, row as nat, 0),
            decreases self.height - row,
        {
            let mut column: usize = 0;
            while column < self.width
                invariant
                    self.wf(),
                    self.catalog() == catalog,
                    self@.width == before.width,
                    self@.height == before.height,
                    self.height == before.height,
                    self.width == before.width,
                    0 <= row < self.height,
                    0 <= column <= self.width,
                    self@ == before.scan(catalog, row as nat, column as nat),
                decreases self.width - column,
            {
                let cell = *self.get(row, column);
                if !cell.updated {
                    if let Some(value) = cell.value {
                        assert(self.catalog().contains(value)) by {
                            assert(self@.cells[(row as int, column as int)].value == Some(value));
                        }
                        if let Some(movement) = self.apply_rules(row, column, value) {
                            self.move_cell(row, column, value, movement);
                        }
                    }
                }
                column += 1;
            }
            row += 1;
        }
    }

    /// Runs one frame: clears the marks of the frame before, lets the brush
    /// clear the board if that was asked for and paint around
    /// `(row, column)` if it is active, and then runs one tick.
    pub fn frame(&mut self, brush: &Brush, row: usize, column: usize)
        requires
            old(self).wf(),
            brush.active ==> brush.fits(old(self).catalog()),
        ensures
            final(self).wf(),
            final(self).catalog() == old(self).catalog(),
            final(self)@ == old(self)@.frame(old(self).catalog(), *brush, row as int, column as int),
    {
        self.reset();
        if brush.clear {
            self.clear();
        }
        if brush.active {
            self.spawn(row, column, brush.radius, brush.fill);
        }
        self.step();
    }
}

} // verus!
