//! The board as a mathematical object, and what one tick does to it.
//!
//! A [`Grid`] maps each position `(row, column)` of a `height` by `width`
//! board to its cell. A tick visits the positions row by row, left to
//! right, and lets the occupant of each fresh cell make the movement of
//! the first of its material's rules that matches.

use crate::brush::Brush;
use crate::game::{Cell, CellStatus};
use crate::materials::{IndexShift, MaterialId, Materials, Movement, MovementRule};
use vstd::prelude::*;

verus! {

/// The board: its dimensions and the cell at each position.
pub struct Grid {
    pub width: nat,
    pub height: nat,
    pub cells: Map<(int, int), Cell>,
}

impl Grid {
    /// `(row, column)` is a position of the board. Negative and over-range
    /// coordinates never are.
    pub open spec fn in_bounds(self, row: int, column: int) -> bool {
        0 <= row < self.height && 0 <= column < self.width
    }

    /// The board has a cell at each of its positions and nowhere else.
    pub open spec fn wf(self) -> bool {
        forall|p: (int, int)| #[trigger] self.cells.dom().contains(p) <==> self.in_bounds(p.0, p.1)
    }

    /// The cell at `(row, column)`.
    pub open spec fn cell(self, row: int, column: int) -> Cell {
        self.cells[(row, column)]
    }

    /// Every occupant on the board is a material of `catalog`.
    pub open spec fn known(self, catalog: Materials) -> bool {
        forall|p: (int, int)|
            self.in_bounds(p.0, p.1) ==> match (#[trigger] self.cells[p]).value {
                Some(id) => catalog.contains(id),
                None => true,
            }
    }

    /// No cell carries the mark of the running tick.
    pub open spec fn fresh(self) -> bool {
        forall|p: (int, int)| self.in_bounds(p.0, p.1) ==> !(#[trigger] self.cells[p]).updated
    }

    /// The positions that hold a material.
    pub open spec fn occupied(self) -> Set<(int, int)> {
        Set::new(|p: (int, int)| self.in_bounds(p.0, p.1) && self.cells[p].value is Some)
    }

    /// The positions that the tick has come to when it is about to come to
    /// `(row, column)`.
    pub open spec fn reached(self, row: int, column: int) -> Set<(int, int)> {
        Set::new(|p: (int, int)| self.in_bounds(p.0, p.1) && Self::before(p.0, p.1, row, column))
    }

    /// The positions that hold the material `id`.
    pub open spec fn holding(self, id: MaterialId) -> Set<(int, int)> {
        Set::new(|p: (int, int)| self.in_bounds(p.0, p.1) && self.cells[p].value == Some(id))
    }

    /// How a rule sees `(row, column)`: off the board or already written in
    /// this tick, the position is inaccessible.
    pub open spec fn status(self, row: int, column: int) -> CellStatus {
        if !self.in_bounds(row, column) || self.cell(row, column).updated {
            CellStatus::Inaccessible
        } else {
            match self.cell(row, column).value {
                Some(id) => CellStatus::Occupied(id),
                None => CellStatus::Empty,
            }
        }
    }

    /// The position can be seen and holds nothing.
    pub open spec fn is_empty(self, row: int, column: int) -> bool {
        self.status(row, column) == CellStatus::Empty
    }

    /// The position can be seen and holds a material other than
    /// `relative_to`.
    pub open spec fn is_occupied(self, row: int, column: int, relative_to: MaterialId) -> bool {
        match self.status(row, column) {
            CellStatus::Occupied(id) => id != relative_to,
            _ => false,
        }
    }

    /// A material `relative_to` at `(row, column)` may go to the shifted
    /// position: it can be seen and does not hold the same material.
    pub open spec fn is_valid_shift(
        self,
        row: int,
        column: int,
        shift: IndexShift,
        relative_to: MaterialId,
    ) -> bool {
        let status = self.status(row + shift.row, column + shift.column);
        status != CellStatus::Inaccessible && status != CellStatus::Occupied(relative_to)
    }

    /// The destination of `movement`, if it has one, is valid.
    pub open spec fn is_valid_movement(
        self,
        row: int,
        column: int,
        movement: Movement,
        relative_to: MaterialId,
    ) -> bool {
        match movement {
            Movement::Move(shift) => self.is_valid_shift(row, column, shift, relative_to),
            Movement::Copy(shift) => self.is_valid_shift(row, column, shift, relative_to),
            Movement::Stay => true,
        }
    }

    /// `rule` fires for the material `id` at `(row, column)`.
    pub open spec fn rule_matches(self, rule: MovementRule, row: int, column: int, id: MaterialId) -> bool {
        &&& forall|k: int|
            0 <= k < rule.if_empty@.len() ==> self.is_empty(
                row + (#[trigger] rule.if_empty@[k]).row,
                column + rule.if_empty@[k].column,
            )
        &&& forall|k: int|
            0 <= k < rule.if_occupied@.len() ==> self.is_occupied(
                row + (#[trigger] rule.if_occupied@[k]).row,
                column + rule.if_occupied@[k].column,
                id,
            )
        &&& self.is_valid_movement(row, column, rule.movement, id)
    }

    /// From `(row, column)`, one of the shifts of `rule` points off the
    /// board: one that must be empty, one that must be occupied, or the
    /// destination of the movement.
    pub open spec fn leaves_board(self, rule: MovementRule, row: int, column: int) -> bool {
        ||| exists|k: int|
            0 <= k < rule.if_empty@.len() && !self.in_bounds(
                row + (#[trigger] rule.if_empty@[k]).row,
                column + rule.if_empty@[k].column,
            )
        ||| exists|k: int|
            0 <= k < rule.if_occupied@.len() && !self.in_bounds(
                row + (#[trigger] rule.if_occupied@[k]).row,
                column + rule.if_occupied@[k].column,
            )
        ||| match rule.movement {
            Movement::Move(shift) => !self.in_bounds(row + shift.row, column + shift.column),
            Movement::Copy(shift) => !self.in_bounds(row + shift.row, column + shift.column),
            Movement::Stay => false,
        }
    }

    /// `rule` loses no occupant and adds none: it lets the occupant stay,
    /// or moves it to a cell that the rule itself requires to be empty.
    pub open spec fn conserves(rule: MovementRule) -> bool {
        match rule.movement {
            Movement::Stay => true,
            Movement::Move(shift) => rule.if_empty@.contains(shift),
            Movement::Copy(_) => false,
        }
    }

    /// Every rule of every material conserves the occupants.
    pub open spec fn conserving(catalog: Materials) -> bool {
        forall|id: MaterialId, k: int|
            0 <= k < catalog.rules_of(id).len() ==> Self::conserves(#[trigger] catalog.rules_of(id)[k])
    }

    /// `rules[i]` fires and no rule before it does.
    pub open spec fn is_first_match(
        self,
        rules: Seq<MovementRule>,
        i: int,
        row: int,
        column: int,
        id: MaterialId,
    ) -> bool {
        &&& 0 <= i < rules.len()
        &&& self.rule_matches(rules[i], row, column, id)
        &&& forall|k: int| 0 <= k < i ==> !self.rule_matches(#[trigger] rules[k], row, column, id)
    }

    /// The movement of the first rule that fires, if any does.
    pub open spec fn first_match(
        self,
        rules: Seq<MovementRule>,
        row: int,
        column: int,
        id: MaterialId,
    ) -> Option<Movement> {
        if exists|i: int| self.is_first_match(rules, i, row, column, id) {
            Some(rules[choose|i: int| self.is_first_match(rules, i, row, column, id)].movement)
        } else {
            None
        }
    }

    /// The board with `cell` at `(row, column)`.
    pub open spec fn put(self, row: int, column: int, cell: Cell) -> Grid {
        Grid { cells: self.cells.insert((row, column), cell), ..self }
    }

    /// The board after `value` was written to `(row, column)`: the cell
    /// holds it and carries the mark.
    pub open spec fn write(self, row: int, column: int, value: Option<MaterialId>) -> Grid {
        self.put(row, column, Cell { value, updated: true })
    }

    /// The board after a guarded write of `value` to `(row, column)`: a
    /// cell that carries the mark already is left as it is, and so is the
    /// whole board; an unmarked cell is written.
    pub open spec fn write_once(self, row: int, column: int, value: Option<MaterialId>) -> Grid {
        if self.cell(row, column).updated {
            self
        } else {
            self.write(row, column, value)
        }
    }

    /// The board after `(row, column)` was marked: the cell keeps its
    /// occupant.
    pub open spec fn mark(self, row: int, column: int) -> Grid {
        self.write(row, column, self.cell(row, column).value)
    }

    /// The board after the material `id` at `(row, column)` made
    /// `movement`. Both writes of a movement are guarded: a move empties
    /// its own cell and fills the destination, a copy marks its own cell
    /// and fills the destination, and a cell that carries the mark already
    /// is left as it is.
    pub open spec fn commit(self, row: int, column: int, id: MaterialId, movement: Movement) -> Grid {
        match movement {
            Movement::Stay => self,
            Movement::Move(shift) => self.write_once(row, column, None).write_once(
                row + shift.row,
                column + shift.column,
                Some(id),
            ),
            Movement::Copy(shift) => self.mark(row, column).write_once(
                row + shift.row,
                column + shift.column,
                Some(id),
            ),
        }
    }

    /// The movement that the occupant of `(row, column)` makes when the
    /// tick comes to it: none where the position is off the board, marked
    /// or empty, or where no rule fires.
    pub open spec fn resolve(self, catalog: Materials, row: int, column: int) -> Option<Movement> {
        if !self.in_bounds(row, column) || self.cell(row, column).updated {
            None
        } else {
            match self.cell(row, column).value {
                Some(id) => self.first_match(catalog.rules_of(id), row, column, id),
                None => None,
            }
        }
    }

    /// The board after the tick came to `(row, column)`.
    pub open spec fn visit(self, catalog: Materials, row: int, column: int) -> Grid {
        match self.resolve(catalog, row, column) {
            Some(movement) => self.commit(
                row,
                column,
                self.cell(row, column).value->Some_0,
                movement,
            ),
            None => self,
        }
    }

    /// The tick writes `p` when it comes to `(row, column)`: `p` is the
    /// position itself or the destination, and the occupant moves or
    /// copies itself.
    pub open spec fn writes(self, catalog: Materials, row: int, column: int, p: (int, int)) -> bool {
        match self.resolve(catalog, row, column) {
            Some(Movement::Move(shift)) => p == (row, column) || p == (
                row + shift.row,
                column + shift.column,
            ),
            Some(Movement::Copy(shift)) => p == (row, column) || p == (
                row + shift.row,
                column + shift.column,
            ),
            _ => false,
        }
    }

    /// The occupant of `(row, column)` would not change the board if the
    /// tick came to it now.
    pub open spec fn inert(self, catalog: Materials, row: int, column: int) -> bool {
        match self.resolve(catalog, row, column) {
            Some(movement) => movement == Movement::Stay,
            None => true,
        }
    }

    /// The tick comes to `(r1, c1)` before it comes to `(r2, c2)`.
    pub open spec fn before(r1: int, c1: int, r2: int, c2: int) -> bool {
        r1 < r2 || (r1 == r2 && c1 < c2)
    }

    /// The board when the tick is about to come to `(row, column)`: every
    /// position of an earlier row, and every earlier position of this row,
    /// has been visited in order.
    pub open spec fn scan(self, catalog: Materials, row: nat, column: nat) -> Grid
        decreases row, column,
    {
        if column > 0 {
            self.scan(catalog, row, (column - 1) as nat).visit(catalog, row as int, column - 1)
        } else if row > 0 {
            self.scan(catalog, (row - 1) as nat, self.width)
        } else {
            self
        }
    }

    /// The board after one tick.
    pub open spec fn tick(self, catalog: Materials) -> Grid {
        self.scan(catalog, self.height, 0)
    }

    /// The board with every mark cleared.
    pub open spec fn unmarked(self) -> Grid {
        Grid {
            cells: Map::new(
                |p: (int, int)| self.cells.dom().contains(p),
                |p: (int, int)| Cell { value: self.cells[p].value, updated: false },
            ),
            ..self
        }
    }

    /// The board with every cell emptied and marked.
    pub open spec fn cleared(self) -> Grid {
        Grid {
            cells: Map::new(
                |p: (int, int)| self.cells.dom().contains(p),
                |p: (int, int)| Cell { value: None, updated: true },
            ),
            ..self
        }
    }

    /// `p` lies within `radius` rows and columns of `(row, column)`.
    pub open spec fn under_brush(p: (int, int), row: int, column: int, radius: int) -> bool {
        row - radius <= p.0 <= row + radius && column - radius <= p.1 <= column + radius
    }

    /// The board after a square brush around `(row, column)` painted
    /// `value`: a material lands on the empty cells under the brush, the
    /// eraser (`None`) on all of them.
    pub open spec fn painted(self, row: int, column: int, radius: int, value: Option<MaterialId>) -> Grid {
        Grid {
            cells: Map::new(
                |p: (int, int)| self.cells.dom().contains(p),
                |p: (int, int)|
                    if Self::under_brush(p, row, column, radius) && (self.cells[p].value is None
                        || value is None) {
                        Cell { value, updated: true }
                    } else {
                        self.cells[p]
                    },
            ),
            ..self
        }
    }

    /// The board after one frame: the marks of the frame before are
    /// cleared, the brush clears the board if that was asked for, paints
    /// around `(row, column)` if it is active, and then one tick runs.
    pub open spec fn frame(self, catalog: Materials, brush: Brush, row: int, column: int) -> Grid {
        let unmarked = self.unmarked();
        let cleared = if brush.clear {
            unmarked.cleared()
        } else {
            unmarked
        };
        let painted = if brush.active {
            cleared.painted(row, column, brush.radius as int, brush.fill)
        } else {
            cleared
        };
        painted.tick(catalog)
    }
}

} // verus!
