//! What holds of every board and every tick.

use crate::game::Cell;
use crate::grid::Grid;
use crate::materials::{IndexShift, MaterialId, Materials, Movement, MovementRule};
use vstd::prelude::*;

verus! {

impl Grid {
    /// The first rule that fires decides: where `rules[i]` fires and no
    /// rule before it does, the movement is that of `rules[i]`, whatever
    /// the rules after it would do.
    pub proof fn lemma_first_match_wins(
        self,
        rules: Seq<MovementRule>,
        i: int,
        row: int,
        column: int,
        id: MaterialId,
    )
        requires
            self.is_first_match(rules, i, row, column, id),
        ensures
            self.first_match(rules, row, column, id) == Some(rules[i].movement),
            self.is_valid_movement(row, column, rules[i].movement, id),
    {
        let chosen: int = choose|k: int| self.is_first_match(rules, k, row, column, id);
        assert(self.is_first_match(rules, chosen, row, column, id));
        if chosen < i {
            assert(!self.rule_matches(rules[chosen], row, column, id));
        } else if i < chosen {
            assert(!self.rule_matches(rules[i], row, column, id));
        }
    }

    /// The movement of the first rule that fires is the one applied: where
    /// the tick comes to an unmarked cell that holds `id`, and `i` is the
    /// first of the rules of `id` that fires, the board after the visit is
    /// the board after the movement of that rule.
    pub proof fn lemma_visit_applies_first_match(
        self,
        catalog: Materials,
        i: int,
        row: int,
        column: int,
        id: MaterialId,
    )
        requires
            self.in_bounds(row, column),
            self.cell(row, column) == (Cell { value: Some(id), updated: false }),
            self.is_first_match(catalog.rules_of(id), i, row, column, id),
        ensures
            self.visit(catalog, row, column) == self.commit(
                row,
                column,
                id,
                catalog.rules_of(id)[i].movement,
            ),
    {
        self.lemma_first_match_wins(catalog.rules_of(id), i, row, column, id);
    }

    /// Where no rule fires, there is no movement.
    pub proof fn lemma_no_match(self, rules: Seq<MovementRule>, row: int, column: int, id: MaterialId)
        requires
            forall|k: int| 0 <= k < rules.len() ==> !self.rule_matches(#[trigger] rules[k], row, column, id),
        ensures
            self.first_match(rules, row, column, id) is None,
    {
        if exists|i: int| self.is_first_match(rules, i, row, column, id) {
            let i: int = choose|i: int| self.is_first_match(rules, i, row, column, id);
            assert(self.rule_matches(rules[i], row, column, id));
        }
    }

    /// A movement that the tick resolves comes from a rule that fired: the
    /// position is on the board, unmarked and occupied, and the
    /// destination is valid.
    pub proof fn lemma_resolved_is_valid(self, catalog: Materials, row: int, column: int)
        requires
            self.resolve(catalog, row, column) is Some,
        ensures
            self.in_bounds(row, column),
            !self.cell(row, column).updated,
            self.cell(row, column).value is Some,
            self.is_valid_movement(
                row,
                column,
                self.resolve(catalog, row, column)->Some_0,
                self.cell(row, column).value->Some_0,
            ),
    {
        let id = self.cell(row, column).value->Some_0;
        let rules = catalog.rules_of(id);
        let i: int = choose|i: int| self.is_first_match(rules, i, row, column, id);
        assert(self.is_first_match(rules, i, row, column, id));
    }

    /// What one visit does: it writes only cells that are on the board and
    /// unmarked, it marks each cell that it writes, and it leaves every
    /// other cell as it was. The board keeps its shape, and its occupants
    /// stay materials of the catalog.
    pub proof fn lemma_visit(self, catalog: Materials, row: int, column: int)
        requires
            self.wf(),
        ensures
            self.visit(catalog, row, column).wf(),
            self.visit(catalog, row, column).width == self.width,
            self.visit(catalog, row, column).height == self.height,
            self.known(catalog) ==> self.visit(catalog, row, column).known(catalog),
            forall|p: (int, int)| #[trigger]
                self.writes(catalog, row, column, p) ==> self.in_bounds(p.0, p.1)
                    && !self.cells[p].updated && self.visit(catalog, row, column).cells[p].updated,
            forall|p: (int, int)|
                !self.writes(catalog, row, column, p) ==> #[trigger] self.visit(
                    catalog,
                    row,
                    column,
                ).cells[p] == self.cells[p],
    {
        if self.resolve(catalog, row, column) is Some {
            self.lemma_resolved_is_valid(catalog, row, column);
        }
    }

    /// The tick never changes the shape of the board, and the occupants
    /// stay materials of the catalog.
    pub proof fn lemma_scan_shape(self, catalog: Materials, row: nat, column: nat)
        requires
            self.wf(),
        ensures
            self.scan(catalog, row, column).wf(),
            self.scan(catalog, row, column).width == self.width,
            self.scan(catalog, row, column).height == self.height,
            self.known(catalog) ==> self.scan(catalog, row, column).known(catalog),
        decreases row, column,
    {
        if column > 0 {
            self.lemma_scan_shape(catalog, row, (column - 1) as nat);
            self.scan(catalog, row, (column - 1) as nat).lemma_visit(catalog, row as int, column - 1);
        } else if row > 0 {
            self.lemma_scan_shape(catalog, (row - 1) as nat, self.width);
        }
    }

    /// A cell that carries the mark at some point of the tick is the same
    /// at every later point: it keeps the mark and what it holds until the
    /// tick ends.
    pub proof fn lemma_marks_persist(
        self,
        catalog: Materials,
        r1: nat,
        c1: nat,
        r2: nat,
        c2: nat,
        p: (int, int),
    )
        requires
            self.wf(),
            c1 <= self.width,
            c2 <= self.width,
            Self::before(r1 as int, c1 as int, r2 as int, c2 as int) || (r1 == r2 && c1 == c2),
            self.scan(catalog, r1, c1).cells[p].updated,
        ensures
            self.scan(catalog, r2, c2).cells[p] == self.scan(catalog, r1, c1).cells[p],
        decreases r2, c2,
    {
        if r1 == r2 && c1 == c2 {
        } else if c2 > 0 {
            self.lemma_marks_persist(catalog, r1, c1, r2, (c2 - 1) as nat, p);
            self.lemma_scan_shape(catalog, r2, (c2 - 1) as nat);
            self.scan(catalog, r2, (c2 - 1) as nat).lemma_visit(catalog, r2 as int, c2 - 1);
        } else {
            self.lemma_marks_persist(catalog, r1, c1, (r2 - 1) as nat, self.width, p);
        }
    }

    /// No cell is written twice in one tick: a position that the tick
    /// writes when it comes to `(r1, c1)` is written at no later position
    /// `(r2, c2)` of the same tick. The two positions that one visit writes
    /// are different ones too.
    pub proof fn lemma_written_at_most_once(
        self,
        catalog: Materials,
        r1: nat,
        c1: nat,
        r2: nat,
        c2: nat,
        p: (int, int),
    )
        requires
            self.wf(),
            self.in_bounds(r1 as int, c1 as int),
            self.in_bounds(r2 as int, c2 as int),
            Self::before(r1 as int, c1 as int, r2 as int, c2 as int),
            self.scan(catalog, r1, c1).writes(catalog, r1 as int, c1 as int, p),
        ensures
            !self.scan(catalog, r2, c2).writes(catalog, r2 as int, c2 as int, p),
            match self.scan(catalog, r1, c1).resolve(catalog, r1 as int, c1 as int) {
                Some(Movement::Move(shift)) => shift.row != 0 || shift.column != 0,
                Some(Movement::Copy(shift)) => shift.row != 0 || shift.column != 0,
                _ => true,
            },
    {
        let first = self.scan(catalog, r1, c1);
        let second = self.scan(catalog, r2, c2);
        self.lemma_scan_shape(catalog, r1, c1);
        self.lemma_scan_shape(catalog, r2, c2);
        first.lemma_resolved_is_valid(catalog, r1 as int, c1 as int);
        first.lemma_visit(catalog, r1 as int, c1 as int);
        assert(self.scan(catalog, r1, c1 + 1).cells[p].updated);
        self.lemma_marks_persist(catalog, r1, c1 + 1, r2, c2, p);
        second.lemma_visit(catalog, r2 as int, c2 as int);
    }

    /// A tick over a board on which nothing would move changes nothing:
    /// where every cell is marked, empty, matched by no rule or resolved to
    /// `Stay`, the board after the tick is the board before it.
    pub proof fn lemma_still_board(self, catalog: Materials)
        requires
            self.wf(),
            forall|r: int, c: int| self.in_bounds(r, c) ==> #[trigger] self.inert(catalog, r, c),
        ensures
            self.tick(catalog) == self,
    {
        self.lemma_still_scan(catalog, self.height, 0);
    }

    /// On a board on which nothing would move, the tick has changed nothing
    /// by the time it comes to any position.
    pub proof fn lemma_still_scan(self, catalog: Materials, row: nat, column: nat)
        requires
            self.wf(),
            forall|r: int, c: int| self.in_bounds(r, c) ==> #[trigger] self.inert(catalog, r, c),
        ensures
            self.scan(catalog, row, column) == self,
        decreases row, column,
    {
        if column > 0 {
            self.lemma_still_scan(catalog, row, (column - 1) as nat);
            if self.in_bounds(row as int, column - 1) {
                assert(self.inert(catalog, row as int, column - 1));
            }
        } else if row > 0 {
            self.lemma_still_scan(catalog, (row - 1) as nat, self.width);
        }
    }

    /// A tick in which one cell acts: where nothing would move at the
    /// positions before `(row, column)`, and nothing would move at the
    /// positions after it once `(row, column)` was visited, the tick does
    /// what that one visit does.
    pub proof fn lemma_single_visit(self, catalog: Materials, row: int, column: int)
        requires
            self.wf(),
            self.in_bounds(row, column),
            forall|r: int, c: int|
                self.in_bounds(r, c) && Self::before(r, c, row, column) ==> #[trigger] self.inert(
                    catalog,
                    r,
                    c,
                ),
            forall|r: int, c: int|
                self.in_bounds(r, c) && Self::before(row, column, r, c) ==> #[trigger] self.visit(
                    catalog,
                    row,
                    column,
                ).inert(catalog, r, c),
        ensures
            self.tick(catalog) == self.visit(catalog, row, column),
    {
        self.lemma_single_visit_scan(catalog, row, column, self.height, 0);
    }

    /// The state of a tick in which one cell acts, at each of its points.
    pub proof fn lemma_single_visit_scan(self, catalog: Materials, row: int, column: int, r: nat, c: nat)
        requires
            self.wf(),
            self.in_bounds(row, column),
            c <= self.width,
            forall|r: int, c: int|
                self.in_bounds(r, c) && Self::before(r, c, row, column) ==> #[trigger] self.inert(
                    catalog,
                    r,
                    c,
                ),
            forall|r: int, c: int|
                self.in_bounds(r, c) && Self::before(row, column, r, c) ==> #[trigger] self.visit(
                    catalog,
                    row,
                    column,
                ).inert(catalog, r, c),
        ensures
            self.scan(catalog, r, c) == if Self::before(row, column, r as int, c as int) {
                self.visit(catalog, row, column)
            } else {
                self
            },
        decreases r, c,
    {
        let acted = self.visit(catalog, row, column);
        self.lemma_visit(catalog, row, column);
        if c > 0 {
            self.lemma_single_visit_scan(catalog, row, column, r, (c - 1) as nat);
            if Self::before(r as int, c - 1, row, column) {
                if self.in_bounds(r as int, c - 1) {
                    assert(self.inert(catalog, r as int, c - 1));
                }
            } else if Self::before(row, column, r as int, c - 1) {
                if acted.in_bounds(r as int, c - 1) {
                    assert(acted.inert(catalog, r as int, c - 1));
                }
            }
        } else if r > 0 {
            self.lemma_single_visit_scan(catalog, row, column, (r - 1) as nat, self.width);
        }
    }

    /// What a tick leaves behind: a cell that carried the mark before the
    /// tick is untouched, and a cell that differs after the tick carries
    /// the mark.
    pub proof fn lemma_tick_marks_changes(self, catalog: Materials, p: (int, int))
        requires
            self.wf(),
        ensures
            self.cells[p].updated ==> self.tick(catalog).cells[p] == self.cells[p],
            self.tick(catalog).cells[p] != self.cells[p] ==> self.tick(catalog).cells[p].updated,
    {
        self.lemma_scan_marks_changes(catalog, self.height, 0, p);
    }

    /// A cell that differs at some point of the tick from what it was
    /// before the tick carries the mark.
    pub proof fn lemma_scan_marks_changes(self, catalog: Materials, row: nat, column: nat, p: (int, int))
        requires
            self.wf(),
        ensures
            self.cells[p].updated ==> self.scan(catalog, row, column).cells[p] == self.cells[p],
            self.scan(catalog, row, column).cells[p] != self.cells[p] ==> self.scan(
                catalog,
                row,
                column,
            ).cells[p].updated,
        decreases row, column,
    {
        if column > 0 {
            self.lemma_scan_marks_changes(catalog, row, (column - 1) as nat, p);
            self.lemma_scan_shape(catalog, row, (column - 1) as nat);
            self.scan(catalog, row, (column - 1) as nat).lemma_visit(catalog, row as int, column - 1);
        } else if row > 0 {
            self.lemma_scan_marks_changes(catalog, (row - 1) as nat, self.width, p);
        }
    }

    /// What the tick writes is final: a cell that the tick writes when it
    /// comes to `(row, column)` is, after the tick, what that visit made of
    /// it.
    pub proof fn lemma_written_cells_keep(self, catalog: Materials, row: nat, column: nat, p: (int, int))
        requires
            self.wf(),
            self.in_bounds(row as int, column as int),
            self.scan(catalog, row, column).writes(catalog, row as int, column as int, p),
        ensures
            self.tick(catalog).cells[p] == self.scan(catalog, row, column).visit(
                catalog,
                row as int,
                column as int,
            ).cells[p],
            self.tick(catalog).cells[p].updated,
    {
        self.lemma_scan_shape(catalog, row, column);
        self.scan(catalog, row, column).lemma_visit(catalog, row as int, column as int);
        assert(self.scan(catalog, row, column + 1).cells[p].updated);
        self.lemma_marks_persist(catalog, row, column + 1, self.height, 0, p);
    }

    /// A rule that reaches off the board never fires: where one of its
    /// shifts points outside the board from `(row, column)`, the rule does
    /// not match there, whatever the board holds.
    pub proof fn lemma_off_board_rule_never_fires(self, rule: MovementRule, row: int, column: int, id: MaterialId)
        requires
            self.leaves_board(rule, row, column),
        ensures
            !self.rule_matches(rule, row, column, id),
    {
    }

    /// A cell whose rules all reach off the board does not move: the tick
    /// resolves no movement for it and leaves the board as it is when it
    /// comes to the cell.
    pub proof fn lemma_off_board_rules_hold_still(self, catalog: Materials, row: int, column: int, id: MaterialId)
        requires
            self.cell(row, column).value == Some(id),
            forall|k: int|
                0 <= k < catalog.rules_of(id).len() ==> self.leaves_board(
                    #[trigger] catalog.rules_of(id)[k],
                    row,
                    column,
                ),
        ensures
            self.resolve(catalog, row, column) is None,
            self.visit(catalog, row, column) == self,
    {
        let rules = catalog.rules_of(id);
        assert forall|k: int| 0 <= k < rules.len() implies !self.rule_matches(
            #[trigger] rules[k],
            row,
            column,
            id,
        ) by {
            self.lemma_off_board_rule_never_fires(rules[k], row, column, id);
        }
        self.lemma_no_match(rules, row, column, id);
    }

    /// A lone occupant moves and nothing is lost: on a board whose only
    /// occupant is the material `id` at `(row, column)`, where the first
    /// rule of `id` is `Move(shift)` on condition that the shifted cell is
    /// empty, and the shifted cell is on the board and unmarked like the
    /// occupant's own, one tick empties `(row, column)` and puts `id` on the
    /// shifted cell. Every other cell stays as it was, so the board holds
    /// one occupant before the tick and one after it.
    pub proof fn lemma_lone_move(self, catalog: Materials, row: int, column: int, id: MaterialId, shift: IndexShift)
        requires
            self.wf(),
            self.in_bounds(row, column),
            self.in_bounds(row + shift.row, column + shift.column),
            self.cell(row, column) == (Cell { value: Some(id), updated: false }),
            self.cell(row + shift.row, column + shift.column) == (Cell { value: None, updated: false }),
            forall|p: (int, int)|
                self.in_bounds(p.0, p.1) && p != (row, column) ==> (#[trigger] self.cells[p]).value is None,
            catalog.rules_of(id).len() >= 1,
            catalog.rules_of(id)[0].movement == Movement::Move(shift),
            catalog.rules_of(id)[0].if_empty@ == seq![shift],
            catalog.rules_of(id)[0].if_occupied@.len() == 0,
        ensures
            self.tick(catalog) == self.write(row, column, None).write(
                row + shift.row,
                column + shift.column,
                Some(id),
            ),
            self.tick(catalog).cell(row, column).value is None,
            self.tick(catalog).cell(row + shift.row, column + shift.column).value == Some(id),
            self.occupied() == set![(row, column)],
            self.tick(catalog).occupied() == set![(row + shift.row, column + shift.column)],
            self.tick(catalog).occupied().len() == self.occupied().len(),
    {
        let rules = catalog.rules_of(id);
        let to = (row + shift.row, column + shift.column);
        assert(self.is_first_match(rules, 0, row, column, id));
        self.lemma_first_match_wins(rules, 0, row, column, id);
        self.lemma_single_visit(catalog, row, column);
        assert(self.occupied() =~= set![(row, column)]);
        assert(self.tick(catalog).occupied() =~= set![to]);
    }

    /// A copy spreads and its source stays: on a board whose only
    /// occupants are the material `id` at `(row, column)` and another
    /// material at the shifted cell, both unmarked, where the first rule of
    /// `id` is `Copy(shift)` on condition that the shifted cell is occupied,
    /// and the other material would not move if the tick came to it first,
    /// one tick leaves `id` at `(row, column)` and puts `id` on the shifted
    /// cell too. One more cell holds `id` after the tick than before it.
    pub proof fn lemma_copy_spreads(
        self,
        catalog: Materials,
        row: int,
        column: int,
        id: MaterialId,
        other: MaterialId,
        shift: IndexShift,
    )
        requires
            self.wf(),
            self.in_bounds(row, column),
            self.in_bounds(row + shift.row, column + shift.column),
            other != id,
            self.cell(row, column) == (Cell { value: Some(id), updated: false }),
            self.cell(row + shift.row, column + shift.column) == (Cell { value: Some(other), updated: false }),
            forall|p: (int, int)|
                self.in_bounds(p.0, p.1) && p != (row, column) && p != (row + shift.row, column + shift.column)
                    ==> (#[trigger] self.cells[p]).value is None,
            catalog.rules_of(id).len() >= 1,
            catalog.rules_of(id)[0].movement == Movement::Copy(shift),
            catalog.rules_of(id)[0].if_occupied@ == seq![shift],
            catalog.rules_of(id)[0].if_empty@.len() == 0,
            Self::before(row + shift.row, column + shift.column, row, column) ==> self.inert(
                catalog,
                row + shift.row,
                column + shift.column,
            ),
        ensures
            self.tick(catalog) == self.mark(row, column).write(
                row + shift.row,
                column + shift.column,
                Some(id),
            ),
            self.tick(catalog).cell(row, column).value == Some(id),
            self.tick(catalog).cell(row + shift.row, column + shift.column).value == Some(id),
            self.holding(id) == set![(row, column)],
            self.tick(catalog).holding(id) == set![(row, column), (row + shift.row, column + shift.column)],
            self.tick(catalog).holding(id).len() == self.holding(id).len() + 1,
    {
        let rules = catalog.rules_of(id);
        let to = (row + shift.row, column + shift.column);
        assert(self.is_first_match(rules, 0, row, column, id));
        self.lemma_first_match_wins(rules, 0, row, column, id);
        self.lemma_single_visit(catalog, row, column);
        assert(self.holding(id) =~= set![(row, column)]);
        assert(self.tick(catalog).holding(id) =~= set![(row, column), to]);
    }

    /// A lone occupant grows by one cell: on a board whose only occupant is
    /// the material `id` at `(row, column)`, where the first rule of `id` is
    /// `Copy(shift)` on condition that the shifted cell is empty, and the
    /// shifted cell is on the board and unmarked like the occupant's own,
    /// one tick leaves `id` at `(row, column)` and puts `id` on the shifted
    /// cell. The board holds one occupant before the tick and two after it.
    pub proof fn lemma_lone_copy(self, catalog: Materials, row: int, column: int, id: MaterialId, shift: IndexShift)
        requires
            self.wf(),
            self.in_bounds(row, column),
            self.in_bounds(row + shift.row, column + shift.column),
            self.cell(row, column) == (Cell { value: Some(id), updated: false }),
            self.cell(row + shift.row, column + shift.column) == (Cell { value: None, updated: false }),
            forall|p: (int, int)|
                self.in_bounds(p.0, p.1) && p != (row, column) ==> (#[trigger] self.cells[p]).value is None,
            catalog.rules_of(id).len() >= 1,
            catalog.rules_of(id)[0].movement == Movement::Copy(shift),
            catalog.rules_of(id)[0].if_empty@ == seq![shift],
            catalog.rules_of(id)[0].if_occupied@.len() == 0,
        ensures
            self.tick(catalog) == self.mark(row, column).write(
                row + shift.row,
                column + shift.column,
                Some(id),
            ),
            self.tick(catalog).cell(row, column).value == Some(id),
            self.tick(catalog).cell(row + shift.row, column + shift.column).value == Some(id),
            self.occupied() == set![(row, column)],
            self.tick(catalog).occupied() == set![(row, column), (row + shift.row, column + shift.column)],
            self.tick(catalog).occupied().len() == self.occupied().len() + 1,
    {
        let rules = catalog.rules_of(id);
        let to = (row + shift.row, column + shift.column);
        assert(self.is_first_match(rules, 0, row, column, id));
        self.lemma_first_match_wins(rules, 0, row, column, id);
        self.lemma_single_visit(catalog, row, column);
        assert(self.occupied() =~= set![(row, column)]);
        assert(self.tick(catalog).occupied() =~= set![(row, column), to]);
    }

    /// The tick has come to finitely many positions at each of its points.
    pub proof fn lemma_reached_finite(self, row: nat, column: nat)
        ensures
            self.reached(row as int, column as int).finite(),
        decreases row, column,
    {
        let reached = self.reached(row as int, column as int);
        if column > 0 {
            self.lemma_reached_finite(row, (column - 1) as nat);
            let earlier = self.reached(row as int, column - 1);
            if self.in_bounds(row as int, column - 1) {
                assert(reached =~= earlier.insert((row as int, column - 1)));
            } else {
                assert(reached =~= earlier);
            }
        } else if row > 0 {
            self.lemma_reached_finite((row - 1) as nat, self.width);
            assert(reached =~= self.reached(row - 1, self.width as int));
        } else {
            assert(reached =~= Set::empty());
        }
    }

    /// A board holds finitely many occupants.
    pub proof fn lemma_occupied_finite(self)
        ensures
            self.occupied().finite(),
    {
        self.lemma_reached_finite(self.height, 0);
        assert(self.occupied().subset_of(self.reached(self.height as int, 0)));
        vstd::set_lib::lemma_set_subset_finite(self.reached(self.height as int, 0), self.occupied());
    }

    /// One visit under conserving rules keeps the number of occupants: the
    /// occupant stays, or it leaves its cell for an empty one.
    pub proof fn lemma_visit_conserves(self, catalog: Materials, row: int, column: int)
        requires
            self.wf(),
            Self::conserving(catalog),
        ensures
            self.visit(catalog, row, column).occupied().len() == self.occupied().len(),
    {
        self.lemma_occupied_finite();
        if self.resolve(catalog, row, column) is Some {
            let id = self.cell(row, column).value->Some_0;
            let rules = catalog.rules_of(id);
            let i: int = choose|i: int| self.is_first_match(rules, i, row, column, id);
            assert(self.is_first_match(rules, i, row, column, id));
            assert(Self::conserves(rules[i]));
            match rules[i].movement {
                Movement::Move(shift) => {
                    let to = (row + shift.row, column + shift.column);
                    let k: int = choose|k: int| 0 <= k < rules[i].if_empty@.len() && rules[i].if_empty@[k] == shift;
                    assert(self.is_empty(row + rules[i].if_empty@[k].row, column + rules[i].if_empty@[k].column));
                    assert(self.visit(catalog, row, column).occupied() =~= self.occupied().remove(
                        (row, column),
                    ).insert(to));
                },
                _ => {},
            }
        }
    }

    /// Under conserving rules the tick keeps the number of occupants at
    /// each of its points.
    pub proof fn lemma_scan_conserves(self, catalog: Materials, row: nat, column: nat)
        requires
            self.wf(),
            Self::conserving(catalog),
        ensures
            self.scan(catalog, row, column).occupied().len() == self.occupied().len(),
        decreases row, column,
    {
        if column > 0 {
            self.lemma_scan_conserves(catalog, row, (column - 1) as nat);
            self.lemma_scan_shape(catalog, row, (column - 1) as nat);
            self.scan(catalog, row, (column - 1) as nat).lemma_visit_conserves(catalog, row as int, column - 1);
        } else if row > 0 {
            self.lemma_scan_conserves(catalog, (row - 1) as nat, self.width);
        }
    }

    /// Moves conserve the occupants: where every rule of the catalog lets
    /// its occupant stay or moves it to a cell that the rule requires to be
    /// empty, a board holds as many occupants after a tick as before it.
    pub proof fn lemma_tick_conserves(self, catalog: Materials)
        requires
            self.wf(),
            Self::conserving(catalog),
        ensures
            self.tick(catalog).occupied().len() == self.occupied().len(),
    {
        self.lemma_scan_conserves(catalog, self.height, 0);
    }
}

} // verus!
