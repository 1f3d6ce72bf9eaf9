//! Gravity: what dropping pieces into columns maintains, and when a column
//! takes no more.

use crate::grid::{ElemError, GridView};
use crate::position::Position;
use vstd::prelude::*;

verus! {

impl GridView {
    /// Whether the occupied rows of `column` are exactly the rows below `level`.
    pub open spec fn filled_below(self, column: u32, level: u32) -> bool {
        forall|row: u32| #[trigger] self.occupied(column, row) <==> row < level
    }

    /// Gravity in one column: its pieces form a stack that stands on the
    /// bottom row, without a gap, and does not reach beyond the top row.
    pub open spec fn column_settled(self, column: u32) -> bool {
        exists|level: u32| level <= self.height && #[trigger] self.filled_below(column, level)
    }

    /// Whether every piece lies inside the grid.
    pub open spec fn in_bounds(self) -> bool {
        forall|pos: Position| #[trigger]
            self.cells.contains_key(pos) ==> pos.x < self.width && pos.y < self.height
    }

    /// What placement maintains: every piece lies inside the grid, and
    /// gravity holds in every column.
    pub open spec fn well_formed(self) -> bool {
        &&& self.in_bounds()
        &&& forall|column: u32| #[trigger] self.column_settled(column)
    }

    /// The grid after the pieces of `drops`, each a column and a piece type,
    /// were dropped one after the other; rejected drops change nothing.
    pub open spec fn placed_all(self, drops: Seq<(u32, u32)>) -> GridView
        decreases drops.len(),
    {
        if drops.len() == 0 {
            self
        } else {
            self.placed_all(drops.drop_last()).placed(drops.last().0, drops.last().1)
        }
    }

    /// How many of `drops` came to rest in `column`.
    pub open spec fn placements_in(self, drops: Seq<(u32, u32)>, column: u32) -> nat
        decreases drops.len(),
    {
        if drops.len() == 0 {
            0
        } else {
            let earlier = self.placements_in(drops.drop_last(), column);
            if drops.last().0 == column && self.placed_all(drops.drop_last()).place_result(
                column,
            ).is_ok() {
                earlier + 1
            } else {
                earlier
            }
        }
    }

    /// In a settled column the landing row is the height of the stack.
    pub proof fn lemma_settled_level(self, column: u32, level: u32)
        requires
            level <= self.height,
            self.filled_below(column, level),
        ensures
            self.landing_row(column) == level,
    {
        self.lemma_landing_row(column);
        let landing = self.landing_row(column);
        if landing < level {
            assert(self.occupied(column, landing));
        }
        if level < landing {
            assert(self.occupied(column, level));
        }
    }

    /// An empty grid is well formed.
    pub proof fn lemma_empty_well_formed(width: u32, height: u32)
        ensures
            GridView::empty(width, height).well_formed(),
    {
        let grid = GridView::empty(width, height);
        assert forall|column: u32| #[trigger] grid.column_settled(column) by {
            assert forall|row: u32| #[trigger] grid.occupied(column, row) <==> row < 0 by {}
            assert(grid.filled_below(column, 0));
        }
    }

    /// A drop keeps the dimensions, and touches no cell but the one in which
    /// the piece comes to rest.
    pub proof fn lemma_placed_frame(self, column: u32, typ: u32)
        ensures
            self.placed(column, typ).width == self.width,
            self.placed(column, typ).height == self.height,
            self.place_result(column).is_err() ==> self.placed(column, typ) == self,
            self.place_result(column).is_ok() ==> {
                &&& column < self.width
                &&& self.landing_row(column) < self.height
                &&& !self.occupied(column, self.landing_row(column))
                &&& self.placed(column, typ).cells == self.cells.insert(
                    Position { x: column, y: self.landing_row(column) },
                    typ,
                )
            },
    {
        self.lemma_landing_row(column);
    }

    /// A drop that is accepted is found by a lookup in the landing row, and
    /// no drop changes the lookup of any other cell.
    pub proof fn lemma_lookup_placed(self, column: u32, typ: u32, pos: Position)
        ensures
            self.place_result(column).is_ok() ==> self.placed(column, typ).lookup(
                Position { x: column, y: self.landing_row(column) },
            ) == Ok::<u32, ElemError>(typ),
            pos != (Position { x: column, y: self.landing_row(column) }) ==> self.placed(
                column,
                typ,
            ).lookup(pos) == self.lookup(pos),
    {
    }

    /// A write keeps a well-formed grid well formed where it replaces a
    /// piece of the grid or fills the landing row of a column that is not
    /// full; it is for the caller of a write to see to that.
    pub proof fn lemma_inserted_well_formed(self, pos: Position, typ: u32)
        requires
            self.well_formed(),
            pos.x < self.width,
            pos.y < self.height,
            pos.y <= self.landing_row(pos.x),
        ensures
            self.inserted(pos, typ).well_formed(),
    {
        let after = self.inserted(pos, typ);
        assert forall|column: u32| #[trigger] after.column_settled(column) by {
            assert(self.column_settled(column));
            let level = choose|level: u32|
                level <= self.height && #[trigger] self.filled_below(column, level);
            let raised = if column == pos.x && pos.y == level {
                (level + 1) as u32
            } else {
                level
            };
            if column == pos.x {
                self.lemma_settled_level(column, level);
            }
            assert forall|row: u32| #[trigger] after.occupied(column, row) <==> row < raised by {
                assert(self.occupied(column, row) <==> row < level);
                if column != pos.x || row != pos.y {
                    assert(Position { x: column, y: row } != pos);
                }
            }
            assert(after.filled_below(column, raised));
        }
    }

    /// Gravity in one column: a drop into any column leaves a settled column
    /// settled.
    pub proof fn lemma_placed_settled(self, dropped_into: u32, typ: u32, column: u32)
        requires
            self.column_settled(column),
        ensures
            self.placed(dropped_into, typ).column_settled(column),
    {
        let after = self.placed(dropped_into, typ);
        self.lemma_placed_frame(dropped_into, typ);
        if self.place_result(dropped_into).is_ok() {
            let landing = self.landing_row(dropped_into);
            let target = Position { x: dropped_into, y: landing };
            let level = choose|level: u32|
                level <= self.height && #[trigger] self.filled_below(column, level);
            if dropped_into == column {
                self.lemma_settled_level(column, level);
                let raised = (level + 1) as u32;
                assert forall|row: u32| #[trigger]
                    after.occupied(column, row) <==> row < raised by {
                    assert(self.occupied(column, row) <==> row < level);
                    if row != landing {
                        assert(Position { x: column, y: row } != target);
                    }
                }
                assert(after.filled_below(column, raised));
            } else {
                assert forall|row: u32| #[trigger] after.occupied(column, row) <==> row < level by {
                    assert(self.occupied(column, row) <==> row < level);
                    assert(Position { x: column, y: row } != target);
                }
                assert(after.filled_below(column, level));
            }
        }
    }

    /// Gravity over a whole game, in one column: whatever pieces are dropped
    /// into whatever columns, the occupied rows of a column that was settled
    /// are exactly the rows below some level, which is no higher than the
    /// grid.
    pub proof fn lemma_placed_all_settled(self, drops: Seq<(u32, u32)>, column: u32)
        requires
            self.column_settled(column),
        ensures
            self.placed_all(drops).column_settled(column),
        decreases drops.len(),
    {
        if drops.len() > 0 {
            self.lemma_placed_all_settled(drops.drop_last(), column);
            self.placed_all(drops.drop_last()).lemma_placed_settled(
                drops.last().0,
                drops.last().1,
                column,
            );
        }
    }

    /// A drop into any column leaves a well-formed grid well formed.
    pub proof fn lemma_placed_well_formed(self, column: u32, typ: u32)
        requires
            self.well_formed(),
        ensures
            self.placed(column, typ).well_formed(),
    {
        let after = self.placed(column, typ);
        self.lemma_placed_frame(column, typ);
        assert(after.in_bounds());
        assert forall|other: u32| #[trigger] after.column_settled(other) by {
            assert(self.column_settled(other));
            self.lemma_placed_settled(column, typ, other);
        }
    }

    /// Whatever pieces are dropped into whatever columns of a well-formed
    /// grid, the grid stays well formed and keeps its dimensions.
    pub proof fn lemma_placed_all_well_formed(self, drops: Seq<(u32, u32)>)
        requires
            self.well_formed(),
        ensures
            self.placed_all(drops).well_formed(),
            self.placed_all(drops).width == self.width,
            self.placed_all(drops).height == self.height,
        decreases drops.len(),
    {
        if drops.len() > 0 {
            self.lemma_placed_all_well_formed(drops.drop_last());
            let before = self.placed_all(drops.drop_last());
            before.lemma_placed_well_formed(drops.last().0, drops.last().1);
            before.lemma_placed_frame(drops.last().0, drops.last().1);
        }
    }

    /// A piece that comes to rest in `column` raises the landing row of that
    /// column; any other drop leaves it where it was.
    pub proof fn lemma_placed_landing_row(self, dropped_into: u32, typ: u32, column: u32)
        ensures
            dropped_into == column && self.place_result(column).is_ok() ==> self.placed(
                dropped_into,
                typ,
            ).landing_row(column) > self.landing_row(column),
            dropped_into != column || self.place_result(column).is_err() ==> self.placed(
                dropped_into,
                typ,
            ).landing_row(column) == self.landing_row(column),
    {
        let after = self.placed(dropped_into, typ);
        self.lemma_placed_frame(dropped_into, typ);
        self.lemma_landing_row(column);
        after.lemma_landing_row(column);
        let was = self.landing_row(column);
        let now = after.landing_row(column);
        if self.place_result(dropped_into).is_ok() {
            let target = Position { x: dropped_into, y: self.landing_row(dropped_into) };
            if dropped_into == column {
                if now <= was {
                    if now < was {
                        assert(self.occupied(column, now));
                    }
                    assert(after.occupied(column, now));
                }
            } else {
                if now < was {
                    assert(self.occupied(column, now));
                    assert(after.occupied(column, now));
                }
                if was < now {
                    assert(after.occupied(column, was));
                    assert(Position { x: column, y: was } != target);
                    assert(self.occupied(column, was));
                }
            }
        }
    }

    /// A column takes no more pieces than it has rows: once as many drops
    /// have come to rest in a column as the grid is high, the next drop into
    /// it is rejected with `ColumnFull` and leaves the grid as it is.
    pub proof fn lemma_full_column_rejects(self, drops: Seq<(u32, u32)>, column: u32, typ: u32)
        requires
            column < self.width || self.height > 0,
            self.placements_in(drops, column) >= self.height,
        ensures
            self.placed_all(drops).place_result(column) == Err::<(), ElemError>(
                ElemError::ColumnFull,
            ),
            self.placed_all(drops).placed(column, typ) == self.placed_all(drops),
    {
        self.lemma_placements_bounded(drops, column);
        self.placed_all(drops).lemma_landing_row(column);
        if column >= self.width {
            self.lemma_placements_in_range(drops, column);
        }
    }

    /// Nothing comes to rest in a column outside the grid.
    pub proof fn lemma_placements_in_range(self, drops: Seq<(u32, u32)>, column: u32)
        requires
            column >= self.width,
        ensures
            self.placements_in(drops, column) == 0,
        decreases drops.len(),
    {
        if drops.len() > 0 {
            self.lemma_placements_in_range(drops.drop_last(), column);
            self.lemma_placements_bounded(drops.drop_last(), column);
        }
    }

    /// The landing row of a column is at least the number of pieces that
    /// were dropped into it, and the dimensions never change.
    pub proof fn lemma_placements_bounded(self, drops: Seq<(u32, u32)>, column: u32)
        ensures
            self.placed_all(drops).width == self.width,
            self.placed_all(drops).height == self.height,
            self.placements_in(drops, column) <= self.placed_all(drops).landing_row(column),
            self.placed_all(drops).landing_row(column) <= self.height,
        decreases drops.len(),
    {
        self.placed_all(drops).lemma_landing_row(column);
        if drops.len() > 0 {
            self.lemma_placements_bounded(drops.drop_last(), column);
            let before = self.placed_all(drops.drop_last());
            before.lemma_placed_landing_row(drops.last().0, drops.last().1, column);
            before.lemma_placed_frame(drops.last().0, drops.last().1);
        } else {
            self.lemma_landing_row(column);
        }
    }
}

} // verus!
