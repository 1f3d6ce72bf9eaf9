//! The grid: which cells hold a piece, and how pieces are placed and looked up.

use crate::position::Position;
use std::collections::HashMap;
use vstd::prelude::*;

verus! {

broadcast use vstd::std_specs::hash::group_hash_axioms;

/// Why an operation on the grid did not deliver.
#[derive(Clone, Copy, Debug, PartialEq, Eq, Structural)]
pub enum ElemError {
    /// The cell that was looked up holds no piece.
    NotOccupied,
    /// Every row of the column already holds a piece.
    ColumnFull,
    /// The column lies outside the grid.
    OutOfRange,
}

/// What a grid is, mathematically: its dimensions and the piece type of each
/// occupied cell. A cell that is no key of `cells` is empty.
pub struct GridView {
    pub width: u32,
    pub height: u32,
    pub cells: Map<Position, u32>,
}

impl GridView {
    /// The grid of the given dimensions in which every cell is empty.
    pub open spec fn empty(width: u32, height: u32) -> GridView {
        GridView { width, height, cells: Map::empty() }
    }

    /// The piece type at `pos`, or `NotOccupied` for an empty cell.
    pub open spec fn lookup(self, pos: Position) -> Result<u32, ElemError> {
        if self.cells.contains_key(pos) {
            Ok(self.cells[pos])
        } else {
            Err(ElemError::NotOccupied)
        }
    }

    /// The grid after `typ` was written at `pos`, whatever was there before.
    pub open spec fn inserted(self, pos: Position, typ: u32) -> GridView {
        GridView { cells: self.cells.insert(pos, typ), ..self }
    }

    /// Whether the cell of `column` in `row` holds a piece.
    pub open spec fn occupied(self, column: u32, row: u32) -> bool {
        self.cells.contains_key(Position { x: column, y: row })
    }

    /// The lowest empty row of `column` at or above `from`; the grid's height
    /// if there is none.
    pub open spec fn lowest_empty_from(self, column: u32, from: u32) -> u32
        decreases self.height - from,
    {
        if from >= self.height {
            self.height
        } else if !self.occupied(column, from) {
            from
        } else {
            self.lowest_empty_from(column, (from + 1) as u32)
        }
    }

    /// The row in which a piece dropped into `column` comes to rest; the
    /// grid's height if the column has no empty row.
    pub open spec fn landing_row(self, column: u32) -> u32 {
        self.lowest_empty_from(column, 0)
    }

    /// The outcome of dropping a piece into `column`.
    pub open spec fn place_result(self, column: u32) -> Result<(), ElemError> {
        if column >= self.width {
            Err(ElemError::OutOfRange)
        } else if self.landing_row(column) >= self.height {
            Err(ElemError::ColumnFull)
        } else {
            Ok(())
        }
    }

    /// The grid after a piece of type `typ` was dropped into `column`: the
    /// piece sits in the landing row, or nothing has changed if the drop is
    /// rejected.
    pub open spec fn placed(self, column: u32, typ: u32) -> GridView {
        if self.place_result(column).is_ok() {
            self.inserted(Position { x: column, y: self.landing_row(column) }, typ)
        } else {
            self
        }
    }

    /// The landing row found from `from` upwards is an empty row of the grid
    /// with nothing but occupied rows between `from` and it, or it is the
    /// grid's height and every row from `from` upwards is occupied.
    pub proof fn lemma_lowest_empty_from(self, column: u32, from: u32)
        requires
            from <= self.height,
        ensures
            from <= self.lowest_empty_from(column, from) <= self.height,
            self.lowest_empty_from(column, from) < self.height ==> !self.occupied(
                column,
                self.lowest_empty_from(column, from),
            ),
            forall|row: u32|
                from <= row < self.lowest_empty_from(column, from) ==> #[trigger] self.occupied(
                    column,
                    row,
                ),
        decreases self.height - from,
    {
        if from < self.height && self.occupied(column, from) {
            self.lemma_lowest_empty_from(column, (from + 1) as u32);
        }
    }

    /// The landing row of a column is its lowest empty row.
    pub proof fn lemma_landing_row(self, column: u32)
        ensures
            self.landing_row(column) <= self.height,
            self.landing_row(column) < self.height ==> !self.occupied(
                column,
                self.landing_row(column),
            ),
            forall|row: u32|
                row < self.landing_row(column) ==> #[trigger] self.occupied(column, row),
    {
        self.lemma_lowest_empty_from(column, 0);
    }

    /// The cells of row `y`, from the left.
    pub open spec fn row(self, y: u32) -> Seq<Position> {
        Seq::new(self.width as nat, |x: int| Position { x: x as u32, y })
    }

    /// The occupied cells among `cells`, in their order.
    pub open spec fn pieces_among(self, cells: Seq<Position>) -> Seq<Position> {
        cells.filter(|p: Position| self.cells.contains_key(p))
    }

    /// The occupied cells among `cells`, in their order, each with the type
    /// of its piece.
    pub open spec fn pieces_of(self, cells: Seq<Position>) -> Seq<(Position, u32)> {
        self.pieces_among(cells).map_values(|p: Position| (p, self.cells[p]))
    }

    /// The pieces in the lowest `rows` rows of the grid, row after row from
    /// the bottom, each row from the left.
    pub open spec fn pieces_below(self, rows: nat) -> Seq<(Position, u32)>
        decreases rows,
    {
        if rows == 0 {
            Seq::empty()
        } else {
            self.pieces_below((rows - 1) as nat) + self.pieces_of(self.row((rows - 1) as u32))
        }
    }

    /// The grid after the entries of `writes`, each a position and a piece
    /// type, were written one after the other.
    pub open spec fn inserted_all(self, writes: Seq<(Position, u32)>) -> GridView
        decreases writes.len(),
    {
        if writes.len() == 0 {
            self
        } else {
            self.inserted_all(writes.drop_last()).inserted(writes.last().0, writes.last().1)
        }
    }

    /// A lookup right after a write at the same position finds what was
    /// written, and a write changes the lookup of no other position.
    pub proof fn lemma_lookup_inserted(self, pos: Position, typ: u32, other: Position)
        ensures
            self.inserted(pos, typ).lookup(pos) == Ok::<u32, ElemError>(typ),
            other != pos ==> self.inserted(pos, typ).lookup(other) == self.lookup(other),
    {
    }

    /// A position that none of `writes` names is looked up as before them;
    /// in a grid that started empty it is `NotOccupied`.
    pub proof fn lemma_lookup_never_inserted(self, writes: Seq<(Position, u32)>, pos: Position)
        requires
            forall|i: int| 0 <= i < writes.len() ==> (#[trigger] writes[i]).0 != pos,
        ensures
            self.inserted_all(writes).lookup(pos) == self.lookup(pos),
            self.cells == Map::<Position, u32>::empty() ==> self.inserted_all(writes).lookup(pos)
                == Err::<u32, ElemError>(ElemError::NotOccupied),
        decreases writes.len(),
    {
        if writes.len() > 0 {
            let earlier = writes.drop_last();
            assert forall|i: int| 0 <= i < earlier.len() implies (#[trigger] earlier[i]).0
                != pos by {
                assert(earlier[i] == writes[i]);
            }
            self.lemma_lookup_never_inserted(earlier, pos);
            assert(writes.last() == writes[writes.len() - 1]);
        }
    }
}

/// The playing field: `width` columns of `height` rows each.
#[derive(Debug)]
pub struct Grid {
    width: u32,
    height: u32,
    elements: HashMap<u64, u32>,
}

impl View for Grid {
    type V = GridView;

    closed spec fn view(&self) -> GridView {
        GridView {
            width: self.width,
            height: self.height,
            cells: Map::new(
                |p: Position| self.elements@.contains_key(p.spec_key()),
                |p: Position| self.elements@[p.spec_key()],
            ),
        }
    }
}

impl Grid {
    /// A grid of the given dimensions with no piece in it.
    pub fn new(width: u32, height: u32) -> (grid: Grid)
        ensures
            grid@ == GridView::empty(width, height),
            grid@.well_formed(),
    {
        let grid = Grid { width, height, elements: HashMap::new() };
        proof {
            assert(grid@.cells =~= Map::<Position, u32>::empty());
            GridView::lemma_empty_well_formed(width, height);
        }
        grid
    }

    /// The number of columns.
    pub fn width(&self) -> (width: u32)
        ensures
            width == self@.width,
    {
        self.width
    }

    /// The number of rows.
    pub fn height(&self) -> (height: u32)
        ensures
            height == self@.height,
    {
        self.height
    }

    /// Looks up the piece at `pos`.
    pub fn get(&self, pos: &Position) -> (found: Result<&u32, ElemError>)
        ensures
            match found {
                Ok(typ) => self@.lookup(*pos) == Ok::<u32, ElemError>(*typ),
                Err(e) => self@.lookup(*pos) == Err::<u32, ElemError>(e),
            },
    {
        let key = pos.key();
        let elem = self.elements.get(&key);
        if elem.is_none() {
            return Err(ElemError::NotOccupied);
        }
        return Ok(elem.unwrap());
    }

    /// Writes `typ` at `pos`, replacing any piece that is there. Neither the
    /// bounds of the grid nor gravity are looked at.
    pub fn insert(&mut self, pos: Position, typ: u32)
        ensures
            final(self)@ == old(self)@.inserted(pos, typ),
    {
        self.elements.insert(pos.key(), typ);
        proof {
            Position::lemma_key_bijection();
            assert(self@.cells =~= old(self)@.cells.insert(pos, typ));
        }
    }

    /// The pieces inside the grid with their positions, row after row from
    /// the bottom, each row from the left.
    pub fn pieces(&self) -> (listed: Vec<(Position, u32)>)
        ensures
            listed@ == self@.pieces_below(self@.height as nat),
    {
        let mut listed: Vec<(Position, u32)> = Vec::new();
        let width = self.width;
        let height = self.height;
        for y in 0..height
            invariant
                width == self@.width,
                height == self@.height,
                listed@ == self@.pieces_below(y as nat),
        {
            let ghost below = listed@;
            let ghost row = self@.row(y);
            proof {
                assert(row.take(0) =~= Seq::<Position>::empty());
                assert(self@.pieces_of(row.take(0)) =~= Seq::<(Position, u32)>::empty());
                assert(below + Seq::<(Position, u32)>::empty() =~= below);
            }
            for x in 0..width
                invariant
                    width == self@.width,
                    row == self@.row(y),
                    listed@ == below + self@.pieces_of(row.take(x as int)),
            {
                let pos = Position::new(x, y);
                let ghost seen = self@.pieces_of(row.take(x as int));
                proof {
                    let occupied = |p: Position| self@.cells.contains_key(p);
                    assert(row.take(x + 1) =~= row.take(x as int).push(pos));
                    row.take(x as int).lemma_filter_push(pos, occupied);
                    if self@.cells.contains_key(pos) {
                        assert(self@.pieces_of(row.take(x + 1)) =~= seen.push(
                            (pos, self@.cells[pos]),
                        ));
                    }
                }
                if let Ok(typ) = self.get(&pos) {
                    listed.push((pos, *typ));
                    assert(listed@ =~= below + seen.push((pos, *typ)));
                }
            }
            assert(row.take(width as int) =~= row);
        }
        listed
    }

    /// Drops a piece of type `element_type` into `column`: it comes to rest
    /// in the lowest empty row. A column outside the grid and a column
    /// without an empty row are reported and leave the grid as it was.
    pub fn add_at_column(&mut self, column: u32, element_type: u32) -> (placed: Result<
        (),
        ElemError,
    >)
        ensures
            placed == old(self)@.place_result(column),
            final(self)@ == old(self)@.placed(column, element_type),
            forall|c: u32|
                old(self)@.column_settled(c) ==> #[trigger] final(self)@.column_settled(c),
            old(self)@.well_formed() ==> final(self)@.well_formed(),
    {
        proof {
            if self@.well_formed() {
                self@.lemma_placed_well_formed(column, element_type);
            }
            assert forall|c: u32| self@.column_settled(c) implies #[trigger] self@.placed(
                column,
                element_type,
            ).column_settled(c) by {
                self@.lemma_placed_settled(column, element_type, c);
            }
        }
        if column >= self.width {
            return Err(ElemError::OutOfRange);
        }
        let height = self.height;
        for y in 0..height
            invariant
                *self == *old(self),
                height == self@.height,
                column < self@.width,
                self@.lowest_empty_from(column, y) == self@.landing_row(column),
                self@.well_formed() ==> self@.placed(column, element_type).well_formed(),
                forall|c: u32|
                    self@.column_settled(c) ==> #[trigger] self@.placed(
                        column,
                        element_type,
                    ).column_settled(c),
        {
            let pos = Position::new(column, y);
            if self.get(&pos).is_err() {
                self.insert(pos, element_type);
                return Ok(());
            }
        }
        Err(ElemError::ColumnFull)
    }
}

} // verus!
