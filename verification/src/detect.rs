//! Detection of straight matches: runs of four or more same-typed pieces
//! along a row or a column.
//!
//! Each row is swept from left to right and each column from bottom to top.
//! Empty cells are invisible to a sweep: they neither extend nor end a run,
//! so two groups of one type with only empty cells between them count as a
//! single run.

use crate::grid::{Grid, GridView};
use crate::matches::{Match, Matches};
use crate::position::Position;
use crate::position_set::PositionSet;
use vstd::prelude::*;

verus! {

/// The least number of pieces in a run that make it a match.
pub const MATCH_THRESHOLD: usize = 4;

/// The axis along which runs are looked for.
#[derive(Clone, Copy, Debug, PartialEq, Eq, Structural)]
pub enum MatchDirection {
    /// Along the rows: the row is fixed, the sweep goes over the columns.
    Horizontal,
    /// Along the columns: the column is fixed, the sweep goes over the rows.
    Vertical,
}

impl MatchDirection {
    /// The cell that the sweep of line `outer` visits at step `inner`.
    pub open spec fn spec_cell(self, outer: u32, inner: u32) -> Position {
        match self {
            MatchDirection::Horizontal => Position { x: inner, y: outer },
            MatchDirection::Vertical => Position { x: outer, y: inner },
        }
    }

    /// The cell that the sweep of line `outer` visits at step `inner`.
    #[verifier::when_used_as_spec(spec_cell)]
    pub fn cell(self, outer: u32, inner: u32) -> (pos: Position)
        ensures
            pos == self.spec_cell(outer, inner),
    {
        match self {
            MatchDirection::Horizontal => Position::new(inner, outer),
            MatchDirection::Vertical => Position::new(outer, inner),
        }
    }
}

impl GridView {
    /// The number of lines along `direction`: rows for horizontal sweeps,
    /// columns for vertical ones.
    pub open spec fn line_count(self, direction: MatchDirection) -> u32 {
        match direction {
            MatchDirection::Horizontal => self.height,
            MatchDirection::Vertical => self.width,
        }
    }

    /// The number of cells in each line along `direction`.
    pub open spec fn line_length(self, direction: MatchDirection) -> u32 {
        match direction {
            MatchDirection::Horizontal => self.width,
            MatchDirection::Vertical => self.height,
        }
    }

    /// The cells of line `outer`, in the order of the sweep.
    pub open spec fn line(self, direction: MatchDirection, outer: u32) -> Seq<Position> {
        Seq::new(
            self.line_length(direction) as nat,
            |inner: int| direction.spec_cell(outer, inner as u32),
        )
    }

    /// The occupied cells of line `outer`, in the order of the sweep.
    pub open spec fn pieces_on_line(self, direction: MatchDirection, outer: u32) -> Seq<Position> {
        self.pieces_among(self.line(direction, outer))
    }

    /// How many pieces at the front of `pieces` share the type of the first.
    pub open spec fn leading_run(self, pieces: Seq<Position>) -> nat
        decreases pieces.len(),
    {
        if pieces.len() == 0 {
            0
        } else if pieces.len() >= 2 && self.cells[pieces[1]] == self.cells[pieces[0]] {
            1 + self.leading_run(pieces.drop_first())
        } else {
            1
        }
    }

    /// The matches among `pieces`: the sequence is cut into its runs, each as
    /// long as it can be, and every run that reaches the threshold is a
    /// match, in the order of the runs.
    pub open spec fn matches_among(self, pieces: Seq<Position>) -> Seq<Set<Position>>
        decreases pieces.len(),
    {
        if pieces.len() == 0 {
            Seq::empty()
        } else {
            let run = self.leading_run(pieces);
            proof {
                self.lemma_leading_run(pieces);
            }
            let later = self.matches_among(pieces.skip(run as int));
            if run >= MATCH_THRESHOLD {
                seq![pieces.take(run as int).to_set()] + later
            } else {
                later
            }
        }
    }

    /// The matches of line `outer`.
    pub open spec fn line_matches(self, direction: MatchDirection, outer: u32) -> Seq<
        Set<Position>,
    > {
        self.matches_among(self.pieces_on_line(direction, outer))
    }

    /// The matches of the first `lines` lines along `direction`, line after line.
    pub open spec fn straight_matches(self, direction: MatchDirection, lines: nat) -> Seq<
        Set<Position>,
    >
        decreases lines,
    {
        if lines == 0 {
            Seq::empty()
        } else {
            self.straight_matches(direction, (lines - 1) as nat) + self.line_matches(
                direction,
                (lines - 1) as u32,
            )
        }
    }

    /// All matches of the grid: those of the rows, bottom row first, then
    /// those of the columns, leftmost column first.
    pub open spec fn all_matches(self) -> Seq<Set<Position>> {
        self.straight_matches(MatchDirection::Horizontal, self.height as nat)
            + self.straight_matches(MatchDirection::Vertical, self.width as nat)
    }

    /// The leading run is not empty, it holds pieces of one type only, and
    /// the piece behind it, if there is one, has another type.
    pub proof fn lemma_leading_run(self, pieces: Seq<Position>)
        requires
            pieces.len() > 0,
        ensures
            1 <= self.leading_run(pieces) <= pieces.len(),
            forall|i: int|
                0 <= i < self.leading_run(pieces) ==> self.cells[#[trigger] pieces[i]]
                    == self.cells[pieces[0]],
            self.leading_run(pieces) < pieces.len() ==> self.cells[pieces[self.leading_run(
                pieces,
            ) as int]] != self.cells[pieces[0]],
        decreases pieces.len(),
    {
        if pieces.len() >= 2 && self.cells[pieces[1]] == self.cells[pieces[0]] {
            let rest = pieces.drop_first();
            self.lemma_leading_run(rest);
            assert forall|i: int|
                0 <= i < self.leading_run(pieces) implies self.cells[#[trigger] pieces[i]]
                == self.cells[pieces[0]] by {
                if i > 0 {
                    assert(pieces[i] == rest[i - 1]);
                }
            }
        }
    }

    /// A number of pieces at the front that share one type, with a piece of
    /// another type or nothing behind them, is the leading run.
    pub proof fn lemma_leading_run_is(self, pieces: Seq<Position>, run: nat)
        requires
            1 <= run <= pieces.len(),
            forall|i: int|
                0 <= i < run ==> self.cells[#[trigger] pieces[i]] == self.cells[pieces[0]],
            run < pieces.len() ==> self.cells[pieces[run as int]] != self.cells[pieces[0]],
        ensures
            self.leading_run(pieces) == run,
        decreases run,
    {
        if run > 1 {
            let rest = pieces.drop_first();
            assert(self.cells[pieces[1]] == self.cells[pieces[0]]);
            assert forall|i: int| 0 <= i < run - 1 implies self.cells[#[trigger] rest[i]]
                == self.cells[rest[0]] by {
                assert(rest[i] == pieces[i + 1]);
            }
            self.lemma_leading_run_is(rest, (run - 1) as nat);
        }
    }

    /// Where the pieces from `start` up to `end` are a whole run, the matches
    /// from `start` on are that run, if it is long enough, and then the
    /// matches from `end` on.
    proof fn lemma_close_run(self, pieces: Seq<Position>, start: int, end: int)
        requires
            0 <= start < end <= pieces.len(),
            forall|i: int|
                start <= i < end ==> self.cells[#[trigger] pieces[i]] == self.cells[pieces[start]],
            end < pieces.len() ==> self.cells[pieces[end]] != self.cells[pieces[start]],
        ensures
            self.matches_among(pieces.skip(start)) == (if end - start >= MATCH_THRESHOLD {
                seq![pieces.subrange(start, end).to_set()]
            } else {
                Seq::empty()
            }) + self.matches_among(pieces.skip(end)),
    {
        let tail = pieces.skip(start);
        let run = (end - start) as nat;
        assert forall|i: int| 0 <= i < run implies self.cells[#[trigger] tail[i]]
            == self.cells[tail[0]] by {
            assert(tail[i] == pieces[start + i]);
        }
        self.lemma_leading_run_is(tail, run);
        assert(tail.take(run as int) =~= pieces.subrange(start, end));
        assert(tail.skip(run as int) =~= pieces.skip(end));
        let later = self.matches_among(pieces.skip(end));
        assert(Seq::<Set<Position>>::empty() + later =~= later);
    }

    /// The pieces among the first `upto` cells are the first pieces among
    /// all the cells.
    proof fn lemma_pieces_prefix(self, cells: Seq<Position>, upto: int)
        requires
            0 <= upto <= cells.len(),
        ensures
            self.pieces_among(cells.take(upto)).len() <= self.pieces_among(cells).len(),
            self.pieces_among(cells).take(self.pieces_among(cells.take(upto)).len() as int)
                == self.pieces_among(cells.take(upto)),
    {
        let occupied = |p: Position| self.cells.contains_key(p);
        assert(cells =~= cells.take(upto) + cells.skip(upto));
        Seq::filter_distributes_over_add(cells.take(upto), cells.skip(upto), occupied);
        let seen = cells.take(upto).filter(occupied);
        assert((seen + cells.skip(upto).filter(occupied)).take(seen.len() as int) =~= seen);
    }

    /// One more cell adds itself to the pieces if it is occupied, and
    /// nothing otherwise.
    proof fn lemma_pieces_step(self, cells: Seq<Position>, upto: int)
        requires
            0 <= upto < cells.len(),
        ensures
            self.pieces_among(cells.take(upto + 1)) == if self.cells.contains_key(cells[upto]) {
                self.pieces_among(cells.take(upto)).push(cells[upto])
            } else {
                self.pieces_among(cells.take(upto))
            },
    {
        let occupied = |p: Position| self.cells.contains_key(p);
        assert(cells.take(upto + 1) =~= cells.take(upto).push(cells[upto]));
        cells.take(upto).lemma_filter_push(cells[upto], occupied);
    }
}

impl Grid {
    /// All matches of the grid: those along the rows, then those along the
    /// columns.
    pub fn get_matches(&self) -> (matches: Matches)
        ensures
            matches@ == self@.all_matches(),
    {
        let mut matches = self.straight_matches(MatchDirection::Horizontal);
        let mut vertical = self.straight_matches(MatchDirection::Vertical);
        matches.append(&mut vertical);
        matches
    }

    /// The matches along `direction`, line after line, each line swept once.
    pub fn straight_matches(&self, direction: MatchDirection) -> (matches: Matches)
        ensures
            matches@ == self@.straight_matches(direction, self@.line_count(direction) as nat),
    {
        let mut matches = Matches::default();
        let mut current_match: Vec<Position> = Vec::new();
        let mut previous_type: Option<u32> = None;
        let outer_end: u32 = match direction {
            MatchDirection::Horizontal => self.height(),
            MatchDirection::Vertical => self.width(),
        };
        let inner_end: u32 = match direction {
            MatchDirection::Horizontal => self.width(),
            MatchDirection::Vertical => self.height(),
        };
        for one in 0..outer_end
            invariant
                outer_end == self@.line_count(direction),
                inner_end == self@.line_length(direction),
                current_match@.len() == 0,
                matches@ == self@.straight_matches(direction, one as nat),
        {
            let ghost found_before = matches@;
            let ghost line = self@.line(direction, one);
            let ghost pieces = self@.pieces_on_line(direction, one);
            let ghost start: int = 0;
            let ghost seen: int = 0;
            proof {
                assert(line.take(0) =~= Seq::<Position>::empty());
                assert(pieces.skip(0) =~= pieces);
                assert(current_match@ =~= pieces.subrange(0, 0));
            }
            for two in 0..inner_end
                invariant
                    inner_end == self@.line_length(direction),
                    line == self@.line(direction, one),
                    pieces == self@.pieces_among(line),
                    seen == self@.pieces_among(line.take(two as int)).len(),
                    0 <= start <= seen <= pieces.len(),
                    seen > 0 ==> start < seen,
                    current_match@ == pieces.subrange(start, seen),
                    start < seen ==> previous_type == Some(self@.cells[pieces[start]]),
                    forall|i: int|
                        start <= i < seen ==> self@.cells[#[trigger] pieces[i]]
                            == self@.cells[pieces[start]],
                    matches@ + self@.matches_among(pieces.skip(start)) == found_before
                        + self@.matches_among(pieces),
            {
                let pos = direction.cell(one, two);
                proof {
                    assert(line[two as int] == pos);
                    self@.lemma_pieces_step(line, two as int);
                    self@.lemma_pieces_prefix(line, two + 1);
                }
                if let Ok(typ) = self.get(&pos) {
                    let current_type: u32 = *typ;
                    proof {
                        assert(pieces.take(seen + 1) == pieces.take(seen).push(pos)) by {
                            self@.lemma_pieces_prefix(line, two as int);
                        }
                        assert(pieces.take(seen + 1)[seen] == pos);
                        assert(pieces[seen] == pos);
                    }
                    if current_match.is_empty() || previous_type.unwrap() == current_type {
                        previous_type = Some(current_type);
                        current_match.push(pos);
                        proof {
                            assert(current_match@ =~= pieces.subrange(start, seen + 1));
                            seen = seen + 1;
                        }
                    } else {
                        proof {
                            self@.lemma_close_run(pieces, start, seen);
                        }
                        let ghost found = matches@;
                        if current_match.len() >= MATCH_THRESHOLD {
                            matches.add(
                                Match::Straight(PositionSet::from_positions(&current_match)),
                            );
                        }
                        current_match = Vec::new();
                        current_match.push(pos);
                        previous_type = Some(current_type);
                        proof {
                            let closed = if seen - start >= MATCH_THRESHOLD {
                                seq![pieces.subrange(start, seen).to_set()]
                            } else {
                                Seq::<Set<Position>>::empty()
                            };
                            assert(matches@ =~= found + closed);
                            assert(matches@ + self@.matches_among(pieces.skip(seen)) =~= found + (
                            closed + self@.matches_among(pieces.skip(seen))));
                            start = seen;
                            seen = seen + 1;
                            assert(current_match@ =~= pieces.subrange(start, seen));
                        }
                    }
                }
            }
            proof {
                assert(line.take(inner_end as int) =~= line);
                if seen > 0 {
                    self@.lemma_close_run(pieces, start, seen);
                    assert(pieces.skip(seen) =~= Seq::<Position>::empty());
                } else {
                    assert(pieces =~= Seq::<Position>::empty());
                }
            }
            if current_match.len() >= MATCH_THRESHOLD {
                matches.add(Match::Straight(PositionSet::from_positions(&current_match)));
            }
            current_match = Vec::new();
            previous_type = None;
            proof {
                assert(matches@ =~= found_before + self@.matches_among(pieces));
            }
        }
        matches
    }
}

} // verus!
