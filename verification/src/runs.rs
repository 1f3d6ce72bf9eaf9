//! What the matches of a grid are, said without the sweep: the runs of at
//! least four pieces, each a set of occupied cells of one line that hold
//! pieces of one type.

use crate::detect::{MatchDirection, MATCH_THRESHOLD};
use crate::grid::GridView;
use crate::position::Position;
use vstd::prelude::*;

verus! {

impl GridView {
    /// Whether the pieces from `start` up to `end` are a run: pieces of one
    /// type that cannot be extended at either end.
    pub open spec fn is_run(self, pieces: Seq<Position>, start: int, end: int) -> bool {
        &&& 0 <= start < end <= pieces.len()
        &&& forall|i: int|
            start <= i < end ==> self.cells[#[trigger] pieces[i]] == self.cells[pieces[start]]
        &&& start > 0 ==> self.cells[pieces[start - 1]] != self.cells[pieces[start]]
        &&& end < pieces.len() ==> self.cells[pieces[end]] != self.cells[pieces[start]]
    }

    /// Whether `found` is a run of `pieces` that reaches the threshold.
    pub open spec fn is_long_run(self, pieces: Seq<Position>, found: Set<Position>) -> bool {
        exists|start: int, end: int|
            #![trigger pieces.subrange(start, end)]
            self.is_run(pieces, start, end) && end - start >= MATCH_THRESHOLD && found
                == pieces.subrange(start, end).to_set()
    }

    /// Whether a run could begin at `from`: nothing or a piece of another
    /// type lies before it.
    spec fn run_boundary(self, pieces: Seq<Position>, from: int) -> bool {
        &&& 0 <= from <= pieces.len()
        &&& 0 < from < pieces.len() ==> self.cells[pieces[from - 1]] != self.cells[pieces[from]]
    }

    /// Threshold: pieces of one type make one match that holds them all if
    /// there are at least four of them, and no match if there are fewer.
    pub proof fn lemma_one_type(self, pieces: Seq<Position>)
        requires
            forall|i: int|
                0 <= i < pieces.len() ==> self.cells[#[trigger] pieces[i]] == self.cells[pieces[0]],
        ensures
            self.matches_among(pieces) == if pieces.len() >= MATCH_THRESHOLD {
                seq![pieces.to_set()]
            } else {
                Seq::<Set<Position>>::empty()
            },
    {
        if pieces.len() > 0 {
            let all = pieces.len() as int;
            self.lemma_leading_run_is(pieces, pieces.len());
            assert(pieces.take(all) =~= pieces);
            assert(pieces.skip(all) =~= Seq::<Position>::empty());
            assert(self.matches_among(pieces.skip(all)) =~= Seq::<Set<Position>>::empty());
            assert(seq![pieces.to_set()] + Seq::<Set<Position>>::empty() =~= seq![pieces.to_set()]);
        }
    }

    /// Every match among `pieces` is a run of at least four pieces.
    pub proof fn lemma_matches_are_runs(self, pieces: Seq<Position>)
        ensures
            forall|j: int|
                0 <= j < self.matches_among(pieces).len() ==> self.is_long_run(
                    pieces,
                    #[trigger] self.matches_among(pieces)[j],
                ),
    {
        assert(pieces.skip(0) =~= pieces);
        self.lemma_matches_are_runs_from(pieces, 0);
    }

    /// Every match among the pieces from `from` on, where a run begins, is a
    /// run of at least four of all the pieces.
    proof fn lemma_matches_are_runs_from(self, pieces: Seq<Position>, from: int)
        requires
            self.run_boundary(pieces, from),
        ensures
            forall|j: int|
                0 <= j < self.matches_among(pieces.skip(from)).len() ==> self.is_long_run(
                    pieces,
                    #[trigger] self.matches_among(pieces.skip(from))[j],
                ),
        decreases pieces.len() - from,
    {
        let tail = pieces.skip(from);
        if tail.len() > 0 {
            self.lemma_leading_run(tail);
            let run = self.leading_run(tail) as int;
            let end = from + run;
            assert(tail[0] == pieces[from]);
            assert(tail[run - 1] == pieces[end - 1]);
            if end < pieces.len() {
                assert(tail[run] == pieces[end]);
            }
            assert forall|i: int| from <= i < end implies self.cells[#[trigger] pieces[i]]
                == self.cells[pieces[from]] by {
                assert(tail[i - from] == pieces[i]);
            }
            assert(self.is_run(pieces, from, end));
            assert(tail.skip(run) =~= pieces.skip(end));
            assert(tail.take(run) =~= pieces.subrange(from, end));
            self.lemma_matches_are_runs_from(pieces, end);
            let later = self.matches_among(pieces.skip(end));
            assert forall|j: int| 0 <= j < self.matches_among(tail).len() implies self.is_long_run(
                pieces,
                #[trigger] self.matches_among(tail)[j],
            ) by {
                if run >= MATCH_THRESHOLD {
                    if j == 0 {
                        assert(self.matches_among(tail)[0] == pieces.subrange(from, end).to_set());
                    } else {
                        assert(self.matches_among(tail)[j] == later[j - 1]);
                    }
                } else {
                    assert(self.matches_among(tail)[j] == later[j]);
                }
            }
        }
    }

    /// Every run of at least four pieces is a match among `pieces`.
    pub proof fn lemma_runs_are_matches(self, pieces: Seq<Position>, start: int, end: int)
        requires
            self.is_run(pieces, start, end),
            end - start >= MATCH_THRESHOLD,
        ensures
            self.matches_among(pieces).contains(pieces.subrange(start, end).to_set()),
    {
        assert(pieces.skip(0) =~= pieces);
        self.lemma_runs_are_matches_from(pieces, start, end, 0);
    }

    /// A run of at least four pieces that begins at or after `from`, where a
    /// run begins, is a match among the pieces from `from` on.
    proof fn lemma_runs_are_matches_from(
        self,
        pieces: Seq<Position>,
        start: int,
        end: int,
        from: int,
    )
        requires
            self.is_run(pieces, start, end),
            end - start >= MATCH_THRESHOLD,
            self.run_boundary(pieces, from),
            from <= start,
        ensures
            self.matches_among(pieces.skip(from)).contains(pieces.subrange(start, end).to_set()),
        decreases pieces.len() - from,
    {
        let tail = pieces.skip(from);
        self.lemma_leading_run(tail);
        let run = self.leading_run(tail) as int;
        let stop = from + run;
        assert(tail[0] == pieces[from]);
        assert(tail[run - 1] == pieces[stop - 1]);
        if stop < pieces.len() {
            assert(tail[run] == pieces[stop]);
        }
        assert forall|i: int| from <= i < stop implies self.cells[#[trigger] pieces[i]]
            == self.cells[pieces[from]] by {
            assert(tail[i - from] == pieces[i]);
        }
        assert(tail.skip(run) =~= pieces.skip(stop));
        assert(tail.take(run) =~= pieces.subrange(from, stop));
        let later = self.matches_among(pieces.skip(stop));
        let wanted = pieces.subrange(start, end).to_set();
        if from == start {
            if stop < end {
                assert(self.cells[pieces[stop]] == self.cells[pieces[start]]);
            }
            if end < stop {
                assert(self.cells[pieces[end]] == self.cells[pieces[from]]);
            }
            assert(self.matches_among(tail)[0] == wanted);
        } else {
            if stop > start {
                assert(self.cells[pieces[start - 1]] == self.cells[pieces[from]]);
                assert(self.cells[pieces[start]] == self.cells[pieces[from]]);
            }
            self.lemma_runs_are_matches_from(pieces, start, end, stop);
            let j = choose|j: int| 0 <= j < later.len() && later[j] == wanted;
            if run >= MATCH_THRESHOLD {
                assert(self.matches_among(tail)[j + 1] == wanted);
            } else {
                assert(self.matches_among(tail)[j] == wanted);
            }
        }
    }

    /// The pieces among `cells` are occupied cells of `cells`, and none
    /// comes twice unless a cell does.
    pub proof fn lemma_pieces_among(self, cells: Seq<Position>)
        ensures
            forall|i: int|
                0 <= i < self.pieces_among(cells).len() ==> self.cells.contains_key(
                    #[trigger] self.pieces_among(cells)[i],
                ) && cells.contains(self.pieces_among(cells)[i]),
            cells.no_duplicates() ==> self.pieces_among(cells).no_duplicates(),
        decreases cells.len(),
    {
        let occupied = |p: Position| self.cells.contains_key(p);
        if cells.len() == 0 {
            assert(cells.filter(occupied).len() == 0) by {
                cells.lemma_filter_len(occupied);
            }
        } else {
            let front = cells.drop_last();
            let last = cells.last();
            self.lemma_pieces_among(front);
            assert(cells =~= front.push(last));
            front.lemma_filter_push(last, occupied);
            let before = self.pieces_among(front);
            let pieces = self.pieces_among(cells);
            assert forall|i: int| 0 <= i < pieces.len() implies self.cells.contains_key(
                #[trigger] pieces[i],
            ) && cells.contains(pieces[i]) by {
                if i < before.len() {
                    assert(pieces[i] == before[i]);
                    let at = choose|at: int| 0 <= at < front.len() && front[at] == before[i];
                    assert(cells[at] == pieces[i]);
                } else {
                    assert(cells[cells.len() - 1] == pieces[i]);
                }
            }
            if cells.no_duplicates() {
                assert forall|i: int, j: int|
                    0 <= i < pieces.len() && 0 <= j < pieces.len() && i != j implies pieces[i]
                    != pieces[j] by {
                    if i < before.len() && j < before.len() {
                        assert(pieces[i] == before[i] && pieces[j] == before[j]);
                    } else {
                        let low = if i < j { i } else { j };
                        assert(pieces[low] == before[low]);
                        let at = choose|at: int| 0 <= at < front.len() && front[at] == before[low];
                        assert(cells[at] == before[low]);
                        assert(cells[cells.len() - 1] == last);
                    }
                }
            }
        }
    }

    /// A match of a line consists of at least four cells of that line, all
    /// occupied by pieces of one type.
    pub proof fn lemma_line_match(self, direction: MatchDirection, outer: u32, found: Set<Position>)
        requires
            self.line_matches(direction, outer).contains(found),
        ensures
            found.finite(),
            found.len() >= MATCH_THRESHOLD,
            forall|p: Position| #[trigger]
                found.contains(p) ==> self.cells.contains_key(p) && self.line(
                    direction,
                    outer,
                ).contains(p),
            forall|p: Position, q: Position|
                found.contains(p) && found.contains(q) ==> self.cells[p] == self.cells[q],
    {
        let line = self.line(direction, outer);
        let pieces = self.pieces_on_line(direction, outer);
        assert(line.no_duplicates());
        self.lemma_pieces_among(line);
        self.lemma_matches_are_runs(pieces);
        assert(self.is_long_run(pieces, found));
        let (start, end) = choose|start: int, end: int|
            #![trigger pieces.subrange(start, end)]
            self.is_run(pieces, start, end) && end - start >= MATCH_THRESHOLD && found
                == pieces.subrange(start, end).to_set();
        let run = pieces.subrange(start, end);
        assert forall|i: int, j: int|
            0 <= i < run.len() && 0 <= j < run.len() && i != j implies run[i] != run[j] by {
            assert(run[i] == pieces[start + i] && run[j] == pieces[start + j]);
        }
        run.unique_seq_to_set();
        vstd::seq_lib::seq_to_set_is_finite(run);
        assert forall|p: Position| #[trigger] found.contains(p) implies self.cells.contains_key(p)
            && line.contains(p) && self.cells[p] == self.cells[pieces[start]] by {
            let i = choose|i: int| 0 <= i < run.len() && run[i] == p;
            assert(pieces[start + i] == p);
        }
    }

    /// The matches along `direction` are the matches of its lines: each of
    /// them belongs to a line, and no match of a line is left out.
    pub proof fn lemma_straight_matches(self, direction: MatchDirection, lines: nat)
        requires
            lines <= self.line_count(direction),
        ensures
            forall|found: Set<Position>| #[trigger]
                self.straight_matches(direction, lines).contains(found) <==> exists|outer: u32|
                    outer < lines && #[trigger] self.line_matches(direction, outer).contains(found),
        decreases lines,
    {
        let all = self.straight_matches(direction, lines);
        if lines > 0 {
            let before = self.straight_matches(direction, (lines - 1) as nat);
            let last = self.line_matches(direction, (lines - 1) as u32);
            self.lemma_straight_matches(direction, (lines - 1) as nat);
            assert forall|found: Set<Position>| #[trigger]
                all.contains(found) <==> exists|outer: u32|
                    outer < lines && #[trigger] self.line_matches(direction, outer).contains(
                        found,
                    ) by {
                if all.contains(found) {
                    let j = choose|j: int| 0 <= j < all.len() && all[j] == found;
                    if j < before.len() {
                        assert(before[j] == found);
                        assert(before.contains(found));
                    } else {
                        assert(last[j - before.len()] == found);
                        assert(self.line_matches(direction, (lines - 1) as u32).contains(found));
                    }
                }
                if exists|outer: u32|
                    outer < lines && #[trigger] self.line_matches(direction, outer).contains(
                        found,
                    ) {
                    let outer = choose|outer: u32|
                        outer < lines && #[trigger] self.line_matches(direction, outer).contains(
                            found,
                        );
                    if outer < lines - 1 {
                        assert(before.contains(found));
                        let j = choose|j: int| 0 <= j < before.len() && before[j] == found;
                        assert(all[j] == found);
                    } else {
                        let j = choose|j: int| 0 <= j < last.len() && last[j] == found;
                        assert(all[before.len() + j] == found);
                    }
                }
            }
        }
    }

    /// Every match of the grid is a straight run: at least four occupied
    /// cells inside the grid, all of one row or all of one column, with
    /// pieces of one type.
    pub proof fn lemma_all_matches(self, found: Set<Position>)
        requires
            self.all_matches().contains(found),
        ensures
            found.finite(),
            found.len() >= MATCH_THRESHOLD,
            forall|p: Position| #[trigger]
                found.contains(p) ==> self.cells.contains_key(p) && p.x < self.width && p.y
                    < self.height,
            forall|p: Position, q: Position|
                found.contains(p) && found.contains(q) ==> self.cells[p] == self.cells[q],
            (forall|p: Position, q: Position| found.contains(p) && found.contains(q) ==> p.y == q.y)
                || (forall|p: Position, q: Position|
                found.contains(p) && found.contains(q) ==> p.x == q.x),
    {
        let rows = self.straight_matches(MatchDirection::Horizontal, self.height as nat);
        let columns = self.straight_matches(MatchDirection::Vertical, self.width as nat);
        let all = self.all_matches();
        let j = choose|j: int| 0 <= j < all.len() && all[j] == found;
        let direction = if j < rows.len() {
            MatchDirection::Horizontal
        } else {
            MatchDirection::Vertical
        };
        let along = self.straight_matches(direction, self.line_count(direction) as nat);
        if j < rows.len() {
            assert(rows[j] == found);
        } else {
            assert(columns[j - rows.len()] == found);
        }
        assert(along.contains(found));
        self.lemma_straight_matches(direction, self.line_count(direction) as nat);
        let outer = choose|outer: u32|
            outer < self.line_count(direction) && #[trigger] self.line_matches(
                direction,
                outer,
            ).contains(found);
        self.lemma_line_match(direction, outer, found);
        let line = self.line(direction, outer);
        assert forall|p: Position| #[trigger] found.contains(p) implies (direction
            == MatchDirection::Horizontal ==> p.y == outer) && (direction
            == MatchDirection::Vertical ==> p.x == outer) && p.x < self.width && p.y
            < self.height by {
            assert(line.contains(p));
            let i = choose|i: int| 0 <= i < line.len() && line[i] == p;
        }
    }

    /// No win is missed: a run of at least four pieces on any row or column
    /// of the grid is one of its matches.
    pub proof fn lemma_run_is_found(
        self,
        direction: MatchDirection,
        outer: u32,
        start: int,
        end: int,
    )
        requires
            outer < self.line_count(direction),
            self.is_run(self.pieces_on_line(direction, outer), start, end),
            end - start >= MATCH_THRESHOLD,
        ensures
            self.all_matches().contains(
                self.pieces_on_line(direction, outer).subrange(start, end).to_set(),
            ),
    {
        let pieces = self.pieces_on_line(direction, outer);
        let found = pieces.subrange(start, end).to_set();
        self.lemma_runs_are_matches(pieces, start, end);
        assert(self.line_matches(direction, outer).contains(found));
        self.lemma_straight_matches(direction, self.line_count(direction) as nat);
        let along = self.straight_matches(direction, self.line_count(direction) as nat);
        assert(along.contains(found));
        let j = choose|j: int| 0 <= j < along.len() && along[j] == found;
        let rows = self.straight_matches(MatchDirection::Horizontal, self.height as nat);
        match direction {
            MatchDirection::Horizontal => {
                assert(self.all_matches()[j] == found);
            },
            MatchDirection::Vertical => {
                assert(self.all_matches()[rows.len() + j] == found);
            },
        }
    }
}

} // verus!
