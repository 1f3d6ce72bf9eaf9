//! The result of a detection pass: the winning runs that were found.

use crate::position::Position;
use crate::position_set::PositionSet;
use vstd::prelude::*;

verus! {

/// One validated run of same-typed pieces.
pub enum Match {
    /// The cells of a straight run of four or more pieces along a row or a column.
    Straight(PositionSet),
}

impl View for Match {
    type V = Set<Position>;

    open spec fn view(&self) -> Set<Position> {
        match self {
            Match::Straight(cells) => cells@,
        }
    }
}

impl Match {
    /// The cells that form the match.
    pub fn positions(&self) -> (cells: &PositionSet)
        ensures
            cells@ == self@,
    {
        match self {
            Match::Straight(cells) => cells,
        }
    }
}

impl Clone for Match {
    fn clone(&self) -> (copy: Match)
        ensures
            copy@ == self@,
    {
        match self {
            Match::Straight(cells) => Match::Straight(cells.clone()),
        }
    }
}

/// Every position that lies in at least one of `matches`.
pub open spec fn covered(matches: Seq<Set<Position>>) -> Set<Position> {
    Set::new(
        |p: Position| exists|i: int| 0 <= i < matches.len() && #[trigger] matches[i].contains(p),
    )
}

/// Taking one more match into account adds exactly its cells.
pub proof fn lemma_covered_push(matches: Seq<Set<Position>>, next: Set<Position>)
    ensures
        covered(matches.push(next)) == covered(matches).union(next),
{
    let longer = matches.push(next);
    assert forall|p: Position| covered(longer).contains(p) <==> covered(matches).union(
        next,
    ).contains(p) by {
        if covered(longer).contains(p) {
            let i = choose|i: int| 0 <= i < longer.len() && #[trigger] longer[i].contains(p);
            if i < matches.len() {
                assert(matches[i].contains(p));
            }
        }
        if covered(matches).contains(p) {
            let i = choose|i: int| 0 <= i < matches.len() && #[trigger] matches[i].contains(p);
            assert(longer[i].contains(p));
        }
        if next.contains(p) {
            assert(longer[matches.len() as int].contains(p));
        }
    }
    assert(covered(longer) =~= covered(matches).union(next));
}

/// Two matches cover as many cells as they hold together, less the cells
/// that they share: a shared cell counts once.
pub proof fn lemma_covered_pair(first: Set<Position>, second: Set<Position>)
    requires
        first.finite(),
        second.finite(),
    ensures
        covered(seq![first, second]) == first.union(second),
        covered(seq![first, second]).finite(),
        covered(seq![first, second]).len() + first.intersect(second).len() == first.len()
            + second.len(),
{
    let both = seq![first, second];
    assert forall|p: Position| covered(both).contains(p) <==> first.union(second).contains(p) by {
        if covered(both).contains(p) {
            let i = choose|i: int| 0 <= i < both.len() && #[trigger] both[i].contains(p);
        }
        if first.contains(p) {
            assert(both[0].contains(p));
        }
        if second.contains(p) {
            assert(both[1].contains(p));
        }
    }
    assert(covered(both) =~= first.union(second));
    vstd::set_lib::lemma_set_intersect_union_lens(first, second);
}

/// The matches of one detection pass, in the order in which they were found.
pub struct Matches {
    matches: Vec<Match>,
}

impl View for Matches {
    type V = Seq<Set<Position>>;

    closed spec fn view(&self) -> Seq<Set<Position>> {
        self.matches@.map_values(|m: Match| m@)
    }
}

impl Default for Matches {
    fn default() -> (empty: Matches)
        ensures
            empty@ == Seq::<Set<Position>>::empty(),
    {
        let empty = Matches { matches: Vec::new() };
        assert(empty@ =~= Seq::<Set<Position>>::empty());
        empty
    }
}

impl Clone for Matches {
    fn clone(&self) -> (copy: Matches)
        ensures
            copy@ == self@,
    {
        let mut copy = Matches::default();
        for i in 0..self.matches.len()
            invariant
                copy@ == self@.take(i as int),
        {
            copy.add(self.matches[i].clone());
            assert(self@.take(i + 1) =~= self@.take(i as int).push(self@[i as int]));
        }
        assert(self@.take(self@.len() as int) =~= self@);
        copy
    }
}

impl Matches {
    /// Puts `mat` behind the matches already held.
    pub fn add(&mut self, mat: Match)
        ensures
            final(self)@ == old(self)@.push(mat@),
    {
        self.matches.push(mat);
        assert(self@ =~= old(self)@.push(mat@));
    }

    /// Moves the matches of `other` behind those already held, in their
    /// order, and leaves `other` empty.
    pub fn append(&mut self, other: &mut Matches)
        ensures
            final(self)@ == old(self)@ + old(other)@,
            final(other)@ == Seq::<Set<Position>>::empty(),
    {
        self.matches.append(&mut other.matches);
        assert(self@ =~= old(self)@ + old(other)@);
        assert(other@ =~= Seq::<Set<Position>>::empty());
    }

    /// The cells of all matches, each cell once however many matches share it.
    pub fn without_duplicates(&self) -> (cells: PositionSet)
        ensures
            cells@ == covered(self@),
    {
        let mut cells = PositionSet::new();
        for i in 0..self.matches.len()
            invariant
                cells@ == covered(self@.take(i as int)),
        {
            cells.insert_all(self.matches[i].positions());
            proof {
                lemma_covered_push(self@.take(i as int), self@[i as int]);
                assert(self@.take(i + 1) =~= self@.take(i as int).push(self@[i as int]));
            }
        }
        assert(self@.take(self@.len() as int) =~= self@);
        cells
    }

    /// Whether no match was found.
    pub fn is_empty(&self) -> (empty: bool)
        ensures
            empty == (self@.len() == 0),
    {
        self.matches.is_empty()
    }

    /// The number of matches.
    pub fn len(&self) -> (n: usize)
        ensures
            n == self@.len(),
    {
        self.matches.len()
    }

    /// The match at `index` in discovery order, if there are that many.
    pub fn get(&self, index: usize) -> (mat: Option<&Match>)
        ensures
            index < self@.len() ==> mat.is_some() && mat.unwrap()@ == self@[index as int],
            index >= self@.len() ==> mat.is_none(),
    {
        if index < self.matches.len() {
            Some(&self.matches[index])
        } else {
            None
        }
    }
}

} // verus!
