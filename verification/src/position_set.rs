//! A hashed set of grid positions.

use crate::position::Position;
use std::collections::HashSet;
use vstd::prelude::*;
use vstd::std_specs::iter::IteratorSpec;

verus! {

broadcast use vstd::std_specs::hash::group_hash_axioms;

/// An unordered collection of distinct positions. Each position is stored
/// as its integer key.
pub struct PositionSet {
    keys: HashSet<u64>,
}

impl View for PositionSet {
    type V = Set<Position>;

    closed spec fn view(&self) -> Set<Position> {
        self.keys@.map(|k: u64| Position::spec_from_key(k))
    }
}

impl PositionSet {
    /// There are finitely many keys, and as many positions as keys.
    proof fn lemma_keys_finite(&self)
        ensures
            self.keys@.finite(),
            self@.finite(),
            self@.len() == self.keys@.len(),
    {
        let listed = vstd::std_specs::hash::spec_hash_keys_iter(&self.keys).remaining().unref();
        vstd::seq_lib::seq_to_set_is_finite(listed);
        Position::lemma_key_bijection();
        let unpack = |k: u64| Position::spec_from_key(k);
        assert(vstd::relations::injective_on(unpack, self.keys@)) by {
            assert forall|a: u64, b: u64| #[trigger]
                unpack(a) == #[trigger] unpack(b) implies a == b by {
                assert(Position::spec_from_key(a).spec_key() == a);
                assert(Position::spec_from_key(b).spec_key() == b);
            }
        }
        vstd::set_lib::lemma_map_size(self.keys@, self@, unpack);
    }

    /// A set holds finitely many positions.
    pub proof fn lemma_finite(&self)
        ensures
            self@.finite(),
    {
        self.lemma_keys_finite();
    }

    /// A position belongs to the set exactly when its key is stored.
    proof fn lemma_view_contains(&self, p: Position)
        ensures
            self@.contains(p) <==> self.keys@.contains(p.spec_key()),
    {
        Position::lemma_key_bijection();
        if self.keys@.contains(p.spec_key()) {
            assert(Position::spec_from_key(p.spec_key()) == p);
        }
    }

    /// The set with no positions.
    pub fn new() -> (s: PositionSet)
        ensures
            s@ == Set::<Position>::empty(),
    {
        let s = PositionSet { keys: HashSet::new() };
        assert(s@ =~= Set::<Position>::empty());
        s
    }

    /// Adds `pos`; returns whether it was absent before.
    pub fn insert(&mut self, pos: Position) -> (fresh: bool)
        ensures
            final(self)@ == old(self)@.insert(pos),
            fresh == !old(self)@.contains(pos),
    {
        proof {
            self.lemma_view_contains(pos);
        }
        let ghost before = *self;
        let fresh = self.keys.insert(pos.key());
        proof {
            assert forall|p: Position| self@.contains(p) <==> before@.insert(pos).contains(p) by {
                self.lemma_view_contains(p);
                before.lemma_view_contains(p);
                Position::lemma_key_bijection();
            }
            assert(self@ =~= before@.insert(pos));
        }
        fresh
    }

    /// Whether `pos` belongs to the set.
    pub fn contains(&self, pos: &Position) -> (found: bool)
        ensures
            found == self@.contains(*pos),
    {
        proof {
            self.lemma_view_contains(*pos);
        }
        let key = pos.key();
        self.keys.contains(&key)
    }

    /// The number of positions in the set.
    pub fn len(&self) -> (n: usize)
        ensures
            n == self@.len(),
            self@.finite(),
    {
        proof {
            self.lemma_keys_finite();
        }
        self.keys.len()
    }

    /// Whether the set holds no position.
    pub fn is_empty(&self) -> (empty: bool)
        ensures
            empty == self@.is_empty(),
    {
        proof {
            assert forall|p: Position| self@.contains(p) implies self.keys@.contains(
                p.spec_key(),
            ) by {
                self.lemma_view_contains(p);
            }
            assert forall|k: u64| self.keys@.contains(k) implies self@.contains(
                Position::spec_from_key(k),
            ) by {
                Position::lemma_key_bijection();
                self.lemma_view_contains(Position::spec_from_key(k));
            }
            if self@.is_empty() {
                assert(self.keys@ =~= Set::<u64>::empty());
            }
            if self.keys@.is_empty() {
                assert(self@ =~= Set::<Position>::empty());
            }
        }
        self.keys.is_empty()
    }

    /// The set of the positions that occur in `positions`.
    pub fn from_positions(positions: &Vec<Position>) -> (s: PositionSet)
        ensures
            s@ == positions@.to_set(),
    {
        let mut s = PositionSet::new();
        for i in 0..positions.len()
            invariant
                s@ == positions@.take(i as int).to_set(),
        {
            s.insert(positions[i]);
            proof {
                let head = positions@.take(i as int);
                assert(positions@.take(i + 1) =~= head.push(positions@[i as int]));
                head.lemma_push_to_set_commute(positions@[i as int]);
            }
        }
        proof {
            assert(positions@.take(positions@.len() as int) =~= positions@);
        }
        s
    }

    /// The positions of the set, each once, in no particular order.
    pub fn to_vec(&self) -> (positions: Vec<Position>)
        ensures
            positions@.no_duplicates(),
            positions@.to_set() == self@,
    {
        let mut positions: Vec<Position> = Vec::new();
        let ghost listed = vstd::std_specs::hash::spec_hash_keys_iter(
            &self.keys,
        ).remaining().unref();
        for key in it: self.keys.iter()
            invariant
                it.seq().unref() == listed,
                listed.to_set() == self.keys@,
                listed.no_duplicates(),
                positions@ == listed.take(it.index()).map_values(
                    |k: u64| Position::spec_from_key(k),
                ),
        {
            let ghost done = it.index();
            positions.push(Position::from_key(*key));
            proof {
                assert(listed.take(done + 1) =~= listed.take(done).push(*key));
                assert(positions@ =~= listed.take(done + 1).map_values(
                    |k: u64| Position::spec_from_key(k),
                ));
            }
        }
        proof {
            assert(positions@.len() == listed.len());
            assert(listed.take(listed.len() as int) =~= listed);
            Position::lemma_key_bijection();
            assert forall|i: int, j: int|
                0 <= i < positions@.len() && 0 <= j < positions@.len() && i
                    != j implies positions@[i] != positions@[j] by {
                assert(Position::spec_from_key(listed[i]).spec_key() == listed[i]);
                assert(Position::spec_from_key(listed[j]).spec_key() == listed[j]);
            }
            assert forall|p: Position| positions@.to_set().contains(p) <==> self@.contains(p) by {
                self.lemma_view_contains(p);
                if positions@.to_set().contains(p) {
                    let i = choose|i: int| 0 <= i < positions@.len() && positions@[i] == p;
                    assert(listed.to_set().contains(listed[i]));
                    assert(Position::spec_from_key(listed[i]).spec_key() == listed[i]);
                }
                if self.keys@.contains(p.spec_key()) {
                    assert(listed.to_set().contains(p.spec_key()));
                    let i = choose|i: int| 0 <= i < listed.len() && listed[i] == p.spec_key();
                    assert(positions@[i] == p);
                }
            }
            assert(positions@.to_set() =~= self@);
        }
        positions
    }

    /// Adds every position of `other`.
    pub fn insert_all(&mut self, other: &PositionSet)
        ensures
            final(self)@ == old(self)@.union(other@),
    {
        let ghost before = *self;
        let ghost listed = vstd::std_specs::hash::spec_hash_keys_iter(
            &other.keys,
        ).remaining().unref();
        let ghost done: int = 0;
        for key in it: other.keys.iter()
            invariant
                it.seq().unref() == listed,
                it.index() == done,
                listed.to_set() == other.keys@,
                self.keys@ == before.keys@.union(listed.take(done).to_set()),
        {
            self.keys.insert(*key);
            proof {
                assert(listed.take(done + 1) =~= listed.take(done).push(*key));
                listed.take(done).lemma_push_to_set_commute(*key);
                assert(self.keys@ =~= before.keys@.union(listed.take(done + 1).to_set()));
                done = done + 1;
            }
        }
        proof {
            assert(listed.take(listed.len() as int) =~= listed);
            assert forall|p: Position| self@.contains(p) <==> before@.union(other@).contains(p) by {
                self.lemma_view_contains(p);
                before.lemma_view_contains(p);
                other.lemma_view_contains(p);
            }
            assert(self@ =~= before@.union(other@));
        }
    }
}

impl Clone for PositionSet {
    fn clone(&self) -> (copy: PositionSet)
        ensures
            copy@ == self@,
    {
        let mut copy = PositionSet::new();
        copy.insert_all(self);
        assert(copy@ =~= self@);
        copy
    }
}

} // verus!
