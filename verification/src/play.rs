//! One turn of the game: a player drops a piece, and the grid tells whether
//! that wins the game or whose turn is next.

use crate::grid::{ElemError, Grid, GridView};
use vstd::prelude::*;

verus! {

/// The two kinds of piece, one for each player.
#[derive(Clone, Copy, Debug, PartialEq, Eq, Structural)]
pub enum ElementType {
    /// The pieces of the player who moves first.
    Red,
    /// The pieces of the player who moves second.
    Blue,
}

impl ElementType {
    /// The number under which the grid stores pieces of this kind.
    pub open spec fn spec_tag(self) -> u32 {
        match self {
            ElementType::Red => 0,
            ElementType::Blue => 1,
        }
    }

    /// The number under which the grid stores pieces of this kind.
    #[verifier::when_used_as_spec(spec_tag)]
    pub fn tag(self) -> (tag: u32)
        ensures
            tag == self.spec_tag(),
    {
        match self {
            ElementType::Red => 0,
            ElementType::Blue => 1,
        }
    }
}

/// The player who moves after `player`: the second after the first, and the
/// first after anyone else.
pub open spec fn spec_next_player(player: u32) -> u32 {
    if player == 0 {
        1
    } else {
        0
    }
}

/// The player who moves after `player`.
#[verifier::when_used_as_spec(spec_next_player)]
pub fn next_player(player: u32) -> (next: u32)
    ensures
        next == spec_next_player(player),
{
    match player {
        0 => 1,
        _ => 0,
    }
}

/// How a move that was carried out has left the game.
#[derive(Clone, Copy, Debug, PartialEq, Eq, Structural)]
pub enum MoveOutcome {
    /// The grid holds a match: the player named here, who has just moved,
    /// has won.
    Won(u32),
    /// The grid holds no match: it is the turn of the player named here.
    NextTurn(u32),
}

impl GridView {
    /// What comes of `player` dropping a piece into `column`: the reason for
    /// which the drop is rejected, or else a win if the grid then holds a
    /// match, and the other player's turn if it holds none.
    pub open spec fn move_outcome(self, player: u32, column: u32) -> Result<
        MoveOutcome,
        ElemError,
    > {
        match self.place_result(column) {
            Err(e) => Err(e),
            Ok(_) => if self.placed(column, player).all_matches().len() > 0 {
                Ok(MoveOutcome::Won(player))
            } else {
                Ok(MoveOutcome::NextTurn(spec_next_player(player)))
            },
        }
    }
}

/// Carries out one move: drops a piece of `player` into `column` and looks
/// for matches. A rejected drop changes nothing and is reported with its
/// reason, so that the same player can be asked again.
pub fn apply_move(grid: &mut Grid, player: u32, column: u32) -> (outcome: Result<
    MoveOutcome,
    ElemError,
>)
    ensures
        final(grid)@ == old(grid)@.placed(column, player),
        outcome == old(grid)@.move_outcome(player, column),
{
    match grid.add_at_column(column, player) {
        Err(e) => Err(e),
        Ok(_) => {
            let matches = grid.get_matches();
            if !matches.is_empty() {
                Ok(MoveOutcome::Won(player))
            } else {
                Ok(MoveOutcome::NextTurn(next_player(player)))
            }
        },
    }
}

} // verus!
