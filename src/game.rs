//! What the turn-dispatch guards read of a game's status, and the guards.
use vstd::prelude::*;
use crate::error::GameError;

verus! {

/// The part of a game's status that turn sequencing depends on: whose turn
/// it is and who is eliminated while it runs, or who won once it is over.
#[derive(Debug, PartialEq)]
pub enum Phase {
    Active { whose_turn: Vec<usize>, eliminated: Vec<usize> },
    Finished { winners: Vec<usize> },
}

fn copy_players(v: &Vec<usize>) -> (r: Vec<usize>)
    ensures
        r@ == v@,
{
    let mut r: Vec<usize> = Vec::new();
    let mut i: usize = 0;
    while i < v.len()
        invariant
            i <= v@.len(),
            r@ == v@.take(i as int),
        decreases v@.len() - i,
    {
        r.push(v[i]);
        assert(v@.take(i + 1) =~= v@.take(i as int).push(v@[i as int]));
        i = i + 1;
    }
    assert(v@.take(i as int) =~= v@);
    r
}

impl Phase {
    /// The players who may act now (none once finished).
    pub open spec fn turn(&self) -> Seq<usize> {
        match self {
            Phase::Active { whose_turn, .. } => whose_turn@,
            Phase::Finished { .. } => Seq::empty(),
        }
    }

    pub fn is_finished(&self) -> (r: bool)
        ensures
            r == self is Finished,
    {
        match self {
            Phase::Finished { .. } => true,
            _ => false,
        }
    }

    pub fn whose_turn(&self) -> (r: Vec<usize>)
        ensures
            r@ == self.turn(),
    {
        match self {
            Phase::Active { whose_turn, .. } => copy_players(whose_turn),
            _ => Vec::new(),
        }
    }

    pub fn eliminated(&self) -> (r: Vec<usize>)
        ensures
            r@ == match self {
                Phase::Active { eliminated, .. } => eliminated@,
                Phase::Finished { .. } => Seq::empty(),
            },
    {
        match self {
            Phase::Active { eliminated, .. } => copy_players(eliminated),
            _ => Vec::new(),
        }
    }

    pub fn winners(&self) -> (r: Vec<usize>)
        ensures
            r@ == match self {
                Phase::Finished { winners } => winners@,
                Phase::Active { .. } => Seq::empty(),
            },
    {
        match self {
            Phase::Finished { winners } => copy_players(winners),
            _ => Vec::new(),
        }
    }

    /// Fails with `Finished` once the game is over.
    pub fn assert_not_finished(&self) -> (r: Result<(), GameError>)
        ensures
            self is Finished ==> r == Err::<(), GameError>(GameError::Finished),
            !(self is Finished) ==> r is Ok,
    {
        if self.is_finished() {
            Err(GameError::Finished)
        } else {
            Ok(())
        }
    }

    /// Fails with `NotYourTurn` unless `player` may act now.
    pub fn assert_player_turn(&self, player: usize) -> (r: Result<(), GameError>)
        ensures
            self.turn().contains(player) ==> r is Ok,
            !self.turn().contains(player) ==> r == Err::<(), GameError>(GameError::NotYourTurn),
    {
        let wt = self.whose_turn();
        let mut i: usize = 0;
        while i < wt.len()
            invariant
                i <= wt@.len(),
                wt@ == self.turn(),
                forall|j: int| 0 <= j < i ==> wt@[j] != player,
            decreases wt@.len() - i,
        {
            if wt[i] == player {
                assert(wt@[i as int] == player);
                return Ok(());
            }
            i = i + 1;
        }
        Err(GameError::NotYourTurn)
    }
}

} // verus!
