//! The decisions of the fuzz driver: what to do next, and how to count the
//! outcome of each command. Running games and drawing random numbers is the
//! caller's part.
use vstd::prelude::*;
use vstd::string::*;
use crate::error::GameError;
use crate::text::{nat_text, push_nat};

verus! {

/// What the fuzz driver does next.
#[derive(Debug, PartialEq, Eq)]
pub enum FuzzStep {
    /// Start a game for this many players.
    NewGame { player_count: usize },
    /// Ask this player's bot for a command.
    Command { player: usize },
    /// The step budget is spent.
    Done,
}

/// Counters of a fuzz run and the steps it may still take.
#[derive(Debug, PartialEq, Eq)]
pub struct FuzzTally {
    pub game_count: usize,
    pub command_count: usize,
    pub invalid_input_count: usize,
    pub steps_left: usize,
}

/// `n + 1`, or `n` at the top of the range.
pub open spec fn bump(n: usize) -> usize {
    if n < usize::MAX {
        (n + 1) as usize
    } else {
        n
    }
}

fn incr(n: usize) -> (r: usize)
    ensures
        r == bump(n),
{
    if n < usize::MAX {
        n + 1
    } else {
        n
    }
}

/// "Games: g\tCommands: c\tInvalid inputs: i".
pub open spec fn status_text(t: FuzzTally) -> Seq<char> {
    "Games: "@ + nat_text(t.game_count as nat) + "\tCommands: "@ + nat_text(t.command_count as nat)
        + "\tInvalid inputs: "@ + nat_text(t.invalid_input_count as nat)
}

impl FuzzTally {
    /// A run that may take `steps` steps.
    pub fn new(steps: usize) -> (r: Self)
        ensures
            r == (FuzzTally { game_count: 0, command_count: 0, invalid_input_count: 0, steps_left: steps }),
    {
        FuzzTally { game_count: 0, command_count: 0, invalid_input_count: 0, steps_left: steps }
    }

    /// Decides the next step. Without a running game a new one starts, for
    /// the player count at `pick` (modulo their number) among
    /// `player_counts`; otherwise the player at `pick` among `whose_turn`
    /// acts. Each step but `Done` spends one unit of the budget.
    pub fn next_step(&mut self, game_running: bool, player_counts: &Vec<usize>, whose_turn: &Vec<usize>, pick: usize) -> (r:
        Result<FuzzStep, GameError>)
        ensures
            old(self).steps_left == 0 ==> r == Ok::<FuzzStep, GameError>(FuzzStep::Done),
            old(self).steps_left == 0 ==> *final(self) == *old(self),
            old(self).steps_left > 0 && !game_running && player_counts@.len() > 0 ==> r == Ok::<FuzzStep, GameError>(
                FuzzStep::NewGame { player_count: player_counts@[pick as int % player_counts@.len() as int] },
            ),
            old(self).steps_left > 0 && !game_running && player_counts@.len() > 0 ==> final(self).game_count == bump(
                old(self).game_count,
            ),
            game_running ==> final(self).game_count == old(self).game_count,
            old(self).steps_left > 0 && game_running && whose_turn@.len() > 0 ==> r == Ok::<FuzzStep, GameError>(
                FuzzStep::Command { player: whose_turn@[pick as int % whose_turn@.len() as int] },
            ),
            old(self).steps_left > 0 && !game_running && player_counts@.len() == 0 ==> r matches Err(
                GameError::Internal(_),
            ),
            old(self).steps_left > 0 && game_running && whose_turn@.len() == 0 ==> r matches Err(
                GameError::Internal(_),
            ),
            old(self).steps_left > 0 ==> final(self).steps_left == old(self).steps_left - 1,
            final(self).command_count == old(self).command_count,
            final(self).invalid_input_count == old(self).invalid_input_count,
    {
        if self.steps_left == 0 {
            return Ok(FuzzStep::Done);
        }
        self.steps_left = self.steps_left - 1;
        if !game_running {
            if player_counts.len() == 0 {
                return Err(GameError::Internal(String::from_str("no player counts for game type")));
            }
            self.game_count = incr(self.game_count);
            Ok(FuzzStep::NewGame { player_count: player_counts[pick % player_counts.len()] })
        } else {
            if whose_turn.len() == 0 {
                return Err(GameError::Internal(String::from_str("is nobody's turn")));
            }
            Ok(FuzzStep::Command { player: whose_turn[pick % whose_turn.len()] })
        }
    }

    /// Counts the outcome of a command. An `InvalidInput` failure is
    /// expected of bots and only counted; any other failure is a defect of
    /// the game, and the result is then `false`: the run must stop.
    pub fn record(&mut self, outcome: &Result<(), GameError>) -> (r: bool)
        ensures
            final(self).command_count == bump(old(self).command_count),
            final(self).game_count == old(self).game_count,
            final(self).steps_left == old(self).steps_left,
            r == (outcome is Ok || outcome matches Err(GameError::InvalidInput(_))),
            final(self).invalid_input_count == if outcome matches Err(GameError::InvalidInput(_)) {
                bump(old(self).invalid_input_count)
            } else {
                old(self).invalid_input_count
            },
    {
        self.command_count = incr(self.command_count);
        match outcome {
            Ok(()) => true,
            Err(GameError::InvalidInput(_)) => {
                self.invalid_input_count = incr(self.invalid_input_count);
                true
            },
            Err(_) => false,
        }
    }

    /// A one-line summary of the run.
    pub fn status(&self) -> (r: String)
        ensures
            r@ == status_text(*self),
    {
        let mut s = String::from_str("Games: ");
        push_nat(&mut s, self.game_count as u128);
        s.append("\tCommands: ");
        push_nat(&mut s, self.command_count as u128);
        s.append("\tInvalid inputs: ");
        push_nat(&mut s, self.invalid_input_count as u128);
        assert(s@ =~= status_text(*self));
        s
    }
}

} // verus!
