//! The closed taxonomy of failures.
use vstd::prelude::*;
use vstd::string::*;
use crate::command::{opt_text, texts};
use crate::command::parser::{comma_list_or, join_or};
use crate::text::{nat_text, push_nat};

verus! {

/// Failure of a parser: an optional human message, the descriptions of what
/// was expected, and how many characters of the input were matched before
/// the failure (used to rank competing failures).
#[derive(Debug, PartialEq, Clone)]
pub struct ParseError {
    pub message: Option<String>,
    pub expected: Vec<String>,
    pub offset: usize,
}

/// The mathematical content of a `ParseError`.
pub struct ParseFailure {
    pub message: Option<Seq<char>>,
    pub expected: Seq<Seq<char>>,
    pub offset: nat,
}

impl View for ParseError {
    type V = ParseFailure;

    open spec fn view(&self) -> ParseFailure {
        ParseFailure { message: opt_text(self.message), expected: texts(self.expected@), offset: self.offset as nat }
    }
}

/// The text shown to a player for a parse failure.
pub open spec fn failure_text(f: ParseFailure) -> Seq<char> {
    match f.message {
        Some(m) => m + ", expected "@ + join_or(f.expected),
        None => "expected "@ + join_or(f.expected),
    }
}

impl ParseError {
    /// The text shown to a player for this failure.
    pub fn to_message(&self) -> (r: String)
        ensures
            r@ == failure_text(self@),
    {
        let mut s = String::new();
        match &self.message {
            Some(m) => {
                s.append(m.as_str());
                s.append(", expected ");
            },
            None => {
                s.append("expected ");
            },
        }
        let list = comma_list_or(self.expected.as_slice());
        s.append(list.as_str());
        assert(s@ =~= failure_text(self@));
        s
    }
}

/// Errors of the turn-dispatch layer, and the parse failure that the
/// combinators produce.
#[derive(Debug, PartialEq, Clone)]
pub enum GameError {
    /// Minimum, maximum and given player count.
    PlayerCount(usize, usize, usize),
    InvalidInput(String),
    NotYourTurn,
    Finished,
    Internal(String),
    Parse(ParseError),
}

/// "n" when both bounds are equal, otherwise "min to max".
pub open spec fn player_range_text(min: nat, max: nat) -> Seq<char> {
    if min == max {
        nat_text(min)
    } else {
        nat_text(min) + " to "@ + nat_text(max)
    }
}

/// Renders the accepted player counts.
pub fn player_range_output(min: usize, max: usize) -> (r: String)
    ensures
        r@ == player_range_text(min as nat, max as nat),
{
    let mut s = String::new();
    push_nat(&mut s, min as u128);
    if min != max {
        s.append(" to ");
        push_nat(&mut s, max as u128);
    }
    assert(s@ =~= player_range_text(min as nat, max as nat));
    s
}

impl GameError {
    /// The text shown for this error.
    pub open spec fn text(&self) -> Seq<char> {
        match self {
            GameError::PlayerCount(min, max, given) => "not for "@ + nat_text(*given as nat) + " players, expected "@
                + player_range_text(*min as nat, *max as nat),
            GameError::InvalidInput(m) => m@,
            GameError::NotYourTurn => "not your turn"@,
            GameError::Finished => "game is already finished"@,
            GameError::Internal(m) => "internal error: "@ + m@,
            GameError::Parse(e) => failure_text(e@),
        }
    }

    /// The text shown for this error.
    pub fn message(&self) -> (r: String)
        ensures
            r@ == self.text(),
    {
        match self {
            GameError::PlayerCount(min, max, given) => {
                let mut s = String::new();
                s.append("not for ");
                push_nat(&mut s, *given as u128);
                s.append(" players, expected ");
                let range = player_range_output(*min, *max);
                s.append(range.as_str());
                assert(s@ =~= self.text());
                s
            },
            GameError::InvalidInput(m) => m.clone(),
            GameError::NotYourTurn => String::from_str("not your turn"),
            GameError::Finished => String::from_str("game is already finished"),
            GameError::Internal(m) => {
                let mut s = String::from_str("internal error: ");
                s.append(m.as_str());
                s
            },
            GameError::Parse(e) => e.to_message(),
        }
    }

    /// A short description of the kind of error.
    pub fn description(&self) -> (r: &'static str)
        ensures
            r@ == match self {
                GameError::PlayerCount(..) => "incorrect player count"@,
                GameError::InvalidInput(_) => "invalid input"@,
                GameError::NotYourTurn => "not your turn"@,
                GameError::Finished => "game is already finished"@,
                GameError::Internal(_) => "internal error"@,
                GameError::Parse(_) => "parse error"@,
            },
    {
        match self {
            GameError::PlayerCount(..) => "incorrect player count",
            GameError::InvalidInput(_) => "invalid input",
            GameError::NotYourTurn => "not your turn",
            GameError::Finished => "game is already finished",
            GameError::Internal(_) => "internal error",
            GameError::Parse(_) => "parse error",
        }
    }
}

} // verus!
