use vstd::prelude::*;

verus! {

/// How a game ended.
#[derive(Debug, Clone, Copy, PartialEq, Eq, Structural)]
pub enum Outcome {
    WhiteWin,
    BlackWin,
    Draw,
}

/// The outcome that a result header spells: `1-0`, `0-1` or `1/2-1/2`.
pub open spec fn outcome_of(s: Seq<char>) -> Option<Outcome> {
    if s == seq!['1', '-', '0'] {
        Some(Outcome::WhiteWin)
    } else if s == seq!['0', '-', '1'] {
        Some(Outcome::BlackWin)
    } else if s == seq!['1', '/', '2', '-', '1', '/', '2'] {
        Some(Outcome::Draw)
    } else {
        None
    }
}

/// The stable integer that an outcome is stored as.
pub open spec fn outcome_code(o: Outcome) -> u8 {
    match o {
        Outcome::WhiteWin => 1,
        Outcome::BlackWin => 2,
        Outcome::Draw => 3,
    }
}

/// Relies on shakmaty's `Outcome::from_ascii`, as pgn-reader re-exports it: it
/// accepts exactly `1-0`, `0-1` and `1/2-1/2`.
#[verifier::external_body]
pub(crate) fn parse_outcome(s: &str) -> (r: Option<Outcome>)
    ensures
        r == outcome_of(s@),
{
    match pgn_reader::Outcome::from_ascii(s.as_bytes()) {
        Ok(pgn_reader::Outcome::Decisive { winner: pgn_reader::Color::White }) => Some(Outcome::WhiteWin),
        Ok(pgn_reader::Outcome::Decisive { winner: pgn_reader::Color::Black }) => Some(Outcome::BlackWin),
        Ok(pgn_reader::Outcome::Draw) => Some(Outcome::Draw),
        Err(_) => None,
    }
}

impl Outcome {
    /// The outcome stored as `u`.
    pub fn from_code(u: u8) -> (r: Option<Outcome>)
        ensures
            r.is_some() <==> 1 <= u <= 3,
            r.is_some() ==> outcome_code(r.unwrap()) == u,
    {
        match u {
            1 => Some(Outcome::WhiteWin),
            2 => Some(Outcome::BlackWin),
            3 => Some(Outcome::Draw),
            _ => None,
        }
    }

    /// The stable integer that this outcome is stored as.
    pub fn code(self) -> (r: u8)
        ensures
            r == outcome_code(self),
    {
        match self {
            Outcome::WhiteWin => 1,
            Outcome::BlackWin => 2,
            Outcome::Draw => 3,
        }
    }
}

} // verus!
