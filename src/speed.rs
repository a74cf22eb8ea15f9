use vstd::prelude::*;
use vstd::string::StrSliceExecFns;
use crate::text::{find_first, first_index_of, parse_unsigned, str_eq, unsigned_of};

verus! {

/// A time-control bucket, from fastest to slowest.
#[derive(Debug, Clone, Copy, PartialEq, Eq, Structural)]
pub enum Speed {
    UltraBullet,
    Bullet,
    Blitz,
    Rapid,
    Classical,
    Correspondence,
}

/// The bucket of a game with `seconds` of base time and `increment` seconds per move.
pub open spec fn classify(seconds: int, increment: int) -> Speed {
    let total = seconds + 40 * increment;
    if total < 30 {
        Speed::UltraBullet
    } else if total < 180 {
        Speed::Bullet
    } else if total < 480 {
        Speed::Blitz
    } else if total < 1500 {
        Speed::Rapid
    } else if total < 21_600 {
        Speed::Classical
    } else {
        Speed::Correspondence
    }
}

/// The bucket that a time-control descriptor names: `-` for no limit, else
/// `<seconds>+<increment>` in decimal.
pub open spec fn time_control(s: Seq<char>) -> Option<Speed> {
    if s == seq!['-'] {
        Some(Speed::Correspondence)
    } else {
        let k = first_index_of(s, '+');
        if k >= s.len() {
            None
        } else {
            match (unsigned_of(s.subrange(0, k)), unsigned_of(s.subrange(k + 1, s.len() as int))) {
                (Some(a), Some(b)) => Some(classify(a as int, b as int)),
                _ => None,
            }
        }
    }
}

/// The stable integer that a bucket is stored as.
pub open spec fn speed_code(s: Speed) -> u8 {
    match s {
        Speed::UltraBullet => 0,
        Speed::Bullet => 1,
        Speed::Blitz => 2,
        Speed::Rapid => 3,
        Speed::Classical => 4,
        Speed::Correspondence => 5,
    }
}

impl Speed {
    pub fn from_seconds_and_increment(seconds: u64, increment: u64) -> (r: Speed)
        ensures
            r == classify(seconds as int, increment as int),
    {
        if seconds >= 21_600 || increment >= 540 {
            return Speed::Correspondence;
        }
        let total: u64 = seconds + 40 * increment;
        if total < 30 {
            Speed::UltraBullet
        } else if total < 180 {
            Speed::Bullet
        } else if total < 480 {
            Speed::Blitz
        } else if total < 1500 {
            Speed::Rapid
        } else if total < 21_600 {
            Speed::Classical
        } else {
            Speed::Correspondence
        }
    }

    /// Reads a time-control descriptor.
    pub fn from_bytes(s: &str) -> (r: Result<Speed, ()>)
        ensures
            r is Ok <==> time_control(s@).is_some(),
            r is Ok ==> r->Ok_0 == time_control(s@).unwrap(),
    {
        proof {
            reveal_strlit("-");
            assert("-"@ =~= seq!['-']);
        }
        if str_eq(s, "-") {
            return Ok(Speed::Correspondence);
        }
        let n = s.unicode_len();
        let k = find_first(s, '+');
        if k >= n {
            return Err(());
        }
        let seconds = parse_unsigned(s.substring_char(0, k));
        let increment = parse_unsigned(s.substring_char(k + 1, n));
        proof {
            assert(s@ != seq!['-']);
        }
        match (seconds, increment) {
            (Some(a), Some(b)) => Ok(Speed::from_seconds_and_increment(a, b)),
            _ => Err(()),
        }
    }

    /// The bucket stored as `u`.
    pub fn from(u: u8) -> (r: Speed)
        requires
            u < 6,
        ensures
            speed_code(r) == u,
    {
        match u {
            0 => Speed::UltraBullet,
            1 => Speed::Bullet,
            2 => Speed::Blitz,
            3 => Speed::Rapid,
            4 => Speed::Classical,
            _ => Speed::Correspondence,
        }
    }

    /// The stable integer that this bucket is stored as.
    pub fn code(self) -> (r: u8)
        ensures
            r == speed_code(self),
    {
        match self {
            Speed::UltraBullet => 0,
            Speed::Bullet => 1,
            Speed::Blitz => 2,
            Speed::Rapid => 3,
            Speed::Classical => 4,
            Speed::Correspondence => 5,
        }
    }
}

} // verus!
