//! Compass headings and the one-letter tokens that name them.
use vstd::prelude::*;
use crate::tokens::chars_of;

verus! {

/// One of the four compass headings that a move follows.
#[derive(Debug, Clone, Copy, PartialEq, Eq, Structural)]
pub enum Direction {
    North,
    South,
    East,
    West,
}

/// The token did not name a heading.
#[derive(Debug, Clone, Copy, PartialEq, Eq, Structural)]
pub struct DirectionParseError;

/// The heading named by a token: exactly `N`, `S`, `E` or `W`, case-sensitive.
pub open spec fn direction_of(t: Seq<char>) -> Option<Direction> {
    if t == seq!['N'] {
        Some(Direction::North)
    } else if t == seq!['S'] {
        Some(Direction::South)
    } else if t == seq!['E'] {
        Some(Direction::East)
    } else if t == seq!['W'] {
        Some(Direction::West)
    } else {
        None
    }
}

/// The heading named by a token held as characters.
pub open spec fn spec_direction_result(t: Seq<char>) -> Result<Direction, DirectionParseError> {
    match direction_of(t) {
        Some(d) => Ok(d),
        None => Err(DirectionParseError),
    }
}

impl Direction {
    /// Reads a heading from a token given as characters.
    pub fn from_chars(t: &[char]) -> (r: Result<Direction, DirectionParseError>)
        ensures
            r == spec_direction_result(t@),
    {
        if t.len() != 1 {
            proof {
                assert(t@ != seq!['N'] && t@ != seq!['S'] && t@ != seq!['E'] && t@ != seq!['W']);
            }
            return Err(DirectionParseError);
        }
        let c = t[0];
        proof {
            assert(t@ =~= seq![c]);
        }
        if c == 'N' {
            Ok(Direction::North)
        } else if c == 'S' {
            Ok(Direction::South)
        } else if c == 'E' {
            Ok(Direction::East)
        } else if c == 'W' {
            Ok(Direction::West)
        } else {
            proof {
                assert(seq!['N'][0] == 'N');
                assert(seq!['S'][0] == 'S');
                assert(seq!['E'][0] == 'E');
                assert(seq!['W'][0] == 'W');
            }
            Err(DirectionParseError)
        }
    }
}

impl std::str::FromStr for Direction {
    type Err = DirectionParseError;

    fn from_str(s: &str) -> (r: Result<Direction, DirectionParseError>)
        ensures
            r == spec_direction_result(s@),
    {
        let cs = chars_of(s);
        Direction::from_chars(cs.as_slice())
    }
}

} // verus!
