//! Commands of the pen-plotter language and the parser for one line of text.
use vstd::prelude::*;
use crate::direction::{Direction, DirectionParseError, direction_of};
use crate::number::{parse_signed, parse_unsigned, signed_of, unsigned_of};
use crate::tokens::{chars_of, split_ascii_ws, tokens, views_of};

verus! {

/// One decoded instruction.
#[derive(Debug, Clone, Copy, PartialEq, Eq, Structural)]
pub enum Command {
    PenDown,
    PenUp,
    /// Selects the pen with this index.
    PenSelect(usize),
    /// Moves this signed distance along the heading; a negative distance goes backwards.
    Move(Direction, isize),
}

/// The line is not a valid command. No detail of the cause is kept.
#[derive(Debug, Clone, Copy, PartialEq, Eq, Structural)]
pub struct CommandParseError;

impl From<DirectionParseError> for CommandParseError {
    fn from(_e: DirectionParseError) -> (r: CommandParseError) {
        CommandParseError
    }
}

impl vstd::std_specs::convert::FromSpecImpl<DirectionParseError> for CommandParseError {
    open spec fn obeys_from_spec() -> bool {
        true
    }

    open spec fn from_spec(_e: DirectionParseError) -> CommandParseError {
        CommandParseError
    }
}

/// The command that a list of tokens forms, if it matches one of the productions
/// `U`, `D`, `P <unsigned>` or `N|S|E|W <signed>`.
pub open spec fn command_of_tokens(toks: Seq<Seq<char>>) -> Option<Command> {
    if toks.len() == 1 && toks[0] == seq!['U'] {
        Some(Command::PenUp)
    } else if toks.len() == 1 && toks[0] == seq!['D'] {
        Some(Command::PenDown)
    } else if toks.len() == 2 && toks[0] == seq!['P'] {
        match unsigned_of(toks[1]) {
            Some(n) => Some(Command::PenSelect(n)),
            None => None,
        }
    } else if toks.len() == 2 && direction_of(toks[0]) is Some {
        match signed_of(toks[1]) {
            Some(v) => Some(Command::Move(direction_of(toks[0])->0, v)),
            None => None,
        }
    } else {
        None
    }
}

/// The result of parsing one line: the command its tokens form, or the error.
pub open spec fn spec_parse_line(line: Seq<char>) -> Result<Command, CommandParseError> {
    match command_of_tokens(tokens(line)) {
        Some(c) => Ok(c),
        None => Err(CommandParseError),
    }
}

fn is_single(t: &Vec<char>, c: char) -> (r: bool)
    ensures
        r == (t@ == seq![c]),
{
    if t.len() == 1 {
        assert(t@ == seq![c] <==> t@ =~= seq![c]);
        t[0] == c
    } else {
        assert(seq![c].len() == 1);
        false
    }
}

impl Command {
    /// Parses a line held as characters.
    pub fn parse_chars(line: &[char]) -> (r: Result<Command, CommandParseError>)
        ensures
            r == spec_parse_line(line@),
    {
        let toks = split_ascii_ws(line);
        let ghost tv = tokens(line@);
        assert(tv.len() == toks@.len());
        if toks.len() == 1 {
            assert(tv[0] == toks@[0]@);
            if is_single(&toks[0], 'U') {
                return Ok(Command::PenUp);
            }
            if is_single(&toks[0], 'D') {
                return Ok(Command::PenDown);
            }
            return Err(CommandParseError);
        }
        if toks.len() != 2 {
            return Err(CommandParseError);
        }
        assert(tv[0] == toks@[0]@);
        assert(tv[1] == toks@[1]@);
        if is_single(&toks[0], 'P') {
            return match parse_unsigned(toks[1].as_slice()) {
                Some(n) => Ok(Command::PenSelect(n)),
                None => Err(CommandParseError),
            };
        }
        let d = match Direction::from_chars(toks[0].as_slice()) {
            Ok(d) => d,
            Err(e) => {
                return Err(CommandParseError::from(e));
            },
        };
        match parse_signed(toks[1].as_slice()) {
            Some(v) => Ok(Command::Move(d, v)),
            None => Err(CommandParseError),
        }
    }

    /// Parses one line of text into a command.
    pub fn parse_line(line: &str) -> (r: Result<Command, CommandParseError>)
        ensures
            r == spec_parse_line(line@),
    {
        let cs = chars_of(line);
        Command::parse_chars(cs.as_slice())
    }
}

impl std::str::FromStr for Command {
    type Err = CommandParseError;

    fn from_str(s: &str) -> (r: Result<Command, CommandParseError>)
        ensures
            r == spec_parse_line(s@),
    {
        Command::parse_line(s)
    }
}

/// Parses lines in order into commands: all of them, or the error when any line
/// is not a valid command. No partial list is returned.
pub fn parse_lines(lines: &[&str]) -> (r: Result<Vec<Command>, CommandParseError>)
    ensures
        r is Ok <==> forall|i: int| 0 <= i < lines@.len() ==> (#[trigger] spec_parse_line(lines@[i]@)) is Ok,
        r matches Ok(cmds) ==> cmds@.len() == lines@.len() && forall|i: int|
            0 <= i < lines@.len() ==> spec_parse_line(lines@[i]@) == Ok::<Command, CommandParseError>(#[trigger] cmds@[i]),
{
    let mut cmds: Vec<Command> = Vec::new();
    let mut i: usize = 0;
    while i < lines.len()
        invariant
            i <= lines@.len(),
            cmds@.len() == i,
            forall|j: int| 0 <= j < i ==> spec_parse_line(lines@[j]@) == Ok::<Command, CommandParseError>(#[trigger] cmds@[j]),
        decreases lines.len() - i,
    {
        match Command::parse_line(lines[i]) {
            Ok(c) => {
                cmds.push(c);
            },
            Err(e) => {
                return Err(e);
            },
        }
        i = i + 1;
    }
    assert forall|j: int| 0 <= j < lines@.len() implies (#[trigger] spec_parse_line(lines@[j]@)) is Ok by {
        assert(spec_parse_line(lines@[j]@) == Ok::<Command, CommandParseError>(cmds@[j]));
    }
    Ok(cmds)
}

} // verus!
