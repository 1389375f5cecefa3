use pen_plotter::Command;
use pen_plotter::CommandParseError;
use pen_plotter::Direction::{self, East, North, South, West};
use pen_plotter::DirectionParseError;
use pen_plotter::parse_lines;

fn into_commands(command_strs: &[&str]) -> Result<Vec<Command>, CommandParseError> {
    parse_lines(command_strs)
}

#[test]
fn parsing_pen_select_works() {
    assert_eq!("P 4".parse::<Command>(), Ok(Command::PenSelect(4)));
}

#[test]
fn parsing_direction_works() {
    assert_eq!("N 7".parse::<Command>(), Ok(Command::Move(North, 7)));
    assert_eq!("W -7".parse::<Command>(), Ok(Command::Move(West, -7)));
    assert_eq!("S 1".parse::<Command>(), Ok(Command::Move(South, 1)));
    assert_eq!("E 2".parse::<Command>(), Ok(Command::Move(East, 2)));
}

#[test]
fn parsing_pen_down_works() {
    assert_eq!("D".parse::<Command>(), Ok(Command::PenDown));
}

#[test]
fn parsing_works() {
    let commands = ["P 3", "D", "S 7", "W -9", "U", "N 4", "E 5"];

    let expected = vec![
        Command::PenSelect(3),
        Command::PenDown,
        Command::Move(South, 7),
        Command::Move(West, -9),
        Command::PenUp,
        Command::Move(North, 4),
        Command::Move(East, 5),
    ];

    assert_eq!(into_commands(&commands), Ok(expected));
}

#[test]
fn parsing_invalid_command_seq_works() {
    let commands = ["D", "E u"];
    assert_eq!(into_commands(&commands), Err(CommandParseError));
}

#[test]
fn parsing_invalid_command_works() {
    assert_eq!("E".parse::<Command>(), Err(CommandParseError));
}

#[test]
fn pen_up_parses() {
    assert_eq!("U".parse::<Command>(), Ok(Command::PenUp));
    assert_eq!(Command::parse_line("U"), Ok(Command::PenUp));
}

#[test]
fn pen_letters_with_trailing_tokens_fail() {
    assert_eq!("U x".parse::<Command>(), Err(CommandParseError));
    assert_eq!("D 1".parse::<Command>(), Err(CommandParseError));
}

#[test]
fn surrounding_and_inner_whitespace_is_ignored() {
    assert_eq!(" \t N   7 \r\n".parse::<Command>(), Ok(Command::Move(North, 7)));
    assert_eq!("\x0CU\x0C".parse::<Command>(), Ok(Command::PenUp));
    assert_eq!("P\t12".parse::<Command>(), Ok(Command::PenSelect(12)));
}

#[test]
fn vertical_tab_does_not_separate_tokens() {
    assert_eq!("N\x0B7".parse::<Command>(), Err(CommandParseError));
}

#[test]
fn empty_and_blank_lines_fail() {
    assert_eq!("".parse::<Command>(), Err(CommandParseError));
    assert_eq!("  \t ".parse::<Command>(), Err(CommandParseError));
}

#[test]
fn unknown_leading_token_fails() {
    assert_eq!("X 3".parse::<Command>(), Err(CommandParseError));
    assert_eq!("n 3".parse::<Command>(), Err(CommandParseError));
    assert_eq!("NN 3".parse::<Command>(), Err(CommandParseError));
}

#[test]
fn non_integer_distance_fails() {
    assert_eq!("E u".parse::<Command>(), Err(CommandParseError));
    assert_eq!("E 1.5".parse::<Command>(), Err(CommandParseError));
    assert_eq!("N -".parse::<Command>(), Err(CommandParseError));
    assert_eq!("N --1".parse::<Command>(), Err(CommandParseError));
}

#[test]
fn too_many_tokens_fail() {
    assert_eq!("P 4 5".parse::<Command>(), Err(CommandParseError));
    assert_eq!("N 1 2".parse::<Command>(), Err(CommandParseError));
}

#[test]
fn pen_index_rejects_signs() {
    assert_eq!("P -1".parse::<Command>(), Err(CommandParseError));
    assert_eq!("P +1".parse::<Command>(), Err(CommandParseError));
    assert_eq!("P -0".parse::<Command>(), Err(CommandParseError));
}

#[test]
fn distance_rejects_plus_sign() {
    assert_eq!("N +1".parse::<Command>(), Err(CommandParseError));
}

#[test]
fn leading_zeros_are_accepted() {
    assert_eq!("P 007".parse::<Command>(), Ok(Command::PenSelect(7)));
    assert_eq!("S -0042".parse::<Command>(), Ok(Command::Move(South, -42)));
    assert_eq!("N -0".parse::<Command>(), Ok(Command::Move(North, 0)));
}

#[test]
fn pen_index_range_edges() {
    let max = format!("P {}", usize::MAX);
    assert_eq!(max.parse::<Command>(), Ok(Command::PenSelect(usize::MAX)));
    let over = format!("P {}0", usize::MAX);
    assert_eq!(over.parse::<Command>(), Err(CommandParseError));
    let next = format!("P {}", (usize::MAX as u128) + 1);
    assert_eq!(next.parse::<Command>(), Err(CommandParseError));
}

#[test]
fn distance_range_edges() {
    let max = format!("E {}", isize::MAX);
    assert_eq!(max.parse::<Command>(), Ok(Command::Move(East, isize::MAX)));
    let min = format!("W {}", isize::MIN);
    assert_eq!(min.parse::<Command>(), Ok(Command::Move(West, isize::MIN)));
    let above = format!("E {}", (isize::MAX as i128) + 1);
    assert_eq!(above.parse::<Command>(), Err(CommandParseError));
    let below = format!("W {}", (isize::MIN as i128) - 1);
    assert_eq!(below.parse::<Command>(), Err(CommandParseError));
}

#[test]
fn reparsing_gives_the_same_result() {
    for line in ["P 3", "W -9", "E u", "", "U"] {
        assert_eq!(Command::parse_line(line), Command::parse_line(line));
    }
}

#[test]
fn canonical_lines_parse_back() {
    let cases = [
        (String::from("U"), Command::PenUp),
        (String::from("D"), Command::PenDown),
        (format!("P {}", 0), Command::PenSelect(0)),
        (format!("P {}", 123), Command::PenSelect(123)),
        (format!("N {}", -5), Command::Move(North, -5)),
        (format!("S {}", 0), Command::Move(South, 0)),
        (format!("E {}", 99), Command::Move(East, 99)),
        (format!("W {}", isize::MIN), Command::Move(West, isize::MIN)),
    ];
    for (line, cmd) in cases {
        assert_eq!(line.parse::<Command>(), Ok(cmd));
    }
}

#[test]
fn sequence_fails_on_any_bad_line() {
    assert_eq!(into_commands(&["P 1", "Q", "U"]), Err(CommandParseError));
    assert_eq!(into_commands(&["P 1", "U", "W"]), Err(CommandParseError));
    assert_eq!(into_commands(&[]), Ok(vec![]));
}

#[test]
fn direction_tokens_parse() {
    assert_eq!("N".parse::<Direction>(), Ok(North));
    assert_eq!("S".parse::<Direction>(), Ok(South));
    assert_eq!("E".parse::<Direction>(), Ok(East));
    assert_eq!("W".parse::<Direction>(), Ok(West));
}

#[test]
fn direction_tokens_are_exact() {
    assert_eq!("n".parse::<Direction>(), Err(DirectionParseError));
    assert_eq!(" N".parse::<Direction>(), Err(DirectionParseError));
    assert_eq!("NW".parse::<Direction>(), Err(DirectionParseError));
    assert_eq!("".parse::<Direction>(), Err(DirectionParseError));
    assert_eq!(Direction::from_chars(&['W']), Ok(West));
}

#[test]
fn direction_error_converts() {
    assert_eq!(CommandParseError::from(DirectionParseError), CommandParseError);
}

#[test]
fn tokens_split_on_whitespace_runs() {
    let chars: Vec<char> = "  ab\t c\n".chars().collect();
    let toks = pen_plotter::tokens::split_ascii_ws(&chars);
    assert_eq!(toks, vec![vec!['a', 'b'], vec!['c']]);
}

#[test]
fn numbers_parse_exactly() {
    assert_eq!(pen_plotter::number::parse_unsigned(&['4', '2']), Some(42));
    assert_eq!(pen_plotter::number::parse_unsigned(&[]), None);
    assert_eq!(pen_plotter::number::parse_signed(&['-', '1', '0']), Some(-10));
    assert_eq!(pen_plotter::number::parse_signed(&['+', '1']), None);
}
