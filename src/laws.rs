//! What holds of the parser over all lines: each production of the grammar is
//! recognised, every command has a line that denotes it, and malformed lines fail.
use vstd::prelude::*;
use crate::command::{Command, CommandParseError, command_of_tokens, spec_parse_line};
use crate::direction::{Direction, direction_of};
use crate::number::{all_digits, digit_value, digits_value, is_digit, signed_of, unsigned_of};
use crate::tokens::{all_ws, is_ascii_ws, lemma_tokens_skip_ws, lemma_tokens_word, no_ws, tokens};

verus! {

/// The character of a decimal digit value below ten.
pub open spec fn digit_char(d: nat) -> char {
    ('0' as int + d) as char
}

/// The decimal numeral of `n`, without sign or leading zeros.
pub open spec fn decimal(n: nat) -> Seq<char>
    decreases n,
{
    if n < 10 {
        seq![digit_char(n)]
    } else {
        decimal(n / 10).push(digit_char(n % 10))
    }
}

/// The numeral of a signed value: a `-` before the digits when it is negative.
pub open spec fn signed_decimal(v: int) -> Seq<char> {
    if v < 0 {
        seq!['-'] + decimal((-v) as nat)
    } else {
        decimal(v as nat)
    }
}

/// The letter that names a heading.
pub open spec fn direction_letter(d: Direction) -> char {
    match d {
        Direction::North => 'N',
        Direction::South => 'S',
        Direction::East => 'E',
        Direction::West => 'W',
    }
}

/// A canonical line for a command: its letter, then one space and the number if it has one.
pub open spec fn line_of(c: Command) -> Seq<char> {
    match c {
        Command::PenUp => seq!['U'],
        Command::PenDown => seq!['D'],
        Command::PenSelect(n) => seq!['P', ' '] + decimal(n as nat),
        Command::Move(d, v) => seq![direction_letter(d), ' '] + signed_decimal(v as int),
    }
}

proof fn lemma_decimal(n: nat)
    ensures
        decimal(n).len() > 0,
        all_digits(decimal(n)),
        digits_value(decimal(n)) == n,
    decreases n,
{
    if n < 10 {
        let t = decimal(n);
        assert(t.drop_last() =~= Seq::<char>::empty());
        assert(digits_value(t.drop_last()) == 0);
        assert(t.last() == digit_char(n));
        assert(digit_value(digit_char(n)) == n);
    } else {
        lemma_decimal(n / 10);
        let t = decimal(n);
        assert(t.drop_last() =~= decimal(n / 10));
        assert(digit_value(digit_char(n % 10)) == n % 10);
        assert forall|i: int| 0 <= i < t.len() implies is_digit(#[trigger] t[i]) by {
            if i < t.len() - 1 {
                assert(t[i] == decimal(n / 10)[i]);
            }
        }
    }
}

proof fn lemma_digits_no_ws(t: Seq<char>)
    requires
        all_digits(t),
    ensures
        no_ws(t),
{
    assert forall|i: int| 0 <= i < t.len() implies !is_ascii_ws(#[trigger] t[i]) by {
        assert(is_digit(t[i]));
    }
}

proof fn lemma_numeral_no_ws(t: Seq<char>)
    requires
        signed_of(t) is Some || unsigned_of(t) is Some,
    ensures
        t.len() > 0,
        no_ws(t),
{
    if t[0] == '-' && signed_of(t) is Some {
        let d = t.drop_first();
        assert forall|i: int| 0 <= i < t.len() implies !is_ascii_ws(#[trigger] t[i]) by {
            if i > 0 {
                assert(t[i] == d[i - 1]);
                assert(is_digit(d[i - 1]));
            }
        }
    } else {
        lemma_digits_no_ws(t);
    }
}

/// The tokens of a line made of a letter and a numeral between runs of whitespace.
proof fn lemma_two_tokens(pre: Seq<char>, letter: char, mid: Seq<char>, t: Seq<char>, post: Seq<char>)
    requires
        all_ws(pre),
        !is_ascii_ws(letter),
        mid.len() > 0,
        all_ws(mid),
        t.len() > 0,
        no_ws(t),
        all_ws(post),
    ensures
        tokens(pre + seq![letter] + mid + t + post) == seq![seq![letter], t],
{
    let line = pre + seq![letter] + mid + t + post;
    let y = mid + (t + post);
    assert(line =~= pre + (seq![letter] + y));
    lemma_tokens_skip_ws(pre, seq![letter] + y);
    lemma_tokens_word(seq![letter], y);
    assert(y[0] == mid[0]);
    lemma_tokens_skip_ws(mid, t + post);
    assert(post.len() > 0 ==> is_ascii_ws(post[0]));
    lemma_tokens_word(t, post);
    assert(post =~= post + Seq::<char>::empty());
    lemma_tokens_skip_ws(post, Seq::<char>::empty());
    assert(tokens(Seq::<char>::empty()) == Seq::<Seq<char>>::empty());
    assert(seq![seq![letter]] + (seq![t] + Seq::<Seq<char>>::empty()) =~= seq![seq![letter], t]);
}

/// The tokens of a line made of a single letter between runs of whitespace.
proof fn lemma_one_token(pre: Seq<char>, letter: char, post: Seq<char>)
    requires
        all_ws(pre),
        !is_ascii_ws(letter),
        all_ws(post),
    ensures
        tokens(pre + seq![letter] + post) == seq![seq![letter]],
{
    let line = pre + seq![letter] + post;
    assert(line =~= pre + (seq![letter] + post));
    lemma_tokens_skip_ws(pre, seq![letter] + post);
    assert(post.len() > 0 ==> is_ascii_ws(post[0]));
    lemma_tokens_word(seq![letter], post);
    assert(post =~= post + Seq::<char>::empty());
    lemma_tokens_skip_ws(post, Seq::<char>::empty());
    assert(tokens(Seq::<char>::empty()) == Seq::<Seq<char>>::empty());
    assert(seq![seq![letter]] + Seq::<Seq<char>>::empty() =~= seq![seq![letter]]);
}

/// `U` and `D`, alone on a line with any surrounding whitespace, parse as pen up and
/// pen down.
pub proof fn law_pen_lines(pre: Seq<char>, post: Seq<char>)
    requires
        all_ws(pre),
        all_ws(post),
    ensures
        spec_parse_line(pre + seq!['U'] + post) == Ok::<Command, CommandParseError>(Command::PenUp),
        spec_parse_line(pre + seq!['D'] + post) == Ok::<Command, CommandParseError>(Command::PenDown),
{
    lemma_one_token(pre, 'U', post);
    lemma_one_token(pre, 'D', post);
    assert(seq!['D'] != seq!['U']) by {
        assert(seq!['D'][0] != seq!['U'][0]);
    }
}

/// `P` followed by a non-negative integer parses as the selection of that pen.
pub proof fn law_select_line(pre: Seq<char>, mid: Seq<char>, t: Seq<char>, post: Seq<char>)
    requires
        all_ws(pre),
        mid.len() > 0,
        all_ws(mid),
        unsigned_of(t) is Some,
        all_ws(post),
    ensures
        spec_parse_line(pre + seq!['P'] + mid + t + post) == Ok::<Command, CommandParseError>(
            Command::PenSelect(unsigned_of(t)->0),
        ),
{
    lemma_numeral_no_ws(t);
    lemma_two_tokens(pre, 'P', mid, t, post);
}

/// `N`, `S`, `E` or `W` followed by a signed integer parses as a move along that
/// heading by that distance.
pub proof fn law_move_line(
    pre: Seq<char>,
    d: Direction,
    mid: Seq<char>,
    t: Seq<char>,
    post: Seq<char>,
)
    requires
        all_ws(pre),
        mid.len() > 0,
        all_ws(mid),
        signed_of(t) is Some,
        all_ws(post),
    ensures
        spec_parse_line(pre + seq![direction_letter(d)] + mid + t + post) == Ok::<
            Command,
            CommandParseError,
        >(Command::Move(d, signed_of(t)->0)),
{
    lemma_numeral_no_ws(t);
    lemma_two_tokens(pre, direction_letter(d), mid, t, post);
    let l = seq![direction_letter(d)];
    assert(l != seq!['P']) by {
        assert(l[0] != seq!['P'][0]);
    }
    assert(direction_of(l) == Some(d)) by {
        assert(l[0] == direction_letter(d));
        assert(seq!['N'][0] == 'N');
        assert(seq!['S'][0] == 'S');
        assert(seq!['E'][0] == 'E');
        assert(seq!['W'][0] == 'W');
        match d {
            Direction::North => assert(l =~= seq!['N']),
            Direction::South => assert(l =~= seq!['S']),
            Direction::East => assert(l =~= seq!['E']),
            Direction::West => assert(l =~= seq!['W']),
        }
    }
}

/// Every command is denoted by some line: its canonical line parses back to it.
pub proof fn law_every_command_has_a_line(c: Command)
    ensures
        spec_parse_line(line_of(c)) == Ok::<Command, CommandParseError>(c),
        exists|line: Seq<char>| spec_parse_line(line) == Ok::<Command, CommandParseError>(c),
{
    let e = Seq::<char>::empty();
    let sp = seq![' '];
    assert(all_ws(e));
    assert(all_ws(sp));
    match c {
        Command::PenUp => {
            law_pen_lines(e, e);
            assert(e + seq!['U'] + e =~= line_of(c));
        },
        Command::PenDown => {
            law_pen_lines(e, e);
            assert(e + seq!['D'] + e =~= line_of(c));
        },
        Command::PenSelect(n) => {
            let t = decimal(n as nat);
            lemma_decimal(n as nat);
            law_select_line(e, sp, t, e);
            assert(e + seq!['P'] + sp + t + e =~= line_of(c));
        },
        Command::Move(d, v) => {
            let t = signed_decimal(v as int);
            if v < 0 {
                let m = (-v) as nat;
                lemma_decimal(m);
                assert(t.drop_first() =~= decimal(m));
                assert(t[0] == '-');
            } else {
                lemma_decimal(v as nat);
                assert(is_digit(t[0]));
            }
            assert(signed_of(t) == Some(v));
            law_move_line(e, d, sp, t, e);
            assert(e + seq![direction_letter(d)] + sp + t + e =~= line_of(c));
        },
    }
}

/// Parsing depends on the text of the line alone: equal lines give equal results.
pub proof fn law_parse_is_deterministic(a: Seq<char>, b: Seq<char>)
    requires
        a == b,
    ensures
        spec_parse_line(a) == spec_parse_line(b),
{
}

/// A line fails when it has no token or more than two, when a single token is
/// neither `U` nor `D`, and when the first of two tokens is neither `P` nor a heading.
pub proof fn law_malformed_lines_fail(line: Seq<char>)
    ensures
        tokens(line).len() == 0 || tokens(line).len() > 2 ==> spec_parse_line(line) is Err,
        tokens(line).len() == 1 && tokens(line)[0] != seq!['U'] && tokens(line)[0] != seq!['D']
            ==> spec_parse_line(line) is Err,
        tokens(line).len() == 2 && tokens(line)[0] != seq!['P'] && direction_of(tokens(line)[0]) is None
            ==> spec_parse_line(line) is Err,
        tokens(line).len() == 2 && tokens(line)[0] == seq!['P'] && unsigned_of(tokens(line)[1]) is None
            ==> spec_parse_line(line) is Err,
        tokens(line).len() == 2 && direction_of(tokens(line)[0]) is Some && signed_of(tokens(line)[1]) is None
            ==> spec_parse_line(line) is Err,
{
    assert(direction_of(seq!['P']) is None) by {
        assert(seq!['P'][0] == 'P');
        assert(seq!['P'] != seq!['N']) by { assert(seq!['N'][0] == 'N'); }
        assert(seq!['P'] != seq!['S']) by { assert(seq!['S'][0] == 'S'); }
        assert(seq!['P'] != seq!['E']) by { assert(seq!['E'][0] == 'E'); }
        assert(seq!['P'] != seq!['W']) by { assert(seq!['W'][0] == 'W'); }
    }
}

} // verus!
