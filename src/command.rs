use vstd::prelude::*;
use vstd::string::StringExecFns;

use crate::direction::Direction;

verus! {

/// What the player asked for.
#[derive(Clone, Copy, Debug, PartialEq, Eq, Structural)]
pub enum Command {
    /// Move one room in a direction.
    Travel(Direction),
}

/// Why a line is not a command.
#[derive(Clone, Debug, PartialEq, Eq)]
pub enum ParseCommandError {
    NoCommandPresent,
    UnknownCommand(String),
    IncorrectArgument(String),
    NotEnoughArguments(u8),
}

/// `s` in lower case.
pub uninterp spec fn lower_of(s: Seq<char>) -> Seq<char>;

/// The words of `s`: its runs of characters other than white space, in order.
pub uninterp spec fn words_of(s: Seq<char>) -> Seq<Seq<char>>;

/// Relies on `str::to_lowercase`: the result depends on the characters alone.
#[verifier::external_body]
fn lowercase(s: &str) -> (r: String)
    ensures
        r@ == lower_of(s@),
{
    s.to_lowercase()
}

/// Relies on `str::split_whitespace`: the words of the text, in order.
#[verifier::external_body]
fn split_words(s: &str) -> (r: Vec<String>)
    ensures
        r@.map_values(|w: String| w@) == words_of(s@),
{
    s.split_whitespace().map(|w| w.to_string()).collect()
}

/// The compass direction a word names, if any.
pub open spec fn direction_named(w: Seq<char>) -> Option<Direction> {
    if w == "north"@ {
        Some(Direction::North)
    } else if w == "east"@ {
        Some(Direction::East)
    } else if w == "south"@ {
        Some(Direction::South)
    } else if w == "west"@ {
        Some(Direction::West)
    } else {
        None
    }
}

/// `r` is what the words of a line make: `go` or `travel` and a compass
/// direction is a move; no word, a missing or wrong direction, or another
/// first word is an error.
pub open spec fn parse_outcome(words: Seq<Seq<char>>, r: Result<Command, ParseCommandError>) -> bool {
    if words.len() == 0 {
        r == Err::<Command, ParseCommandError>(ParseCommandError::NoCommandPresent)
    } else if words[0] == "go"@ || words[0] == "travel"@ {
        if words.len() < 2 {
            r == Err::<Command, ParseCommandError>(ParseCommandError::NotEnoughArguments(1))
        } else {
            match direction_named(words[1]) {
                Some(d) => r == Ok::<Command, ParseCommandError>(Command::Travel(d)),
                None => r matches Err(ParseCommandError::IncorrectArgument(a)) && a@ == words[1],
            }
        }
    } else {
        r matches Err(ParseCommandError::UnknownCommand(c)) && c@ == words[0]
    }
}

fn word_is(w: &String, lit: &str) -> (r: bool)
    ensures
        r == (w@ == lit@),
{
    let l = String::from_str(lit);
    *w == l
}

fn parse_direction(w: &String) -> (r: Option<Direction>)
    ensures
        r == direction_named(w@),
{
    if word_is(w, "north") {
        Some(Direction::North)
    } else if word_is(w, "east") {
        Some(Direction::East)
    } else if word_is(w, "south") {
        Some(Direction::South)
    } else if word_is(w, "west") {
        Some(Direction::West)
    } else {
        None
    }
}

impl Command {
    /// The command that a line's words make.
    pub fn from_words(words: &Vec<String>) -> (r: Result<Command, ParseCommandError>)
        ensures
            parse_outcome(words@.map_values(|w: String| w@), r),
    {
        let ghost ws = words@.map_values(|w: String| w@);
        if words.len() == 0 {
            return Err(ParseCommandError::NoCommandPresent);
        }
        assert(ws[0] == words[0]@);
        if word_is(&words[0], "go") || word_is(&words[0], "travel") {
            if words.len() < 2 {
                return Err(ParseCommandError::NotEnoughArguments(1));
            }
            assert(ws[1] == words[1]@);
            match parse_direction(&words[1]) {
                Some(d) => Ok(Command::Travel(d)),
                None => Err(ParseCommandError::IncorrectArgument(words[1].clone())),
            }
        } else {
            Err(ParseCommandError::UnknownCommand(words[0].clone()))
        }
    }

    /// The command on a line, read without regard to case.
    pub fn parse_command(input_string: String) -> (r: Result<Command, ParseCommandError>)
        ensures
            parse_outcome(words_of(lower_of(input_string@)), r),
    {
        let lower = lowercase(input_string.as_str());
        let words = split_words(lower.as_str());
        Command::from_words(&words)
    }
}

/// The character of a decimal digit.
pub open spec fn digit_char(d: nat) -> char {
    seq!['0', '1', '2', '3', '4', '5', '6', '7', '8', '9'][d as int]
}

/// `n` written in decimal.
pub open spec fn decimal(n: nat) -> Seq<char>
    decreases n,
{
    if n < 10 {
        seq![digit_char(n)]
    } else {
        decimal(n / 10).push(digit_char(n % 10))
    }
}

fn digit_text(d: u8) -> (r: &'static str)
    requires
        d < 10,
    ensures
        r@ == seq![digit_char(d as nat)],
{
    proof {
        reveal_strlit("0");
        reveal_strlit("1");
        reveal_strlit("2");
        reveal_strlit("3");
        reveal_strlit("4");
        reveal_strlit("5");
        reveal_strlit("6");
        reveal_strlit("7");
        reveal_strlit("8");
        reveal_strlit("9");
    }
    let r = if d == 0 {
        "0"
    } else if d == 1 {
        "1"
    } else if d == 2 {
        "2"
    } else if d == 3 {
        "3"
    } else if d == 4 {
        "4"
    } else if d == 5 {
        "5"
    } else if d == 6 {
        "6"
    } else if d == 7 {
        "7"
    } else if d == 8 {
        "8"
    } else {
        "9"
    };
    assert(r@ =~= seq![digit_char(d as nat)]);
    r
}

/// Appends `n` in decimal.
fn append_decimal(s: &mut String, n: u8)
    ensures
        final(s)@ == old(s)@ + decimal(n as nat),
    decreases n,
{
    if n >= 10 {
        append_decimal(s, n / 10);
    }
    s.append(digit_text(n % 10));
    assert(final(s)@ =~= old(s)@ + decimal(n as nat));
}

/// The message shown for a line that is not a command.
pub open spec fn error_message(e: ParseCommandError) -> Seq<char> {
    match e {
        ParseCommandError::IncorrectArgument(arg) => "Incorrect argument '"@ + arg@
            + "'. Please enter a correct argument."@,
        ParseCommandError::NoCommandPresent => "Please enter a command."@,
        ParseCommandError::NotEnoughArguments(num) => "Not enough arguments. Please enter "@
            + decimal(num as nat) + " argument"@ + (if num == 1 {
            Seq::empty()
        } else {
            "s"@
        }) + "."@,
        ParseCommandError::UnknownCommand(command) => "Command '"@ + command@
            + "' not found. Please enter a valid command."@,
    }
}

impl ParseCommandError {
    /// The message shown for the error.
    pub fn to_string(&self) -> (r: String)
        ensures
            r@ == error_message(*self),
    {
        match self {
            ParseCommandError::IncorrectArgument(arg) => {
                let mut r = String::from_str("Incorrect argument '");
                r.append(arg.as_str());
                r.append("'. Please enter a correct argument.");
                r
            },
            ParseCommandError::NoCommandPresent => String::from_str("Please enter a command."),
            ParseCommandError::NotEnoughArguments(num) => {
                let mut r = String::from_str("Not enough arguments. Please enter ");
                append_decimal(&mut r, *num);
                r.append(" argument");
                if *num != 1 {
                    r.append("s");
                }
                r.append(".");
                proof {
                    if *num == 1 {
                        assert(r@ =~= error_message(*self));
                    }
                }
                r
            },
            ParseCommandError::UnknownCommand(command) => {
                let mut r = String::from_str("Command '");
                r.append(command.as_str());
                r.append("' not found. Please enter a valid command.");
                r
            },
        }
    }
}

} // verus!
