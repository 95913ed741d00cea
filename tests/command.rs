use liminal::{Command, Direction, ParseCommandError};

fn parse(s: &str) -> Result<Command, ParseCommandError> {
    Command::parse_command(s.to_string())
}

#[test]
fn parses_moves() {
    assert_eq!(parse("go north"), Ok(Command::Travel(Direction::North)));
    assert_eq!(parse("travel west\n"), Ok(Command::Travel(Direction::West)));
    assert_eq!(parse("  GO   East "), Ok(Command::Travel(Direction::East)));
    assert_eq!(parse("Travel SOUTH extra"), Ok(Command::Travel(Direction::South)));
}

#[test]
fn parse_errors() {
    assert_eq!(parse(""), Err(ParseCommandError::NoCommandPresent));
    assert_eq!(parse("   \n"), Err(ParseCommandError::NoCommandPresent));
    assert_eq!(parse("go"), Err(ParseCommandError::NotEnoughArguments(1)));
    assert_eq!(parse("go up"), Err(ParseCommandError::IncorrectArgument("up".to_string())));
    assert_eq!(parse("Jump now"), Err(ParseCommandError::UnknownCommand("jump".to_string())));
}

#[test]
fn from_words_directly() {
    let words = vec!["go".to_string(), "North".to_string()];
    assert_eq!(
        Command::from_words(&words),
        Err(ParseCommandError::IncorrectArgument("North".to_string()))
    );
    let words = vec!["travel".to_string(), "east".to_string()];
    assert_eq!(Command::from_words(&words), Ok(Command::Travel(Direction::East)));
}

#[test]
fn error_messages() {
    assert_eq!(ParseCommandError::NoCommandPresent.to_string(), "Please enter a command.");
    assert_eq!(
        ParseCommandError::NotEnoughArguments(1).to_string(),
        "Not enough arguments. Please enter 1 argument."
    );
    assert_eq!(
        ParseCommandError::NotEnoughArguments(2).to_string(),
        "Not enough arguments. Please enter 2 arguments."
    );
    assert_eq!(
        ParseCommandError::NotEnoughArguments(205).to_string(),
        "Not enough arguments. Please enter 205 arguments."
    );
    assert_eq!(
        ParseCommandError::IncorrectArgument("up".to_string()).to_string(),
        "Incorrect argument 'up'. Please enter a correct argument."
    );
    assert_eq!(
        ParseCommandError::UnknownCommand("jump".to_string()).to_string(),
        "Command 'jump' not found. Please enter a valid command."
    );
}
