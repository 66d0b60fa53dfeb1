//! Token model: maps a single source character to one of the eight command
//! symbols, or to "not a command" (commentary).

use vstd::prelude::*;

verus! {

/// A single command symbol of the language, including the two bracket
/// symbols that delimit loops and an end-of-input marker.
#[derive(Debug, Clone, Copy, PartialEq, Eq, Structural)]
pub enum Token {
    /// Move the data pointer right (`>`)
    Right,
    /// Move the data pointer left (`<`)
    Left,
    /// Increment the current cell (`+`)
    Increment,
    /// Decrement the current cell (`-`)
    Decrement,
    /// Output the current cell (`.`)
    Output,
    /// Read one input byte into the current cell (`,`)
    Input,
    /// Start of a loop (`[`)
    LoopStart,
    /// End of a loop (`]`)
    LoopEnd,
    /// End of file/input
    Eof,
}

/// The token a source character stands for, or `None` for commentary.
pub open spec fn spec_token_of(c: char) -> Option<Token> {
    if c == '>' {
        Some(Token::Right)
    } else if c == '<' {
        Some(Token::Left)
    } else if c == '+' {
        Some(Token::Increment)
    } else if c == '-' {
        Some(Token::Decrement)
    } else if c == '.' {
        Some(Token::Output)
    } else if c == ',' {
        Some(Token::Input)
    } else if c == '[' {
        Some(Token::LoopStart)
    } else if c == ']' {
        Some(Token::LoopEnd)
    } else {
        None
    }
}

/// The character a token is written as; `Eof` has no written form and
/// renders as the NUL character.
pub open spec fn spec_token_char(t: Token) -> char {
    match t {
        Token::Right => '>',
        Token::Left => '<',
        Token::Increment => '+',
        Token::Decrement => '-',
        Token::Output => '.',
        Token::Input => ',',
        Token::LoopStart => '[',
        Token::LoopEnd => ']',
        Token::Eof => '\0',
    }
}

impl Token {
    /// Convert a character to its corresponding token.
    ///
    /// Returns `Some` for the eight command characters, `None` for every
    /// other character (commentary).
    pub fn from_char(c: char) -> (t: Option<Token>)
        ensures
            t == spec_token_of(c),
    {
        match c {
            '>' => Some(Token::Right),
            '<' => Some(Token::Left),
            '+' => Some(Token::Increment),
            '-' => Some(Token::Decrement),
            '.' => Some(Token::Output),
            ',' => Some(Token::Input),
            '[' => Some(Token::LoopStart),
            ']' => Some(Token::LoopEnd),
            _ => None,
        }
    }

    /// The character representation of this token.
    pub fn as_char(&self) -> (c: char)
        ensures
            c == spec_token_char(*self),
    {
        match self {
            Token::Right => '>',
            Token::Left => '<',
            Token::Increment => '+',
            Token::Decrement => '-',
            Token::Output => '.',
            Token::Input => ',',
            Token::LoopStart => '[',
            Token::LoopEnd => ']',
            Token::Eof => '\0',
        }
    }
}

} // verus!
