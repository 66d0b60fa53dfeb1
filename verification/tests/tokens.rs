use brainfuck_lamina::BrainfuckConfig;
use brainfuck_lamina::Position;
use brainfuck_lamina::Token;

#[test]
fn every_command_character_maps_to_its_token() {
    assert_eq!(Token::from_char('>'), Some(Token::Right));
    assert_eq!(Token::from_char('<'), Some(Token::Left));
    assert_eq!(Token::from_char('+'), Some(Token::Increment));
    assert_eq!(Token::from_char('-'), Some(Token::Decrement));
    assert_eq!(Token::from_char('.'), Some(Token::Output));
    assert_eq!(Token::from_char(','), Some(Token::Input));
    assert_eq!(Token::from_char('['), Some(Token::LoopStart));
    assert_eq!(Token::from_char(']'), Some(Token::LoopEnd));
}

#[test]
fn other_characters_are_commentary() {
    assert_eq!(Token::from_char('a'), None);
    assert_eq!(Token::from_char(' '), None);
    assert_eq!(Token::from_char('\n'), None);
    assert_eq!(Token::from_char('0'), None);
}

#[test]
fn tokens_print_as_their_characters() {
    assert_eq!(Token::Right.as_char(), '>');
    assert_eq!(Token::Left.as_char(), '<');
    assert_eq!(Token::Increment.as_char(), '+');
    assert_eq!(Token::Decrement.as_char(), '-');
    assert_eq!(Token::Output.as_char(), '.');
    assert_eq!(Token::Input.as_char(), ',');
    assert_eq!(Token::LoopStart.as_char(), '[');
    assert_eq!(Token::LoopEnd.as_char(), ']');
    assert_eq!(Token::Eof.as_char(), '\0');
}

#[test]
fn positions_advance_by_column_and_reset_on_newline() {
    let mut p = Position::new();
    assert_eq!((p.line, p.column), (1, 1));
    p.advance('a');
    assert_eq!((p.line, p.column), (1, 2));
    p.advance('+');
    assert_eq!((p.line, p.column), (1, 3));
    p.advance('\n');
    assert_eq!((p.line, p.column), (2, 1));
    p.advance('[');
    assert_eq!((p.line, p.column), (2, 2));
}

#[test]
fn configurations_carry_tape_and_cell_sizes() {
    let def = BrainfuckConfig::default();
    assert_eq!(def.tape_size, 30000);
    assert_eq!(def.cell_size, 1);
    assert_eq!(BrainfuckConfig::small().tape_size, 1000);
    assert_eq!(BrainfuckConfig::large().tape_size, 100000);
    let custom = BrainfuckConfig::new(64, 2);
    assert_eq!(custom.tape_size, 64);
    assert_eq!(custom.cell_size, 2);
}
