use brainfuck_lamina::AstNode;
use brainfuck_lamina::Command;
use brainfuck_lamina::LexerError;
use brainfuck_lamina::count_operations;
use brainfuck_lamina::parse_brainfuck;

#[test]
fn test_parse_simple_commands() {
    let source = "+-><.,";
    let ast = parse_brainfuck(source).unwrap();

    assert_eq!(ast.len(), 6);
    assert_eq!(ast[0], AstNode::Command(Command::Increment));
    assert_eq!(ast[1], AstNode::Command(Command::Decrement));
    assert_eq!(ast[2], AstNode::Command(Command::Right));
    assert_eq!(ast[3], AstNode::Command(Command::Left));
    assert_eq!(ast[4], AstNode::Command(Command::Output));
    assert_eq!(ast[5], AstNode::Command(Command::Input));
}

#[test]
fn test_parse_simple_loop() {
    let source = "[+-]";
    let ast = parse_brainfuck(source).unwrap();

    assert_eq!(ast.len(), 1);
    match &ast[0] {
        AstNode::Loop(body) => {
            assert_eq!(body.len(), 2);
            assert_eq!(body[0], AstNode::Command(Command::Increment));
            assert_eq!(body[1], AstNode::Command(Command::Decrement));
        }
        _ => panic!("Expected loop"),
    }
}

#[test]
fn test_parse_nested_loops() {
    let source = "[+[+-]]";
    let ast = parse_brainfuck(source).unwrap();

    assert_eq!(ast.len(), 1);
    match &ast[0] {
        AstNode::Loop(outer_body) => {
            assert_eq!(outer_body.len(), 2);
            assert_eq!(outer_body[0], AstNode::Command(Command::Increment));
            match &outer_body[1] {
                AstNode::Loop(inner_body) => {
                    assert_eq!(inner_body.len(), 2);
                    assert_eq!(inner_body[0], AstNode::Command(Command::Increment));
                    assert_eq!(inner_body[1], AstNode::Command(Command::Decrement));
                }
                _ => panic!("Expected nested loop"),
            }
        }
        _ => panic!("Expected loop"),
    }
}

#[test]
fn test_parse_with_comments() {
    let source = "Hello + World - Test";
    let ast = parse_brainfuck(source).unwrap();

    assert_eq!(ast.len(), 2);
    assert_eq!(ast[0], AstNode::Command(Command::Increment));
    assert_eq!(ast[1], AstNode::Command(Command::Decrement));
}

#[test]
fn test_unmatched_closing_bracket() {
    let source = "+]";
    let result = parse_brainfuck(source);
    assert!(matches!(result, Err(LexerError::UnmatchedClosingBracket(_))));
}

#[test]
fn test_unexpected_end_of_input() {
    let source = "[+";
    let result = parse_brainfuck(source);
    assert!(matches!(result, Err(LexerError::UnexpectedEndOfInput(_))));
}

#[test]
fn unmatched_bracket_reports_line_and_column() {
    // the stray bracket sits on line 2, column 2
    let result = parse_brainfuck("ab\n+]");
    match result {
        Err(LexerError::UnmatchedClosingBracket(pos)) => {
            assert_eq!(pos.line, 2);
            assert_eq!(pos.column, 2);
        }
        _ => panic!("Expected an unmatched closing bracket error"),
    }
}

#[test]
fn end_of_input_reports_position_where_input_ran_out() {
    // input ends right after the newline: line 2, column 1
    let result = parse_brainfuck("[+\n");
    match result {
        Err(LexerError::UnexpectedEndOfInput(pos)) => {
            assert_eq!(pos.line, 2);
            assert_eq!(pos.column, 1);
        }
        _ => panic!("Expected an unexpected end of input error"),
    }
}

#[test]
fn leftmost_error_wins() {
    // the first stray bracket decides, even though more errors follow
    let result = parse_brainfuck("]]][");
    match result {
        Err(LexerError::UnmatchedClosingBracket(pos)) => {
            assert_eq!(pos.line, 1);
            assert_eq!(pos.column, 1);
        }
        _ => panic!("Expected an unmatched closing bracket error"),
    }
}

#[test]
fn parsing_is_deterministic() {
    let source = "some + comment [ - . ] here ,";
    let first = parse_brainfuck(source);
    let second = parse_brainfuck(source);
    assert_eq!(first, second);

    let bad = "+]";
    assert_eq!(parse_brainfuck(bad), parse_brainfuck(bad));
}

#[test]
fn comments_never_change_the_ast() {
    let plain = parse_brainfuck("[+-]").unwrap();
    let commented = parse_brainfuck("x[ note + some\nwords - here ]y").unwrap();
    assert_eq!(plain, commented);
}

#[test]
fn empty_source_parses_to_empty_ast() {
    let ast = parse_brainfuck("").unwrap();
    assert_eq!(ast.len(), 0);
}

#[test]
fn count_operations_counts_recursively() {
    let ast = parse_brainfuck("[+[+-]]").unwrap();
    let (commands, loops) = count_operations(&ast);
    assert_eq!(commands, 3);
    assert_eq!(loops, 2);
}

#[test]
fn count_operations_on_flat_program() {
    let ast = parse_brainfuck("+-><.,").unwrap();
    let (commands, loops) = count_operations(&ast);
    assert_eq!(commands, 6);
    assert_eq!(loops, 0);
}

#[test]
fn deep_nesting_parses_without_stack_exhaustion() {
    // the parser keeps its own stack of open loops, so nesting depth in
    // the tens of thousands must not exhaust the call stack
    let depth = 10_000;
    let mut source = "[".repeat(depth);
    source.push('+');
    source.push_str(&"]".repeat(depth));
    let ast = parse_brainfuck(&source).unwrap();
    assert_eq!(ast.len(), 1);
    let (commands, loops) = count_operations(&ast);
    assert_eq!(commands, 1);
    assert_eq!(loops, depth);
}

#[test]
fn loop_nodes_equal_bracket_pairs() {
    // three matched pairs, whatever the nesting
    let ast = parse_brainfuck("[[-]+[.]]").unwrap();
    let (_, loops) = count_operations(&ast);
    assert_eq!(loops, 3);
}
