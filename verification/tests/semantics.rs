use brainfuck_lamina::evaluate;
use brainfuck_lamina::evaluate_with_tape;
use brainfuck_lamina::parse_brainfuck;

#[test]
fn eight_times_eight_outputs_sixty_four() {
    let ast = parse_brainfuck("++++++++[>++++++++<-]>.").unwrap();
    let out = evaluate(&ast, &[], 1000);
    assert_eq!(out, Some(vec![64u8]));
}

#[test]
fn decrement_wraps_zero_to_255() {
    let ast = parse_brainfuck("-.").unwrap();
    let out = evaluate(&ast, &[], 10);
    assert_eq!(out, Some(vec![255u8]));
}

#[test]
fn increment_wraps_255_to_zero() {
    let mut source = "+".repeat(256);
    source.push('.');
    let ast = parse_brainfuck(&source).unwrap();
    let out = evaluate(&ast, &[], 10);
    assert_eq!(out, Some(vec![0u8]));
}

#[test]
fn moving_left_from_cell_zero_saturates() {
    // were the pointer to wrap or escape, the increment would miss cell 0
    let ast = parse_brainfuck("<<<+.").unwrap();
    let out = evaluate(&ast, &[], 10);
    assert_eq!(out, Some(vec![1u8]));
}

#[test]
fn moving_right_from_last_cell_saturates() {
    // on a one-cell tape every move right stays on cell 0
    let ast = parse_brainfuck(">>>+.").unwrap();
    let out = evaluate_with_tape(&ast, &[], 1, 10);
    assert_eq!(out, Some(vec![1u8]));
}

#[test]
fn loop_with_zero_guard_runs_zero_times() {
    // the body would print; with the cell at 0 it must never run
    let ast = parse_brainfuck("[.]").unwrap();
    let out = evaluate(&ast, &[], 10);
    assert_eq!(out, Some(vec![]));
}

#[test]
fn input_reads_bytes_in_order() {
    let ast = parse_brainfuck(",.>,.").unwrap();
    let out = evaluate(&ast, &[7u8, 42u8], 10);
    assert_eq!(out, Some(vec![7u8, 42u8]));
}

#[test]
fn exhausted_input_leaves_cell_unchanged() {
    // the second read finds no input and must keep the 5
    let ast = parse_brainfuck(",,.").unwrap();
    let out = evaluate(&ast, &[5u8], 10);
    assert_eq!(out, Some(vec![5u8]));
}

#[test]
fn read_on_empty_input_keeps_zeroed_cell() {
    let ast = parse_brainfuck(",.").unwrap();
    let out = evaluate(&ast, &[], 10);
    assert_eq!(out, Some(vec![0u8]));
}

#[test]
fn fuel_runs_out_on_endless_loop() {
    let ast = parse_brainfuck("+[]").unwrap();
    let out = evaluate(&ast, &[], 50);
    assert_eq!(out, None);
}

#[test]
fn surplus_fuel_never_changes_the_output() {
    let ast = parse_brainfuck("++++++++[>++++++++<-]>.").unwrap();
    let tight = evaluate(&ast, &[], 100);
    let generous = evaluate(&ast, &[], 1_000_000);
    assert_eq!(tight, Some(vec![64u8]));
    assert_eq!(tight, generous);
}

#[test]
fn nested_loops_multiply() {
    // 3 * 4 = 12, computed the usual way with two nested loops
    let ast = parse_brainfuck("+++[>++++[>+<-]<-]>>.").unwrap();
    let out = evaluate(&ast, &[], 1000);
    assert_eq!(out, Some(vec![12u8]));
}

#[test]
fn copy_input_to_output() {
    let ast = parse_brainfuck(",.,.,.").unwrap();
    let out = evaluate(&ast, b"abc", 100);
    assert_eq!(out, Some(vec![b'a', b'b', b'c']));
}
