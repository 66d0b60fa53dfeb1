//! The library's global laws. For the parser: loop nodes correspond
//! one-to-one to matched bracket pairs, parsing is deterministic, and
//! commentary never changes the AST. For the canonical semantics: cell
//! arithmetic wraps, pointer movement saturates, and a loop whose guard is
//! 0 on entry runs zero times.

use vstd::prelude::*;

use crate::ast::Ast;
use crate::ast::Command;
use crate::ast::lemma_counts_push;
use crate::ast::node_cmds;
use crate::ast::node_loops;
use crate::ast::seq_cmds;
use crate::ast::seq_loops;
use crate::eval::EvalState;
use crate::eval::run_node;
use crate::eval::st_wf;
use crate::eval::step_command;
use crate::lexer::LexerError;
use crate::lexer::Position;
use crate::lexer::command_of;
use crate::lexer::is_command_char;
use crate::lexer::is_significant;
use crate::lexer::parse_step;
use crate::lexer::push_top;
use crate::lexer::spec_advance;
use crate::lexer::spec_parse;

verus! {

/// How often `c` occurs in `s`.
pub open spec fn count_char(s: Seq<char>, c: char) -> nat
    decreases s.len(),
{
    if s.len() == 0 {
        0
    } else {
        (if s[0] == c {
            1nat
        } else {
            0nat
        }) + count_char(s.subrange(1, s.len() as int), c)
    }
}

/// How many of the six command characters occur in `s`.
pub open spec fn count_command_chars(s: Seq<char>) -> nat
    decreases s.len(),
{
    if s.len() == 0 {
        0
    } else {
        (if is_command_char(s[0]) {
            1nat
        } else {
            0nat
        }) + count_command_chars(s.subrange(1, s.len() as int))
    }
}

/// The significant characters of `s`, in order: commands and brackets,
/// with all commentary dropped.
pub open spec fn sig_chars(s: Seq<char>) -> Seq<char>
    decreases s.len(),
{
    if s.len() == 0 {
        Seq::empty()
    } else if is_significant(s[0]) {
        seq![s[0]] + sig_chars(s.subrange(1, s.len() as int))
    } else {
        sig_chars(s.subrange(1, s.len() as int))
    }
}

/// Loop nodes already finished anywhere in a parser stack.
pub open spec fn stack_loops(stack: Seq<Seq<Ast>>) -> nat
    decreases stack.len(),
{
    if stack.len() == 0 {
        0
    } else {
        stack_loops(stack.subrange(0, stack.len() - 1)) + seq_loops(stack[stack.len() - 1])
    }
}

/// Command leaves already finished anywhere in a parser stack.
pub open spec fn stack_cmds(stack: Seq<Seq<Ast>>) -> nat
    decreases stack.len(),
{
    if stack.len() == 0 {
        0
    } else {
        stack_cmds(stack.subrange(0, stack.len() - 1)) + seq_cmds(stack[stack.len() - 1])
    }
}

/// Appending one node to the top stack frame adds that node's counts to
/// the stack's counts.
proof fn lemma_stack_counts_push_top(stack: Seq<Seq<Ast>>, n: Ast)
    requires
        stack.len() >= 1,
    ensures
        stack_loops(push_top(stack, n)) == stack_loops(stack) + node_loops(n),
        stack_cmds(push_top(stack, n)) == stack_cmds(stack) + node_cmds(n),
{
    let t = push_top(stack, n);
    assert(t.subrange(0, t.len() - 1) =~= stack.subrange(0, stack.len() - 1));
    assert(t[t.len() - 1] == stack[stack.len() - 1].push(n));
    lemma_counts_push(stack[stack.len() - 1], n);
}

/// Opening a new empty stack frame changes no counts.
proof fn lemma_stack_counts_open(stack: Seq<Seq<Ast>>)
    ensures
        stack_loops(stack.push(Seq::empty())) == stack_loops(stack),
        stack_cmds(stack.push(Seq::empty())) == stack_cmds(stack),
{
    let t = stack.push(Seq::<Ast>::empty());
    assert(t.subrange(0, t.len() - 1) =~= stack);
}

/// The one step of suffix bookkeeping used throughout the inductions:
/// dropping the first character of the suffix at `i` gives the suffix at
/// `i + 1`.
proof fn lemma_suffix_step(s: Seq<char>, i: int)
    requires
        0 <= i < s.len(),
    ensures
        s.subrange(i, s.len() as int).len() == s.len() - i,
        s.subrange(i, s.len() as int)[0] == s[i],
        s.subrange(i, s.len() as int).subrange(
            1,
            s.len() - i,
        ) =~= s.subrange(i + 1, s.len() as int),
{
}

/// The parse-stack invariant behind the bracket law: on a suffix that
/// parses successfully, the loops of the finished AST are the loops
/// already on the stack, plus one for each open frame still to be closed,
/// plus one for each `[` in the suffix; command leaves likewise; and the
/// suffix holds exactly one `]` for each `[` and each open frame.
proof fn lemma_parse_step_counts(s: Seq<char>, i: int, pos: Position, stack: Seq<Seq<Ast>>)
    requires
        0 <= i <= s.len(),
        stack.len() >= 1,
    ensures
        parse_step(s, i, pos, stack) matches Ok(ast) ==> {
            let rest = s.subrange(i, s.len() as int);
            &&& seq_loops(ast) == stack_loops(stack) + (stack.len() - 1) + count_char(rest, '[')
            &&& seq_cmds(ast) == stack_cmds(stack) + count_command_chars(rest)
            &&& count_char(rest, ']') == count_char(rest, '[') + (stack.len() - 1)
        },
    decreases s.len() - i,
{
    let rest = s.subrange(i, s.len() as int);
    if i == s.len() {
        assert(rest =~= Seq::<char>::empty());
        if stack.len() == 1 {
            assert(stack.subrange(0, 0) =~= Seq::<Seq<Ast>>::empty());
            assert(stack_loops(Seq::<Seq<Ast>>::empty()) == 0);
            assert(stack_cmds(Seq::<Seq<Ast>>::empty()) == 0);
            assert(stack_loops(stack) == seq_loops(stack[0]));
            assert(stack_cmds(stack) == seq_cmds(stack[0]));
        }
    } else {
        let c = s[i];
        lemma_suffix_step(s, i);
        let rest1 = s.subrange(i + 1, s.len() as int);
        let p = spec_advance(pos, c);
        if is_command_char(c) {
            let leaf = Ast::Cmd(command_of(c));
            let stack1 = push_top(stack, leaf);
            lemma_stack_counts_push_top(stack, leaf);
            lemma_parse_step_counts(s, i + 1, p, stack1);
            assert(parse_step(s, i, pos, stack) == parse_step(s, i + 1, p, stack1));
            assert(count_char(rest, '[') == count_char(rest1, '['));
            assert(count_char(rest, ']') == count_char(rest1, ']'));
            assert(count_command_chars(rest) == 1 + count_command_chars(rest1));
        } else if c == '[' {
            let stack1 = stack.push(Seq::<Ast>::empty());
            lemma_stack_counts_open(stack);
            lemma_parse_step_counts(s, i + 1, p, stack1);
            assert(parse_step(s, i, pos, stack) == parse_step(s, i + 1, p, stack1));
            assert(count_char(rest, '[') == 1 + count_char(rest1, '['));
            assert(count_char(rest, ']') == count_char(rest1, ']'));
            assert(count_command_chars(rest) == count_command_chars(rest1));
        } else if c == ']' {
            if stack.len() > 1 {
                let body = stack[stack.len() - 1];
                let popped = stack.subrange(0, stack.len() - 1);
                let stack1 = push_top(popped, Ast::Loop(body));
                assert(stack_loops(stack) == stack_loops(popped) + seq_loops(body));
                assert(stack_cmds(stack) == stack_cmds(popped) + seq_cmds(body));
                lemma_stack_counts_push_top(popped, Ast::Loop(body));
                assert(stack_loops(stack1) == stack_loops(stack) + 1);
                assert(stack_cmds(stack1) == stack_cmds(stack));
                lemma_parse_step_counts(s, i + 1, p, stack1);
                assert(parse_step(s, i, pos, stack) == parse_step(s, i + 1, p, stack1));
                assert(count_char(rest, '[') == count_char(rest1, '['));
                assert(count_char(rest, ']') == 1 + count_char(rest1, ']'));
                assert(count_command_chars(rest) == count_command_chars(rest1));
            }
        } else {
            lemma_parse_step_counts(s, i + 1, p, stack);
            assert(parse_step(s, i, pos, stack) == parse_step(s, i + 1, p, stack));
            assert(count_char(rest, '[') == count_char(rest1, '['));
            assert(count_char(rest, ']') == count_char(rest1, ']'));
            assert(count_command_chars(rest) == count_command_chars(rest1));
        }
    }
}

/// For every well-bracketed source, the number of `Loop` nodes in the AST,
/// counted recursively through nesting, equals the number of matched
/// bracket pairs: every `[` opens exactly one loop, and `[` and `]` occur
/// equally often. The command leaves likewise equal the command
/// characters, so the AST is never larger than the source.
pub proof fn lemma_loops_match_bracket_pairs(s: Seq<char>, ast: Seq<Ast>)
    requires
        spec_parse(s) == Ok::<Seq<Ast>, LexerError>(ast),
    ensures
        seq_loops(ast) == count_char(s, '['),
        count_char(s, '[') == count_char(s, ']'),
        seq_cmds(ast) == count_command_chars(s),
        seq_cmds(ast) + seq_loops(ast) <= s.len(),
{
    let stack0 = seq![Seq::<Ast>::empty()];
    lemma_parse_step_counts(s, 0, Position { line: 1, column: 1 }, stack0);
    assert(s.subrange(0, s.len() as int) =~= s);
    assert(stack0.subrange(0, 0) =~= Seq::<Seq<Ast>>::empty());
    assert(stack_loops(Seq::<Seq<Ast>>::empty()) == 0);
    assert(stack_cmds(Seq::<Seq<Ast>>::empty()) == 0);
    assert(seq_loops(Seq::<Ast>::empty()) == 0);
    assert(seq_cmds(Seq::<Ast>::empty()) == 0);
    assert(stack0[0] == Seq::<Ast>::empty());
    assert(stack_loops(stack0) == 0);
    assert(stack_cmds(stack0) == 0);
    lemma_counts_bounded_by_len(s);
}

/// At most every character of the source is a command character or an
/// opening bracket.
proof fn lemma_counts_bounded_by_len(s: Seq<char>)
    ensures
        count_command_chars(s) + count_char(s, '[') <= s.len(),
    decreases s.len(),
{
    if s.len() > 0 {
        lemma_counts_bounded_by_len(s.subrange(1, s.len() as int));
    }
}

/// Parsing is deterministic: the same source always yields the same AST or
/// the same error. This is immediate, because `parse` and
/// `parse_brainfuck` pin their result to the one value of `spec_parse` on
/// the source.
pub proof fn lemma_parse_deterministic(s1: Seq<char>, s2: Seq<char>)
    requires
        s1 == s2,
    ensures
        spec_parse(s1) == spec_parse(s2),
{
}

/// Two parses agree up to error positions: equal ASTs on success, the
/// same kind of failure otherwise.
spec fn same_outcome(
    r1: Result<Seq<Ast>, LexerError>,
    r2: Result<Seq<Ast>, LexerError>,
) -> bool {
    match (r1, r2) {
        (Ok(a1), Ok(a2)) => a1 == a2,
        (
            Err(LexerError::UnmatchedClosingBracket(_)),
            Err(LexerError::UnmatchedClosingBracket(_)),
        ) => true,
        (Err(LexerError::UnexpectedEndOfInput(_)), Err(LexerError::UnexpectedEndOfInput(_))) => true,
        _ => false,
    }
}

/// Two suffixes with the same significant characters parse to the same
/// outcome from the same stack, whatever commentary surrounds them and
/// whatever the positions say.
proof fn lemma_parse_step_comments(
    s1: Seq<char>,
    i1: int,
    pos1: Position,
    s2: Seq<char>,
    i2: int,
    pos2: Position,
    stack: Seq<Seq<Ast>>,
)
    requires
        0 <= i1 <= s1.len(),
        0 <= i2 <= s2.len(),
        stack.len() >= 1,
        sig_chars(s1.subrange(i1, s1.len() as int)) == sig_chars(s2.subrange(i2, s2.len() as int)),
    ensures
        same_outcome(parse_step(s1, i1, pos1, stack), parse_step(s2, i2, pos2, stack)),
    decreases s1.len() - i1 + s2.len() - i2,
{
    let r1 = s1.subrange(i1, s1.len() as int);
    let r2 = s2.subrange(i2, s2.len() as int);
    if i1 < s1.len() && !is_significant(s1[i1]) {
        lemma_suffix_step(s1, i1);
        lemma_parse_step_comments(s1, i1 + 1, spec_advance(pos1, s1[i1]), s2, i2, pos2, stack);
    } else if i2 < s2.len() && !is_significant(s2[i2]) {
        lemma_suffix_step(s2, i2);
        lemma_parse_step_comments(s1, i1, pos1, s2, i2 + 1, spec_advance(pos2, s2[i2]), stack);
    } else if i1 == s1.len() && i2 == s2.len() {
        assert(r1 =~= Seq::<char>::empty());
    } else if i1 == s1.len() {
        // the other suffix still holds a significant character: impossible
        assert(r1 =~= Seq::<char>::empty());
        lemma_suffix_step(s2, i2);
        assert(sig_chars(r2).len() >= 1);
        assert(false);
    } else if i2 == s2.len() {
        assert(r2 =~= Seq::<char>::empty());
        lemma_suffix_step(s1, i1);
        assert(sig_chars(r1).len() >= 1);
        assert(false);
    } else {
        // both heads are significant, so they are the same character
        let c1 = s1[i1];
        let c2 = s2[i2];
        lemma_suffix_step(s1, i1);
        lemma_suffix_step(s2, i2);
        let t1 = sig_chars(s1.subrange(i1 + 1, s1.len() as int));
        let t2 = sig_chars(s2.subrange(i2 + 1, s2.len() as int));
        assert(sig_chars(r1) == seq![c1] + t1);
        assert(sig_chars(r2) == seq![c2] + t2);
        assert(c1 == (seq![c1] + t1)[0]);
        assert(c2 == (seq![c2] + t2)[0]);
        assert(c1 == c2);
        assert(t1 =~= (seq![c1] + t1).subrange(1, (seq![c1] + t1).len() as int));
        assert(t2 =~= (seq![c2] + t2).subrange(1, (seq![c2] + t2).len() as int));
        assert(t1 == t2);
        let p1 = spec_advance(pos1, c1);
        let p2 = spec_advance(pos2, c2);
        if is_command_char(c1) {
            lemma_parse_step_comments(
                s1,
                i1 + 1,
                p1,
                s2,
                i2 + 1,
                p2,
                push_top(stack, Ast::Cmd(command_of(c1))),
            );
        } else if c1 == '[' {
            lemma_parse_step_comments(s1, i1 + 1, p1, s2, i2 + 1, p2, stack.push(Seq::empty()));
        } else {
            // c1 == ']'
            if stack.len() > 1 {
                let body = stack[stack.len() - 1];
                let popped = stack.subrange(0, stack.len() - 1);
                lemma_parse_step_comments(
                    s1,
                    i1 + 1,
                    p1,
                    s2,
                    i2 + 1,
                    p2,
                    push_top(popped, Ast::Loop(body)),
                );
            }
        }
    }
}

/// Idempotence of comments: inserting arbitrary non-command characters
/// anywhere in a well-formed program never changes the resulting AST.
/// Stated through the significant characters: any two sources that agree
/// on their commands and brackets, one of which parses, parse to the very
/// same AST.
pub proof fn lemma_comment_idempotence(s1: Seq<char>, s2: Seq<char>, ast: Seq<Ast>)
    requires
        sig_chars(s1) == sig_chars(s2),
        spec_parse(s1) == Ok::<Seq<Ast>, LexerError>(ast),
    ensures
        spec_parse(s2) == Ok::<Seq<Ast>, LexerError>(ast),
{
    let stack0 = seq![Seq::<Ast>::empty()];
    assert(s1.subrange(0, s1.len() as int) =~= s1);
    assert(s2.subrange(0, s2.len() as int) =~= s2);
    lemma_parse_step_comments(
        s1,
        0,
        Position { line: 1, column: 1 },
        s2,
        0,
        Position { line: 1, column: 1 },
        stack0,
    );
}

/// Wrapping law: incrementing a cell holding 255 yields 0, and
/// decrementing a cell holding 0 yields 255 — in general, cell arithmetic
/// is addition and subtraction modulo 256.
pub proof fn lemma_cell_wrapping(st: EvalState)
    requires
        st_wf(st),
    ensures
        st.tape[st.ptr] == 255 ==> step_command(Command::Increment, st).tape[st.ptr] == 0,
        st.tape[st.ptr] == 0 ==> step_command(Command::Decrement, st).tape[st.ptr] == 255,
        step_command(Command::Increment, st).tape[st.ptr] == (st.tape[st.ptr] + 1) % 256,
        step_command(Command::Decrement, st).tape[st.ptr] == (st.tape[st.ptr] + 255) % 256,
{
}

/// Saturation law: moving left from pointer 0 leaves the pointer at 0, and
/// moving right from the last tape index leaves the pointer unchanged.
pub proof fn lemma_pointer_saturation(st: EvalState)
    requires
        st_wf(st),
    ensures
        st.ptr == 0 ==> step_command(Command::Left, st).ptr == 0,
        st.ptr == st.tape.len() - 1 ==> step_command(Command::Right, st).ptr == st.ptr,
{
}

/// Loop termination law: a loop whose guard cell is 0 on entry executes
/// its body zero times — the state comes back unchanged, whatever the
/// body and whatever the fuel.
pub proof fn lemma_loop_guard_zero(body: Seq<Ast>, st: EvalState, fuel: nat)
    requires
        st.tape[st.ptr] == 0,
    ensures
        run_node(Ast::Loop(body), st, fuel) == Some(st),
{
}

} // verus!
