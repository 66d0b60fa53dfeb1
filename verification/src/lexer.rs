//! Single-pass parser: consumes a character stream and produces a nested
//! AST, validating bracket structure as it goes.
//!
//! The parser walks the source left to right with an explicit stack of open
//! loop bodies (one frame per unmatched `[`), so nesting depth never grows
//! the call stack. Its result is pinned, character for character, to the
//! specification function [`spec_parse`].

use vstd::prelude::*;
use vstd::string::StrSliceExecFns;

use crate::ast::Ast;
use crate::ast::AstNode;
use crate::ast::Command;
use crate::ast::lemma_view_nodes_push;
use crate::ast::view_node;
use crate::ast::view_nodes;

verus! {

/// A position in the source code, for error reporting. Both fields are
/// 1-based; a newline resets the column and advances the line.
#[derive(Debug, Clone, Copy, PartialEq, Eq, Structural)]
pub struct Position {
    pub line: usize,
    pub column: usize,
}

/// The position one character after `p`: a newline starts the next line at
/// column 1, any other character moves one column right. The sums stay
/// within `usize` for every source the lexer accepts, since it admits
/// strictly fewer than `usize::MAX` characters.
pub open spec fn spec_advance(p: Position, c: char) -> Position {
    if c == '\n' {
        Position { line: (p.line + 1) as usize, column: 1 }
    } else {
        Position { line: p.line, column: (p.column + 1) as usize }
    }
}

impl Position {
    /// The starting position: line 1, column 1.
    pub fn new() -> (p: Self)
        ensures
            p == (Position { line: 1, column: 1 }),
    {
        Self { line: 1, column: 1 }
    }

    /// Advance past one consumed character.
    pub fn advance(&mut self, c: char)
        requires
            c == '\n' ==> old(self).line < usize::MAX,
            c != '\n' ==> old(self).column < usize::MAX,
        ensures
            *final(self) == spec_advance(*old(self), c),
    {
        if c == '\n' {
            self.line += 1;
            self.column = 1;
        } else {
            self.column += 1;
        }
    }
}

/// A structural parse error, fatal to the parse call that raised it; no
/// partial AST is ever returned alongside one.
#[derive(Debug, Clone, PartialEq, Eq, Structural)]
pub enum LexerError {
    /// A closing bracket appeared at top level, outside every loop; carries
    /// the position of that bracket.
    UnmatchedClosingBracket(Position),
    /// Input ended while a loop body was still open; carries the position
    /// at which input ran out.
    UnexpectedEndOfInput(Position),
}

/// Whether `c` is one of the six command characters (loop brackets not
/// included).
pub open spec fn is_command_char(c: char) -> bool {
    c == '>' || c == '<' || c == '+' || c == '-' || c == '.' || c == ','
}

/// The command a command character stands for.
pub open spec fn command_of(c: char) -> Command
    recommends
        is_command_char(c),
{
    if c == '>' {
        Command::Right
    } else if c == '<' {
        Command::Left
    } else if c == '+' {
        Command::Increment
    } else if c == '-' {
        Command::Decrement
    } else if c == '.' {
        Command::Output
    } else {
        Command::Input
    }
}

/// Whether `c` affects the AST at all: a command character or a bracket.
/// Every other character is commentary.
pub open spec fn is_significant(c: char) -> bool {
    is_command_char(c) || c == '[' || c == ']'
}

/// Append one finished node to the innermost open loop body (the top stack
/// frame).
pub open spec fn push_top(stack: Seq<Seq<Ast>>, n: Ast) -> Seq<Seq<Ast>>
    recommends
        stack.len() >= 1,
{
    stack.update(stack.len() - 1, stack[stack.len() - 1].push(n))
}

/// One left-to-right pass of the parser from character `i`, with `pos` the
/// position of that character and `stack` the open loop bodies: the bottom
/// frame collects the top-level nodes, and each frame above it the body of
/// one unmatched `[`.
///
/// A command character appends a leaf to the top frame; `[` opens a new
/// empty frame; `]` closes the top frame into a `Loop` node, or fails at
/// top level; any other character is consumed without effect. At the end
/// of input a single remaining frame is the finished AST, and any deeper
/// stack means an unclosed loop.
pub open spec fn parse_step(
    s: Seq<char>,
    i: int,
    pos: Position,
    stack: Seq<Seq<Ast>>,
) -> Result<Seq<Ast>, LexerError>
    recommends
        0 <= i <= s.len(),
        stack.len() >= 1,
    decreases s.len() - i,
{
    if i >= s.len() {
        if stack.len() == 1 {
            Ok(stack[0])
        } else {
            Err(LexerError::UnexpectedEndOfInput(pos))
        }
    } else {
        let c = s[i];
        if is_command_char(c) {
            parse_step(s, i + 1, spec_advance(pos, c), push_top(stack, Ast::Cmd(command_of(c))))
        } else if c == '[' {
            parse_step(s, i + 1, spec_advance(pos, c), stack.push(Seq::empty()))
        } else if c == ']' {
            if stack.len() <= 1 {
                Err(LexerError::UnmatchedClosingBracket(pos))
            } else {
                let body = stack[stack.len() - 1];
                let popped = stack.subrange(0, stack.len() - 1);
                parse_step(s, i + 1, spec_advance(pos, c), push_top(popped, Ast::Loop(body)))
            }
        } else {
            parse_step(s, i + 1, spec_advance(pos, c), stack)
        }
    }
}

/// What parsing a whole source yields: the AST of a well-bracketed source,
/// or the first structural error.
pub open spec fn spec_parse(s: Seq<char>) -> Result<Seq<Ast>, LexerError> {
    parse_step(s, 0, Position { line: 1, column: 1 }, seq![Seq::<Ast>::empty()])
}

/// The model of a stack of open loop bodies.
pub open spec fn stack_view(st: Seq<Vec<AstNode>>) -> Seq<Seq<Ast>> {
    Seq::new(st.len(), |i: int| view_nodes(st[i]@))
}

/// The lexer: owns the characters of one source text and parses them once.
pub struct Lexer {
    chars: Vec<char>,
    index: usize,
    position: Position,
}

impl Lexer {
    /// The characters this lexer was built over.
    pub closed spec fn src(&self) -> Seq<char> {
        self.chars@
    }

    /// A freshly constructed lexer: nothing consumed yet, and a source
    /// short enough that line and column numbers cannot overflow.
    pub closed spec fn wf(&self) -> bool {
        &&& self.index == 0
        &&& self.position == (Position { line: 1, column: 1 })
        &&& self.chars@.len() < usize::MAX
    }

    /// Create a new lexer from source code.
    pub fn new(source: &str) -> (l: Lexer)
        requires
            source@.len() < usize::MAX,
        ensures
            l.src() == source@,
            l.wf(),
    {
        let n = source.unicode_len();
        let mut chars: Vec<char> = Vec::new();
        let mut i: usize = 0;
        while i < n
            invariant
                i <= n,
                n == source@.len(),
                chars@ == source@.subrange(0, i as int),
            decreases n - i,
        {
            chars.push(source.get_char(i));
            proof {
                assert(chars@ =~= source@.subrange(0, i + 1));
            }
            i += 1;
        }
        proof {
            assert(chars@ =~= source@);
        }
        Lexer { chars, index: 0, position: Position::new() }
    }

    /// Parse the entire source code into an AST, or fail with the first
    /// structural error. The result is exactly `spec_parse` of the source:
    /// the same source always yields the same AST or the same error.
    pub fn parse(self) -> (r: Result<Vec<AstNode>, LexerError>)
        requires
            self.wf(),
        ensures
            match r {
                Ok(nodes) => spec_parse(self.src()) == Ok::<Seq<Ast>, LexerError>(
                    view_nodes(nodes@),
                ),
                Err(e) => spec_parse(self.src()) == Err::<Seq<Ast>, LexerError>(e),
            },
    {
        let ghost src = self.src();
        let mut me = self;
        let mut stack: Vec<Vec<AstNode>> = Vec::new();
        stack.push(Vec::new());
        proof {
            assert(stack_view(stack@) =~= seq![Seq::<Ast>::empty()]);
        }
        let n = me.chars.len();
        while me.index < n
            invariant
                src == self.src(),
                me.chars@ == src,
                n == src.len(),
                src.len() < usize::MAX,
                me.index <= n,
                stack@.len() >= 1,
                me.position.line >= 1,
                me.position.column >= 1,
                me.position.line + me.position.column <= me.index + 2,
                spec_parse(src) == parse_step(
                    src,
                    me.index as int,
                    me.position,
                    stack_view(stack@),
                ),
            decreases n - me.index,
        {
            let c = me.chars[me.index];
            let ghost pos0 = me.position;
            let ghost sv0 = stack_view(stack@);
            if let Some(cmd) = me.parse_command(c) {
                let ghost top0 = stack@[stack@.len() - 1]@;
                let mut top = stack.pop().unwrap();
                top.push(AstNode::Command(cmd));
                stack.push(top);
                proof {
                    lemma_view_nodes_push(top0, AstNode::Command(cmd));
                    assert(stack_view(stack@) =~= push_top(sv0, Ast::Cmd(command_of(c))));
                }
            } else if c == '[' {
                stack.push(Vec::new());
                proof {
                    assert(stack_view(stack@) =~= sv0.push(Seq::<Ast>::empty()));
                }
            } else if c == ']' {
                if stack.len() == 1 {
                    return Err(LexerError::UnmatchedClosingBracket(me.position));
                }
                let body = stack.pop().unwrap();
                let ghost top0 = stack@[stack@.len() - 1]@;
                let mut top = stack.pop().unwrap();
                top.push(AstNode::Loop(body));
                stack.push(top);
                proof {
                    lemma_view_nodes_push(top0, AstNode::Loop(body));
                    assert(view_node(AstNode::Loop(body)) == Ast::Loop(view_nodes(body@)));
                    assert(stack_view(stack@) =~= push_top(
                        sv0.subrange(0, sv0.len() - 1),
                        Ast::Loop(sv0[sv0.len() - 1]),
                    ));
                }
            } else {
                // commentary: consumed, no AST effect
            }
            me.index += 1;
            me.position.advance(c);
        }
        if stack.len() == 1 {
            let ghost svf = stack_view(stack@);
            let nodes = stack.pop().unwrap();
            proof {
                assert(svf[0] == view_nodes(nodes@));
            }
            Ok(nodes)
        } else {
            Err(LexerError::UnexpectedEndOfInput(me.position))
        }
    }

    /// Map a single character to the command it stands for, or `None` for
    /// brackets and commentary.
    fn parse_command(&self, c: char) -> (r: Option<Command>)
        ensures
            r == if is_command_char(c) {
                Some(command_of(c))
            } else {
                None::<Command>
            },
    {
        match c {
            '>' => Some(Command::Right),
            '<' => Some(Command::Left),
            '+' => Some(Command::Increment),
            '-' => Some(Command::Decrement),
            '.' => Some(Command::Output),
            ',' => Some(Command::Input),
            _ => None,
        }
    }
}

/// Parse source code into an AST, or fail with the first structural error.
///
/// The result is exactly `spec_parse` of the source's characters.
pub fn parse_brainfuck(source: &str) -> (r: Result<Vec<AstNode>, LexerError>)
    requires
        source@.len() < usize::MAX,
    ensures
        match r {
            Ok(nodes) => spec_parse(source@) == Ok::<Seq<Ast>, LexerError>(view_nodes(nodes@)),
            Err(e) => spec_parse(source@) == Err::<Seq<Ast>, LexerError>(e),
        },
{
    let lexer = Lexer::new(source);
    lexer.parse()
}

} // verus!
