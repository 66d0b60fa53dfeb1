//! The abstract syntax tree: an ordered sequence of command leaves and
//! recursively nested loop nodes, together with its mathematical model and
//! the node-counting utility.

use vstd::prelude::*;

verus! {

broadcast use vstd::seq::axiom_seq_index_decreases, vstd::seq::axiom_seq_subrange_decreases,
    vstd::std_specs::vec::axiom_vec_decreases_to_view, vstd::std_specs::vec::axiom_vec_index_decreases;

/// One of the six leaf operations. Immutable, copyable value.
#[derive(Debug, Clone, Copy, PartialEq, Eq, Structural)]
pub enum Command {
    /// Move the data pointer right (`>`)
    Right,
    /// Move the data pointer left (`<`)
    Left,
    /// Increment the current cell (`+`)
    Increment,
    /// Decrement the current cell (`-`)
    Decrement,
    /// Output the current cell (`.`)
    Output,
    /// Read one input byte into the current cell (`,`)
    Input,
}

/// An AST node: either a command leaf, or a loop carrying the ordered
/// sequence of its children (source order, significant). Each loop
/// exclusively owns its child sequence, so the nodes form a tree.
#[derive(Debug, PartialEq, Eq)]
pub enum AstNode {
    /// A basic command
    Command(Command),
    /// A loop containing nested nodes
    Loop(Vec<AstNode>),
}

/// The mathematical model of an AST node: the same tree, with loop bodies
/// as `Seq` rather than `Vec`. Contracts and lemmas speak of this type.
#[verifier::ext_equal]
pub enum Ast {
    /// A basic command
    Cmd(Command),
    /// A loop containing nested nodes
    Loop(Seq<Ast>),
}

/// The model of a single AST node.
pub open spec fn view_node(n: AstNode) -> Ast
    decreases n,
{
    match n {
        AstNode::Command(c) => Ast::Cmd(c),
        AstNode::Loop(body) => Ast::Loop(view_nodes(body@)),
    }
}

/// The model of a sequence of AST nodes.
pub open spec fn view_nodes(s: Seq<AstNode>) -> Seq<Ast>
    decreases s,
{
    if s.len() == 0 {
        Seq::empty()
    } else {
        view_nodes(s.subrange(0, s.len() - 1)).push(view_node(s[s.len() - 1]))
    }
}

/// The model of a sequence of nodes is as long as the sequence.
pub broadcast proof fn lemma_view_nodes_len(s: Seq<AstNode>)
    ensures
        (#[trigger] view_nodes(s)).len() == s.len(),
    decreases s.len(),
{
    if s.len() > 0 {
        lemma_view_nodes_len(s.subrange(0, s.len() - 1));
    }
}

/// The model of a sequence of nodes is the sequence of the nodes' models.
pub broadcast proof fn lemma_view_nodes_index(s: Seq<AstNode>, i: int)
    requires
        0 <= i < s.len(),
    ensures
        #[trigger] view_nodes(s)[i] == view_node(s[i]),
    decreases s.len(),
{
    lemma_view_nodes_len(s.subrange(0, s.len() - 1));
    if i < s.len() - 1 {
        lemma_view_nodes_index(s.subrange(0, s.len() - 1), i);
    }
}

/// Number of command leaves in one node, counted recursively.
pub open spec fn node_cmds(n: Ast) -> nat
    decreases n,
{
    match n {
        Ast::Cmd(_) => 1,
        Ast::Loop(body) => seq_cmds(body),
    }
}

/// Number of command leaves in a sequence of nodes, counted recursively.
pub open spec fn seq_cmds(s: Seq<Ast>) -> nat
    decreases s,
{
    if s.len() == 0 {
        0
    } else {
        seq_cmds(s.subrange(0, s.len() - 1)) + node_cmds(s[s.len() - 1])
    }
}

/// Number of `Loop` nodes in one node, counted recursively (the node
/// itself included if it is a loop).
pub open spec fn node_loops(n: Ast) -> nat
    decreases n,
{
    match n {
        Ast::Cmd(_) => 0,
        Ast::Loop(body) => 1 + seq_loops(body),
    }
}

/// Number of `Loop` nodes in a sequence of nodes, counted recursively.
pub open spec fn seq_loops(s: Seq<Ast>) -> nat
    decreases s,
{
    if s.len() == 0 {
        0
    } else {
        seq_loops(s.subrange(0, s.len() - 1)) + node_loops(s[s.len() - 1])
    }
}

/// Viewing a sequence extended by one node extends the model by that
/// node's model.
pub proof fn lemma_view_nodes_push(s: Seq<AstNode>, n: AstNode)
    ensures
        view_nodes(s.push(n)) == view_nodes(s).push(view_node(n)),
{
    let t = s.push(n);
    assert(t.subrange(0, t.len() - 1) =~= s);
    assert(t[t.len() - 1] == n);
}

/// Counting a sequence extended by one node adds that node's counts.
pub proof fn lemma_counts_push(s: Seq<Ast>, n: Ast)
    ensures
        seq_cmds(s.push(n)) == seq_cmds(s) + node_cmds(n),
        seq_loops(s.push(n)) == seq_loops(s) + node_loops(n),
{
    let t = s.push(n);
    assert(t.subrange(0, t.len() - 1) =~= s);
    assert(t[t.len() - 1] == n);
}

/// Counting one more element of a sequence adds that element's counts.
proof fn lemma_counts_prefix_step(s: Seq<Ast>, i: int)
    requires
        0 <= i < s.len(),
    ensures
        seq_cmds(s.subrange(0, i + 1)) == seq_cmds(s.subrange(0, i)) + node_cmds(s[i]),
        seq_loops(s.subrange(0, i + 1)) == seq_loops(s.subrange(0, i)) + node_loops(s[i]),
{
    let t = s.subrange(0, i + 1);
    assert(t.subrange(0, t.len() - 1) =~= s.subrange(0, i));
    assert(t[t.len() - 1] == s[i]);
}

/// The counts of a prefix together with the counts of the element after it
/// never exceed the counts of the whole sequence.
proof fn lemma_counts_prefix_bound(s: Seq<Ast>, i: int)
    requires
        0 <= i < s.len(),
    ensures
        seq_cmds(s.subrange(0, i)) + node_cmds(s[i]) + seq_loops(s.subrange(0, i)) + node_loops(
            s[i],
        ) <= seq_cmds(s) + seq_loops(s),
    decreases s.len() - i,
{
    lemma_counts_prefix_step(s, i);
    if i + 1 == s.len() {
        assert(s.subrange(0, i + 1) =~= s);
    } else {
        lemma_counts_prefix_bound(s, i + 1);
    }
}

/// Whether this node holds an `Input` command, however deeply nested.
pub open spec fn node_has_input(n: Ast) -> bool
    decreases n,
{
    match n {
        Ast::Cmd(c) => c == Command::Input,
        Ast::Loop(body) => seq_has_input(body),
    }
}

/// Whether any node of the sequence holds an `Input` command.
pub open spec fn seq_has_input(s: Seq<Ast>) -> bool
    decreases s,
{
    if s.len() == 0 {
        false
    } else {
        seq_has_input(s.subrange(0, s.len() - 1)) || node_has_input(s[s.len() - 1])
    }
}

/// Extending a sequence by one element reads `Input` exactly where one of
/// the two parts does.
proof fn lemma_has_input_prefix_step(s: Seq<Ast>, i: int)
    requires
        0 <= i < s.len(),
    ensures
        seq_has_input(s.subrange(0, i + 1)) == (seq_has_input(s.subrange(0, i)) || node_has_input(
            s[i],
        )),
{
    let t = s.subrange(0, i + 1);
    assert(t.subrange(0, t.len() - 1) =~= s.subrange(0, i));
    assert(t[t.len() - 1] == s[i]);
}

/// Whether the program reads input anywhere: `true` exactly when an
/// `Input` command occurs in the AST, however deeply nested. A program
/// without one behaves the same against every input stream.
pub fn contains_input(ast: &[AstNode]) -> (r: bool)
    ensures
        r == seq_has_input(view_nodes(ast@)),
    decreases ast@,
{
    let ghost s = view_nodes(ast@);
    proof {
        lemma_view_nodes_len(ast@);
    }
    let mut found = false;
    let n = ast.len();
    let mut i: usize = 0;
    while i < n
        invariant
            i <= n,
            n == ast@.len(),
            s == view_nodes(ast@),
            s.len() == n,
            found == seq_has_input(s.subrange(0, i as int)),
        decreases n - i,
    {
        proof {
            broadcast use lemma_view_nodes_len, lemma_view_nodes_index;

            lemma_has_input_prefix_step(s, i as int);
            assert(s[i as int] == view_node(ast@[i as int]));
        }
        match &ast[i] {
            AstNode::Command(c) => {
                if let Command::Input = c {
                    found = true;
                }
            },
            AstNode::Loop(body) => {
                proof {
                    assert(view_node(ast@[i as int]) == Ast::Loop(view_nodes(body@)));
                }
                let sub = contains_input(body.as_slice());
                if sub {
                    found = true;
                }
            },
        }
        i = i + 1;
    }
    proof {
        assert(s.subrange(0, n as int) =~= s);
    }
    found
}

/// Count the operations in the AST: `(command leaves, loop nodes)`, both
/// counted recursively through nested loops.
pub fn count_operations(ast: &[AstNode]) -> (counts: (usize, usize))
    requires
        seq_cmds(view_nodes(ast@)) + seq_loops(view_nodes(ast@)) <= usize::MAX,
    ensures
        counts.0 == seq_cmds(view_nodes(ast@)),
        counts.1 == seq_loops(view_nodes(ast@)),
    decreases ast@,
{
    let ghost s = view_nodes(ast@);
    proof {
        lemma_view_nodes_len(ast@);
    }
    let mut commands: usize = 0;
    let mut loops: usize = 0;
    let n = ast.len();
    let mut i: usize = 0;
    while i < n
        invariant
            i <= n,
            n == ast@.len(),
            s == view_nodes(ast@),
            s.len() == n,
            commands == seq_cmds(s.subrange(0, i as int)),
            loops == seq_loops(s.subrange(0, i as int)),
            seq_cmds(s) + seq_loops(s) <= usize::MAX,
        decreases n - i,
    {
        proof {
            broadcast use lemma_view_nodes_len, lemma_view_nodes_index;

            lemma_counts_prefix_step(s, i as int);
            lemma_counts_prefix_bound(s, i as int);
            assert(s[i as int] == view_node(ast@[i as int]));
        }
        match &ast[i] {
            AstNode::Command(_) => {
                commands = commands + 1;
            },
            AstNode::Loop(body) => {
                proof {
                    assert(view_node(ast@[i as int]) == Ast::Loop(view_nodes(body@)));
                }
                loops = loops + 1;
                let (sub_commands, sub_loops) = count_operations(body.as_slice());
                commands = commands + sub_commands;
                loops = loops + sub_loops;
            },
        }
        i = i + 1;
    }
    proof {
        assert(s.subrange(0, n as int) =~= s);
    }
    (commands, loops)
}

} // verus!
