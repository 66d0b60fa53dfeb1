//! Canonical execution semantics: the authoritative operational model that
//! any interpreter or code generator must match bit for bit in observable
//! behaviour (output bytes for given input bytes).
//!
//! The model is a fixed-length byte tape (all cells zero initially), a
//! pointer starting at cell 0, an input byte sequence consumed in order and
//! an append-only output byte sequence. Pointer movement saturates at the
//! tape's bounds, cell arithmetic wraps modulo 256, and a loop re-checks
//! the current cell before every execution of its body. When input is
//! exhausted, a read leaves the current cell unchanged; this policy is
//! fixed here and tested.
//!
//! Loops make the language Turing-complete, so the reference interpreter
//! takes a step budget (`fuel`): one unit pays for one loop iteration, and
//! an exhausted budget is reported rather than looping forever. The
//! specification functions thread the same budget, so the interpreter's
//! result is pinned exactly to [`run_program`].

use vstd::prelude::*;

use crate::ast::Ast;
use crate::ast::AstNode;
use crate::ast::Command;
use crate::ast::view_node;
use crate::ast::view_nodes;

verus! {

broadcast use vstd::seq::axiom_seq_index_decreases, vstd::seq::axiom_seq_subrange_decreases,
    vstd::std_specs::vec::axiom_vec_decreases_to_view, vstd::std_specs::vec::axiom_vec_index_decreases;

/// The default tape length: thirty thousand cells.
pub const DEFAULT_TAPE_LEN: usize = 30000;

/// The state of one evaluation run: the tape, the pointer, the input bytes
/// not yet consumed, and the output bytes produced so far.
pub struct EvalState {
    pub tape: Seq<u8>,
    pub ptr: int,
    pub input: Seq<u8>,
    pub output: Seq<u8>,
}

/// A well-formed state: the pointer lies on the tape.
pub open spec fn st_wf(st: EvalState) -> bool {
    0 <= st.ptr < st.tape.len()
}

/// The effect of a single command on the state.
///
/// Movement saturates at the tape bounds; increment and decrement wrap
/// modulo 256; output appends the current cell; input consumes one byte
/// into the current cell, or leaves the cell unchanged when no input is
/// left.
pub open spec fn step_command(c: Command, st: EvalState) -> EvalState {
    match c {
        Command::Right => EvalState {
            tape: st.tape,
            ptr: if st.ptr + 1 < st.tape.len() {
                st.ptr + 1
            } else {
                st.tape.len() - 1
            },
            input: st.input,
            output: st.output,
        },
        Command::Left => EvalState {
            tape: st.tape,
            ptr: if st.ptr > 0 {
                st.ptr - 1
            } else {
                0
            },
            input: st.input,
            output: st.output,
        },
        Command::Increment => EvalState {
            tape: st.tape.update(st.ptr, (((st.tape[st.ptr] + 1) % 256) as u8)),
            ptr: st.ptr,
            input: st.input,
            output: st.output,
        },
        Command::Decrement => EvalState {
            tape: st.tape.update(st.ptr, (((st.tape[st.ptr] + 255) % 256) as u8)),
            ptr: st.ptr,
            input: st.input,
            output: st.output,
        },
        Command::Output => EvalState {
            tape: st.tape,
            ptr: st.ptr,
            input: st.input,
            output: st.output.push(st.tape[st.ptr]),
        },
        Command::Input => {
            if st.input.len() > 0 {
                EvalState {
                    tape: st.tape.update(st.ptr, st.input[0]),
                    ptr: st.ptr,
                    input: st.input.subrange(1, st.input.len() as int),
                    output: st.output,
                }
            } else {
                st
            }
        },
    }
}

/// Run one node to completion. A command takes one step; a loop re-checks
/// `tape[ptr] != 0` before every execution of its body, the very first
/// included, and repeats until the guard is false. Each loop iteration
/// consumes one unit of fuel; `None` means the budget ran out.
pub open spec fn run_node(n: Ast, st: EvalState, fuel: nat) -> Option<EvalState>
    decreases fuel, n,
{
    match n {
        Ast::Cmd(c) => Some(step_command(c, st)),
        Ast::Loop(body) => {
            if st.tape[st.ptr] == 0 {
                Some(st)
            } else if fuel == 0 {
                None
            } else {
                match run_seq(body, st, (fuel - 1) as nat) {
                    Some(st1) => run_node(n, st1, (fuel - 1) as nat),
                    None => None,
                }
            }
        },
    }
}

/// Run a sequence of nodes in order.
pub open spec fn run_seq(nodes: Seq<Ast>, st: EvalState, fuel: nat) -> Option<EvalState>
    decreases fuel, nodes,
{
    if nodes.len() == 0 {
        Some(st)
    } else {
        match run_node(nodes[0], st, fuel) {
            Some(st1) => run_seq(nodes.subrange(1, nodes.len() as int), st1, fuel),
            None => None,
        }
    }
}

/// The output of a whole program on given input: a zeroed tape of
/// `tape_len` cells, the pointer at 0 and empty output, then the nodes in
/// order. `None` means the fuel budget ran out first.
pub open spec fn run_program(prog: Seq<Ast>, input: Seq<u8>, tape_len: nat, fuel: nat) -> Option<
    Seq<u8>,
> {
    let st0 = EvalState {
        tape: Seq::new(tape_len, |i: int| 0u8),
        ptr: 0,
        input: input,
        output: Seq::empty(),
    };
    match run_seq(prog, st0, fuel) {
        Some(st) => Some(st.output),
        None => None,
    }
}

/// A sufficient budget does not distort the semantics: once a node runs
/// to completion within some fuel, any larger budget gives the very same
/// state. A `Some` answer is therefore canonical — fuel only decides
/// whether the answer is reached, never what it is.
pub proof fn lemma_run_node_fuel_monotonic(n: Ast, st: EvalState, f1: nat, f2: nat)
    requires
        f1 <= f2,
        run_node(n, st, f1) is Some,
    ensures
        run_node(n, st, f2) == run_node(n, st, f1),
    decreases f1, n,
{
    match n {
        Ast::Cmd(_) => {},
        Ast::Loop(body) => {
            if st.tape[st.ptr] != 0 {
                let st1 = run_seq(body, st, (f1 - 1) as nat).unwrap();
                lemma_run_seq_fuel_monotonic(body, st, (f1 - 1) as nat, (f2 - 1) as nat);
                lemma_run_node_fuel_monotonic(n, st1, (f1 - 1) as nat, (f2 - 1) as nat);
            }
        },
    }
}

/// Fuel monotonicity, for a sequence of nodes.
pub proof fn lemma_run_seq_fuel_monotonic(nodes: Seq<Ast>, st: EvalState, f1: nat, f2: nat)
    requires
        f1 <= f2,
        run_seq(nodes, st, f1) is Some,
    ensures
        run_seq(nodes, st, f2) == run_seq(nodes, st, f1),
    decreases f1, nodes,
{
    if nodes.len() > 0 {
        let st1 = run_node(nodes[0], st, f1).unwrap();
        lemma_run_node_fuel_monotonic(nodes[0], st, f1, f2);
        lemma_run_seq_fuel_monotonic(nodes.subrange(1, nodes.len() as int), st1, f1, f2);
    }
}

/// Fuel monotonicity, for a whole program: a finished run is the one
/// canonical result, whatever larger budget is offered.
pub proof fn lemma_run_program_fuel_monotonic(
    prog: Seq<Ast>,
    input: Seq<u8>,
    tape_len: nat,
    f1: nat,
    f2: nat,
)
    requires
        f1 <= f2,
        run_program(prog, input, tape_len, f1) is Some,
    ensures
        run_program(prog, input, tape_len, f2) == run_program(prog, input, tape_len, f1),
{
    let st0 = EvalState {
        tape: Seq::new(tape_len, |i: int| 0u8),
        ptr: 0,
        input: input,
        output: Seq::empty(),
    };
    lemma_run_seq_fuel_monotonic(prog, st0, f1, f2);
}

/// The machine that realises the canonical semantics: a concrete tape,
/// pointer, input cursor and output buffer.
struct Machine {
    tape: Vec<u8>,
    ptr: usize,
    input: Vec<u8>,
    in_pos: usize,
    output: Vec<u8>,
}

impl Machine {
    /// The state this machine stands for; the input is the bytes not yet
    /// consumed.
    spec fn view(&self) -> EvalState {
        EvalState {
            tape: self.tape@,
            ptr: self.ptr as int,
            input: self.input@.subrange(self.in_pos as int, self.input@.len() as int),
            output: self.output@,
        }
    }

    spec fn wf(&self) -> bool {
        &&& self.ptr < self.tape.len()
        &&& self.in_pos <= self.input.len()
    }

    /// Execute a single command.
    fn step(&mut self, c: Command)
        requires
            old(self).wf(),
        ensures
            final(self).wf(),
            final(self).tape@.len() == old(self).tape@.len(),
            final(self).view() == step_command(c, old(self).view()),
    {
        match c {
            Command::Right => {
                if self.ptr + 1 < self.tape.len() {
                    self.ptr = self.ptr + 1;
                }
            },
            Command::Left => {
                if self.ptr > 0 {
                    self.ptr = self.ptr - 1;
                }
            },
            Command::Increment => {
                let v = self.tape[self.ptr];
                let w: u8 = if v == 255 {
                    0
                } else {
                    v + 1
                };
                self.tape[self.ptr] = w;
            },
            Command::Decrement => {
                let v = self.tape[self.ptr];
                let w: u8 = if v == 0 {
                    255
                } else {
                    v - 1
                };
                self.tape[self.ptr] = w;
            },
            Command::Output => {
                let v = self.tape[self.ptr];
                self.output.push(v);
            },
            Command::Input => {
                if self.in_pos < self.input.len() {
                    let b = self.input[self.in_pos];
                    self.tape[self.ptr] = b;
                    self.in_pos = self.in_pos + 1;
                }
            },
        }
        proof {
            assert(final(self).view().tape =~= step_command(c, old(self).view()).tape);
            assert(final(self).view().input =~= step_command(c, old(self).view()).input);
            assert(final(self).view().output =~= step_command(c, old(self).view()).output);
        }
    }
}

/// Run one node on the machine. Returns `false` exactly when the fuel
/// budget runs out, mirroring `run_node`.
fn exec_node(n: &AstNode, m: &mut Machine, fuel: u64) -> (ok: bool)
    requires
        old(m).wf(),
    ensures
        final(m).wf(),
        final(m).tape@.len() == old(m).tape@.len(),
        match run_node(view_node(*n), old(m).view(), fuel as nat) {
            Some(st) => ok && final(m).view() == st,
            None => !ok,
        },
    decreases fuel, *n,
{
    match n {
        AstNode::Command(c) => {
            m.step(*c);
            true
        },
        AstNode::Loop(body) => {
            let ghost lv = view_node(*n);
            let mut f = fuel;
            loop
                invariant
                    m.wf(),
                    m.tape@.len() == old(m).tape@.len(),
                    f <= fuel,
                    lv == view_node(*n),
                    lv == Ast::Loop(view_nodes(body@)),
                    run_node(lv, old(m).view(), fuel as nat) == run_node(lv, m.view(), f as nat),
                decreases f,
            {
                let guard = m.tape[m.ptr];
                if guard == 0 {
                    return true;
                }
                if f == 0 {
                    return false;
                }
                let ok = exec_seq(body.as_slice(), m, f - 1);
                if !ok {
                    return false;
                }
                f = f - 1;
            }
        },
    }
}

/// Run a sequence of nodes in order on the machine. Returns `false`
/// exactly when the fuel budget runs out, mirroring `run_seq`.
fn exec_seq(nodes: &[AstNode], m: &mut Machine, fuel: u64) -> (ok: bool)
    requires
        old(m).wf(),
    ensures
        final(m).wf(),
        final(m).tape@.len() == old(m).tape@.len(),
        match run_seq(view_nodes(nodes@), old(m).view(), fuel as nat) {
            Some(st) => ok && final(m).view() == st,
            None => !ok,
        },
    decreases fuel, nodes@,
{
    let ghost vs = view_nodes(nodes@);
    proof {
        crate::ast::lemma_view_nodes_len(nodes@);
    }
    let n = nodes.len();
    proof {
        assert(vs.subrange(0, n as int) =~= vs);
    }
    let mut i: usize = 0;
    while i < n
        invariant
            m.wf(),
            m.tape@.len() == old(m).tape@.len(),
            i <= n,
            n == nodes@.len(),
            vs == view_nodes(nodes@),
            vs.len() == n,
            run_seq(vs, old(m).view(), fuel as nat) == run_seq(
                vs.subrange(i as int, n as int),
                m.view(),
                fuel as nat,
            ),
        decreases n - i,
    {
        proof {
            broadcast use crate::ast::lemma_view_nodes_index;

            assert(vs.subrange(i as int, n as int)[0] == view_node(nodes@[i as int]));
        }
        let ok = exec_node(&nodes[i], m, fuel);
        if !ok {
            return false;
        }
        proof {
            assert(vs.subrange(i as int, n as int).subrange(1, (n - i) as int) =~= vs.subrange(
                i + 1,
                n as int,
            ));
        }
        i = i + 1;
    }
    proof {
        assert(vs.subrange(n as int, n as int) =~= Seq::<Ast>::empty());
    }
    true
}

/// Evaluate a program against an input byte stream on a tape of
/// `tape_len` zeroed cells, spending at most `fuel` loop iterations.
///
/// Returns the output bytes the canonical semantics prescribe, or `None`
/// exactly when the fuel budget runs out first.
pub fn evaluate_with_tape(ast: &[AstNode], input: &[u8], tape_len: usize, fuel: u64) -> (r: Option<
    Vec<u8>,
>)
    requires
        tape_len >= 1,
    ensures
        match r {
            Some(out) => run_program(view_nodes(ast@), input@, tape_len as nat, fuel as nat)
                == Some(out@),
            None => run_program(view_nodes(ast@), input@, tape_len as nat, fuel as nat) is None,
        },
{
    let mut tape: Vec<u8> = Vec::new();
    let mut i: usize = 0;
    while i < tape_len
        invariant
            i <= tape_len,
            tape@.len() == i,
            forall|j: int| 0 <= j < i ==> tape@[j] == 0u8,
        decreases tape_len - i,
    {
        tape.push(0u8);
        i = i + 1;
    }
    let mut inp: Vec<u8> = Vec::new();
    let mut k: usize = 0;
    while k < input.len()
        invariant
            k <= input@.len(),
            inp@ == input@.subrange(0, k as int),
        decreases input@.len() - k,
    {
        inp.push(input[k]);
        proof {
            assert(inp@ =~= input@.subrange(0, k + 1));
        }
        k = k + 1;
    }
    proof {
        assert(inp@ =~= input@);
    }
    let mut m = Machine { tape, ptr: 0, input: inp, in_pos: 0, output: Vec::new() };
    proof {
        assert(m.view().tape =~= Seq::new(tape_len as nat, |j: int| 0u8));
        assert(m.view().input =~= input@);
        assert(m.view().output =~= Seq::<u8>::empty());
    }
    let ok = exec_seq(ast, &mut m, fuel);
    if ok {
        Some(m.output)
    } else {
        None
    }
}

/// Evaluate a program on the default tape of 30000 cells.
pub fn evaluate(ast: &[AstNode], input: &[u8], fuel: u64) -> (r: Option<Vec<u8>>)
    ensures
        match r {
            Some(out) => run_program(
                view_nodes(ast@),
                input@,
                DEFAULT_TAPE_LEN as nat,
                fuel as nat,
            ) == Some(out@),
            None => run_program(view_nodes(ast@), input@, DEFAULT_TAPE_LEN as nat, fuel as nat)
                is None,
        },
{
    evaluate_with_tape(ast, input, DEFAULT_TAPE_LEN, fuel)
}

} // verus!
