//! The tree-walking evaluator: machine state, per-instruction semantics,
//! and the executable interpreter proved against them.

use vstd::prelude::*;
use crate::ast::{ast_view, lemma_ast_view_index, node_view, Instr, Node};
use crate::lexer::spec_tokenize;
use crate::parser::{parse, spec_parse, ParseError};

verus! {

/// Why a run stops before the program's end.
#[derive(Clone, Copy, Debug, PartialEq, Eq, Structural)]
pub enum RuntimeError {
    /// A shift instruction would move the pointer off the tape. The tape has
    /// a fixed size; leaving it on either side is a defined, reported failure
    /// rather than wraparound or a corrupting access.
    PointerOutOfBounds,
    /// The budget of loop passes was used up before the program ended. The
    /// interpreted language admits programs that never end; a caller bounds a
    /// run by giving the machine a finite budget.
    StepLimitExceeded,
}

/// The mathematical state of the machine: the tape's cells, the pointer, the
/// input bytes not yet consumed, and the bytes written so far.
#[verifier::ext_equal]
pub struct State {
    pub tape: Seq<u8>,
    pub ptr: nat,
    pub input: Seq<u8>,
    pub output: Seq<u8>,
}

/// How evaluating a piece of a program ends: normally, carrying the new
/// state and the remaining budget of loop passes; in a runtime failure at
/// some state; or interrupted at some state when the budget runs out.
pub enum Outcome {
    Done { state: State, fuel: nat },
    Fail { state: State },
    Interrupted { state: State },
}

/// One more than `c`, wrapping 255 around to 0.
pub open spec fn cell_inc(c: u8) -> u8 {
    if c == 255 {
        0
    } else {
        (c + 1) as u8
    }
}

/// One less than `c`, wrapping 0 around to 255.
pub open spec fn cell_dec(c: u8) -> u8 {
    if c == 0 {
        255
    } else {
        (c - 1) as u8
    }
}

/// The smaller of `f` and `cap`.
pub open spec fn at_most(f: nat, cap: nat) -> nat {
    if f <= cap {
        f
    } else {
        cap
    }
}

/// Evaluates one instruction in state `s` with a budget of `fuel` loop
/// passes. Increment and decrement act on the current cell modulo 256; the
/// shifts move the pointer and fail when it would leave the tape; output
/// appends the current cell to the output; input consumes one byte into the
/// current cell, or leaves the cell unchanged when the input is exhausted. A
/// loop evaluates its body repeatedly while the current cell is nonzero,
/// spending one unit of budget per pass; a loop whose condition is already
/// false costs nothing.
pub open spec fn eval_instr(ins: Instr, s: State, fuel: nat) -> Outcome
    decreases fuel, ins,
{
    match ins {
        Instr::Incr => Outcome::Done {
            state: State {
                tape: s.tape.update(s.ptr as int, cell_inc(s.tape[s.ptr as int])),
                ..s
            },
            fuel,
        },
        Instr::Decr => Outcome::Done {
            state: State {
                tape: s.tape.update(s.ptr as int, cell_dec(s.tape[s.ptr as int])),
                ..s
            },
            fuel,
        },
        Instr::ShiftLeft => if s.ptr == 0 {
            Outcome::Fail { state: s }
        } else {
            Outcome::Done { state: State { ptr: (s.ptr - 1) as nat, ..s }, fuel }
        },
        Instr::ShiftRight => if s.ptr + 1 >= s.tape.len() {
            Outcome::Fail { state: s }
        } else {
            Outcome::Done { state: State { ptr: (s.ptr + 1) as nat, ..s }, fuel }
        },
        Instr::Output => Outcome::Done {
            state: State { output: s.output.push(s.tape[s.ptr as int]), ..s },
            fuel,
        },
        Instr::Input => if s.input.len() == 0 {
            Outcome::Done { state: s, fuel }
        } else {
            Outcome::Done {
                state: State {
                    tape: s.tape.update(s.ptr as int, s.input[0]),
                    input: s.input.drop_first(),
                    ..s
                },
                fuel,
            }
        },
        Instr::Loop { body } => if s.tape[s.ptr as int] == 0 {
            Outcome::Done { state: s, fuel }
        } else if fuel == 0 {
            Outcome::Interrupted { state: s }
        } else {
            match eval_block(body, s, (fuel - 1) as nat) {
                Outcome::Done { state: s2, fuel: f2 } => eval_instr(
                    ins,
                    s2,
                    at_most(f2, (fuel - 1) as nat),
                ),
                o => o,
            }
        },
    }
}

/// Evaluates the instructions of `b` in order, threading state and budget
/// through; the first failure or interruption ends the evaluation.
pub open spec fn eval_block(b: Seq<Instr>, s: State, fuel: nat) -> Outcome
    decreases fuel, b,
{
    if b.len() == 0 {
        Outcome::Done { state: s, fuel }
    } else {
        match eval_instr(b[0], s, fuel) {
            Outcome::Done { state: s2, fuel: f2 } => eval_block(
                b.drop_first(),
                s2,
                at_most(f2, fuel),
            ),
            o => o,
        }
    }
}

/// Evaluation never hands back more budget than it was given.
pub proof fn lemma_instr_fuel(ins: Instr, s: State, fuel: nat)
    ensures
        match eval_instr(ins, s, fuel) {
            Outcome::Done { fuel: f2, .. } => f2 <= fuel,
            _ => true,
        },
    decreases fuel, ins,
{
    match ins {
        Instr::Loop { body } => {
            if s.tape[s.ptr as int] != 0 && fuel > 0 {
                lemma_block_fuel(body, s, (fuel - 1) as nat);
                match eval_block(body, s, (fuel - 1) as nat) {
                    Outcome::Done { state: s2, fuel: f2 } => {
                        lemma_instr_fuel(ins, s2, at_most(f2, (fuel - 1) as nat));
                    },
                    _ => {},
                }
            }
        },
        _ => {},
    }
}

/// Evaluation never hands back more budget than it was given.
pub proof fn lemma_block_fuel(b: Seq<Instr>, s: State, fuel: nat)
    ensures
        match eval_block(b, s, fuel) {
            Outcome::Done { fuel: f2, .. } => f2 <= fuel,
            _ => true,
        },
    decreases fuel, b,
{
    if b.len() > 0 {
        lemma_instr_fuel(b[0], s, fuel);
        match eval_instr(b[0], s, fuel) {
            Outcome::Done { state: s2, fuel: f2 } => {
                lemma_block_fuel(b.drop_first(), s2, at_most(f2, fuel));
            },
            _ => {},
        }
    }
}

/// The machine a program runs against: a fixed-size tape of byte cells, the
/// pointer into it, an input buffer with a cursor of how much was consumed,
/// an output buffer, and the remaining budget of loop passes.
pub struct Machine {
    pub tape: Vec<u8>,
    pub ptr: usize,
    pub input: Vec<u8>,
    pub consumed: usize,
    pub output: Vec<u8>,
    pub fuel: u64,
}

impl View for Machine {
    type V = State;

    open spec fn view(&self) -> State {
        State {
            tape: self.tape@,
            ptr: self.ptr as nat,
            input: self.input@.skip(self.consumed as int),
            output: self.output@,
        }
    }
}

impl Machine {
    /// A machine is well formed when its pointer rests on the tape and its
    /// input cursor has not run past the input's end.
    pub open spec fn wf(self) -> bool {
        &&& self.ptr < self.tape@.len()
        &&& self.consumed <= self.input@.len()
    }

    /// A fresh machine: a zeroed tape of `tape_len` cells, the pointer on the
    /// leftmost cell, the given input untouched, no output yet, and a budget
    /// of `fuel` loop passes.
    pub fn new(tape_len: usize, input: Vec<u8>, fuel: u64) -> (m: Machine)
        requires
            tape_len >= 1,
        ensures
            m.wf(),
            m@.tape == Seq::new(tape_len as nat, |i: int| 0u8),
            m@.ptr == 0,
            m@.input == input@,
            m@.output == Seq::<u8>::empty(),
            m.fuel == fuel,
    {
        let mut tape: Vec<u8> = Vec::new();
        let mut i: usize = 0;
        while i < tape_len
            invariant
                i <= tape_len,
                tape@.len() == i,
                forall|j: int| 0 <= j < i ==> tape@[j] == 0u8,
            decreases tape_len - i,
        {
            tape.push(0u8);
            i += 1;
        }
        let m = Machine { tape, ptr: 0, input, consumed: 0, output: Vec::new(), fuel };
        proof {
            assert(m@.tape =~= Seq::new(tape_len as nat, |i: int| 0u8));
            assert(m@.input =~= m.input@);
        }
        m
    }
}

/// Executes one node against the machine, exactly as [`eval_instr`] says.
fn exec_node(n: &Node, m: &mut Machine) -> (r: Result<(), RuntimeError>)
    requires
        old(m).wf(),
    ensures
        final(m).wf(),
        final(m)@.tape.len() == old(m)@.tape.len(),
        final(m).fuel <= old(m).fuel,
        match eval_instr(node_view(*n), old(m)@, old(m).fuel as nat) {
            Outcome::Done { state, fuel } => r == Ok::<(), RuntimeError>(()) && final(m)@ == state
                && final(m).fuel as nat == fuel,
            Outcome::Fail { state } => r == Err::<(), RuntimeError>(
                RuntimeError::PointerOutOfBounds,
            ) && final(m)@ == state,
            Outcome::Interrupted { state } => r == Err::<(), RuntimeError>(
                RuntimeError::StepLimitExceeded,
            ) && final(m)@ == state && final(m).fuel == 0,
        },
    decreases n,
{
    match n {
        Node::Incr => {
            let c = m.tape[m.ptr];
            let c2 = if c == 255 {
                0
            } else {
                c + 1
            };
            m.tape.set(m.ptr, c2);
            proof {
                assert(m@ =~= State {
                    tape: old(m)@.tape.update(
                        old(m)@.ptr as int,
                        cell_inc(old(m)@.tape[old(m)@.ptr as int]),
                    ),
                    ..old(m)@
                });
            }
            Ok(())
        },
        Node::Decr => {
            let c = m.tape[m.ptr];
            let c2 = if c == 0 {
                255
            } else {
                c - 1
            };
            m.tape.set(m.ptr, c2);
            proof {
                assert(m@ =~= State {
                    tape: old(m)@.tape.update(
                        old(m)@.ptr as int,
                        cell_dec(old(m)@.tape[old(m)@.ptr as int]),
                    ),
                    ..old(m)@
                });
            }
            Ok(())
        },
        Node::ShiftLeft => {
            if m.ptr == 0 {
                Err(RuntimeError::PointerOutOfBounds)
            } else {
                m.ptr = m.ptr - 1;
                proof {
                    assert(m@ =~= State { ptr: (old(m)@.ptr - 1) as nat, ..old(m)@ });
                }
                Ok(())
            }
        },
        Node::ShiftRight => {
            if m.ptr >= m.tape.len() - 1 {
                Err(RuntimeError::PointerOutOfBounds)
            } else {
                m.ptr = m.ptr + 1;
                proof {
                    assert(m@ =~= State { ptr: (old(m)@.ptr + 1) as nat, ..old(m)@ });
                }
                Ok(())
            }
        },
        Node::Output => {
            let c = m.tape[m.ptr];
            m.output.push(c);
            proof {
                assert(m@ =~= State {
                    output: old(m)@.output.push(old(m)@.tape[old(m)@.ptr as int]),
                    ..old(m)@
                });
            }
            Ok(())
        },
        Node::Input => {
            if m.consumed < m.input.len() {
                let b = m.input[m.consumed];
                m.consumed = m.consumed + 1;
                m.tape.set(m.ptr, b);
                proof {
                    assert(old(m)@.input.len() > 0);
                    assert(old(m)@.input[0] == old(m).input@[old(m).consumed as int]);
                    assert(m@.input =~= old(m)@.input.drop_first());
                    assert(m@ =~= State {
                        tape: old(m)@.tape.update(old(m)@.ptr as int, old(m)@.input[0]),
                        input: old(m)@.input.drop_first(),
                        ..old(m)@
                    });
                }
            } else {
                proof {
                    assert(old(m)@.input.len() == 0);
                    assert(m@ =~= old(m)@);
                }
            }
            Ok(())
        },
        Node::Loop { body } => {
            proof {
                assert(node_view(*n) == Instr::Loop { body: ast_view(body@) });
            }
            while m.tape[m.ptr] != 0
                invariant
                    m.wf(),
                    m@.tape.len() == old(m)@.tape.len(),
                    m.fuel <= old(m).fuel,
                    eval_instr(node_view(*n), old(m)@, old(m).fuel as nat) == eval_instr(
                        node_view(*n),
                        m@,
                        m.fuel as nat,
                    ),
                    node_view(*n) == (Instr::Loop { body: ast_view(body@) }),
                    *n == (Node::Loop { body: *body }),
                decreases m.fuel,
            {
                if m.fuel == 0 {
                    return Err(RuntimeError::StepLimitExceeded);
                }
                m.fuel = m.fuel - 1;
                let ghost s_iter = m@;
                let ghost f_iter = m.fuel as nat;
                proof {
                    assert(decreases_to!(*n => *body));
                }
                let r = run(body, m);
                proof {
                    lemma_block_fuel(ast_view(body@), s_iter, f_iter);
                }
                match r {
                    Ok(()) => {},
                    Err(e) => {
                        return Err(e);
                    },
                }
            }
            Ok(())
        },
    }
}

/// Runs a sequence of instruction nodes against the machine: every node in
/// order, recursing into loop bodies, until the sequence is exhausted, the
/// pointer leaves the tape, or the budget of loop passes runs out. The
/// outcome and the machine's final state are exactly those of
/// [`eval_block`] on the machine's starting state and budget.
pub fn run(ast: &Vec<Node>, m: &mut Machine) -> (r: Result<(), RuntimeError>)
    requires
        old(m).wf(),
    ensures
        final(m).wf(),
        final(m)@.tape.len() == old(m)@.tape.len(),
        final(m).fuel <= old(m).fuel,
        match eval_block(ast_view(ast@), old(m)@, old(m).fuel as nat) {
            Outcome::Done { state, fuel } => r == Ok::<(), RuntimeError>(()) && final(m)@ == state
                && final(m).fuel as nat == fuel,
            Outcome::Fail { state } => r == Err::<(), RuntimeError>(
                RuntimeError::PointerOutOfBounds,
            ) && final(m)@ == state,
            Outcome::Interrupted { state } => r == Err::<(), RuntimeError>(
                RuntimeError::StepLimitExceeded,
            ) && final(m)@ == state && final(m).fuel == 0,
        },
    decreases ast,
{
    let ghost bv = ast_view(ast@);
    proof {
        lemma_ast_view_index(ast@);
        assert(bv.skip(0) =~= bv);
    }
    let mut i: usize = 0;
    while i < ast.len()
        invariant
            old(m).wf(),
            m.wf(),
            i <= ast@.len(),
            m@.tape.len() == old(m)@.tape.len(),
            m.fuel <= old(m).fuel,
            bv == ast_view(ast@),
            bv.len() == ast@.len(),
            forall|j: int| 0 <= j < ast@.len() ==> bv[j] == node_view(ast@[j]),
            eval_block(bv, old(m)@, old(m).fuel as nat) == eval_block(
                bv.skip(i as int),
                m@,
                m.fuel as nat,
            ),
        decreases ast@.len() - i,
    {
        let ghost s_i = m@;
        let ghost f_i = m.fuel as nat;
        let r = exec_node(&ast[i], m);
        proof {
            lemma_instr_fuel(bv[i as int], s_i, f_i);
            assert(bv.skip(i as int)[0] == bv[i as int]);
            assert(bv.skip(i as int).drop_first() =~= bv.skip(i as int + 1));
        }
        match r {
            Ok(()) => {},
            Err(e) => {
                return Err(e);
            },
        }
        i += 1;
    }
    proof {
        assert(bv.skip(ast@.len() as int) =~= Seq::<Instr>::empty());
    }
    Ok(())
}

/// Why an interpretation fails: the source does not parse, or the run stops
/// on a runtime failure.
#[derive(Clone, Copy, Debug, PartialEq, Eq, Structural)]
pub enum Error {
    Parse(ParseError),
    Runtime(RuntimeError),
}

/// The interpretation of a source text: parse it, then run the program on a
/// zeroed tape of `tape_len` cells with the given input and a budget of
/// `fuel` loop passes; the result is the output the run wrote.
pub open spec fn spec_interpret(src: Seq<char>, tape_len: nat, input: Seq<u8>, fuel: nat) -> Result<
    Seq<u8>,
    Error,
> {
    match spec_parse(spec_tokenize(src)) {
        Err(e) => Err(Error::Parse(e)),
        Ok(prog) => match eval_block(
            prog,
            State {
                tape: Seq::new(tape_len, |i: int| 0u8),
                ptr: 0,
                input: input,
                output: Seq::empty(),
            },
            fuel,
        ) {
            Outcome::Done { state, .. } => Ok(state.output),
            Outcome::Fail { .. } => Err(Error::Runtime(RuntimeError::PointerOutOfBounds)),
            Outcome::Interrupted { .. } => Err(Error::Runtime(RuntimeError::StepLimitExceeded)),
        },
    }
}

/// The view of an interpretation's result: the output bytes it carries.
pub open spec fn interpret_result_view(r: Result<Vec<u8>, Error>) -> Result<Seq<u8>, Error> {
    match r {
        Ok(out) => Ok(out@),
        Err(e) => Err(e),
    }
}

/// Parses and runs a source text in one call: a fresh machine with a zeroed
/// tape of `tape_len` cells reads from `input`, and the bytes the program
/// wrote come back. The result is exactly [`spec_interpret`] of the inputs.
pub fn interpret(source: &str, tape_len: usize, input: Vec<u8>, fuel: u64) -> (r: Result<
    Vec<u8>,
    Error,
>)
    requires
        tape_len >= 1,
    ensures
        interpret_result_view(r) == spec_interpret(
            source@,
            tape_len as nat,
            input@,
            fuel as nat,
        ),
{
    let ast = match parse(source) {
        Ok(ast) => ast,
        Err(e) => {
            return Err(Error::Parse(e));
        },
    };
    let mut m = Machine::new(tape_len, input, fuel);
    match run(&ast, &mut m) {
        Ok(()) => Ok(m.output),
        Err(e) => Err(Error::Runtime(e)),
    }
}

} // verus!
