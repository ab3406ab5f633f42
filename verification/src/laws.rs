//! Properties that hold across the lexer, parser and evaluator, stated and
//! proved over the same specifications the executable contracts use.

use vstd::prelude::*;
use crate::ast::Instr;
use crate::eval::{eval_block, eval_instr, spec_interpret, Error, Outcome, State};
use crate::lexer::{spec_tokenize, Token};
use crate::parser::{append_instr, scan, spec_parse, ParseError};

verus! {

/// The tokens of a sequence that carry meaning: everything but comments, in
/// their original order.
pub open spec fn significant(tokens: Seq<Token>) -> Seq<Token>
    decreases tokens.len(),
{
    if tokens.len() == 0 {
        Seq::empty()
    } else if tokens[0] == Token::Comment {
        significant(tokens.drop_first())
    } else {
        seq![tokens[0]] + significant(tokens.drop_first())
    }
}

/// Scanning ignores positions before `i`: stepping the start position and
/// dropping the first token agree.
proof fn lemma_scan_shift(tokens: Seq<Token>, i: int, stack: Seq<Seq<Instr>>)
    requires
        tokens.len() >= 1,
        0 <= i,
    ensures
        scan(tokens, i + 1, stack) == scan(tokens.drop_first(), i, stack),
    decreases tokens.len() - i,
{
    if i + 1 < tokens.len() {
        assert(tokens.drop_first()[i] == tokens[i + 1]);
        match tokens[i + 1] {
            Token::Comment => lemma_scan_shift(tokens, i + 1, stack),
            Token::LoopOpen => lemma_scan_shift(tokens, i + 1, stack.push(Seq::empty())),
            Token::LoopClose => if stack.len() >= 2 {
                lemma_scan_shift(
                    tokens,
                    i + 1,
                    append_instr(stack.drop_last(), Instr::Loop { body: stack.last() }),
                );
            },
            Token::ShiftRight => lemma_scan_shift(
                tokens,
                i + 1,
                append_instr(stack, Instr::ShiftRight),
            ),
            Token::ShiftLeft => lemma_scan_shift(
                tokens,
                i + 1,
                append_instr(stack, Instr::ShiftLeft),
            ),
            Token::Increment => lemma_scan_shift(tokens, i + 1, append_instr(stack, Instr::Incr)),
            Token::Decrement => lemma_scan_shift(tokens, i + 1, append_instr(stack, Instr::Decr)),
            Token::Output => lemma_scan_shift(tokens, i + 1, append_instr(stack, Instr::Output)),
            Token::Input => lemma_scan_shift(tokens, i + 1, append_instr(stack, Instr::Input)),
        }
    }
}

/// Scanning a token sequence and scanning its significant tokens end the
/// same way, from any stack of open blocks.
proof fn lemma_scan_significant(tokens: Seq<Token>, stack: Seq<Seq<Instr>>)
    ensures
        scan(tokens, 0, stack) == scan(significant(tokens), 0, stack),
    decreases tokens.len(),
{
    if tokens.len() > 0 {
        let rest = tokens.drop_first();
        if tokens[0] == Token::Comment {
            lemma_scan_shift(tokens, 0, stack);
            lemma_scan_significant(rest, stack);
        } else if tokens[0] == Token::LoopClose && stack.len() < 2 {
            assert(significant(tokens)[0] == tokens[0]);
        } else {
            let stack2 = match tokens[0] {
                Token::LoopOpen => stack.push(Seq::empty()),
                Token::LoopClose => append_instr(
                    stack.drop_last(),
                    Instr::Loop { body: stack.last() },
                ),
                Token::ShiftRight => append_instr(stack, Instr::ShiftRight),
                Token::ShiftLeft => append_instr(stack, Instr::ShiftLeft),
                Token::Increment => append_instr(stack, Instr::Incr),
                Token::Decrement => append_instr(stack, Instr::Decr),
                Token::Output => append_instr(stack, Instr::Output),
                _ => append_instr(stack, Instr::Input),
            };
            lemma_scan_shift(tokens, 0, stack2);
            lemma_scan_significant(rest, stack2);
            let sig = significant(tokens);
            assert(sig[0] == tokens[0]);
            lemma_scan_shift(sig, 0, stack2);
            assert(sig.drop_first() =~= significant(rest));
        }
    }
}

/// Comment transparency: two token sequences with the same significant
/// tokens parse to the same result. Inserting non-instruction characters
/// anywhere in a program, loops included, does not change its parse.
pub proof fn lemma_comment_transparency(t1: Seq<Token>, t2: Seq<Token>)
    requires
        significant(t1) == significant(t2),
    ensures
        spec_parse(t1) == spec_parse(t2),
{
    lemma_scan_significant(t1, seq![Seq::<Instr>::empty()]);
    lemma_scan_significant(t2, seq![Seq::<Instr>::empty()]);
}

/// Comment transparency, end to end: two source texts whose token sequences
/// agree on everything but comments interpret identically — same parse
/// outcome, and byte-for-byte the same output on every tape size, input and
/// budget.
pub proof fn lemma_interpret_comment_transparency(
    s1: Seq<char>,
    s2: Seq<char>,
    tape_len: nat,
    input: Seq<u8>,
    fuel: nat,
)
    requires
        significant(spec_tokenize(s1)) == significant(spec_tokenize(s2)),
    ensures
        spec_interpret(s1, tape_len, input, fuel) == spec_interpret(s2, tape_len, input, fuel),
{
    lemma_comment_transparency(spec_tokenize(s1), spec_tokenize(s2));
}

/// The null program: an empty source parses to the empty instruction
/// sequence, and running an empty instruction sequence ends at once in the
/// very state it started from — no tape change, no input consumed, no
/// output written.
pub proof fn lemma_null_program(s: State, fuel: nat)
    ensures
        spec_parse(spec_tokenize(Seq::<char>::empty())) == Ok::<_, ParseError>(
            Seq::<Instr>::empty(),
        ),
        eval_block(Seq::<Instr>::empty(), s, fuel) == (Outcome::Done { state: s, fuel }),
{
    assert(spec_tokenize(Seq::<char>::empty()).len() == 0);
    assert(seq![Seq::<Instr>::empty()][0] =~= Seq::<Instr>::empty());
}

/// The null program, end to end: interpreting an empty source succeeds on
/// every tape size, input and budget, and writes nothing.
pub proof fn lemma_null_program_interpret(tape_len: nat, input: Seq<u8>, fuel: nat)
    ensures
        spec_interpret(Seq::<char>::empty(), tape_len, input, fuel) == Ok::<_, Error>(
            Seq::<u8>::empty(),
        ),
{
    let init = State {
        tape: Seq::new(tape_len, |i: int| 0u8),
        ptr: 0,
        input: input,
        output: Seq::empty(),
    };
    lemma_null_program(init, fuel);
}

/// A larger budget never changes what a finished evaluation of one
/// instruction computes: a run that completes or fails within `f1` loop
/// passes ends the same way under any larger budget, with the surplus
/// handed back unspent.
pub proof fn lemma_instr_budget_monotonic(ins: Instr, s: State, f1: nat, f2: nat)
    requires
        f1 <= f2,
        !(eval_instr(ins, s, f1) is Interrupted),
    ensures
        match (eval_instr(ins, s, f1), eval_instr(ins, s, f2)) {
            (
                Outcome::Done { state: st1, fuel: g1 },
                Outcome::Done { state: st2, fuel: g2 },
            ) => st1 == st2 && g1 <= f1 && g2 == g1 + (f2 - f1),
            (Outcome::Fail { state: st1 }, Outcome::Fail { state: st2 }) => st1 == st2,
            _ => false,
        },
    decreases f1, ins,
{
    match ins {
        Instr::Loop { body } => {
            if s.tape[s.ptr as int] != 0 {
                lemma_block_budget_monotonic(body, s, (f1 - 1) as nat, (f2 - 1) as nat);
                match eval_block(body, s, (f1 - 1) as nat) {
                    Outcome::Done { state: s2, fuel: g1 } => {
                        match eval_block(body, s, (f2 - 1) as nat) {
                            Outcome::Done { state: _, fuel: g2 } => {
                                lemma_instr_budget_monotonic(ins, s2, g1, g2);
                            },
                            _ => {},
                        }
                    },
                    _ => {},
                }
            }
        },
        _ => {},
    }
}

/// A larger budget never changes what a finished evaluation of a block
/// computes: see [`lemma_instr_budget_monotonic`].
pub proof fn lemma_block_budget_monotonic(b: Seq<Instr>, s: State, f1: nat, f2: nat)
    requires
        f1 <= f2,
        !(eval_block(b, s, f1) is Interrupted),
    ensures
        match (eval_block(b, s, f1), eval_block(b, s, f2)) {
            (
                Outcome::Done { state: st1, fuel: g1 },
                Outcome::Done { state: st2, fuel: g2 },
            ) => st1 == st2 && g1 <= f1 && g2 == g1 + (f2 - f1),
            (Outcome::Fail { state: st1 }, Outcome::Fail { state: st2 }) => st1 == st2,
            _ => false,
        },
    decreases f1, b,
{
    if b.len() > 0 {
        lemma_instr_budget_monotonic(b[0], s, f1, f2);
        match eval_instr(b[0], s, f1) {
            Outcome::Done { state: s2, fuel: g1 } => {
                match eval_instr(b[0], s, f2) {
                    Outcome::Done { state: _, fuel: g2 } => {
                        lemma_block_budget_monotonic(b.drop_first(), s2, g1, g2);
                    },
                    _ => {},
                }
            },
            _ => {},
        }
    }
}

/// Parsing is deterministic: the parse outcome is a function of the token
/// sequence alone, so parsing one source twice yields structurally identical
/// trees.
pub proof fn lemma_parse_deterministic(
    tokens: Seq<Token>,
    r1: Result<Seq<Instr>, ParseError>,
    r2: Result<Seq<Instr>, ParseError>,
)
    requires
        r1 == spec_parse(tokens),
        r2 == spec_parse(tokens),
    ensures
        r1 == r2,
{
}

} // verus!
