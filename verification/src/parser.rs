//! Recursive-descent parsing of token sequences into instruction trees.

use vstd::prelude::*;
use crate::ast::{ast_view, lemma_ast_view_push, node_view, Instr, Node};
use crate::lexer::{spec_tokenize, tokenize, Token};

verus! {

/// Why a source text fails to parse. Both errors are structural: unmatched
/// loop delimiters are the only way parsing can fail.
#[derive(Clone, Copy, Debug, PartialEq, Eq, Structural)]
pub enum ParseError {
    /// A loop-closing delimiter was met with no loop open.
    UnmatchedLoopClose,
    /// A loop was still open when the input ended.
    UnterminatedLoop,
}

/// Appends one instruction to the innermost open block of a stack of open
/// blocks.
pub open spec fn append_instr(stack: Seq<Seq<Instr>>, ins: Instr) -> Seq<Seq<Instr>>
    recommends
        stack.len() >= 1,
{
    stack.update(stack.len() - 1, stack.last().push(ins))
}

/// One left-to-right pass over `tokens` from position `i`, carrying the stack
/// of open blocks: the first element is the top-level block, the last is the
/// block being built, and those between belong to enclosing loops. An
/// instruction token lands in the innermost block, a loop-opening token opens
/// a fresh block, and a loop-closing token seals the innermost block into a
/// `Loop` instruction of the block below it — or fails when only the top
/// level is open. Comments are skipped. Returns the stack as it stands at end
/// of input.
pub open spec fn scan(tokens: Seq<Token>, i: int, stack: Seq<Seq<Instr>>) -> Result<
    Seq<Seq<Instr>>,
    ParseError,
>
    recommends
        0 <= i <= tokens.len(),
        stack.len() >= 1,
    decreases tokens.len() - i,
{
    if i < 0 || i >= tokens.len() {
        Ok(stack)
    } else {
        match tokens[i] {
            Token::Comment => scan(tokens, i + 1, stack),
            Token::LoopOpen => scan(tokens, i + 1, stack.push(Seq::empty())),
            Token::LoopClose => if stack.len() >= 2 {
                scan(
                    tokens,
                    i + 1,
                    append_instr(stack.drop_last(), Instr::Loop { body: stack.last() }),
                )
            } else {
                Err(ParseError::UnmatchedLoopClose)
            },
            Token::ShiftRight => scan(tokens, i + 1, append_instr(stack, Instr::ShiftRight)),
            Token::ShiftLeft => scan(tokens, i + 1, append_instr(stack, Instr::ShiftLeft)),
            Token::Increment => scan(tokens, i + 1, append_instr(stack, Instr::Incr)),
            Token::Decrement => scan(tokens, i + 1, append_instr(stack, Instr::Decr)),
            Token::Output => scan(tokens, i + 1, append_instr(stack, Instr::Output)),
            Token::Input => scan(tokens, i + 1, append_instr(stack, Instr::Input)),
        }
    }
}

/// Holds when `r` carries a stack of at least `n` open blocks.
pub open spec fn scan_ok_len_at_least(r: Result<Seq<Seq<Instr>>, ParseError>, n: int) -> bool {
    match r {
        Ok(stack) => stack.len() >= n,
        Err(_) => false,
    }
}

/// The parse of a whole token sequence: the top-level instruction sequence,
/// or the error. A close with no open loop fails with `UnmatchedLoopClose`;
/// end of input with a loop still open fails with `UnterminatedLoop`.
pub open spec fn spec_parse(tokens: Seq<Token>) -> Result<Seq<Instr>, ParseError> {
    match scan(tokens, 0, seq![Seq::<Instr>::empty()]) {
        Ok(stack) => if stack.len() == 1 {
            Ok(stack[0])
        } else {
            Err(ParseError::UnterminatedLoop)
        },
        Err(e) => Err(e),
    }
}

/// Builds one block of instruction nodes from `tokens`, reading forward from
/// `*pos`; the one cursor is threaded through every recursive call, so an
/// inner call's consumption is seen by its caller. A `nested` call was
/// entered just after a loop-opening token: it consumes up to and including
/// the matching close and yields the loop's body. The outermost call consumes
/// the whole input. The contract renders both as equations on [`scan`], for
/// every stack of open blocks the call could run under.
pub fn build_ast(tokens: &Vec<Token>, pos: &mut usize, nested: bool) -> (r: Result<
    Vec<Node>,
    ParseError,
>)
    requires
        *old(pos) <= tokens@.len(),
    ensures
        *old(pos) <= *final(pos) <= tokens@.len(),
        match r {
            Ok(ast) => if nested {
                forall|stack: Seq<Seq<Instr>>|
                    stack.len() >= 1 ==> #[trigger] scan(
                        tokens@,
                        *old(pos) as int,
                        stack.push(Seq::empty()),
                    ) == scan(
                        tokens@,
                        *final(pos) as int,
                        append_instr(stack, Instr::Loop { body: ast_view(ast@) }),
                    )
            } else {
                &&& *final(pos) == tokens@.len()
                &&& forall|stack: Seq<Seq<Instr>>|
                    #[trigger] scan(tokens@, *old(pos) as int, stack.push(Seq::empty()))
                        == Ok::<_, ParseError>(stack.push(ast_view(ast@)))
            },
            Err(e) => {
                &&& nested ==> e == ParseError::UnterminatedLoop
                &&& e == ParseError::UnterminatedLoop ==> forall|stack: Seq<Seq<Instr>>|
                    scan_ok_len_at_least(
                        #[trigger] scan(tokens@, *old(pos) as int, stack.push(Seq::empty())),
                        stack.len() + if nested { 1int } else { 2int },
                    )
                &&& e == ParseError::UnmatchedLoopClose ==> !nested && scan(
                    tokens@,
                    *old(pos) as int,
                    Seq::<Seq<Instr>>::empty().push(Seq::<Instr>::empty()),
                ) == Err::<Seq<Seq<Instr>>, ParseError>(ParseError::UnmatchedLoopClose)
            },
        },
    decreases tokens@.len() - *pos,
{
    let mut ast: Vec<Node> = Vec::new();
    while *pos < tokens.len()
        invariant
            *old(pos) <= *pos <= tokens@.len(),
            forall|stack: Seq<Seq<Instr>>|
                #[trigger] scan(tokens@, *old(pos) as int, stack.push(Seq::empty())) == scan(
                    tokens@,
                    *pos as int,
                    stack.push(ast_view(ast@)),
                ),
        decreases tokens@.len() - *pos,
    {
        let ghost i0 = *pos as int;
        let ghost sa = ast@;
        let ghost va = ast_view(ast@);
        let t = tokens[*pos];
        *pos = *pos + 1;
        match t {
            Token::Comment => {
                proof {
                    assert forall|stack: Seq<Seq<Instr>>|
                        #[trigger] scan(tokens@, *old(pos) as int, stack.push(Seq::empty()))
                            == scan(tokens@, *pos as int, stack.push(ast_view(ast@))) by {
                        assert(scan(tokens@, *old(pos) as int, stack.push(Seq::empty())) == scan(
                            tokens@,
                            i0,
                            stack.push(va),
                        ));
                    }
                }
            },
            Token::LoopOpen => {
                let inner = build_ast(tokens, pos, true);
                match inner {
                    Ok(body) => {
                        let ghost p2 = *pos as int;
                        let ghost bv = body@;
                        ast.push(Node::Loop { body });
                        proof {
                            lemma_ast_view_push(sa, ast@.last());
                            assert forall|stack: Seq<Seq<Instr>>|
                                #[trigger] scan(
                                    tokens@,
                                    *old(pos) as int,
                                    stack.push(Seq::empty()),
                                ) == scan(tokens@, *pos as int, stack.push(ast_view(ast@))) by {
                                assert(scan(tokens@, *old(pos) as int, stack.push(Seq::empty()))
                                    == scan(tokens@, i0, stack.push(va)));
                                assert(scan(tokens@, i0 + 1, stack.push(va).push(Seq::empty()))
                                    == scan(
                                    tokens@,
                                    p2,
                                    append_instr(
                                        stack.push(va),
                                        Instr::Loop { body: ast_view(bv) },
                                    ),
                                ));
                                assert(append_instr(
                                    stack.push(va),
                                    Instr::Loop { body: ast_view(bv) },
                                ) =~= stack.push(va.push(Instr::Loop { body: ast_view(bv) })));
                            }
                        }
                    },
                    Err(e) => {
                        proof {
                            assert forall|stack: Seq<Seq<Instr>>|
                                scan_ok_len_at_least(
                                    #[trigger] scan(
                                        tokens@,
                                        *old(pos) as int,
                                        stack.push(Seq::empty()),
                                    ),
                                    stack.len() + if nested { 1int } else { 2int },
                                ) by {
                                assert(scan(tokens@, *old(pos) as int, stack.push(Seq::empty()))
                                    == scan(tokens@, i0, stack.push(va)));
                                assert(scan_ok_len_at_least(
                                    scan(tokens@, i0 + 1, stack.push(va).push(Seq::empty())),
                                    stack.push(va).len() + 1int,
                                ));
                            }
                        }
                        return Err(e);
                    },
                }
            },
            Token::LoopClose => {
                if nested {
                    proof {
                        assert forall|stack: Seq<Seq<Instr>>| stack.len() >= 1 implies #[trigger] scan(
                            tokens@,
                            *old(pos) as int,
                            stack.push(Seq::empty()),
                        ) == scan(
                            tokens@,
                            *pos as int,
                            append_instr(stack, Instr::Loop { body: ast_view(ast@) }),
                        ) by {
                            assert(scan(tokens@, *old(pos) as int, stack.push(Seq::empty()))
                                == scan(tokens@, i0, stack.push(va)));
                            assert(stack.push(va).drop_last() =~= stack);
                        }
                    }
                    return Ok(ast);
                } else {
                    proof {
                        let empty_stack = Seq::<Seq<Instr>>::empty();
                        assert(scan(tokens@, *old(pos) as int, empty_stack.push(Seq::empty()))
                            == scan(tokens@, i0, empty_stack.push(va)));
                    }
                    return Err(ParseError::UnmatchedLoopClose);
                }
            },
            _ => {
                let node = match t {
                    Token::ShiftRight => Node::ShiftRight,
                    Token::ShiftLeft => Node::ShiftLeft,
                    Token::Increment => Node::Incr,
                    Token::Decrement => Node::Decr,
                    Token::Output => Node::Output,
                    _ => Node::Input,
                };
                let ghost ins = node_view(node);
                ast.push(node);
                proof {
                    lemma_ast_view_push(sa, ast@.last());
                    assert forall|stack: Seq<Seq<Instr>>|
                        #[trigger] scan(tokens@, *old(pos) as int, stack.push(Seq::empty()))
                            == scan(tokens@, *pos as int, stack.push(ast_view(ast@))) by {
                        assert(scan(tokens@, *old(pos) as int, stack.push(Seq::empty())) == scan(
                            tokens@,
                            i0,
                            stack.push(va),
                        ));
                        assert(append_instr(stack.push(va), ins) =~= stack.push(va.push(ins)));
                    }
                }
            },
        }
    }
    if nested {
        proof {
            assert forall|stack: Seq<Seq<Instr>>|
                scan_ok_len_at_least(
                    #[trigger] scan(tokens@, *old(pos) as int, stack.push(Seq::empty())),
                    stack.len() + 1int,
                ) by {
                assert(scan(tokens@, *old(pos) as int, stack.push(Seq::empty())) == scan(
                    tokens@,
                    *pos as int,
                    stack.push(ast_view(ast@)),
                ));
            }
        }
        Err(ParseError::UnterminatedLoop)
    } else {
        Ok(ast)
    }
}

/// Parses a source text: tokenizes it and builds the instruction tree. The
/// result is exactly the parse of the text's token sequence — parsing is a
/// pure function of the source.
pub fn parse(input: &str) -> (r: Result<Vec<Node>, ParseError>)
    ensures
        match r {
            Ok(ast) => spec_parse(spec_tokenize(input@)) == Ok::<_, ParseError>(ast_view(ast@)),
            Err(e) => spec_parse(spec_tokenize(input@)) == Err::<Seq<Instr>, ParseError>(e),
        },
{
    let tokens = tokenize(input);
    let mut pos: usize = 0;
    let r = build_ast(&tokens, &mut pos, false);
    proof {
        let tok = tokens@;
        let empty_stack = Seq::<Seq<Instr>>::empty();
        assert(empty_stack.push(Seq::<Instr>::empty()) =~= seq![Seq::<Instr>::empty()]);
        match r {
            Ok(ref ast) => {
                assert(scan(tok, 0, empty_stack.push(Seq::<Instr>::empty())) == Ok::<
                    _,
                    ParseError,
                >(empty_stack.push(ast_view(ast@))));
                assert(empty_stack.push(ast_view(ast@))[0] == ast_view(ast@));
            },
            Err(e) => {
                if e == ParseError::UnterminatedLoop {
                    assert(scan_ok_len_at_least(
                        scan(tok, 0, empty_stack.push(Seq::<Instr>::empty())),
                        2,
                    ));
                }
            },
        }
    }
    r
}

} // verus!
