use tapelang::eval::{interpret, run, Error, Machine, RuntimeError};
use tapelang::parser::parse;

#[test]
fn null_program_runs_clean() {
    let ast = parse("").expect("empty source must parse");
    let mut m = Machine::new(4, vec![], 10);
    assert_eq!(run(&ast, &mut m), Ok(()));
    assert!(m.tape.iter().all(|&c| c == 0));
    assert_eq!(m.output, Vec::<u8>::new());
    assert_eq!(m.consumed, 0);
    assert_eq!(m.fuel, 10);
}

#[test]
fn cell_wraparound_incr() {
    let source = "+".repeat(256);
    let ast = parse(&source).expect("increments must parse");
    let mut m = Machine::new(1, vec![], 0);
    assert_eq!(run(&ast, &mut m), Ok(()));
    assert_eq!(m.tape[0], 0);
}

#[test]
fn cell_wraparound_decr() {
    let ast = parse("-").expect("one decrement must parse");
    let mut m = Machine::new(1, vec![], 0);
    assert_eq!(run(&ast, &mut m), Ok(()));
    assert_eq!(m.tape[0], 255);
    assert_eq!(interpret("-.", 1, vec![], 0), Ok(vec![255]));
}

#[test]
fn loop_as_conditional() {
    assert_eq!(interpret("+[-.]", 4, vec![], 100), Ok(vec![0]));
}

#[test]
fn nested_loops_golden_output() {
    assert_eq!(
        interpret("++[>+++[<.>-]<-]", 4, vec![], 100),
        Ok(vec![2, 2, 2, 1, 1, 1])
    );
}

#[test]
fn comment_transparency() {
    let plain = interpret("+[-.]", 4, vec![], 100);
    let commented = interpret("+ hello\n[world - 42 . ok]\t!", 4, vec![], 100);
    assert_eq!(plain, commented);
    assert_eq!(commented, Ok(vec![0]));
}

#[test]
fn pointer_bound_left() {
    assert_eq!(
        interpret("<", 4, vec![], 10),
        Err(Error::Runtime(RuntimeError::PointerOutOfBounds))
    );
}

#[test]
fn pointer_bound_right() {
    assert_eq!(
        interpret(">", 1, vec![], 10),
        Err(Error::Runtime(RuntimeError::PointerOutOfBounds))
    );
}

#[test]
fn input_reads_one_byte_per_instruction() {
    assert_eq!(interpret(",.>,.", 4, vec![65, 66], 10), Ok(vec![65, 66]));
}

#[test]
fn input_exhausted_leaves_cell_unchanged() {
    assert_eq!(interpret(",.", 4, vec![], 10), Ok(vec![0]));
    assert_eq!(interpret("+,.", 4, vec![], 10), Ok(vec![1]));
}

#[test]
fn step_limit_interrupts_endless_loop() {
    assert_eq!(
        interpret("+[]", 4, vec![], 50),
        Err(Error::Runtime(RuntimeError::StepLimitExceeded))
    );
}

#[test]
fn parse_error_reported_by_interpret() {
    assert_eq!(
        interpret("[", 4, vec![], 10),
        Err(Error::Parse(tapelang::parser::ParseError::UnterminatedLoop))
    );
    assert_eq!(
        interpret("]", 4, vec![], 10),
        Err(Error::Parse(tapelang::parser::ParseError::UnmatchedLoopClose))
    );
}

#[test]
fn loop_passes_spend_budget() {
    let ast = parse("+++[-]").expect("must parse");
    let mut m = Machine::new(1, vec![], 10);
    assert_eq!(run(&ast, &mut m), Ok(()));
    assert_eq!(m.tape[0], 0);
    assert_eq!(m.fuel, 7);
}

#[test]
fn multiplication_by_looping() {
    assert_eq!(interpret("++++++[>++++++++<-]>.", 2, vec![], 100), Ok(vec![48]));
}

#[test]
fn shifts_address_separate_cells() {
    assert_eq!(interpret("+>++>+++<.<.", 4, vec![], 10), Ok(vec![2, 1]));
}
