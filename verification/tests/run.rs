//! The interpreter back-end, end to end: compile to bytecode and run.

use brainmuck::bytecode::{
    compile_cfg_to_bytecode, Bytecode, Interpreter, RuntimeError, StepEvent,
};
use brainmuck::ir::lower;
use brainmuck::optimize::optimize;
use brainmuck::{compile_to_bytecode, parse};

const FUEL: u64 = 10_000_000;

const HELLO_WORLD: &[u8] =
    b"++++++++[>++++[>++>+++>+++>+<<<<-]>+>+>->>+[<]<-]>>.>---.+++++++..+++.>>.<-.<.+++.------.--------.>>+.>++.";

fn run(source: &[u8], input: &[u8], tape_len: usize) -> (Result<Vec<u8>, RuntimeError>, Vec<u8>) {
    let ast = parse("test.b", source).unwrap();
    let program = compile_to_bytecode(&ast);
    let mut universe = vec![0u8; tape_len];
    let outcome = program
        .run_with_io(&mut universe, &input.to_vec(), FUEL)
        .expect("program should finish within the step bound");
    (outcome, universe)
}

#[test]
fn hello_world_prints_hello_world() {
    let (outcome, _) = run(HELLO_WORLD, b"", 4096);
    assert_eq!(outcome.unwrap(), b"Hello World!\n".to_vec());
}

#[test]
fn empty_loop_on_zero_cell_does_nothing() {
    let (outcome, universe) = run(b"[++]", b"", 4096);
    assert_eq!(outcome.unwrap(), Vec::<u8>::new());
    assert_eq!(universe, vec![0u8; 4096]);
}

#[test]
fn echo_one_byte() {
    let (outcome, _) = run(b",.", b"A", 4096);
    assert_eq!(outcome.unwrap(), b"A".to_vec());
}

#[test]
fn coalesced_increments_leave_three_on_the_tape() {
    let (outcome, universe) = run(b"+++-+", b"", 4096);
    assert_eq!(outcome.unwrap(), Vec::<u8>::new());
    assert_eq!(universe[0], 3);
    assert!(universe[1..].iter().all(|b| *b == 0));
}

#[test]
fn value_changes_wrap_modulo_256() {
    let (outcome, universe) = run(b"-", b"", 16);
    assert!(outcome.is_ok());
    assert_eq!(universe[0], 255);
}

#[test]
fn pointer_past_the_end_is_an_address_overflow() {
    let (outcome, _) = run(b">", b"", 1);
    assert_eq!(outcome.unwrap_err(), RuntimeError::AddressOverflow);
}

#[test]
fn pointer_below_zero_is_an_address_underflow() {
    let (outcome, _) = run(b"<", b"", 1);
    assert_eq!(outcome.unwrap_err(), RuntimeError::AddressUnderflow);
}

#[test]
fn reading_past_the_input_fails() {
    let (outcome, _) = run(b",,", b"A", 16);
    assert_eq!(outcome.unwrap_err(), RuntimeError::OutOfInput);
}

#[test]
fn an_endless_loop_runs_out_of_steps() {
    let ast = parse("test.b", b"+[]").unwrap();
    let program = compile_to_bytecode(&ast);
    let mut universe = vec![0u8; 16];
    let outcome = program.run_with_io(&mut universe, &Vec::new(), 1000);
    assert!(outcome.is_none());
}

#[test]
fn bytecode_resolves_branch_targets_numerically() {
    // `[++]`: the head branch skips to the terminate, the back edge returns
    // to the head.
    let ast = parse("test.b", b"[++]").unwrap();
    let cfg = optimize(&lower(&ast));
    let code = compile_cfg_to_bytecode(&cfg);
    assert_eq!(
        code,
        vec![
            Bytecode::BranchIfZero(brainmuck::bytecode::BranchTarget(3)),
            Bytecode::ChangeVal(2),
            Bytecode::BranchTo(brainmuck::bytecode::BranchTarget(0)),
            Bytecode::Terminate,
        ]
    );
}

#[test]
fn bytecode_never_exceeds_the_graph_instruction_count() {
    let ast = parse("test.b", HELLO_WORLD).unwrap();
    let cfg = optimize(&lower(&ast));
    let code = compile_cfg_to_bytecode(&cfg);
    let total: usize = cfg.blocks().iter().map(|b| b.instructions().len()).sum();
    assert!(code.len() <= total);
}

#[test]
fn optimization_does_not_change_what_a_program_computes() {
    let ast = parse("test.b", HELLO_WORLD).unwrap();
    let unoptimized = brainmuck::bytecode::InterpretedProgram::new(&lower(&ast));
    let optimized = compile_to_bytecode(&ast);
    let mut tape_a = vec![0u8; 4096];
    let mut tape_b = vec![0u8; 4096];
    let out_a = unoptimized
        .run_with_io(&mut tape_a, &Vec::new(), FUEL)
        .unwrap()
        .unwrap();
    let out_b = optimized
        .run_with_io(&mut tape_b, &Vec::new(), FUEL)
        .unwrap()
        .unwrap();
    assert_eq!(out_a, out_b);
    assert_eq!(tape_a, tape_b);
}

#[test]
fn the_step_machine_reports_io_one_event_at_a_time() {
    let ast = parse("test.b", b",.").unwrap();
    let program = compile_to_bytecode(&ast);
    let mut universe = vec![0u8; 16];
    let mut interpreter = Interpreter::new(&program);

    assert_eq!(interpreter.step(&mut universe), StepEvent::NeedsInput);
    interpreter.provide_input(&mut universe, b'Z');
    assert_eq!(universe[0], b'Z');
    assert_eq!(interpreter.step(&mut universe), StepEvent::Output(b'Z'));
    assert_eq!(interpreter.step(&mut universe), StepEvent::Halted);
}

#[test]
fn the_step_machine_reports_failures() {
    let ast = parse("test.b", b"<").unwrap();
    let program = compile_to_bytecode(&ast);
    let mut universe = vec![0u8; 16];
    let mut interpreter = Interpreter::new(&program);
    assert_eq!(
        interpreter.step(&mut universe),
        StepEvent::Failed(RuntimeError::AddressUnderflow)
    );
}
