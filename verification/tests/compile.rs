//! The front half of the pipeline: parsing, lowering, and peephole
//! optimization.

use brainmuck::ir::{lower, BlockLabel, ThreeAddressInstruction};
use brainmuck::optimize::{optimize, peephole_optimize};
use brainmuck::{parse, ConditionalID, Reason, Statement};

#[test]
fn parse_maps_each_character_to_its_statement() {
    let ast = parse("prog.b", b"+-><.,").unwrap();
    assert_eq!(
        ast.statements().as_slice(),
        &[
            Statement::IncrementVal,
            Statement::DecrementVal,
            Statement::IncrementAddr,
            Statement::DecrementAddr,
            Statement::PutChar,
            Statement::GetChar,
        ]
    );
}

#[test]
fn parse_skips_comments_and_counts_lines() {
    let ast = parse("prog.b", b"hello\n+ world\n-").unwrap();
    assert_eq!(
        ast.statements().as_slice(),
        &[Statement::IncrementVal, Statement::DecrementVal]
    );
}

#[test]
fn parse_assigns_conditional_ids_in_order_of_opening() {
    let ast = parse("prog.b", b"[[][]]").unwrap();
    assert_eq!(
        ast.statements().as_slice(),
        &[
            Statement::StartConditional(ConditionalID(0)),
            Statement::StartConditional(ConditionalID(1)),
            Statement::EndConditional(ConditionalID(1)),
            Statement::StartConditional(ConditionalID(2)),
            Statement::EndConditional(ConditionalID(2)),
            Statement::EndConditional(ConditionalID(0)),
        ]
    );
}

#[test]
fn each_conditional_id_opens_once_and_closes_once() {
    let ast = parse("prog.b", b"[[]][]").unwrap();
    for k in 0u32..3 {
        let starts = ast
            .statements()
            .iter()
            .filter(|s| **s == Statement::StartConditional(ConditionalID(k)))
            .count();
        let ends = ast
            .statements()
            .iter()
            .filter(|s| **s == Statement::EndConditional(ConditionalID(k)))
            .count();
        assert_eq!(starts, 1);
        assert_eq!(ends, 1);
    }
}

#[test]
fn extra_close_bracket_fails_at_its_line() {
    let err = parse("prog.b", b"+]").unwrap_err();
    assert_eq!(err.reason(), Reason::TooManyCloseBrackets);
    assert_eq!(err.message_identifier(), 0x001);
    let location = err.location().unwrap();
    assert_eq!(location.filename(), "prog.b");
    assert_eq!(location.line_no(), 1);
}

#[test]
fn extra_close_bracket_reports_later_lines() {
    let err = parse("deep.b", b"+\n+\n]").unwrap_err();
    assert_eq!(err.reason(), Reason::TooManyCloseBrackets);
    assert_eq!(err.location().unwrap().line_no(), 3);
}

#[test]
fn unclosed_bracket_fails_after_the_whole_input() {
    let err = parse("prog.b", b"[+").unwrap_err();
    assert_eq!(err.reason(), Reason::TooFewCloseBrackets);
    assert_eq!(err.message_identifier(), 0x002);
    assert_eq!(err.location().unwrap().line_no(), 1);
}

#[test]
fn error_messages_name_the_offending_bracket() {
    assert!(Reason::TooManyCloseBrackets.message().contains("']'"));
    assert!(Reason::TooFewCloseBrackets.message().contains("'['"));
}

#[test]
fn lowering_ends_with_terminate_and_valid_targets() {
    let ast = parse("prog.b", b"+[>[-]<]").unwrap();
    let cfg = lower(&ast);
    let blocks = cfg.blocks();
    assert!(blocks.len() > 0);
    for (i, block) in blocks.iter().enumerate() {
        assert_eq!(block.label(), BlockLabel(i));
        for instr in block.instructions().iter() {
            match instr {
                ThreeAddressInstruction::BranchIfZero(BlockLabel(t)) => assert!(*t < blocks.len()),
                ThreeAddressInstruction::BranchTo(BlockLabel(t)) => assert!(*t < blocks.len()),
                _ => {}
            }
            assert!(*instr != ThreeAddressInstruction::NoOp);
        }
    }
    assert_eq!(
        cfg.last_instruction(),
        Some(ThreeAddressInstruction::Terminate)
    );
}

#[test]
fn lowering_builds_loop_skeleton() {
    // `[+]`: an empty entry block, the conditional branch past the loop, the
    // body with its back edge, and the terminating block.
    let ast = parse("prog.b", b"[+]").unwrap();
    let cfg = lower(&ast);
    let blocks = cfg.blocks();
    assert_eq!(blocks.len(), 4);
    assert_eq!(blocks[0].instructions().as_slice(), &[]);
    assert_eq!(
        blocks[1].instructions().as_slice(),
        &[ThreeAddressInstruction::BranchIfZero(BlockLabel(3))]
    );
    assert_eq!(
        blocks[2].instructions().as_slice(),
        &[
            ThreeAddressInstruction::ChangeVal(1),
            ThreeAddressInstruction::BranchTo(BlockLabel(1)),
        ]
    );
    assert_eq!(
        blocks[3].instructions().as_slice(),
        &[ThreeAddressInstruction::Terminate]
    );
}

#[test]
fn delta_coalescing_collapses_adjacent_value_changes() {
    // Three plus, one minus, one plus: a single +3 remains.
    let ast = parse("prog.b", b"+++-+").unwrap();
    let cfg = optimize(&lower(&ast));
    let first = &cfg.blocks()[0];
    assert_eq!(
        first.instructions().as_slice(),
        &[
            ThreeAddressInstruction::ChangeVal(3),
            ThreeAddressInstruction::Terminate,
        ]
    );
}

#[test]
fn peephole_collapses_a_value_only_block_to_one_change() {
    let instrs = vec![
        ThreeAddressInstruction::ChangeVal(1),
        ThreeAddressInstruction::ChangeVal(1),
        ThreeAddressInstruction::ChangeVal(255),
        ThreeAddressInstruction::ChangeVal(1),
    ];
    assert_eq!(
        peephole_optimize(&instrs),
        vec![ThreeAddressInstruction::ChangeVal(2)]
    );
}

#[test]
fn peephole_wraps_value_sums_modulo_256() {
    let instrs = vec![ThreeAddressInstruction::ChangeVal(200), ThreeAddressInstruction::ChangeVal(100)];
    assert_eq!(
        peephole_optimize(&instrs),
        vec![ThreeAddressInstruction::ChangeVal(44)]
    );
}

#[test]
fn peephole_coalesces_pointer_changes_and_keeps_the_rest() {
    let instrs = vec![
        ThreeAddressInstruction::ChangeAddr(1),
        ThreeAddressInstruction::ChangeAddr(1),
        ThreeAddressInstruction::PutChar,
        ThreeAddressInstruction::ChangeAddr(-1),
        ThreeAddressInstruction::ChangeAddr(-1),
        ThreeAddressInstruction::ChangeAddr(1),
    ];
    assert_eq!(
        peephole_optimize(&instrs),
        vec![
            ThreeAddressInstruction::ChangeAddr(2),
            ThreeAddressInstruction::PutChar,
            ThreeAddressInstruction::ChangeAddr(-1),
        ]
    );
}

#[test]
fn optimization_keeps_labels_and_branches() {
    let ast = parse("prog.b", b"+[>+<-]>[-]").unwrap();
    let cfg = lower(&ast);
    let optimized = optimize(&cfg);
    let before = cfg.blocks();
    let after = optimized.blocks();
    assert_eq!(before.len(), after.len());
    for i in 0..before.len() {
        assert_eq!(before[i].label(), after[i].label());
        let branches_before: Vec<_> = before[i]
            .instructions()
            .iter()
            .filter(|x| {
                matches!(
                    x,
                    ThreeAddressInstruction::BranchIfZero(_)
                        | ThreeAddressInstruction::BranchTo(_)
                        | ThreeAddressInstruction::Terminate
                )
            })
            .copied()
            .collect();
        let branches_after: Vec<_> = after[i]
            .instructions()
            .iter()
            .filter(|x| {
                matches!(
                    x,
                    ThreeAddressInstruction::BranchIfZero(_)
                        | ThreeAddressInstruction::BranchTo(_)
                        | ThreeAddressInstruction::Terminate
                )
            })
            .copied()
            .collect();
        assert_eq!(branches_before, branches_after);
    }
}

#[test]
fn optimization_is_idempotent() {
    let ast = parse("prog.b", b"++[->++++<]>--").unwrap();
    let once = optimize(&lower(&ast));
    let twice = optimize(&once);
    let a = once.blocks();
    let b = twice.blocks();
    assert_eq!(a.len(), b.len());
    for i in 0..a.len() {
        assert_eq!(a[i].label(), b[i].label());
        assert_eq!(a[i].instructions(), b[i].instructions());
    }
}
