//! The threaded-code back-end: flattens a [ControlFlowGraph] into a linear
//! instruction stream with resolved numeric branch targets, and interprets
//! that stream.

use vstd::prelude::*;

use crate::ir::{cfg_well_formed, BlockLabel, BlockModel, ControlFlowGraph, ThreeAddressInstruction};

verus! {

/// One instruction of the flat threaded-code form. It mirrors
/// [ThreeAddressInstruction], with numeric branch targets and an extra `Zero`
/// form that the interpreter accepts.
#[derive(Debug, Clone, Copy, PartialEq, Eq, Structural)]
pub enum Bytecode {
    ChangeVal(u8),
    ChangeAddr(i32),
    PrintChar,
    GetChar,
    BranchIfZero(BranchTarget),
    BranchTo(BranchTarget),
    NoOp,
    Zero,
    Terminate,
}

/// A concrete offset from the beginning of a program to an instruction.
#[derive(Debug, Clone, Copy, PartialEq, Eq, Structural)]
pub struct BranchTarget(pub usize);

/// A program that is dynamically interpreted from [Bytecode].
pub struct InterpretedProgram {
    bytecode: Vec<Bytecode>,
}

impl View for InterpretedProgram {
    type V = Seq<Bytecode>;

    closed spec fn view(&self) -> Seq<Bytecode> {
        self.bytecode@
    }
}

/// How many of the first `i` instructions are emitted (everything but
/// `NoOp`).
pub open spec fn emitted_count(instrs: Seq<ThreeAddressInstruction>, i: int) -> int
    decreases i,
{
    if i <= 0 {
        0
    } else {
        emitted_count(instrs, i - 1) + if instrs[i - 1] == ThreeAddressInstruction::NoOp {
            0int
        } else {
            1int
        }
    }
}

/// The bytecode offset at which block `b` begins: the emitted instructions of
/// all blocks before it.
pub open spec fn block_offset(cfg: Seq<BlockModel>, b: int) -> int
    decreases b,
{
    if b <= 0 {
        0
    } else {
        block_offset(cfg, b - 1) + emitted_count(cfg[b - 1].instrs, cfg[b - 1].instrs.len() as int)
    }
}

/// The bytecode for one graph instruction, branch labels resolved to offsets.
pub open spec fn compile_instruction(
    cfg: Seq<BlockModel>,
    x: ThreeAddressInstruction,
) -> Bytecode {
    match x {
        ThreeAddressInstruction::ChangeVal(c) => Bytecode::ChangeVal(c),
        ThreeAddressInstruction::ChangeAddr(c) => Bytecode::ChangeAddr(c),
        ThreeAddressInstruction::PutChar => Bytecode::PrintChar,
        ThreeAddressInstruction::GetChar => Bytecode::GetChar,
        ThreeAddressInstruction::BranchIfZero(l) => Bytecode::BranchIfZero(
            BranchTarget(block_offset(cfg, l.0 as int) as usize),
        ),
        ThreeAddressInstruction::BranchTo(l) => Bytecode::BranchTo(
            BranchTarget(block_offset(cfg, l.0 as int) as usize),
        ),
        ThreeAddressInstruction::NoOp => Bytecode::NoOp,
        ThreeAddressInstruction::Terminate => Bytecode::Terminate,
    }
}

/// The bytecode of the first `i` instructions of one block: each instruction
/// compiled, `NoOp`s dropped.
pub open spec fn compile_block(
    cfg: Seq<BlockModel>,
    instrs: Seq<ThreeAddressInstruction>,
    i: int,
) -> Seq<Bytecode>
    decreases i,
{
    if i <= 0 {
        Seq::empty()
    } else {
        let rest = compile_block(cfg, instrs, i - 1);
        if instrs[i - 1] == ThreeAddressInstruction::NoOp {
            rest
        } else {
            rest.push(compile_instruction(cfg, instrs[i - 1]))
        }
    }
}

/// The bytecode of the first `b` blocks, in order.
pub open spec fn compile_upto(cfg: Seq<BlockModel>, b: int) -> Seq<Bytecode>
    decreases b,
{
    if b <= 0 {
        Seq::empty()
    } else {
        compile_upto(cfg, b - 1) + compile_block(
            cfg,
            cfg[b - 1].instrs,
            cfg[b - 1].instrs.len() as int,
        )
    }
}

/// What compiling a graph to bytecode yields.
pub open spec fn spec_compile(cfg: Seq<BlockModel>) -> Seq<Bytecode> {
    compile_upto(cfg, cfg.len() as int)
}

/// Block `b`'s bytecode prefix has exactly the emitted instructions of the
/// block's first `i` graph instructions.
proof fn lemma_compile_block_len(
    cfg: Seq<BlockModel>,
    instrs: Seq<ThreeAddressInstruction>,
    i: int,
)
    ensures
        compile_block(cfg, instrs, i).len() == if i <= 0 {
            0int
        } else {
            emitted_count(instrs, i)
        },
        emitted_count(instrs, i) >= 0,
    decreases i,
{
    if i > 0 {
        lemma_compile_block_len(cfg, instrs, i - 1);
    }
}

/// The first `b` blocks compile to exactly `block_offset(cfg, b)`
/// instructions.
proof fn lemma_compile_upto_len(cfg: Seq<BlockModel>, b: int)
    ensures
        compile_upto(cfg, b).len() == if b <= 0 {
            0int
        } else {
            block_offset(cfg, b)
        },
        block_offset(cfg, b) >= 0,
    decreases b,
{
    if b > 0 {
        lemma_compile_upto_len(cfg, b - 1);
        lemma_compile_block_len(
            cfg,
            cfg[b - 1].instrs,
            cfg[b - 1].instrs.len() as int,
        );
    }
}

/// Block by block, the program is at most one emitted instruction per graph
/// instruction: `NoOp`s cost nothing.
proof fn lemma_compile_upto_count(cfg: Seq<BlockModel>, b: int)
    requires
        0 <= b,
    ensures
        compile_upto(cfg, b).len() <= total_instruction_count(cfg, b),
    decreases b,
{
    if b > 0 {
        lemma_compile_upto_count(cfg, b - 1);
        lemma_compile_block_len(cfg, cfg[b - 1].instrs, cfg[b - 1].instrs.len() as int);
        lemma_emitted_at_most(cfg[b - 1].instrs, cfg[b - 1].instrs.len() as int);
    }
}

/// The program has exactly one instruction per emitted (non-`NoOp`) graph
/// instruction — the terminate included, since the graph's final block ends
/// with one — and so never more instructions than the graph holds.
pub proof fn lemma_bytecode_program_size(cfg: Seq<BlockModel>)
    ensures
        spec_compile(cfg).len() == block_offset(cfg, cfg.len() as int),
        spec_compile(cfg).len() <= total_instruction_count(cfg, cfg.len() as int),
{
    lemma_compile_upto_len(cfg, cfg.len() as int);
    lemma_compile_upto_count(cfg, cfg.len() as int);
}

/// The number of graph instructions in the first `b` blocks.
pub open spec fn total_instruction_count(cfg: Seq<BlockModel>, b: int) -> int
    decreases b,
{
    if b <= 0 {
        0
    } else {
        total_instruction_count(cfg, b - 1) + cfg[b - 1].instrs.len()
    }
}

/// At most one bytecode instruction per graph instruction.
proof fn lemma_emitted_at_most(instrs: Seq<ThreeAddressInstruction>, i: int)
    ensures
        emitted_count(instrs, i) <= if i <= 0 {
            0int
        } else {
            i
        },
    decreases i,
{
    if i > 0 {
        lemma_emitted_at_most(instrs, i - 1);
    }
}

/// Zeroes the target of a branch, which is how a branch is first emitted.
pub open spec fn patch_bytecode(x: Bytecode, target: BranchTarget) -> Bytecode {
    match x {
        Bytecode::BranchIfZero(_) => Bytecode::BranchIfZero(target),
        Bytecode::BranchTo(_) => Bytecode::BranchTo(target),
        _ => x,
    }
}

/// Convert a [ControlFlowGraph] to [Bytecode]: emit each block's instructions
/// in order with placeholder branch targets, then patch every recorded branch
/// site with the offset of the block it names.
pub fn compile_cfg_to_bytecode(cfg: &ControlFlowGraph) -> (r: Vec<Bytecode>)
    requires
        cfg_well_formed(cfg@),
    ensures
        r@ == spec_compile(cfg@),
{
    let ghost model = cfg@;
    let blocks = cfg.blocks();
    let ghost view_fn = |b: crate::ir::BasicBlock| b@;
    let n = blocks.len();

    let mut branch_targets: Vec<usize> = Vec::new();
    let mut incomplete_instructions: Vec<(usize, BlockLabel)> = Vec::new();
    let mut code: Vec<Bytecode> = Vec::new();
    let mut pc: usize = 0;

    let mut b: usize = 0;
    while b < n
        invariant
            model == cfg@,
            view_fn == (|bb: crate::ir::BasicBlock| bb@),
            blocks@.map_values(view_fn) == model,
            n == model.len(),
            cfg_well_formed(model),
            0 <= b <= n,
            pc == code@.len(),
            branch_targets@.len() == b,
            forall|k: int| 0 <= k < b ==> #[trigger] branch_targets@[k] == block_offset(model, k),
            code@.len() == compile_upto(model, b as int).len(),
            forall|p: int|
                0 <= p < code@.len() ==> #[trigger] code@[p] == compile_upto(model, b as int)[p]
                    || exists|k: int|
                    0 <= k < incomplete_instructions@.len() && (
                    #[trigger] incomplete_instructions@[k]).0 == p,
            forall|k: int|
                0 <= k < incomplete_instructions@.len() ==> {
                    let site = (#[trigger] incomplete_instructions@[k]).0;
                    let l = incomplete_instructions@[k].1;
                    &&& site < code@.len()
                    &&& l.0 < model.len()
                    &&& (code@[site as int] == Bytecode::BranchIfZero(BranchTarget(0)) || code@[
                        site as int
                    ] == Bytecode::BranchTo(BranchTarget(0)))
                    &&& compile_upto(model, b as int)[site as int] == patch_bytecode(
                        code@[site as int],
                        BranchTarget(block_offset(model, l.0 as int) as usize),
                    )
                },
            forall|k1: int, k2: int|
                0 <= k1 < k2 < incomplete_instructions@.len()
                    ==> (#[trigger] incomplete_instructions@[k1]).0 < (
                #[trigger] incomplete_instructions@[k2]).0,
        decreases n - b,
    {
        proof {
            lemma_compile_upto_len(model, b as int);
            lemma_compile_upto_len(model, b as int + 1);
            lemma_compile_block_len(model, model[b as int].instrs, model[b as int].instrs.len() as int);
        }
        branch_targets.push(pc);

        let block = &blocks[b];
        let instructions = block.instructions();
        let ghost binstrs = model[b as int].instrs;
        let m = instructions.len();
        let mut t: usize = 0;

        while t < m
            invariant
                model == cfg@,
                view_fn == (|bb: crate::ir::BasicBlock| bb@),
                blocks@.map_values(view_fn) == model,
                n == model.len(),
                cfg_well_formed(model),
                0 <= b < n,
                instructions@ == binstrs,
                binstrs == model[b as int].instrs,
                m == binstrs.len(),
                0 <= t <= m,
                pc == code@.len(),
                code@.len() == compile_upto(model, b as int).len() + compile_block(
                    model,
                    binstrs,
                    t as int,
                ).len(),
                forall|p: int|
                    0 <= p < code@.len() ==> #[trigger] code@[p] == (compile_upto(model, b as int)
                        + compile_block(model, binstrs, t as int))[p] || exists|k: int|
                        0 <= k < incomplete_instructions@.len() && (
                        #[trigger] incomplete_instructions@[k]).0 == p,
                forall|k: int|
                    0 <= k < incomplete_instructions@.len() ==> {
                        let site = (#[trigger] incomplete_instructions@[k]).0;
                        let l = incomplete_instructions@[k].1;
                        &&& site < code@.len()
                        &&& l.0 < model.len()
                        &&& (code@[site as int] == Bytecode::BranchIfZero(BranchTarget(0))
                            || code@[site as int] == Bytecode::BranchTo(BranchTarget(0)))
                        &&& (compile_upto(model, b as int) + compile_block(
                            model,
                            binstrs,
                            t as int,
                        ))[site as int] == patch_bytecode(
                            code@[site as int],
                            BranchTarget(block_offset(model, l.0 as int) as usize),
                        )
                    },
                forall|k1: int, k2: int|
                    0 <= k1 < k2 < incomplete_instructions@.len()
                        ==> (#[trigger] incomplete_instructions@[k1]).0 < (
                    #[trigger] incomplete_instructions@[k2]).0,
            decreases m - t,
        {
            let ghost partial_pre = compile_upto(model, b as int) + compile_block(
                model,
                binstrs,
                t as int,
            );
            let ghost code_pre = code@;
            let ghost inc_pre = incomplete_instructions@;
            proof {
                lemma_compile_block_len(model, binstrs, t as int);
                lemma_compile_block_len(model, binstrs, t as int + 1);
            }
            let instr = instructions[t];
            match instr {
                ThreeAddressInstruction::ChangeVal(c) => {
                    code.push(Bytecode::ChangeVal(c));
                    pc = code.len();
                },
                ThreeAddressInstruction::ChangeAddr(c) => {
                    code.push(Bytecode::ChangeAddr(c));
                    pc = code.len();
                },
                ThreeAddressInstruction::PutChar => {
                    code.push(Bytecode::PrintChar);
                    pc = code.len();
                },
                ThreeAddressInstruction::GetChar => {
                    code.push(Bytecode::GetChar);
                    pc = code.len();
                },
                ThreeAddressInstruction::BranchIfZero(label) => {
                    incomplete_instructions.push((pc, label));
                    code.push(Bytecode::BranchIfZero(BranchTarget(0)));
                    pc = code.len();
                },
                ThreeAddressInstruction::BranchTo(label) => {
                    incomplete_instructions.push((pc, label));
                    code.push(Bytecode::BranchTo(BranchTarget(0)));
                    pc = code.len();
                },
                ThreeAddressInstruction::NoOp => {},
                ThreeAddressInstruction::Terminate => {
                    code.push(Bytecode::Terminate);
                    pc = code.len();
                },
            }
            proof {
                let x = binstrs[t as int];
                let partial_post = compile_upto(model, b as int) + compile_block(
                    model,
                    binstrs,
                    t as int + 1,
                );
                if x == ThreeAddressInstruction::NoOp {
                    assert(partial_post =~= partial_pre);
                } else {
                    assert(partial_post =~= partial_pre.push(compile_instruction(model, x)));
                    // The branch target bound comes from well-formedness of the graph.
                    assert(crate::ir::targets_within(binstrs, model.len() as int));
                    assert(crate::ir::instruction_targets_at_most(x, model.len() as int - 1));

                    assert forall|p: int|
                        0 <= p < code@.len() implies #[trigger] code@[p] == partial_post[p]
                        || exists|k: int|
                            0 <= k < incomplete_instructions@.len() && (
                            #[trigger] incomplete_instructions@[k]).0 == p by {
                        if p < code_pre.len() {
                            assert(code@[p] == code_pre[p]);
                            assert(partial_post[p] == partial_pre[p]);
                            if code_pre[p] != partial_pre[p] {
                                let w = choose|k: int|
                                    0 <= k < inc_pre.len() && (#[trigger] inc_pre[k]).0 == p;
                                assert(incomplete_instructions@[w] == inc_pre[w]);
                                assert(0 <= w < incomplete_instructions@.len()
                                    && incomplete_instructions@[w].0 == p);
                            }
                        } else {
                            match x {
                                ThreeAddressInstruction::BranchIfZero(l) => {
                                    let w = incomplete_instructions@.len() - 1;
                                    assert(incomplete_instructions@[w].0 == p);
                                },
                                ThreeAddressInstruction::BranchTo(l) => {
                                    let w = incomplete_instructions@.len() - 1;
                                    assert(incomplete_instructions@[w].0 == p);
                                },
                                _ => {
                                    assert(code@[p] == compile_instruction(model, x));
                                },
                            }
                        }
                    }

                    assert forall|k: int|
                        0 <= k < incomplete_instructions@.len() implies {
                        let site = (#[trigger] incomplete_instructions@[k]).0;
                        let l = incomplete_instructions@[k].1;
                        &&& site < code@.len()
                        &&& l.0 < model.len()
                        &&& (code@[site as int] == Bytecode::BranchIfZero(BranchTarget(0))
                            || code@[site as int] == Bytecode::BranchTo(BranchTarget(0)))
                        &&& partial_post[site as int] == patch_bytecode(
                            code@[site as int],
                            BranchTarget(block_offset(model, l.0 as int) as usize),
                        )
                    } by {
                        if k < inc_pre.len() {
                            assert(incomplete_instructions@[k] == inc_pre[k]);
                            let site = inc_pre[k].0;
                            assert(code@[site as int] == code_pre[site as int]);
                            assert(partial_post[site as int] == partial_pre[site as int]);
                        } else {
                            let site = incomplete_instructions@[k].0;
                            assert(site == code_pre.len());
                            assert(partial_post[site as int] == compile_instruction(model, x));
                        }
                    }
                }
            }
            t = t + 1;
        }

        proof {
            assert(compile_upto(model, b as int) + compile_block(model, binstrs, m as int)
                =~= compile_upto(model, b as int + 1));
        }
        b = b + 1;
    }

    // Second pass: patch in branch targets.
    proof {
        lemma_compile_upto_len(model, n as int);
    }
    let num_incomplete = incomplete_instructions.len();
    let mut k: usize = 0;
    while k < num_incomplete
        invariant
            model == cfg@,
            n == model.len(),
            cfg_well_formed(model),
            num_incomplete == incomplete_instructions@.len(),
            0 <= k <= num_incomplete,
            branch_targets@.len() == n,
            forall|j: int| 0 <= j < n ==> #[trigger] branch_targets@[j] == block_offset(model, j),
            code@.len() == spec_compile(model).len(),
            forall|p: int|
                0 <= p < code@.len() ==> #[trigger] code@[p] == spec_compile(model)[p] || exists|
                    k2: int,
                |
                    k <= k2 < num_incomplete && (#[trigger] incomplete_instructions@[k2]).0 == p,
            forall|k2: int|
                k <= k2 < num_incomplete ==> {
                    let site = (#[trigger] incomplete_instructions@[k2]).0;
                    let l = incomplete_instructions@[k2].1;
                    &&& site < code@.len()
                    &&& l.0 < model.len()
                    &&& ((code@[site as int] matches Bytecode::BranchIfZero(_)) || (code@[
                        site as int
                    ] matches Bytecode::BranchTo(_)))
                    &&& spec_compile(model)[site as int] == patch_bytecode(
                        code@[site as int],
                        BranchTarget(block_offset(model, l.0 as int) as usize),
                    )
                },
            forall|k1: int, k2: int|
                0 <= k1 < k2 < num_incomplete ==> (#[trigger] incomplete_instructions@[k1]).0 < (
                #[trigger] incomplete_instructions@[k2]).0,
        decreases num_incomplete - k,
    {
        let (i, label) = incomplete_instructions[k];
        let target = BranchTarget(branch_targets[label.0]);
        let instr = code[i];
        let patched = match instr {
            Bytecode::BranchIfZero(_) => Bytecode::BranchIfZero(target),
            Bytecode::BranchTo(_) => Bytecode::BranchTo(target),
            _ => vstd::pervasive::unreached(),
        };
        code[i] = patched;
        proof {
            assert(code@[i as int] == spec_compile(model)[i as int]);
            assert forall|p: int|
                0 <= p < code@.len() implies #[trigger] code@[p] == spec_compile(model)[p]
                || exists|k2: int|
                    k + 1 <= k2 < num_incomplete && (#[trigger] incomplete_instructions@[k2]).0
                        == p by {
                if p != i as int && code@[p] != spec_compile(model)[p] {
                    let w = choose|k2: int|
                        k <= k2 < num_incomplete && (#[trigger] incomplete_instructions@[k2]).0
                            == p;
                    assert(w != k);
                    assert(k + 1 <= w < num_incomplete && incomplete_instructions@[w].0 == p);
                }
            }
        }
        k = k + 1;
    }

    proof {
        assert(code@ =~= spec_compile(model));
    }
    code
}

impl InterpretedProgram {
    /// Compiles a graph into an interpretable program: exactly
    /// [spec_compile] of the graph.
    pub fn new(cfg: &ControlFlowGraph) -> (r: Self)
        requires
            cfg_well_formed(cfg@),
        ensures
            r@ == spec_compile(cfg@),
    {
        let bytecode = compile_cfg_to_bytecode(cfg);
        InterpretedProgram { bytecode }
    }

    /// The flat instruction stream.
    pub fn bytecode(&self) -> (r: &Vec<Bytecode>)
        ensures
            r@ == self@,
    {
        &self.bytecode
    }
}

/// A failure during interpretation.
#[derive(Debug, Clone, Copy, PartialEq, Eq, Structural)]
pub enum RuntimeError {
    /// The tape pointer moved past the end of the tape.
    AddressOverflow,
    /// The tape pointer moved below zero.
    AddressUnderflow,
    /// The program asked for a byte but the input was exhausted.
    OutOfInput,
}

/// The interpreter's abstract machine: a program counter, a tape pointer,
/// and the tape.
pub struct MachineState {
    pub pc: int,
    pub addr: int,
    pub tape: Seq<u8>,
}

/// What one step of the machine does.
pub enum StepOutcome {
    /// The machine advanced without input or output.
    Continue(MachineState),
    /// The machine advanced and wrote one byte.
    Output(MachineState, u8),
    /// The machine wants one byte of input; nothing changed yet.
    Input,
    /// The machine stopped; nothing changed.
    Halt,
    /// The machine failed; nothing changed.
    Fail(RuntimeError),
}

/// One step of the machine: the semantics of each opcode. Running past the
/// end of the program halts, as does `Terminate`.
pub open spec fn spec_step(prog: Seq<Bytecode>, s: MachineState) -> StepOutcome {
    if s.pc < 0 || s.pc >= prog.len() {
        StepOutcome::Halt
    } else {
        match prog[s.pc] {
            Bytecode::NoOp => StepOutcome::Continue(MachineState { pc: s.pc + 1, ..s }),
            Bytecode::ChangeVal(v) => StepOutcome::Continue(
                MachineState {
                    pc: s.pc + 1,
                    tape: s.tape.update(
                        s.addr,
                        vstd::wrapping::u8_specs::wrapping_add(v, s.tape[s.addr]),
                    ),
                    ..s
                },
            ),
            Bytecode::ChangeAddr(d) => {
                let a = s.addr + d;
                if a >= s.tape.len() {
                    StepOutcome::Fail(RuntimeError::AddressOverflow)
                } else if a < 0 {
                    StepOutcome::Fail(RuntimeError::AddressUnderflow)
                } else {
                    StepOutcome::Continue(MachineState { pc: s.pc + 1, addr: a, ..s })
                }
            },
            Bytecode::PrintChar => StepOutcome::Output(
                MachineState { pc: s.pc + 1, ..s },
                s.tape[s.addr],
            ),
            Bytecode::GetChar => StepOutcome::Input,
            Bytecode::BranchIfZero(t) => StepOutcome::Continue(
                MachineState {
                    pc: if s.tape[s.addr] == 0 {
                        t.0 as int
                    } else {
                        s.pc + 1
                    },
                    ..s
                },
            ),
            Bytecode::BranchTo(t) => StepOutcome::Continue(MachineState { pc: t.0 as int, ..s }),
            Bytecode::Zero => StepOutcome::Continue(
                MachineState { pc: s.pc + 1, tape: s.tape.update(s.addr, 0), ..s },
            ),
            Bytecode::Terminate => StepOutcome::Halt,
        }
    }
}

/// How the machine consumes one byte of input when it asked for one.
pub open spec fn spec_consume(s: MachineState, b: u8) -> MachineState {
    MachineState { pc: s.pc + 1, tape: s.tape.update(s.addr, b), ..s }
}

/// What an interpreter step reported to its caller.
#[derive(Debug, Clone, Copy, PartialEq, Eq, Structural)]
pub enum StepEvent {
    /// The program advanced; call again.
    Continue,
    /// The program wrote this byte.
    Output(u8),
    /// The program wants a byte: hand one to `provide_input`.
    NeedsInput,
    /// The program finished.
    Halted,
    /// The program failed.
    Failed(RuntimeError),
}

/// An interpreter paused between steps: the caller owns the tape and the I/O.
pub struct Interpreter {
    program: Vec<Bytecode>,
    pc: usize,
    addr: usize,
}

/// The mathematical content of an [Interpreter].
pub struct InterpreterModel {
    pub program: Seq<Bytecode>,
    pub pc: int,
    pub addr: int,
}

impl View for Interpreter {
    type V = InterpreterModel;

    closed spec fn view(&self) -> InterpreterModel {
        InterpreterModel {
            program: self.program@,
            pc: self.pc as int,
            addr: self.addr as int,
        }
    }
}

/// The machine state of a paused interpreter over a given tape.
pub open spec fn machine_of(i: InterpreterModel, tape: Seq<u8>) -> MachineState {
    MachineState { pc: i.pc, addr: i.addr, tape }
}

impl Interpreter {
    /// An interpreter at the start of the program.
    pub fn new(program: &InterpretedProgram) -> (r: Self)
        ensures
            r@.program == program@,
            r@.pc == 0,
            r@.addr == 0,
    {
        Interpreter { program: program.bytecode().clone(), pc: 0, addr: 0 }
    }

    /// Performs one step of the program against the caller's tape. The event
    /// and the new state are exactly what [spec_step] says; on `NeedsInput`,
    /// `Halted` and `Failed` nothing has changed.
    pub fn step(&mut self, universe: &mut Vec<u8>) -> (r: StepEvent)
        requires
            0 <= old(self)@.addr < old(universe)@.len(),
            old(universe)@.len() <= 0x7FFF_FFFF,
        ensures
            final(self)@.program == old(self)@.program,
            final(universe)@.len() == old(universe)@.len(),
            match spec_step(old(self)@.program, machine_of(old(self)@, old(universe)@)) {
                StepOutcome::Continue(m2) => r == StepEvent::Continue && final(self)@.pc == m2.pc
                    && final(self)@.addr == m2.addr && final(universe)@ == m2.tape && 0 <= m2.addr
                    < m2.tape.len(),
                StepOutcome::Output(m2, b) => r == StepEvent::Output(b) && final(self)@.pc == m2.pc
                    && final(self)@.addr == m2.addr && final(universe)@ == m2.tape && 0 <= m2.addr
                    < m2.tape.len(),
                StepOutcome::Input => r == StepEvent::NeedsInput && final(self)@ == old(self)@
                    && final(universe)@ == old(universe)@,
                StepOutcome::Halt => r == StepEvent::Halted && final(self)@ == old(self)@
                    && final(universe)@ == old(universe)@,
                StepOutcome::Fail(e) => r == StepEvent::Failed(e) && final(self)@ == old(self)@
                    && final(universe)@ == old(universe)@,
            },
    {
        if self.pc >= self.program.len() {
            return StepEvent::Halted;
        }
        match self.program[self.pc] {
            Bytecode::NoOp => {
                self.pc = self.pc + 1;
                StepEvent::Continue
            },
            Bytecode::ChangeVal(v) => {
                let cur = universe[self.addr];
                universe[self.addr] = v.wrapping_add(cur);
                self.pc = self.pc + 1;
                StepEvent::Continue
            },
            Bytecode::ChangeAddr(d) => {
                let a: i64 = self.addr as i64 + d as i64;
                if a >= universe.len() as i64 {
                    StepEvent::Failed(RuntimeError::AddressOverflow)
                } else if a < 0 {
                    StepEvent::Failed(RuntimeError::AddressUnderflow)
                } else {
                    self.addr = a as usize;
                    self.pc = self.pc + 1;
                    StepEvent::Continue
                }
            },
            Bytecode::PrintChar => {
                let b = universe[self.addr];
                self.pc = self.pc + 1;
                StepEvent::Output(b)
            },
            Bytecode::GetChar => StepEvent::NeedsInput,
            Bytecode::BranchIfZero(t) => {
                if universe[self.addr] == 0 {
                    self.pc = t.0;
                } else {
                    self.pc = self.pc + 1;
                }
                StepEvent::Continue
            },
            Bytecode::BranchTo(t) => {
                self.pc = t.0;
                StepEvent::Continue
            },
            Bytecode::Zero => {
                universe[self.addr] = 0;
                self.pc = self.pc + 1;
                StepEvent::Continue
            },
            Bytecode::Terminate => StepEvent::Halted,
        }
    }

    /// Hands the machine the byte it asked for: the current instruction must
    /// be a read, as reported by a `NeedsInput` event.
    pub fn provide_input(&mut self, universe: &mut Vec<u8>, byte: u8)
        requires
            0 <= old(self)@.addr < old(universe)@.len(),
            spec_step(old(self)@.program, machine_of(old(self)@, old(universe)@)) is Input,
        ensures
            final(self)@.program == old(self)@.program,
            ({
                let m2 = spec_consume(machine_of(old(self)@, old(universe)@), byte);
                final(self)@.pc == m2.pc && final(self)@.addr == m2.addr && final(universe)@
                    == m2.tape && 0 <= m2.addr < m2.tape.len()
            }),
    {
        proof {
            vstd::std_specs::vec::axiom_spec_len(&self.program);
            assert(0 <= old(self)@.pc < old(self)@.program.len());
        }
        universe[self.addr] = byte;
        self.pc = self.pc + 1;
    }
}

/// A paused run: the machine, the input not yet read, and the output so far.
pub struct IoState {
    pub m: MachineState,
    pub input: Seq<u8>,
    pub output: Seq<u8>,
}

/// A run after some number of steps: still going, finished, or failed.
pub enum RunStatus {
    More(IoState),
    Done(IoState),
    Error(RuntimeError, IoState),
}

/// One step of a run against buffered input and output.
pub open spec fn spec_io_step(prog: Seq<Bytecode>, t: IoState) -> RunStatus {
    match spec_step(prog, t.m) {
        StepOutcome::Continue(m2) => RunStatus::More(IoState { m: m2, ..t }),
        StepOutcome::Output(m2, b) => RunStatus::More(
            IoState { m: m2, output: t.output.push(b), ..t },
        ),
        StepOutcome::Input => {
            if t.input.len() == 0 {
                RunStatus::Error(RuntimeError::OutOfInput, t)
            } else {
                RunStatus::More(
                    IoState { m: spec_consume(t.m, t.input[0]), input: t.input.skip(1), ..t },
                )
            }
        },
        StepOutcome::Halt => RunStatus::Done(t),
        StepOutcome::Fail(e) => RunStatus::Error(e, t),
    }
}

/// A run after `n` steps; a finished or failed run stays as it is.
pub open spec fn spec_io_run(prog: Seq<Bytecode>, t: IoState, n: nat) -> RunStatus
    decreases n,
{
    if n == 0 {
        RunStatus::More(t)
    } else {
        match spec_io_run(prog, t, (n - 1) as nat) {
            RunStatus::More(t2) => spec_io_step(prog, t2),
            other => other,
        }
    }
}

/// A finished or failed run stays what it is under further steps: the
/// outcome a run reaches is the outcome of every longer run, so the result
/// of a program is unique.
pub proof fn lemma_run_outcome_is_stable(prog: Seq<Bytecode>, t: IoState, n: nat, m: nat)
    requires
        n <= m,
        !(spec_io_run(prog, t, n) matches RunStatus::More(_)),
    ensures
        spec_io_run(prog, t, m) == spec_io_run(prog, t, n),
    decreases m - n,
{
    if n < m {
        lemma_run_outcome_is_stable(prog, t, n, (m - 1) as nat);
    }
}

/// A run about to begin: program counter and tape pointer at zero, all input
/// ahead, no output yet.
pub open spec fn initial_io_state(tape: Seq<u8>, input: Seq<u8>) -> IoState {
    IoState { m: MachineState { pc: 0, addr: 0, tape }, input, output: Seq::empty() }
}

impl InterpretedProgram {
    /// Runs the program against a tape and buffered input, collecting the
    /// output, for at most `max_steps` machine steps. The outcome — output,
    /// failure, or still unfinished (`None`) — and the final tape are exactly
    /// those of the step semantics [spec_io_run].
    pub fn run_with_io(
        &self,
        universe: &mut Vec<u8>,
        input: &Vec<u8>,
        max_steps: u64,
    ) -> (r: Option<Result<Vec<u8>, RuntimeError>>)
        requires
            old(universe)@.len() > 0,
            old(universe)@.len() <= 0x7FFF_FFFF,
        ensures
            ({
                let init = initial_io_state(old(universe)@, input@);
                match r {
                    Some(Ok(out)) => exists|n: nat|
                        n <= max_steps && (#[trigger] spec_io_run(self@, init, n) matches RunStatus::Done(t)
                            && t.output == out@ && final(universe)@ == t.m.tape),
                    Some(Err(e)) => exists|n: nat|
                        n <= max_steps && (#[trigger] spec_io_run(self@, init, n) matches RunStatus::Error(
                            e2,
                            t,
                        ) && e2 == e && final(universe)@ == t.m.tape),
                    None => spec_io_run(self@, init, max_steps as nat) matches RunStatus::More(t)
                        && final(universe)@ == t.m.tape,
                }
            }),
    {
        let ghost prog = self@;
        let ghost init = initial_io_state(universe@, input@);
        let mut interp = Interpreter::new(self);
        let mut output: Vec<u8> = Vec::new();
        let mut inpos: usize = 0;
        let mut fuel: u64 = max_steps;
        let ghost mut n: nat = 0;

        proof {
            assert(spec_io_run(prog, init, 0) == RunStatus::More(init));
            assert(init.input =~= input@.skip(0));
            assert(init.output =~= output@);
        }

        while fuel > 0
            invariant
                prog == self@,
                interp@.program == prog,
                init == initial_io_state(old(universe)@, input@),
                universe@.len() == old(universe)@.len(),
                universe@.len() > 0,
                universe@.len() <= 0x7FFF_FFFF,
                0 <= interp@.addr < universe@.len(),
                0 <= inpos <= input@.len(),
                n + fuel == max_steps,
                spec_io_run(prog, init, n) == RunStatus::More(
                    IoState {
                        m: machine_of(interp@, universe@),
                        input: input@.skip(inpos as int),
                        output: output@,
                    },
                ),
            decreases fuel,
        {
            let ghost cur = IoState {
                m: machine_of(interp@, universe@),
                input: input@.skip(inpos as int),
                output: output@,
            };
            let ev = interp.step(universe);
            match ev {
                StepEvent::Continue => {
                    proof {
                        n = n + 1;
                        assert(spec_io_step(prog, cur) == RunStatus::More(
                            IoState {
                                m: machine_of(interp@, universe@),
                                input: input@.skip(inpos as int),
                                output: output@,
                            },
                        ));
                    }
                },
                StepEvent::Output(b) => {
                    output.push(b);
                    proof {
                        n = n + 1;
                        assert(spec_io_step(prog, cur) == RunStatus::More(
                            IoState {
                                m: machine_of(interp@, universe@),
                                input: input@.skip(inpos as int),
                                output: output@,
                            },
                        ));
                    }
                },
                StepEvent::NeedsInput => {
                    if inpos >= input.len() {
                        proof {
                            assert(cur.input.len() == 0);
                            assert(spec_io_step(prog, cur) == RunStatus::Error(
                                RuntimeError::OutOfInput,
                                cur,
                            ));
                            assert(spec_io_run(prog, init, n + 1) == RunStatus::Error(
                                RuntimeError::OutOfInput,
                                cur,
                            ));
                        }
                        return Some(Err(RuntimeError::OutOfInput));
                    }
                    let b = input[inpos];
                    proof {
                        assert(cur.input[0] == input@[inpos as int]);
                    }
                    interp.provide_input(universe, b);
                    inpos = inpos + 1;
                    proof {
                        n = n + 1;
                        assert(cur.input.skip(1) =~= input@.skip(inpos as int));
                        assert(spec_io_step(prog, cur) == RunStatus::More(
                            IoState {
                                m: machine_of(interp@, universe@),
                                input: input@.skip(inpos as int),
                                output: output@,
                            },
                        ));
                    }
                },
                StepEvent::Halted => {
                    proof {
                        assert(spec_io_step(prog, cur) == RunStatus::Done(cur));
                        assert(spec_io_run(prog, init, n + 1) == RunStatus::Done(cur));
                    }
                    return Some(Ok(output));
                },
                StepEvent::Failed(e) => {
                    proof {
                        assert(spec_io_step(prog, cur) == RunStatus::Error(e, cur));
                        assert(spec_io_run(prog, init, n + 1) == RunStatus::Error(e, cur));
                    }
                    return Some(Err(e));
                },
            }
            fuel = fuel - 1;
        }
        None
    }
}

} // verus!
