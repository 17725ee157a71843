//! The internal representation of a program: a control-flow graph of basic
//! blocks, and the lowering of a statement list into one.

use vstd::prelude::*;

use crate::parsing::{
    ast_well_formed, sim_stack, start_count, AbstractSyntaxTree,
    Statement,
};

verus! {

/// A label for a basic block. Also serves as a branch target.
#[derive(Debug, Clone, Copy, Hash, PartialEq, Eq, Structural)]
pub struct BlockLabel(pub usize);

/// Instructions that manipulate at most three addresses.
#[derive(Debug, Clone, Copy, PartialEq, Eq, Structural)]
pub enum ThreeAddressInstruction {
    ChangeVal(u8),
    ChangeAddr(i32),
    PutChar,
    GetChar,
    BranchIfZero(BlockLabel),
    BranchTo(BlockLabel),
    NoOp,
    Terminate,
}

/// A basic block has only one way in and exactly one way out.
#[derive(Debug)]
pub struct BasicBlock {
    block_id: BlockLabel,
    instructions: Vec<ThreeAddressInstruction>,
}

/// A basic, internal representation of the code: a series of basic blocks.
#[derive(Debug)]
pub struct ControlFlowGraph {
    blocks: Vec<BasicBlock>,
}

/// The mathematical content of a [BasicBlock].
pub struct BlockModel {
    pub label: int,
    pub instrs: Seq<ThreeAddressInstruction>,
}

impl View for BasicBlock {
    type V = BlockModel;

    closed spec fn view(&self) -> BlockModel {
        BlockModel { label: self.block_id.0 as int, instrs: self.instructions@ }
    }
}

impl View for ControlFlowGraph {
    type V = Seq<BlockModel>;

    closed spec fn view(&self) -> Seq<BlockModel> {
        self.blocks@.map_values(|b: BasicBlock| b@)
    }
}

/// Whether an instruction transfers control.
pub open spec fn is_branch_instruction(i: ThreeAddressInstruction) -> bool {
    match i {
        ThreeAddressInstruction::BranchIfZero(_) => true,
        ThreeAddressInstruction::BranchTo(_) => true,
        ThreeAddressInstruction::Terminate => true,
        _ => false,
    }
}

/// No instruction of the sequence transfers control.
pub open spec fn branch_free(instrs: Seq<ThreeAddressInstruction>) -> bool {
    forall|j: int| 0 <= j < instrs.len() ==> !is_branch_instruction(#[trigger] instrs[j])
}

/// Only the last instruction of the sequence may transfer control.
pub open spec fn branch_only_last(instrs: Seq<ThreeAddressInstruction>) -> bool {
    forall|j: int| 0 <= j < instrs.len() - 1 ==> !is_branch_instruction(#[trigger] instrs[j])
}

/// Every branch target of the instruction is at most `n`.
pub open spec fn instruction_targets_at_most(i: ThreeAddressInstruction, n: int) -> bool {
    match i {
        ThreeAddressInstruction::BranchIfZero(l) => l.0 <= n,
        ThreeAddressInstruction::BranchTo(l) => l.0 <= n,
        _ => true,
    }
}

/// Every branch target of the sequence is at most `n`.
pub open spec fn targets_at_most(instrs: Seq<ThreeAddressInstruction>, n: int) -> bool {
    forall|j: int| 0 <= j < instrs.len() ==> instruction_targets_at_most(#[trigger] instrs[j], n)
}

/// Every branch target of the sequence names an existing block of a graph
/// with `n` blocks.
pub open spec fn targets_within(instrs: Seq<ThreeAddressInstruction>, n: int) -> bool {
    targets_at_most(instrs, n - 1)
}

/// The sequence contains no `NoOp`.
pub open spec fn noop_free(instrs: Seq<ThreeAddressInstruction>) -> bool {
    forall|j: int| 0 <= j < instrs.len() ==> #[trigger] instrs[j]
        != ThreeAddressInstruction::NoOp
}

/// A control-flow graph is well-formed when it has at least one block, the
/// block at position `i` carries label `i`, branches stand only at the end of
/// a block, every branch target names an existing block, and the final block
/// ends with `Terminate`.
pub open spec fn cfg_well_formed(cfg: Seq<BlockModel>) -> bool {
    &&& cfg.len() > 0
    &&& forall|i: int| 0 <= i < cfg.len() ==> (#[trigger] cfg[i]).label == i
    &&& forall|i: int| 0 <= i < cfg.len() ==> branch_only_last((#[trigger] cfg[i]).instrs)
    &&& forall|i: int| 0 <= i < cfg.len() ==> targets_within((#[trigger] cfg[i]).instrs, cfg.len() as int)
    &&& cfg.last().instrs.len() > 0
    &&& cfg.last().instrs.last() == ThreeAddressInstruction::Terminate
}

/// No block of the graph contains a `NoOp`.
pub open spec fn cfg_noop_free(cfg: Seq<BlockModel>) -> bool {
    forall|i: int| 0 <= i < cfg.len() ==> noop_free((#[trigger] cfg[i]).instrs)
}

impl ControlFlowGraph {
    /// Moves the blocks into a new graph.
    pub fn new(blocks: Vec<BasicBlock>) -> (r: Self)
        ensures
            r@ == blocks@.map_values(|b: BasicBlock| b@),
    {
        ControlFlowGraph { blocks }
    }

    /// A borrowed view of all blocks, in label order.
    pub fn blocks(&self) -> (r: &Vec<BasicBlock>)
        ensures
            r@.map_values(|b: BasicBlock| b@) == self@,
    {
        &self.blocks
    }

    /// The last instruction of the last block, if there is one.
    pub fn last_instruction(&self) -> (r: Option<ThreeAddressInstruction>)
        ensures
            match r {
                Some(i) => self@.len() > 0 && self@.last().instrs.len() > 0 && self@.last().instrs.last() == i,
                None => self@.len() == 0 || self@.last().instrs.len() == 0,
            },
    {
        if self.blocks.len() == 0 {
            None
        } else {
            self.blocks[self.blocks.len() - 1].last_instruction()
        }
    }
}

impl BasicBlock {
    /// Moves the instructions into a basic block carrying `label`.
    pub fn new(label: BlockLabel, instructions: Vec<ThreeAddressInstruction>) -> (r: Self)
        ensures
            r@.label == label.0,
            r@.instrs == instructions@,
    {
        BasicBlock { block_id: label, instructions }
    }

    /// A borrowed view of all instructions in this block.
    pub fn instructions(&self) -> (r: &Vec<ThreeAddressInstruction>)
        ensures
            r@ == self@.instrs,
    {
        &self.instructions
    }

    /// This block's label.
    pub fn label(&self) -> (r: BlockLabel)
        ensures
            r.0 == self@.label,
    {
        self.block_id
    }

    /// The last instruction in this block, or `None` if this block is empty.
    pub fn last_instruction(&self) -> (r: Option<ThreeAddressInstruction>)
        ensures
            match r {
                Some(i) => self@.instrs.len() > 0 && self@.instrs.last() == i,
                None => self@.instrs.len() == 0,
            },
    {
        let n = self.instructions.len();
        if n == 0 {
            None
        } else {
            Some(self.instructions[n - 1])
        }
    }

    /// Replaces the single placeholder `NoOp` of this block with a conditional
    /// branch to `target`.
    ///
    /// During lowering there is a moment when the branch target of a
    /// conditional branch is unknown; this fixes that.
    pub fn replace_noop_with_branch_target(&mut self, target: BlockLabel)
        requires
            old(self)@.instrs == seq![ThreeAddressInstruction::NoOp],
        ensures
            final(self)@.label == old(self)@.label,
            final(self)@.instrs == seq![
                ThreeAddressInstruction::BranchIfZero(target),
            ],
    {
        self.instructions[0] = ThreeAddressInstruction::BranchIfZero(target);
        proof {
            assert(self.instructions@ =~= seq![ThreeAddressInstruction::BranchIfZero(target)]);
        }
    }
}

/// The three-address instruction for a statement that is not a conditional.
pub open spec fn instruction_for(stmt: Statement) -> ThreeAddressInstruction {
    match stmt {
        Statement::IncrementVal => ThreeAddressInstruction::ChangeVal(1),
        Statement::DecrementVal => ThreeAddressInstruction::ChangeVal(255),
        Statement::IncrementAddr => ThreeAddressInstruction::ChangeAddr(1),
        Statement::DecrementAddr => ThreeAddressInstruction::ChangeAddr(-1i32),
        Statement::PutChar => ThreeAddressInstruction::PutChar,
        Statement::GetChar => ThreeAddressInstruction::GetChar,
        Statement::StartConditional(_) => ThreeAddressInstruction::NoOp,
        Statement::EndConditional(_) => ThreeAddressInstruction::NoOp,
    }
}

impl ThreeAddressInstruction {
    /// Converts a trivial statement into its three-address instruction.
    /// Returns `None` for the conditionals, whose translation spans blocks.
    pub fn for_statement(statement: Statement) -> (r: Option<ThreeAddressInstruction>)
        ensures
            match statement {
                Statement::StartConditional(_) => r is None,
                Statement::EndConditional(_) => r is None,
                _ => r == Some(instruction_for(statement)),
            },
    {
        match statement {
            Statement::IncrementVal => Some(ThreeAddressInstruction::ChangeVal(1)),
            Statement::DecrementVal => Some(ThreeAddressInstruction::ChangeVal(255)),
            Statement::IncrementAddr => Some(ThreeAddressInstruction::ChangeAddr(1)),
            Statement::DecrementAddr => Some(ThreeAddressInstruction::ChangeAddr(-1i32)),
            Statement::PutChar => Some(ThreeAddressInstruction::PutChar),
            Statement::GetChar => Some(ThreeAddressInstruction::GetChar),
            Statement::StartConditional(_) => None,
            Statement::EndConditional(_) => None,
        }
    }
}

/// The lowering pass's abstract state after some prefix of the statements:
/// the finished blocks, the instructions of the block in progress, and for
/// each conditional identifier the label of its placeholder block.
pub struct LowerState {
    pub blocks: Seq<BlockModel>,
    pub current: Seq<ThreeAddressInstruction>,
    pub placeholders: Seq<int>,
}

/// The lowering pass's state before any statement.
pub open spec fn lower_init() -> LowerState {
    LowerState { blocks: Seq::empty(), current: Seq::empty(), placeholders: Seq::empty() }
}

/// How one statement advances the lowering pass. An open bracket finishes the
/// current block and adds a placeholder block; a close bracket appends the
/// back edge, finishes the block, and patches the placeholder to branch past
/// it; any other statement appends its instruction to the current block.
pub open spec fn lower_step(st: LowerState, stmt: Statement) -> LowerState {
    match stmt {
        Statement::StartConditional(c) => {
            let finished = BlockModel { label: st.blocks.len() as int, instrs: st.current };
            let placeholder = BlockModel {
                label: st.blocks.len() as int + 1,
                instrs: seq![ThreeAddressInstruction::NoOp],
            };
            LowerState {
                blocks: st.blocks.push(finished).push(placeholder),
                current: Seq::empty(),
                placeholders: st.placeholders.push(st.blocks.len() as int + 1),
            }
        },
        Statement::EndConditional(c) => {
            let p = st.placeholders[c.0 as int];
            let closing = BlockModel {
                label: st.blocks.len() as int,
                instrs: st.current.push(
                    ThreeAddressInstruction::BranchTo(BlockLabel(p as usize)),
                ),
            };
            let blocks2 = st.blocks.push(closing);
            let patched = blocks2.update(
                p,
                BlockModel {
                    label: p,
                    instrs: seq![
                        ThreeAddressInstruction::BranchIfZero(BlockLabel(blocks2.len() as usize)),
                    ],
                },
            );
            LowerState { blocks: patched, current: Seq::empty(), placeholders: st.placeholders }
        },
        _ => LowerState { current: st.current.push(instruction_for(stmt)), ..st },
    }
}

/// The lowering pass's state after the statements of `stmts` from position
/// `i` on, starting from state `st`.
pub open spec fn lower_from(st: LowerState, stmts: Seq<Statement>, i: int) -> LowerState
    decreases stmts.len() - i,
{
    if i < 0 || i >= stmts.len() {
        st
    } else {
        lower_from(lower_step(st, stmts[i]), stmts, i + 1)
    }
}

/// The graph that lowering a statement list yields: the folded blocks, with
/// the block in progress finished by a `Terminate`.
pub open spec fn spec_lower(stmts: Seq<Statement>) -> Seq<BlockModel> {
    let st = lower_from(lower_init(), stmts, 0);
    st.blocks.push(
        BlockModel {
            label: st.blocks.len() as int,
            instrs: st.current.push(ThreeAddressInstruction::Terminate),
        },
    )
}

/// A prefix of a simulation that ends well-matched is itself well-matched.
proof fn lemma_sim_stack_some_prefix(stmts: Seq<Statement>, i: int, j: int)
    requires
        0 <= i <= j,
        sim_stack(stmts, j) is Some,
    ensures
        sim_stack(stmts, i) is Some,
    decreases j - i,
{
    if i < j {
        lemma_sim_stack_some_prefix(stmts, i, j - 1);
    }
}

/// Compile an AST into a naive control-flow graph. The result is exactly
/// [spec_lower] of the statements: well-formed, free of placeholders, with
/// each bracket pair lowered to a conditional forward branch and an
/// unconditional back edge.
pub fn lower(ast: &AbstractSyntaxTree) -> (r: ControlFlowGraph)
    requires
        ast_well_formed(ast@),
        2 * ast@.len() + 2 <= usize::MAX,
    ensures
        r@ == spec_lower(ast@),
        cfg_well_formed(r@),
        cfg_noop_free(r@),
{
    let stmts_vec = ast.statements();
    let ghost stmts = ast@;
    let n = stmts_vec.len();

    let mut blocks: Vec<BasicBlock> = Vec::new();
    let mut current_block_instrs: Vec<ThreeAddressInstruction> = Vec::new();
    let mut block_id: usize = 0;
    let mut associated_start_block: Vec<usize> = Vec::new();

    let ghost view_fn = |b: BasicBlock| b@;
    let ghost ph_fn = |x: usize| x as int;
    let mut i: usize = 0;

    proof {
        assert(blocks@.map_values(view_fn) =~= Seq::<BlockModel>::empty());
        assert(associated_start_block@.map_values(ph_fn) =~= Seq::<int>::empty());
        assert(current_block_instrs@ =~= Seq::<ThreeAddressInstruction>::empty());
    }

    while i < n
        invariant
            stmts == ast@,
            ast_well_formed(stmts),
            n == stmts.len(),
            2 * n + 2 <= usize::MAX,
            0 <= i <= n,
            stmts_vec@ == stmts,
            view_fn == (|b: BasicBlock| b@),
            ph_fn == (|x: usize| x as int),
            block_id == blocks@.len(),
            blocks@.len() <= 2 * i,
            lower_from(lower_init(), stmts, 0) == lower_from(
                LowerState {
                    blocks: blocks@.map_values(view_fn),
                    current: current_block_instrs@,
                    placeholders: associated_start_block@.map_values(ph_fn),
                },
                stmts,
                i as int,
            ),
            associated_start_block@.len() == start_count(stmts, i as int),
            sim_stack(stmts, i as int) is Some,
            branch_free(current_block_instrs@),
            noop_free(current_block_instrs@),
            forall|j: int|
                0 <= j < blocks@.len() ==> (#[trigger] blocks@.map_values(view_fn)[j]).label == j,
            forall|j: int|
                0 <= j < blocks@.len() ==> branch_only_last(
                    (#[trigger] blocks@.map_values(view_fn)[j]).instrs,
                ),
            forall|j: int|
                0 <= j < blocks@.len() ==> targets_at_most(
                    (#[trigger] blocks@.map_values(view_fn)[j]).instrs,
                    blocks@.len() as int,
                ),
            forall|idx: int|
                0 <= idx < sim_stack(stmts, i as int).unwrap().len() ==> {
                    let k = #[trigger] sim_stack(stmts, i as int).unwrap()[idx];
                    &&& k < associated_start_block@.len()
                    &&& associated_start_block@[k as int] < blocks@.len()
                    &&& blocks@.map_values(view_fn)[associated_start_block@[k as int] as int].instrs
                        == seq![ThreeAddressInstruction::NoOp]
                },
            forall|idx1: int, idx2: int|
                0 <= idx1 < idx2 < sim_stack(stmts, i as int).unwrap().len()
                    ==> associated_start_block@[
                    #[trigger] sim_stack(stmts, i as int).unwrap()[idx1] as int
                ] < associated_start_block@[
                    #[trigger] sim_stack(stmts, i as int).unwrap()[idx2] as int
                ],
            forall|j: int|
                0 <= j < blocks@.len() ==> noop_free(
                    (#[trigger] blocks@.map_values(view_fn)[j]).instrs,
                ) || exists|idx: int|
                    0 <= idx < sim_stack(stmts, i as int).unwrap().len()
                        && associated_start_block@[
                        #[trigger] sim_stack(stmts, i as int).unwrap()[idx] as int
                    ] == j,
        decreases n - i,
    {
        let ghost open_ids = sim_stack(stmts, i as int).unwrap();
        let ghost pre_blocks = blocks@.map_values(view_fn);
        let ghost pre_ph = associated_start_block@.map_values(ph_fn);
        let ghost pre_current = current_block_instrs@;
        let ghost pre_state = LowerState {
            blocks: pre_blocks,
            current: pre_current,
            placeholders: pre_ph,
        };
        proof {
            lemma_sim_stack_some_prefix(stmts, i as int + 1, stmts.len() as int);
        }
        let statement = stmts_vec[i];
        match statement {
            Statement::StartConditional(cond_id) => {
                // Opens are numbered in order of appearance, so this
                // identifier is the next free slot of the placeholder table.
                proof {
                    assert(cond_id.0 == start_count(stmts, i as int));
                }

                // Finish the current block; its successor is the placeholder
                // block that will carry the conditional branch.
                blocks.push(BasicBlock::new(BlockLabel(block_id), current_block_instrs));
                block_id = block_id + 1;

                let this_block_id = BlockLabel(block_id);
                let mut placeholder_instrs: Vec<ThreeAddressInstruction> = Vec::new();
                placeholder_instrs.push(ThreeAddressInstruction::NoOp);
                blocks.push(BasicBlock::new(this_block_id, placeholder_instrs));
                associated_start_block.push(this_block_id.0);

                block_id = block_id + 1;
                current_block_instrs = Vec::new();

                proof {
                    let finished = BlockModel {
                        label: pre_blocks.len() as int,
                        instrs: pre_current,
                    };
                    let placeholder = BlockModel {
                        label: pre_blocks.len() as int + 1,
                        instrs: seq![ThreeAddressInstruction::NoOp],
                    };
                    let new_blocks = pre_blocks.push(finished).push(placeholder);
                    let new_ph = pre_ph.push(pre_blocks.len() as int + 1);
                    let open2 = open_ids.push(cond_id.0);
                    assert(placeholder_instrs@ =~= seq![ThreeAddressInstruction::NoOp]);
                    assert(blocks@.map_values(view_fn) =~= new_blocks);
                    assert(associated_start_block@.map_values(ph_fn) =~= new_ph);
                    assert(current_block_instrs@ =~= Seq::<ThreeAddressInstruction>::empty());
                    assert(lower_step(pre_state, stmts[i as int]) == LowerState {
                        blocks: new_blocks,
                        current: current_block_instrs@,
                        placeholders: new_ph,
                    });
                    assert(sim_stack(stmts, i as int + 1) == Some(open2));

                    assert forall|j: int| 0 <= j < new_blocks.len() implies noop_free(
                        (#[trigger] new_blocks[j]).instrs,
                    ) || exists|idx: int|
                        0 <= idx < open2.len() && associated_start_block@[
                            #[trigger] open2[idx] as int
                        ] == j by {
                        if j < pre_blocks.len() {
                            if !noop_free(new_blocks[j].instrs) {
                                let idx = choose|idx: int|
                                    0 <= idx < open_ids.len() && pre_ph[
                                        open_ids[idx] as int
                                    ] == j;
                                assert(open2[idx] == open_ids[idx]);
                                assert(associated_start_block@[open2[idx] as int] == j);
                            }
                        } else if j == pre_blocks.len() + 1 {
                            let idx = open2.len() - 1;
                            assert(open2[idx] == cond_id.0);
                            assert(associated_start_block@[cond_id.0 as int] == j);
                        }
                    }
                    assert forall|j: int|
                        0 <= j < blocks@.len() implies noop_free(
                            (#[trigger] blocks@.map_values(view_fn)[j]).instrs,
                        ) || exists|idx: int|
                            0 <= idx < sim_stack(stmts, i as int + 1).unwrap().len()
                                && associated_start_block@[
                                #[trigger] sim_stack(stmts, i as int + 1).unwrap()[idx] as int
                            ] == j by {
                        let s2 = sim_stack(stmts, i as int + 1).unwrap();
                        assert(s2 =~= open2);
                        if !noop_free(blocks@.map_values(view_fn)[j].instrs) {
                            let w = choose|idx: int|
                                0 <= idx < open2.len() && associated_start_block@[
                                    open2[idx] as int
                                ] == j;
                            assert(s2[w] == open2[w]);
                            assert(0 <= w < s2.len() && associated_start_block@[
                                s2[w] as int
                            ] == j);
                        }
                    }
                }
            },
            Statement::EndConditional(cond_id) => {
                proof {
                    // The simulation accepts this close, so the innermost open
                    // carries the same identifier and its placeholder is known.
                    assert(open_ids.len() > 0 && open_ids.last() == cond_id.0);
                    assert(sim_stack(stmts, i as int + 1) == Some(open_ids.drop_last()));
                    assert(cond_id.0 == open_ids[open_ids.len() - 1]);
                }

                // The placeholder for this bracket pair was recorded when the
                // open was seen.
                let start_block = associated_start_block[cond_id.0 as usize];

                current_block_instrs.push(
                    ThreeAddressInstruction::BranchTo(BlockLabel(start_block)),
                );
                let ghost closing_instrs = current_block_instrs@;

                blocks.push(BasicBlock::new(BlockLabel(block_id), current_block_instrs));
                block_id = block_id + 1;
                current_block_instrs = Vec::new();

                // Send a zero tape cell past the loop body, to the block that
                // follows the one just finished.
                let ghost mid_blocks = blocks@.map_values(view_fn);
                proof {
                    assert(mid_blocks =~= pre_blocks.push(
                        BlockModel { label: pre_blocks.len() as int, instrs: closing_instrs },
                    ));
                }
                let target_block = &mut blocks[start_block];
                target_block.replace_noop_with_branch_target(BlockLabel(block_id));

                proof {
                    let p = start_block as int;
                    let patched_block = BlockModel {
                        label: p,
                        instrs: seq![
                            ThreeAddressInstruction::BranchIfZero(BlockLabel(block_id)),
                        ],
                    };
                    let new_blocks = mid_blocks.update(p, patched_block);
                    let open2 = open_ids.drop_last();
                    assert(blocks@.map_values(view_fn) =~= new_blocks);
                    assert(current_block_instrs@ =~= Seq::<ThreeAddressInstruction>::empty());
                    assert(lower_step(pre_state, stmts[i as int]) == LowerState {
                        blocks: new_blocks,
                        current: current_block_instrs@,
                        placeholders: pre_ph,
                    });

                    assert(noop_free(closing_instrs));
                    assert(branch_only_last(closing_instrs));
                    assert(targets_at_most(closing_instrs, new_blocks.len() as int));

                    // Placeholders of the brackets still open are untouched:
                    // they all stand strictly before the one just patched.
                    assert forall|idx: int| 0 <= idx < open2.len() implies {
                        let k = #[trigger] open2[idx];
                        &&& k < associated_start_block@.len()
                        &&& associated_start_block@[k as int] < blocks@.len()
                        &&& blocks@.map_values(view_fn)[
                            associated_start_block@[k as int] as int
                        ].instrs == seq![ThreeAddressInstruction::NoOp]
                    } by {
                        assert(open_ids[idx] == open2[idx]);
                        assert(associated_start_block@[open2[idx] as int] < start_block);
                    }

                    assert forall|j: int| 0 <= j < new_blocks.len() implies noop_free(
                        (#[trigger] new_blocks[j]).instrs,
                    ) || exists|idx: int|
                        0 <= idx < open2.len() && associated_start_block@[
                            #[trigger] open2[idx] as int
                        ] == j by {
                        if j != p && j < pre_blocks.len() {
                            if !noop_free(new_blocks[j].instrs) {
                                let idx = choose|idx: int|
                                    0 <= idx < open_ids.len() && pre_ph[
                                        open_ids[idx] as int
                                    ] == j;
                                assert(idx < open_ids.len() - 1);
                                assert(open2[idx] == open_ids[idx]);
                                assert(associated_start_block@[open2[idx] as int] == j);
                            }
                        }
                    }
                    assert forall|j: int|
                        0 <= j < blocks@.len() implies noop_free(
                            (#[trigger] blocks@.map_values(view_fn)[j]).instrs,
                        ) || exists|idx: int|
                            0 <= idx < sim_stack(stmts, i as int + 1).unwrap().len()
                                && associated_start_block@[
                                #[trigger] sim_stack(stmts, i as int + 1).unwrap()[idx] as int
                            ] == j by {
                        let s2 = sim_stack(stmts, i as int + 1).unwrap();
                        assert(s2 =~= open2);
                        if !noop_free(blocks@.map_values(view_fn)[j].instrs) {
                            let w = choose|idx: int|
                                0 <= idx < open2.len() && associated_start_block@[
                                    open2[idx] as int
                                ] == j;
                            assert(s2[w] == open2[w]);
                            assert(0 <= w < s2.len() && associated_start_block@[
                                s2[w] as int
                            ] == j);
                        }
                    }
                }
            },
            _ => {
                let instr = match ThreeAddressInstruction::for_statement(statement) {
                    Some(instr) => instr,
                    None => vstd::pervasive::unreached(),
                };
                current_block_instrs.push(instr);
                proof {
                    assert(instr == instruction_for(stmts[i as int]));
                    assert(sim_stack(stmts, i as int + 1) == Some(open_ids));
                    assert(lower_step(pre_state, stmts[i as int]) == LowerState {
                        blocks: pre_blocks,
                        current: current_block_instrs@,
                        placeholders: pre_ph,
                    });
                    assert forall|j: int| 0 <= j < pre_blocks.len() implies noop_free(
                        (#[trigger] pre_blocks[j]).instrs,
                    ) || exists|idx: int|
                        0 <= idx < open_ids.len() && associated_start_block@[
                            #[trigger] open_ids[idx] as int
                        ] == j by {
                        if !noop_free(pre_blocks[j].instrs) {
                            let idx = choose|idx: int|
                                0 <= idx < open_ids.len() && associated_start_block@[
                                    open_ids[idx] as int
                                ] == j;
                            assert(0 <= idx < open_ids.len() && associated_start_block@[
                                open_ids[idx] as int
                            ] == j);
                        }
                    }
                    assert(forall|j: int|
                        0 <= j < blocks@.len() ==> noop_free(
                            (#[trigger] blocks@.map_values(view_fn)[j]).instrs,
                        ) || exists|idx: int|
                            0 <= idx < sim_stack(stmts, i as int + 1).unwrap().len()
                                && associated_start_block@[
                                #[trigger] sim_stack(stmts, i as int + 1).unwrap()[idx] as int
                            ] == j);
                }
            },
        }
        i = i + 1;
    }

    // The final block should always terminate. All brackets were matched, so
    // every placeholder block has been patched.
    proof {
        assert(sim_stack(stmts, n as int).unwrap().len() == 0);
    }
    current_block_instrs.push(ThreeAddressInstruction::Terminate);
    let ghost final_instrs = current_block_instrs@;
    let ghost pre_blocks = blocks@.map_values(view_fn);
    blocks.push(BasicBlock::new(BlockLabel(block_id), current_block_instrs));
    proof {
        assert(blocks@.map_values(view_fn) =~= pre_blocks.push(
            BlockModel { label: pre_blocks.len() as int, instrs: final_instrs },
        ));
        assert(blocks@.map_values(view_fn) == spec_lower(stmts));
    }

    let r = ControlFlowGraph::new(blocks);
    proof {
        assert(cfg_well_formed(r@));
        assert(cfg_noop_free(r@));
    }
    r
}

} // verus!
