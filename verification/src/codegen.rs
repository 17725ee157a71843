//! The native back-end: walks a [ControlFlowGraph] and drives the assembler
//! to emit a function over the host AArch64 calling convention.
//!
//! Register assignment (fixed): `w0` working value; `x19` tape pointer; `x20`
//! the putchar callback; `x21` the getchar callback; `x29` frame pointer;
//! `x30` link register; `x31` stack pointer.

use vstd::prelude::*;

use crate::aarch64::{
    asm_wf, enc_add, enc_add64, enc_b_base, enc_blr, enc_cbz_base, enc_ldp_offset,
    enc_ldp_postindex, enc_ldr_imm, enc_ldrb, enc_mov, enc_ret, enc_stp_offset, enc_stp_preindex,
    enc_str_imm, enc_strb, enc_sub, enc_sub64, le_bytes_of_words, patch_bits, AArch64Assembly,
    IncompleteInstruction, Label, PendingModel, MAX_WORDS, W, X,
};
use crate::ir::{cfg_well_formed, BlockModel, ControlFlowGraph, ThreeAddressInstruction};

verus! {

/// The function prologue: save the callee-saved registers on a 48-byte
/// frame, link the frame record, and move the arguments (tape pointer,
/// putchar, getchar) into their fixed registers.
pub open spec fn prologue_words() -> Seq<u32> {
    seq![
        enc_stp_preindex(20, 21, 31, -0x30i16),
        enc_stp_offset(29, 30, 31, 0x20),
        enc_str_imm(19, 31, 0x10),
        enc_add64(29, 31, 0x20),
        enc_mov(19, 0),
        enc_mov(20, 1),
        enc_mov(21, 2),
    ]
}

/// The function epilogue: restore the saved registers and return.
pub open spec fn epilogue_words() -> Seq<u32> {
    seq![
        enc_ldr_imm(19, 31, 0x10),
        enc_ldp_offset(29, 30, 31, 0x20),
        enc_ldp_postindex(20, 21, 31, 0x30),
        enc_ret(),
    ]
}

/// How many machine words one graph instruction costs.
pub open spec fn instr_word_count(x: ThreeAddressInstruction) -> int {
    match x {
        ThreeAddressInstruction::NoOp => 0,
        ThreeAddressInstruction::ChangeAddr(d) => if d == 0 {
            0
        } else {
            1
        },
        ThreeAddressInstruction::ChangeVal(_) => 3,
        ThreeAddressInstruction::PutChar => 2,
        ThreeAddressInstruction::GetChar => 2,
        ThreeAddressInstruction::BranchIfZero(_) => 2,
        ThreeAddressInstruction::BranchTo(_) => 1,
        ThreeAddressInstruction::Terminate => 4,
    }
}

/// How many machine words the first `i` instructions of a block cost.
pub open spec fn block_word_count(instrs: Seq<ThreeAddressInstruction>, i: int) -> int
    decreases i,
{
    if i <= 0 {
        0
    } else {
        block_word_count(instrs, i - 1) + instr_word_count(instrs[i - 1])
    }
}

/// The word offset at which block `b` begins: the prologue plus all earlier
/// blocks.
pub open spec fn layout_offset(cfg: Seq<BlockModel>, b: int) -> int
    decreases b,
{
    if b <= 0 {
        7
    } else {
        layout_offset(cfg, b - 1) + block_word_count(cfg[b - 1].instrs, cfg[b - 1].instrs.len() as int)
    }
}

/// The machine words for one graph instruction standing at word position
/// `pos`, with branch displacements resolved against the final layout.
pub open spec fn instr_words_at(
    cfg: Seq<BlockModel>,
    x: ThreeAddressInstruction,
    pos: int,
) -> Seq<u32> {
    match x {
        ThreeAddressInstruction::NoOp => Seq::empty(),
        ThreeAddressInstruction::ChangeAddr(d) => if d == 0 {
            Seq::empty()
        } else if d >= 0 {
            seq![enc_add64(19, 19, d as u16)]
        } else {
            seq![enc_sub64(19, 19, (-d) as u16)]
        },
        ThreeAddressInstruction::ChangeVal(v) => seq![
            enc_ldrb(0, 19, 0),
            if (v as i8) >= 0 {
                enc_add(0, 0, v as u16)
            } else {
                enc_sub(0, 0, (-(v as i8)) as u16)
            },
            enc_strb(0, 19, 0),
        ],
        ThreeAddressInstruction::PutChar => seq![enc_ldrb(0, 19, 0), enc_blr(20)],
        ThreeAddressInstruction::GetChar => seq![enc_blr(21), enc_strb(0, 19, 0)],
        ThreeAddressInstruction::BranchIfZero(l) => seq![
            enc_ldrb(0, 19, 0),
            enc_cbz_base(0) | patch_bits(
                IncompleteInstruction::Cbz,
                layout_offset(cfg, l.0 as int) - (pos + 1),
            ),
        ],
        ThreeAddressInstruction::BranchTo(l) => seq![
            enc_b_base() | patch_bits(
                IncompleteInstruction::B,
                layout_offset(cfg, l.0 as int) - pos,
            ),
        ],
        ThreeAddressInstruction::Terminate => epilogue_words(),
    }
}

/// The words the first pass emits for one instruction: the same as
/// [instr_words_at], except that a branch's displacement field is still
/// zeroed.
pub open spec fn instr_words_unpatched(x: ThreeAddressInstruction) -> Seq<u32> {
    match x {
        ThreeAddressInstruction::NoOp => Seq::empty(),
        ThreeAddressInstruction::ChangeAddr(d) => if d == 0 {
            Seq::empty()
        } else if d >= 0 {
            seq![enc_add64(19, 19, d as u16)]
        } else {
            seq![enc_sub64(19, 19, (-d) as u16)]
        },
        ThreeAddressInstruction::ChangeVal(v) => seq![
            enc_ldrb(0, 19, 0),
            if (v as i8) >= 0 {
                enc_add(0, 0, v as u16)
            } else {
                enc_sub(0, 0, (-(v as i8)) as u16)
            },
            enc_strb(0, 19, 0),
        ],
        ThreeAddressInstruction::PutChar => seq![enc_ldrb(0, 19, 0), enc_blr(20)],
        ThreeAddressInstruction::GetChar => seq![enc_blr(21), enc_strb(0, 19, 0)],
        ThreeAddressInstruction::BranchIfZero(l) => seq![enc_ldrb(0, 19, 0), enc_cbz_base(0)],
        ThreeAddressInstruction::BranchTo(l) => seq![enc_b_base()],
        ThreeAddressInstruction::Terminate => epilogue_words(),
    }
}

/// The machine words of a block's first `i` instructions, the block starting
/// at word position `pos`.
pub open spec fn gen_block(
    cfg: Seq<BlockModel>,
    instrs: Seq<ThreeAddressInstruction>,
    i: int,
    pos: int,
) -> Seq<u32>
    decreases i,
{
    if i <= 0 {
        Seq::empty()
    } else {
        let rest = gen_block(cfg, instrs, i - 1, pos);
        rest + instr_words_at(cfg, instrs[i - 1], pos + rest.len())
    }
}

/// The machine words of the prologue and the first `b` blocks.
pub open spec fn gen_upto(cfg: Seq<BlockModel>, b: int) -> Seq<u32>
    decreases b,
{
    if b <= 0 {
        prologue_words()
    } else {
        gen_upto(cfg, b - 1) + gen_block(
            cfg,
            cfg[b - 1].instrs,
            cfg[b - 1].instrs.len() as int,
            layout_offset(cfg, b - 1),
        )
    }
}

/// What compiling a graph to native code yields, as 32-bit words.
pub open spec fn gen_words(cfg: Seq<BlockModel>) -> Seq<u32> {
    gen_upto(cfg, cfg.len() as int)
}

/// The delta of every pointer adjustment can be negated, and the delta of
/// every value adjustment has a signed-8-bit magnitude: what the emitters'
/// arithmetic needs.
pub open spec fn cfg_encodable(cfg: Seq<BlockModel>) -> bool {
    forall|b: int, t: int|
        0 <= b < cfg.len() && 0 <= t < cfg[b].instrs.len() ==> match #[trigger] cfg[b].instrs[t] {
            ThreeAddressInstruction::ChangeAddr(d) => d != i32::MIN,
            ThreeAddressInstruction::ChangeVal(v) => v != 128,
            _ => true,
        }
}

/// A block's word count is never negative.
proof fn lemma_block_word_count_nonneg(instrs: Seq<ThreeAddressInstruction>, i: int)
    ensures
        block_word_count(instrs, i) >= 0,
    decreases i,
{
    if i > 0 {
        lemma_block_word_count_nonneg(instrs, i - 1);
    }
}

/// A block's generated words number exactly its word count, wherever it
/// stands.
proof fn lemma_gen_block_len(
    cfg: Seq<BlockModel>,
    instrs: Seq<ThreeAddressInstruction>,
    i: int,
    pos: int,
)
    ensures
        gen_block(cfg, instrs, i, pos).len() == if i <= 0 {
            0int
        } else {
            block_word_count(instrs, i)
        },
        block_word_count(instrs, i) >= 0,
    decreases i,
{
    if i > 0 {
        lemma_gen_block_len(cfg, instrs, i - 1, pos);
    }
}

/// The prologue and the first `b` blocks fill exactly the layout up to block
/// `b`.
proof fn lemma_gen_upto_len(cfg: Seq<BlockModel>, b: int)
    ensures
        gen_upto(cfg, b).len() == if b <= 0 {
            7int
        } else {
            layout_offset(cfg, b)
        },
        layout_offset(cfg, b) >= 7,
    decreases b,
{
    if b > 0 {
        lemma_gen_upto_len(cfg, b - 1);
        lemma_gen_block_len(
            cfg,
            cfg[b - 1].instrs,
            cfg[b - 1].instrs.len() as int,
            layout_offset(cfg, b - 1),
        );
    }
}

/// The layout never shrinks as blocks are added.
proof fn lemma_layout_monotone(cfg: Seq<BlockModel>, b1: int, b2: int)
    requires
        b1 <= b2,
    ensures
        layout_offset(cfg, b1) <= layout_offset(cfg, b2),
    decreases b2 - b1,
{
    if b1 < b2 {
        lemma_layout_monotone(cfg, b1, b2 - 1);
        lemma_block_word_count_nonneg(cfg[b2 - 1].instrs, cfg[b2 - 1].instrs.len() as int);
    }
}

/// Takes three-address code and compiles it to an executable.
pub struct CodeGenerator {
    assembler: AArch64Assembly,
}

impl View for CodeGenerator {
    type V = crate::aarch64::AsmModel;

    closed spec fn view(&self) -> crate::aarch64::AsmModel {
        self.assembler@
    }
}

impl CodeGenerator {
    /// A generator with an empty assembler.
    pub fn new() -> (r: Self)
        ensures
            r@.words == Seq::<u32>::empty(),
            r@.targets == Seq::<Option<u32>>::empty(),
            r@.pending == Seq::<PendingModel>::empty(),
            asm_wf(r@),
    {
        CodeGenerator { assembler: AArch64Assembly::new() }
    }

    /// Emits the function for a whole graph and returns its machine code:
    /// exactly the little-endian bytes of [gen_words].
    pub fn compile(&mut self, cfg: &ControlFlowGraph) -> (r: Vec<u8>)
        requires
            old(self)@.words == Seq::<u32>::empty(),
            old(self)@.targets == Seq::<Option<u32>>::empty(),
            old(self)@.pending == Seq::<PendingModel>::empty(),
            asm_wf(old(self)@),
            cfg_well_formed(cfg@),
            cfg_encodable(cfg@),
            cfg@.len() < MAX_WORDS,
            layout_offset(cfg@, cfg@.len() as int) <= MAX_WORDS,
        ensures
            r@ == le_bytes_of_words(gen_words(cfg@)),
    {
        self.setup_stack_and_save_registers();
        self.generate_code(cfg);
        self.assembler.machine_code()
    }

    /// The prologue: `stp x20, x21, [sp, #-0x30]!`, `stp x29, x30,
    /// [sp, #0x20]`, `str x19, [sp, #0x10]`, point the frame pointer at the
    /// frame record so backtraces link through this frame, then move the
    /// arguments into the callee-saved registers.
    fn setup_stack_and_save_registers(&mut self)
        requires
            asm_wf(old(self)@),
            old(self)@.words.len() + 7 <= MAX_WORDS,
        ensures
            asm_wf(final(self)@),
            final(self)@.words == old(self)@.words + prologue_words(),
            final(self)@.targets == old(self)@.targets,
            final(self)@.pending == old(self)@.pending,
    {
        let ghost pre = self@.words;
        self.assembler.stp_preindex(X(20), X(21), X(31), -0x30);
        self.assembler.stp_offset(X(29), X(30), X(31), 0x20);
        self.assembler.str_imm(X(19), X(31), 0x10);
        self.assembler.add64(X(29), X(31), 0x20);
        self.assembler.mov(X(19), X(0));
        self.assembler.mov(X(20), X(1));
        self.assembler.mov(X(21), X(2));
        proof {
            assert(self@.words =~= pre + prologue_words());
        }
    }

    /// The epilogue: restore `x19`, the frame record, and the saved pair,
    /// then return.
    fn restore_stack_and_registers_and_return(&mut self)
        requires
            asm_wf(old(self)@),
            old(self)@.words.len() + 4 <= MAX_WORDS,
        ensures
            asm_wf(final(self)@),
            final(self)@.words == old(self)@.words + epilogue_words(),
            final(self)@.targets == old(self)@.targets,
            final(self)@.pending == old(self)@.pending,
    {
        let ghost pre = self@.words;
        self.assembler.ldr_imm(X(19), X(31), 0x10);
        self.assembler.ldp_offset(X(29), X(30), X(31), 0x20);
        self.assembler.ldp_postindex(X(20), X(21), X(31), 0x30);
        self.assembler.ret();
        proof {
            assert(self@.words =~= pre + epilogue_words());
        }
    }

    /// First pass: emit every block, recording each block's label at its
    /// start. Second pass: resolve the branches.
    fn generate_code(&mut self, cfg: &ControlFlowGraph)
        requires
            asm_wf(old(self)@),
            old(self)@.words == prologue_words(),
            old(self)@.targets == Seq::<Option<u32>>::empty(),
            old(self)@.pending == Seq::<PendingModel>::empty(),
            cfg_well_formed(cfg@),
            cfg_encodable(cfg@),
            cfg@.len() < MAX_WORDS,
            layout_offset(cfg@, cfg@.len() as int) <= MAX_WORDS,
        ensures
            asm_wf(final(self)@),
            final(self)@.words == gen_words(cfg@),
            final(self)@.pending.len() == 0,
    {
        let ghost model = cfg@;
        let blocks = cfg.blocks();
        let ghost view_fn = |bb: crate::ir::BasicBlock| bb@;
        let n = blocks.len();
        let mut b: usize = 0;

        proof {
            lemma_gen_upto_len(model, 0);
            assert(gen_upto(model, 0) == prologue_words());
        }

        while b < n
            invariant
                model == cfg@,
                view_fn == (|bb: crate::ir::BasicBlock| bb@),
                blocks@.map_values(view_fn) == model,
                n == model.len(),
                cfg_well_formed(model),
                cfg_encodable(model),
                n < MAX_WORDS,
                layout_offset(model, n as int) <= MAX_WORDS,
                0 <= b <= n,
                asm_wf(self@),
                self@.words.len() == gen_upto(model, b as int).len(),
                self@.targets.len() == b,
                forall|l: int|
                    0 <= l < b ==> #[trigger] self@.targets[l] == Some(
                        layout_offset(model, l) as u32,
                    ),
                forall|p: int|
                    0 <= p < self@.words.len() ==> #[trigger] self@.words[p] == gen_upto(
                        model,
                        b as int,
                    )[p] || exists|k: int|
                        0 <= k < self@.pending.len() && (#[trigger] self@.pending[k]).site == p,
                forall|k: int|
                    0 <= k < self@.pending.len() ==> {
                        let p = #[trigger] self@.pending[k];
                        &&& 0 <= p.label < model.len()
                        &&& gen_upto(model, b as int)[p.site] == self@.words[p.site] | patch_bits(
                            p.kind,
                            layout_offset(model, p.label) - p.site,
                        )
                    },
            decreases n - b,
        {
            proof {
                lemma_gen_upto_len(model, b as int);
                lemma_gen_upto_len(model, b as int + 1);
                lemma_layout_monotone(model, b as int + 1, n as int);
            }
            self.assembler.set_label_target(Label(b));

            let block = &blocks[b];
            let instructions = block.instructions();
            let ghost binstrs = model[b as int].instrs;
            let m = instructions.len();
            let mut t: usize = 0;

            while t < m
                invariant
                    model == cfg@,
                    view_fn == (|bb: crate::ir::BasicBlock| bb@),
                    blocks@.map_values(view_fn) == model,
                    n == model.len(),
                    cfg_well_formed(model),
                    cfg_encodable(model),
                    n < MAX_WORDS,
                    layout_offset(model, n as int) <= MAX_WORDS,
                    0 <= b < n,
                    instructions@ == binstrs,
                    binstrs == model[b as int].instrs,
                    m == binstrs.len(),
                    0 <= t <= m,
                    asm_wf(self@),
                    self@.words.len() == gen_upto(model, b as int).len() + gen_block(
                        model,
                        binstrs,
                        t as int,
                        layout_offset(model, b as int),
                    ).len(),
                    self@.targets.len() == b + 1,
                    forall|l: int|
                        0 <= l <= b ==> #[trigger] self@.targets[l] == Some(
                            layout_offset(model, l) as u32,
                        ),
                    forall|p: int|
                        0 <= p < self@.words.len() ==> #[trigger] self@.words[p] == (gen_upto(
                            model,
                            b as int,
                        ) + gen_block(
                            model,
                            binstrs,
                            t as int,
                            layout_offset(model, b as int),
                        ))[p] || exists|k: int|
                            0 <= k < self@.pending.len() && (#[trigger] self@.pending[k]).site
                                == p,
                    forall|k: int|
                        0 <= k < self@.pending.len() ==> {
                            let p = #[trigger] self@.pending[k];
                            &&& 0 <= p.label < model.len()
                            &&& (gen_upto(model, b as int) + gen_block(
                                model,
                                binstrs,
                                t as int,
                                layout_offset(model, b as int),
                            ))[p.site] == self@.words[p.site] | patch_bits(
                                p.kind,
                                layout_offset(model, p.label) - p.site,
                            )
                        },
                decreases m - t,
            {
                let ghost base = layout_offset(model, b as int);
                let ghost partial_pre = gen_upto(model, b as int) + gen_block(
                    model,
                    binstrs,
                    t as int,
                    base,
                );
                let ghost words_pre = self@.words;
                let ghost pending_pre = self@.pending;
                proof {
                    lemma_gen_upto_len(model, b as int);
                    lemma_gen_block_len(model, binstrs, t as int, base);
                    lemma_gen_block_len(model, binstrs, t as int + 1, base);
                    lemma_layout_block_bound(model, b as int, t as int, n as int);
                }
                let instr = instructions[t];
                self.generate_instructions(instr);
                proof {
                    let partial_post = gen_upto(model, b as int) + gen_block(
                        model,
                        binstrs,
                        t as int + 1,
                        base,
                    );
                    let x = binstrs[t as int];
                    let pos = partial_pre.len() as int;
                    assert(gen_block(model, binstrs, t as int + 1, base) == gen_block(
                        model,
                        binstrs,
                        t as int,
                        base,
                    ) + instr_words_at(model, x, base + gen_block(
                        model,
                        binstrs,
                        t as int,
                        base,
                    ).len()));
                    assert(partial_post =~= partial_pre + instr_words_at(model, x, pos));
                    assert forall|p: int|
                        0 <= p < self@.words.len() implies #[trigger] self@.words[p]
                        == partial_post[p] || exists|k: int|
                            0 <= k < self@.pending.len() && (#[trigger] self@.pending[k]).site
                                == p by {
                        if p < words_pre.len() {
                            assert(self@.words[p] == words_pre[p]);
                            assert(partial_post[p] == partial_pre[p]);
                            if words_pre[p] != partial_pre[p] {
                                let w = choose|k: int|
                                    0 <= k < pending_pre.len() && (
                                    #[trigger] pending_pre[k]).site == p;
                                assert(self@.pending[w] == pending_pre[w]);
                                assert(0 <= w < self@.pending.len() && self@.pending[w].site
                                    == p);
                            }
                        } else {
                            match x {
                                ThreeAddressInstruction::BranchIfZero(l) => {
                                    if p == words_pre.len() + 1 {
                                        let w = self@.pending.len() - 1;
                                        assert(self@.pending[w].site == p);
                                    } else {
                                        assert(self@.words[p] == partial_post[p]);
                                    }
                                },
                                ThreeAddressInstruction::BranchTo(l) => {
                                    let w = self@.pending.len() - 1;
                                    assert(self@.pending[w].site == p);
                                },
                                _ => {
                                    assert(self@.words[p] == partial_post[p]);
                                },
                            }
                        }
                    }
                    assert forall|k: int|
                        0 <= k < self@.pending.len() implies {
                        let p = #[trigger] self@.pending[k];
                        &&& 0 <= p.label < model.len()
                        &&& partial_post[p.site] == self@.words[p.site] | patch_bits(
                            p.kind,
                            layout_offset(model, p.label) - p.site,
                        )
                    } by {
                        if k < pending_pre.len() {
                            assert(self@.pending[k] == pending_pre[k]);
                            let p = pending_pre[k];
                            assert(self@.words[p.site] == words_pre[p.site]);
                            assert(partial_post[p.site] == partial_pre[p.site]);
                        } else {
                            let p = self@.pending[k];
                            match x {
                                ThreeAddressInstruction::BranchIfZero(l) => {
                                    assert(crate::ir::targets_within(
                                        binstrs,
                                        model.len() as int,
                                    ));
                                    assert(crate::ir::instruction_targets_at_most(
                                        x,
                                        model.len() as int - 1,
                                    ));
                                    assert(p.site == pos + 1);
                                    assert(self@.words[p.site] == enc_cbz_base(0));
                                    assert(partial_post[p.site] == instr_words_at(
                                        model,
                                        x,
                                        pos,
                                    )[1]);
                                },
                                ThreeAddressInstruction::BranchTo(l) => {
                                    assert(crate::ir::targets_within(
                                        binstrs,
                                        model.len() as int,
                                    ));
                                    assert(crate::ir::instruction_targets_at_most(
                                        x,
                                        model.len() as int - 1,
                                    ));
                                    assert(p.site == pos);
                                    assert(self@.words[p.site] == enc_b_base());
                                    assert(partial_post[p.site] == instr_words_at(
                                        model,
                                        x,
                                        pos,
                                    )[0]);
                                },
                                _ => {
                                    assert(false);
                                },
                            }
                        }
                    }
                }
                t = t + 1;
            }

            proof {
                assert(gen_upto(model, b as int) + gen_block(
                    model,
                    binstrs,
                    m as int,
                    layout_offset(model, b as int),
                ) =~= gen_upto(model, b as int + 1));
            }
            b = b + 1;
        }

        // Second pass: patch all incomplete branches.
        proof {
            lemma_gen_upto_len(model, n as int);
            assert forall|k: int|
                0 <= k < self@.pending.len() implies 0 <= (#[trigger] self@.pending[k]).label
                < self@.targets.len() && self@.targets[self@.pending[k].label] is Some by {
            }
        }
        let ghost before_patch = self@;
        self.assembler.patch_branch_targets();
        proof {
            assert forall|p: int|
                0 <= p < self@.words.len() implies #[trigger] self@.words[p] == gen_words(
                model,
            )[p] by {
                if exists|k: int|
                    0 <= k < before_patch.pending.len() && (
                    #[trigger] before_patch.pending[k]).site == p {
                    let k = choose|k: int|
                        0 <= k < before_patch.pending.len() && (
                        #[trigger] before_patch.pending[k]).site == p;
                    let pd = before_patch.pending[k];
                    assert(self@.words[pd.site] == before_patch.words[pd.site] | patch_bits(
                        pd.kind,
                        before_patch.targets[pd.label].unwrap() - pd.site,
                    ));
                    lemma_gen_upto_len(model, pd.label);
                    lemma_layout_monotone(model, pd.label, n as int);
                    assert(before_patch.targets[pd.label].unwrap() == layout_offset(
                        model,
                        pd.label,
                    ));
                } else {
                    assert(self@.words[p] == before_patch.words[p]);
                }
            }
            assert(self@.words =~= gen_words(model));
        }
    }

    /// Emits the machine words for one graph instruction, per the fixed
    /// register assignment; branches are emitted with a zeroed displacement
    /// and recorded for the second pass.
    fn generate_instructions(&mut self, instr: ThreeAddressInstruction)
        requires
            asm_wf(old(self)@),
            old(self)@.words.len() + instr_word_count(instr) <= MAX_WORDS,
            match instr {
                ThreeAddressInstruction::ChangeAddr(d) => d != i32::MIN,
                ThreeAddressInstruction::ChangeVal(v) => v != 128,
                _ => true,
            },
        ensures
            asm_wf(final(self)@),
            final(self)@.words == old(self)@.words + instr_words_unpatched(instr),
            final(self)@.words.len() == old(self)@.words.len() + instr_word_count(instr),
            final(self)@.targets == old(self)@.targets,
            final(self)@.pending == match instr {
                ThreeAddressInstruction::BranchIfZero(l) => old(self)@.pending.push(
                    PendingModel {
                        site: old(self)@.words.len() as int + 1,
                        kind: IncompleteInstruction::Cbz,
                        label: l.0 as int,
                    },
                ),
                ThreeAddressInstruction::BranchTo(l) => old(self)@.pending.push(
                    PendingModel {
                        site: old(self)@.words.len() as int,
                        kind: IncompleteInstruction::B,
                        label: l.0 as int,
                    },
                ),
                _ => old(self)@.pending,
            },
    {
        let ghost pre = self@.words;
        match instr {
            ThreeAddressInstruction::NoOp => {
                proof {
                    assert(pre + instr_words_unpatched(instr) =~= pre);
                }
            },
            ThreeAddressInstruction::ChangeAddr(x) => {
                if x == 0 {
                    proof {
                        assert(pre + instr_words_unpatched(instr) =~= pre);
                    }
                    return ;
                }
                if x >= 0 {
                    self.assembler.add64(X(19), X(19), x as u16);
                } else {
                    self.assembler.sub64(X(19), X(19), (-x) as u16);
                }
                proof {
                    assert(self@.words =~= pre + instr_words_unpatched(instr));
                }
            },
            ThreeAddressInstruction::ChangeVal(x) => {
                self.assembler.ldrb(W(0), X(19), 0);
                if (x as i8) >= 0 {
                    self.assembler.add(W(0), W(0), x as u16);
                } else {
                    proof {
                        assert(x as i8 != i8::MIN) by (bit_vector)
                            requires
                                x != 128,
                        ;
                    }
                    self.assembler.sub(W(0), W(0), (-(x as i8)) as u16);
                }
                self.assembler.strb(W(0), X(19), 0);
                proof {
                    assert(self@.words =~= pre + instr_words_unpatched(instr));
                }
            },
            ThreeAddressInstruction::PutChar => {
                self.assembler.ldrb(W(0), X(19), 0);
                self.assembler.blr(X(20));
                proof {
                    assert(self@.words =~= pre + instr_words_unpatched(instr));
                }
            },
            ThreeAddressInstruction::GetChar => {
                self.assembler.blr(X(21));
                self.assembler.strb(W(0), X(19), 0);
                proof {
                    assert(self@.words =~= pre + instr_words_unpatched(instr));
                }
            },
            ThreeAddressInstruction::BranchIfZero(l) => {
                self.assembler.ldrb(W(0), X(19), 0);
                self.assembler.cbz(W(0), Label(l.0));
                proof {
                    assert(self@.words =~= pre + instr_words_unpatched(instr));
                }
            },
            ThreeAddressInstruction::BranchTo(l) => {
                self.assembler.b(Label(l.0));
                proof {
                    assert(self@.words =~= pre + instr_words_unpatched(instr));
                }
            },
            ThreeAddressInstruction::Terminate => {
                self.restore_stack_and_registers_and_return();
                proof {
                    assert(self@.words =~= pre + instr_words_unpatched(instr));
                }
            },
        }
    }
}

/// One layout bound used while emitting: a block's prefix never runs past
/// the whole function.
proof fn lemma_layout_block_bound(cfg: Seq<BlockModel>, b: int, t: int, n: int)
    requires
        0 <= b < n,
        n == cfg.len(),
        0 <= t <= cfg[b].instrs.len(),
    ensures
        layout_offset(cfg, b) + block_word_count(cfg[b].instrs, t) + instr_word_count(
            cfg[b].instrs[t],
        ) <= layout_offset(cfg, n) || t == cfg[b].instrs.len(),
        layout_offset(cfg, b) + block_word_count(cfg[b].instrs, t) <= layout_offset(cfg, n),
{
    lemma_block_prefix_bound(cfg[b].instrs, t);
    lemma_layout_monotone(cfg, b + 1, n);
}

/// A block prefix's word count is at most the whole block's.
proof fn lemma_block_prefix_bound(instrs: Seq<ThreeAddressInstruction>, t: int)
    requires
        0 <= t <= instrs.len(),
    ensures
        block_word_count(instrs, t) + if t < instrs.len() {
            instr_word_count(instrs[t])
        } else {
            0int
        } <= block_word_count(instrs, instrs.len() as int),
        block_word_count(instrs, t) <= block_word_count(instrs, instrs.len() as int),
    decreases instrs.len() - t,
{
    if t < instrs.len() {
        lemma_block_prefix_bound(instrs, t + 1);
    }
}

/// Whether the native back-end can faithfully encode this graph: every
/// delta is negatable and of signed-8-bit magnitude where a byte is
/// adjusted, and the whole function fits the assembler's buffer.
pub fn native_limits_ok(cfg: &ControlFlowGraph) -> (r: bool)
    ensures
        r <==> (cfg_encodable(cfg@) && cfg@.len() < MAX_WORDS && layout_offset(
            cfg@,
            cfg@.len() as int,
        ) <= MAX_WORDS),
{
    let ghost model = cfg@;
    let blocks = cfg.blocks();
    let ghost view_fn = |bb: crate::ir::BasicBlock| bb@;
    let n = blocks.len();
    if n >= MAX_WORDS {
        return false;
    }
    let mut total: usize = 7;
    let mut b: usize = 0;
    while b < n
        invariant
            model == cfg@,
            view_fn == (|bb: crate::ir::BasicBlock| bb@),
            blocks@.map_values(view_fn) == model,
            n == model.len(),
            n < MAX_WORDS,
            0 <= b <= n,
            total == layout_offset(model, b as int),
            total <= MAX_WORDS,
            forall|b2: int, t2: int|
                0 <= b2 < b && 0 <= t2 < model[b2].instrs.len() ==> match #[trigger] model[
                    b2
                ].instrs[t2] {
                    ThreeAddressInstruction::ChangeAddr(d) => d != i32::MIN,
                    ThreeAddressInstruction::ChangeVal(v) => v != 128,
                    _ => true,
                },
        decreases n - b,
    {
        let block = &blocks[b];
        let instructions = block.instructions();
        let ghost binstrs = model[b as int].instrs;
        let m = instructions.len();
        let mut t: usize = 0;
        while t < m
            invariant
                model == cfg@,
                view_fn == (|bb: crate::ir::BasicBlock| bb@),
                blocks@.map_values(view_fn) == model,
                n == model.len(),
                n < MAX_WORDS,
                0 <= b < n,
                instructions@ == binstrs,
                binstrs == model[b as int].instrs,
                m == binstrs.len(),
                0 <= t <= m,
                total == layout_offset(model, b as int) + block_word_count(binstrs, t as int),
                total <= MAX_WORDS,
                forall|b2: int, t2: int|
                    0 <= b2 < b && 0 <= t2 < model[b2].instrs.len() ==> match #[trigger] model[
                        b2
                    ].instrs[t2] {
                        ThreeAddressInstruction::ChangeAddr(d) => d != i32::MIN,
                        ThreeAddressInstruction::ChangeVal(v) => v != 128,
                        _ => true,
                    },
                forall|t2: int|
                    0 <= t2 < t ==> match #[trigger] binstrs[t2] {
                        ThreeAddressInstruction::ChangeAddr(d) => d != i32::MIN,
                        ThreeAddressInstruction::ChangeVal(v) => v != 128,
                        _ => true,
                    },
            decreases m - t,
        {
            let instr = instructions[t];
            let cost: usize = match instr {
                ThreeAddressInstruction::NoOp => 0,
                ThreeAddressInstruction::ChangeAddr(d) => {
                    if d == i32::MIN {
                        return false;
                    }
                    if d == 0 {
                        0
                    } else {
                        1
                    }
                },
                ThreeAddressInstruction::ChangeVal(v) => {
                    if v == 128 {
                        return false;
                    }
                    3
                },
                ThreeAddressInstruction::PutChar => 2,
                ThreeAddressInstruction::GetChar => 2,
                ThreeAddressInstruction::BranchIfZero(_) => 2,
                ThreeAddressInstruction::BranchTo(_) => 1,
                ThreeAddressInstruction::Terminate => 4,
            };
            if total > MAX_WORDS - cost {
                // The function would not fit: the layout only grows from
                // here.
                proof {
                    lemma_block_prefix_bound(binstrs, t as int);
                    lemma_layout_monotone(model, b as int + 1, n as int);
                }
                return false;
            }
            total = total + cost;
            t = t + 1;
        }
        b = b + 1;
    }
    proof {
        assert(cfg_encodable(model));
    }
    true
}

} // verus!
