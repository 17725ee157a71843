//! Peephole optimization of a [ControlFlowGraph]: adjacent value adjustments
//! and adjacent pointer adjustments within a block are coalesced.

use vstd::prelude::*;

use crate::ir::{
    branch_free, branch_only_last, cfg_noop_free, cfg_well_formed, is_branch_instruction, noop_free,
    targets_at_most, BasicBlock, BlockModel, ControlFlowGraph, ThreeAddressInstruction,
};

verus! {

/// How the coalescing pass absorbs one instruction into its accumulator:
/// adjacent value changes add modulo 256, adjacent pointer changes add with
/// wrap-around, anything else is appended.
pub open spec fn peephole_step(
    acc: Seq<ThreeAddressInstruction>,
    instr: ThreeAddressInstruction,
) -> Seq<ThreeAddressInstruction> {
    if acc.len() > 0 {
        match (acc.last(), instr) {
            (
                ThreeAddressInstruction::ChangeVal(x),
                ThreeAddressInstruction::ChangeVal(y),
            ) => acc.update(
                acc.len() - 1,
                ThreeAddressInstruction::ChangeVal(vstd::wrapping::u8_specs::wrapping_add(x, y)),
            ),
            (
                ThreeAddressInstruction::ChangeAddr(x),
                ThreeAddressInstruction::ChangeAddr(y),
            ) => acc.update(
                acc.len() - 1,
                ThreeAddressInstruction::ChangeAddr(vstd::wrapping::i32_specs::wrapping_add(x, y)),
            ),
            _ => acc.push(instr),
        }
    } else {
        acc.push(instr)
    }
}

/// The accumulator after absorbing the instructions of `s` from position `i`
/// on.
pub open spec fn peephole_fold(
    acc: Seq<ThreeAddressInstruction>,
    s: Seq<ThreeAddressInstruction>,
    i: int,
) -> Seq<ThreeAddressInstruction>
    decreases s.len() - i,
{
    if i < 0 || i >= s.len() {
        acc
    } else {
        peephole_fold(peephole_step(acc, s[i]), s, i + 1)
    }
}

/// The sequence with every `NoOp` removed, order kept.
pub open spec fn remove_noops(s: Seq<ThreeAddressInstruction>) -> Seq<ThreeAddressInstruction>
    decreases s.len(),
{
    if s.len() == 0 {
        Seq::empty()
    } else if s.last() == ThreeAddressInstruction::NoOp {
        remove_noops(s.drop_last())
    } else {
        remove_noops(s.drop_last()).push(s.last())
    }
}

/// What coalescing a block's instructions yields: the fold seeded with a
/// sentinel `NoOp`, with all `NoOp`s dropped at the end.
pub open spec fn spec_peephole(s: Seq<ThreeAddressInstruction>) -> Seq<ThreeAddressInstruction> {
    remove_noops(peephole_fold(seq![ThreeAddressInstruction::NoOp], s, 0))
}

/// What optimizing a graph yields: each block's instructions coalesced, every
/// label kept.
pub open spec fn spec_optimize(cfg: Seq<BlockModel>) -> Seq<BlockModel> {
    cfg.map_values(|b: BlockModel| BlockModel { label: b.label, instrs: spec_peephole(b.instrs) })
}

/// The subsequence of instructions that transfer control, order kept: the
/// inter-block branching relation of a block.
pub open spec fn branch_sequence(s: Seq<ThreeAddressInstruction>) -> Seq<ThreeAddressInstruction>
    decreases s.len(),
{
    if s.len() == 0 {
        Seq::empty()
    } else if is_branch_instruction(s.last()) {
        branch_sequence(s.drop_last()).push(s.last())
    } else {
        branch_sequence(s.drop_last())
    }
}

// Replaces the last element of a non-empty vector.
fn replace_last(v: &mut Vec<ThreeAddressInstruction>, x: ThreeAddressInstruction)
    requires
        old(v)@.len() > 0,
    ensures
        final(v)@ == old(v)@.update(old(v)@.len() - 1, x),
{
    let n = v.len();
    v[n - 1] = x;
}

/// Performs optimizations within a basic block: runs of adjacent `ChangeVal`s
/// collapse to one (sum modulo 256), runs of adjacent `ChangeAddr`s collapse
/// to one (wrapping sum), and `NoOp`s are removed.
pub fn peephole_optimize(instructions: &Vec<ThreeAddressInstruction>) -> (r: Vec<
    ThreeAddressInstruction,
>)
    ensures
        r@ == spec_peephole(instructions@),
{
    let ghost s = instructions@;
    let mut new_instructions: Vec<ThreeAddressInstruction> = Vec::new();
    new_instructions.push(ThreeAddressInstruction::NoOp);
    proof {
        assert(new_instructions@ =~= seq![ThreeAddressInstruction::NoOp]);
    }

    let n = instructions.len();
    let mut i: usize = 0;
    while i < n
        invariant
            s == instructions@,
            n == s.len(),
            0 <= i <= n,
            new_instructions@.len() > 0,
            peephole_fold(seq![ThreeAddressInstruction::NoOp], s, 0) == peephole_fold(
                new_instructions@,
                s,
                i as int,
            ),
        decreases n - i,
    {
        let instr = instructions[i];
        let last = new_instructions[new_instructions.len() - 1];
        match (last, instr) {
            (ThreeAddressInstruction::ChangeVal(x), ThreeAddressInstruction::ChangeVal(y)) => {
                replace_last(&mut new_instructions, ThreeAddressInstruction::ChangeVal(
                    x.wrapping_add(y),
                ));
            },
            (ThreeAddressInstruction::ChangeAddr(x), ThreeAddressInstruction::ChangeAddr(y)) => {
                replace_last(&mut new_instructions, ThreeAddressInstruction::ChangeAddr(
                    x.wrapping_add(y),
                ));
            },
            (_, instr) => {
                new_instructions.push(instr);
            },
        }
        i = i + 1;
    }

    // Drop the sentinel and any other `NoOp`s.
    let mut result: Vec<ThreeAddressInstruction> = Vec::new();
    let ghost folded = new_instructions@;
    let m = new_instructions.len();
    let mut j: usize = 0;
    while j < m
        invariant
            folded == new_instructions@,
            m == folded.len(),
            0 <= j <= m,
            result@ == remove_noops(folded.take(j as int)),
        decreases m - j,
    {
        let instr = new_instructions[j];
        proof {
            assert(folded.take(j as int + 1).drop_last() =~= folded.take(j as int));
            assert(folded.take(j as int + 1).last() == folded[j as int]);
        }
        match instr {
            ThreeAddressInstruction::NoOp => {},
            _ => {
                result.push(instr);
            },
        }
        j = j + 1;
    }
    proof {
        assert(folded.take(m as int) =~= folded);
    }
    result
}

/// Perform all the optimizations there are: peephole-optimize every block.
/// Block labels, block count, and each block's branching relation are kept
/// exactly; a well-formed graph stays well-formed, and the result carries no
/// `NoOp`.
pub fn optimize(cfg: &ControlFlowGraph) -> (r: ControlFlowGraph)
    ensures
        r@ == spec_optimize(cfg@),
        r@.len() == cfg@.len(),
        forall|i: int| 0 <= i < cfg@.len() ==> (#[trigger] r@[i]).label == cfg@[i].label,
        forall|i: int|
            0 <= i < cfg@.len() ==> branch_sequence((#[trigger] r@[i]).instrs) == branch_sequence(
                cfg@[i].instrs,
            ),
        cfg_well_formed(cfg@) ==> cfg_well_formed(r@),
        cfg_noop_free(r@),
{
    let old_blocks = cfg.blocks();
    let ghost model = cfg@;
    let n = old_blocks.len();
    let mut blocks: Vec<BasicBlock> = Vec::new();
    let ghost view_fn = |b: BasicBlock| b@;

    proof {
        assert(old_blocks@.map_values(view_fn) == model);
        assert(blocks@.map_values(view_fn) =~= Seq::<BlockModel>::empty());
    }

    let mut i: usize = 0;
    while i < n
        invariant
            model == cfg@,
            view_fn == (|b: BasicBlock| b@),
            old_blocks@.map_values(view_fn) == model,
            n == old_blocks@.len(),
            n == model.len(),
            0 <= i <= n,
            blocks@.len() == i,
            blocks@.map_values(view_fn) == spec_optimize(model).take(i as int),
        decreases n - i,
    {
        let ghost pre = blocks@.map_values(view_fn);
        let block = &old_blocks[i];
        let optimized = peephole_optimize(block.instructions());
        blocks.push(BasicBlock::new(block.label(), optimized));
        proof {
            assert(model[i as int] == old_blocks@.map_values(view_fn)[i as int]);
            assert(blocks@.map_values(view_fn) =~= pre.push(
                BlockModel {
                    label: model[i as int].label,
                    instrs: spec_peephole(model[i as int].instrs),
                },
            ));
            assert(blocks@.map_values(view_fn) =~= spec_optimize(model).take(i as int + 1));
        }
        i = i + 1;
    }

    proof {
        assert(spec_optimize(model).take(n as int) =~= spec_optimize(model));
    }
    let r = ControlFlowGraph::new(blocks);
    proof {
        lemma_optimize_shape(model);
        if cfg_well_formed(model) {
            lemma_optimize_well_formed(model);
        }
        assert forall|k: int| 0 <= k < r@.len() implies noop_free((#[trigger] r@[k]).instrs) by {
            lemma_remove_noops_noop_free(
                peephole_fold(seq![ThreeAddressInstruction::NoOp], model[k].instrs, 0),
            );
        }
    }
    r
}

/// Coalescing touches no control transfer: the branches of the accumulator
/// and of the absorbed instructions come out in order.
proof fn lemma_branch_seq_concat(a: Seq<ThreeAddressInstruction>, b: Seq<ThreeAddressInstruction>)
    ensures
        branch_sequence(a + b) == branch_sequence(a) + branch_sequence(b),
    decreases b.len(),
{
    if b.len() == 0 {
        assert(a + b =~= a);
        assert(branch_sequence(a) + branch_sequence(b) =~= branch_sequence(a));
    } else {
        lemma_branch_seq_concat(a, b.drop_last());
        assert((a + b).drop_last() =~= a + b.drop_last());
        assert((a + b).last() == b.last());
        if is_branch_instruction(b.last()) {
            assert(branch_sequence(a) + branch_sequence(b) =~= (branch_sequence(a)
                + branch_sequence(b.drop_last())).push(b.last()));
        }
    }
}

/// One absorbed instruction extends the accumulator's branch subsequence by
/// its own branches.
proof fn lemma_branch_seq_step(acc: Seq<ThreeAddressInstruction>, x: ThreeAddressInstruction)
    requires
        acc.len() > 0,
    ensures
        branch_sequence(peephole_step(acc, x)) == branch_sequence(acc) + branch_sequence(seq![x]),
{
    let stepped = peephole_step(acc, x);
    assert(branch_sequence(seq![x].drop_last()) =~= branch_sequence(Seq::<
        ThreeAddressInstruction,
    >::empty()));
    match (acc.last(), x) {
        (ThreeAddressInstruction::ChangeVal(a), ThreeAddressInstruction::ChangeVal(b)) => {
            assert(stepped.drop_last() =~= acc.drop_last());
            assert(branch_sequence(stepped) =~= branch_sequence(acc) + branch_sequence(seq![x]));
        },
        (ThreeAddressInstruction::ChangeAddr(a), ThreeAddressInstruction::ChangeAddr(b)) => {
            assert(stepped.drop_last() =~= acc.drop_last());
            assert(branch_sequence(stepped) =~= branch_sequence(acc) + branch_sequence(seq![x]));
        },
        _ => {
            assert(stepped == acc.push(x));
            assert(stepped.drop_last() =~= acc);
            if !is_branch_instruction(x) {
                assert(branch_sequence(stepped) =~= branch_sequence(acc) + branch_sequence(
                    seq![x],
                ));
            }
        },
    }
}

/// The fold's branches are the accumulator's followed by the input's.
proof fn lemma_fold_branches(
    acc: Seq<ThreeAddressInstruction>,
    s: Seq<ThreeAddressInstruction>,
    i: int,
)
    requires
        acc.len() > 0,
        0 <= i <= s.len(),
    ensures
        branch_sequence(peephole_fold(acc, s, i)) == branch_sequence(acc) + branch_sequence(
            s.skip(i),
        ),
    decreases s.len() - i,
{
    if i >= s.len() {
        assert(s.skip(i) =~= Seq::<ThreeAddressInstruction>::empty());
        assert(branch_sequence(acc) + branch_sequence(s.skip(i)) =~= branch_sequence(acc));
    } else {
        let acc2 = peephole_step(acc, s[i]);
        assert(acc2.len() > 0);
        lemma_fold_branches(acc2, s, i + 1);
        lemma_branch_seq_step(acc, s[i]);
        lemma_branch_seq_concat(seq![s[i]], s.skip(i + 1));
        assert(seq![s[i]] + s.skip(i + 1) =~= s.skip(i));
        assert(branch_sequence(acc) + branch_sequence(seq![s[i]]) + branch_sequence(s.skip(i + 1))
            =~= branch_sequence(acc) + branch_sequence(s.skip(i)));
    }
}

/// Dropping `NoOp`s drops no branch.
proof fn lemma_remove_noops_branches(s: Seq<ThreeAddressInstruction>)
    ensures
        branch_sequence(remove_noops(s)) == branch_sequence(s),
    decreases s.len(),
{
    if s.len() > 0 {
        lemma_remove_noops_branches(s.drop_last());
        if s.last() != ThreeAddressInstruction::NoOp {
            assert(remove_noops(s.drop_last()).push(s.last()).drop_last() =~= remove_noops(
                s.drop_last(),
            ));
        }
    }
}

/// Coalescing a block keeps its branching relation exactly.
pub proof fn lemma_peephole_preserves_branches(s: Seq<ThreeAddressInstruction>)
    ensures
        branch_sequence(spec_peephole(s)) == branch_sequence(s),
{
    let sentinel = seq![ThreeAddressInstruction::NoOp];
    lemma_fold_branches(sentinel, s, 0);
    lemma_remove_noops_branches(peephole_fold(sentinel, s, 0));
    assert(branch_sequence(sentinel.drop_last()) =~= Seq::<ThreeAddressInstruction>::empty());
    assert(branch_sequence(sentinel) =~= Seq::<ThreeAddressInstruction>::empty());
    assert(s.skip(0) =~= s);
    assert(branch_sequence(sentinel) + branch_sequence(s) =~= branch_sequence(s));
}

/// The labels and branch relations of the optimized graph are the input's.
proof fn lemma_optimize_shape(cfg: Seq<BlockModel>)
    ensures
        spec_optimize(cfg).len() == cfg.len(),
        forall|i: int|
            0 <= i < cfg.len() ==> (#[trigger] spec_optimize(cfg)[i]).label == cfg[i].label,
        forall|i: int|
            0 <= i < cfg.len() ==> branch_sequence((#[trigger] spec_optimize(cfg)[i]).instrs)
                == branch_sequence(cfg[i].instrs),
{
    assert forall|i: int|
        0 <= i < cfg.len() implies branch_sequence((#[trigger] spec_optimize(cfg)[i]).instrs)
        == branch_sequence(cfg[i].instrs) by {
        lemma_peephole_preserves_branches(cfg[i].instrs);
    }
}

/// Through the fold, branch targets stay bounded, control transfers stay at
/// the end, and a final control transfer of the input ends the result.
proof fn lemma_fold_wf(
    acc: Seq<ThreeAddressInstruction>,
    s: Seq<ThreeAddressInstruction>,
    i: int,
    n: int,
)
    requires
        acc.len() > 0,
        0 <= i <= s.len(),
        targets_at_most(acc, n),
        targets_at_most(s, n),
        branch_only_last(s),
        branch_free(acc.drop_last()),
        i < s.len() ==> branch_free(acc),
    ensures
        peephole_fold(acc, s, i).len() > 0,
        targets_at_most(peephole_fold(acc, s, i), n),
        branch_free(peephole_fold(acc, s, i).drop_last()),
        i < s.len() && is_branch_instruction(s.last()) ==> peephole_fold(acc, s, i).last()
            == s.last(),
    decreases s.len() - i,
{
    if i < s.len() {
        let x = s[i];
        let acc2 = peephole_step(acc, x);
        assert(acc2.len() > 0);
        match (acc.last(), x) {
            (ThreeAddressInstruction::ChangeVal(a), ThreeAddressInstruction::ChangeVal(b)) => {
                assert(acc2.drop_last() =~= acc.drop_last());
                assert(targets_at_most(acc2, n));
                assert(i + 1 < s.len() ==> branch_free(acc2));
            },
            (ThreeAddressInstruction::ChangeAddr(a), ThreeAddressInstruction::ChangeAddr(b)) => {
                assert(acc2.drop_last() =~= acc.drop_last());
                assert(targets_at_most(acc2, n));
                assert(i + 1 < s.len() ==> branch_free(acc2));
            },
            _ => {
                assert(acc2 == acc.push(x));
                assert(acc2.drop_last() =~= acc);
                assert(targets_at_most(acc2, n));
                if i + 1 < s.len() {
                    assert(!is_branch_instruction(x));
                    assert(branch_free(acc2));
                }
            },
        }
        lemma_fold_wf(acc2, s, i + 1, n);
        if is_branch_instruction(s.last()) {
            // The final instruction is a control transfer, so the last step
            // appends it: transfers never merge with anything.
            assert(i + 1 <= s.len());
            if i == s.len() - 1 {
                assert(x == s.last());
                assert(acc2.last() == x);
            }
        }
    }
}

/// Dropping `NoOp`s leaves no `NoOp`.
proof fn lemma_remove_noops_noop_free(s: Seq<ThreeAddressInstruction>)
    ensures
        noop_free(remove_noops(s)),
    decreases s.len(),
{
    if s.len() > 0 {
        lemma_remove_noops_noop_free(s.drop_last());
    }
}

/// Dropping `NoOp`s adds no control transfer.
proof fn lemma_remove_noops_branch_free(s: Seq<ThreeAddressInstruction>)
    requires
        branch_free(s),
    ensures
        branch_free(remove_noops(s)),
    decreases s.len(),
{
    if s.len() > 0 {
        assert(branch_free(s.drop_last()));
        lemma_remove_noops_branch_free(s.drop_last());
        if s.last() != ThreeAddressInstruction::NoOp {
            assert(!is_branch_instruction(s.last()));
            assert(branch_free(remove_noops(s.drop_last()).push(s.last())));
        }
    }
}

/// Dropping `NoOp`s keeps every branch target bounded.
proof fn lemma_remove_noops_targets(s: Seq<ThreeAddressInstruction>, n: int)
    requires
        targets_at_most(s, n),
    ensures
        targets_at_most(remove_noops(s), n),
    decreases s.len(),
{
    if s.len() > 0 {
        assert(targets_at_most(s.drop_last(), n));
        lemma_remove_noops_targets(s.drop_last(), n);
        if s.last() != ThreeAddressInstruction::NoOp {
            assert(targets_at_most(remove_noops(s.drop_last()).push(s.last()), n));
        }
    }
}

/// Coalescing a block keeps its targets bounded, keeps control transfers at
/// the end, leaves no `NoOp`, and keeps a final `Terminate`.
pub proof fn lemma_peephole_well_formed(s: Seq<ThreeAddressInstruction>, n: int)
    requires
        branch_only_last(s),
        targets_at_most(s, n),
    ensures
        targets_at_most(spec_peephole(s), n),
        branch_only_last(spec_peephole(s)),
        noop_free(spec_peephole(s)),
        s.len() > 0 && s.last() == ThreeAddressInstruction::Terminate ==> spec_peephole(s).len()
            > 0 && spec_peephole(s).last() == ThreeAddressInstruction::Terminate,
{
    let sentinel = seq![ThreeAddressInstruction::NoOp];
    assert(sentinel.drop_last() =~= Seq::<ThreeAddressInstruction>::empty());
    assert(branch_free(sentinel));
    assert(targets_at_most(sentinel, n));
    lemma_fold_wf(sentinel, s, 0, n);
    let f = peephole_fold(sentinel, s, 0);
    lemma_remove_noops_noop_free(f);
    lemma_remove_noops_targets(f, n);
    let r = remove_noops(f);
    if f.last() == ThreeAddressInstruction::NoOp {
        // Nothing of the input survived past the sentinel's kind: the whole
        // result comes from the branch-free prefix.
        assert(branch_free(f.drop_last()));
        lemma_remove_noops_branch_free(f.drop_last());
        assert(r == remove_noops(f.drop_last()));
        assert(branch_free(r));
        assert(branch_only_last(r));
        if s.len() > 0 && s.last() == ThreeAddressInstruction::Terminate {
            lemma_fold_wf(sentinel, s, 0, n);
            assert(f.last() == ThreeAddressInstruction::Terminate);
            assert(false);
        }
    } else {
        assert(r == remove_noops(f.drop_last()).push(f.last()));
        lemma_remove_noops_branch_free(f.drop_last());
        assert(r.drop_last() =~= remove_noops(f.drop_last()));
        assert(branch_free(r.drop_last()));
        assert(branch_only_last(r));
        if s.len() > 0 && s.last() == ThreeAddressInstruction::Terminate {
            assert(f.last() == ThreeAddressInstruction::Terminate);
            assert(r.last() == ThreeAddressInstruction::Terminate);
        }
    }
}

/// A well-formed graph stays well-formed under optimization, and comes out
/// free of `NoOp`s.
proof fn lemma_optimize_well_formed(cfg: Seq<BlockModel>)
    requires
        cfg_well_formed(cfg),
    ensures
        cfg_well_formed(spec_optimize(cfg)),
        cfg_noop_free(spec_optimize(cfg)),
{
    let r = spec_optimize(cfg);
    assert forall|i: int| 0 <= i < r.len() implies {
        &&& (#[trigger] r[i]).label == i
        &&& branch_only_last(r[i].instrs)
        &&& targets_at_most(r[i].instrs, r.len() - 1)
        &&& noop_free(r[i].instrs)
    } by {
        lemma_peephole_well_formed(cfg[i].instrs, cfg.len() - 1);
    }
    lemma_peephole_well_formed(cfg.last().instrs, cfg.len() - 1);
    assert(r.last() == r[r.len() - 1]);
    assert(r[r.len() - 1].instrs == spec_peephole(cfg[cfg.len() - 1].instrs));
}

/// Whether the coalescing pass would merge `b` into `a`.
pub open spec fn mergeable(a: ThreeAddressInstruction, b: ThreeAddressInstruction) -> bool {
    match (a, b) {
        (ThreeAddressInstruction::ChangeVal(_), ThreeAddressInstruction::ChangeVal(_)) => true,
        (ThreeAddressInstruction::ChangeAddr(_), ThreeAddressInstruction::ChangeAddr(_)) => true,
        _ => false,
    }
}

/// Nothing left to coalesce: no two adjacent instructions merge.
pub open spec fn coalesced(s: Seq<ThreeAddressInstruction>) -> bool {
    forall|j: int| 0 <= j < s.len() - 1 ==> !mergeable(#[trigger] s[j], s[j + 1])
}

/// When the head is the only `NoOp`, dropping `NoOp`s drops exactly the head.
proof fn lemma_remove_noops_skip_head(s: Seq<ThreeAddressInstruction>)
    requires
        s.len() >= 1,
        s[0] == ThreeAddressInstruction::NoOp,
        forall|j: int| 1 <= j < s.len() ==> #[trigger] s[j] != ThreeAddressInstruction::NoOp,
    ensures
        remove_noops(s) == s.skip(1),
    decreases s.len(),
{
    if s.len() == 1 {
        assert(s.last() == ThreeAddressInstruction::NoOp);
        assert(s.drop_last().len() == 0);
        assert(remove_noops(s.drop_last()) == Seq::<ThreeAddressInstruction>::empty());
        assert(s.skip(1) =~= Seq::<ThreeAddressInstruction>::empty());
    } else {
        assert forall|j: int|
            1 <= j < s.drop_last().len() implies #[trigger] s.drop_last()[j]
            != ThreeAddressInstruction::NoOp by {
            assert(s.drop_last()[j] == s[j]);
        }
        lemma_remove_noops_skip_head(s.drop_last());
        assert(s.last() != ThreeAddressInstruction::NoOp);
        assert(remove_noops(s) == remove_noops(s.drop_last()).push(s.last()));
        assert(s.drop_last().skip(1).push(s.last()) =~= s.skip(1));
    }
}

/// For input without `NoOp`s the fold keeps its sentinel head, adds no
/// `NoOp`, and leaves nothing mergeable.
proof fn lemma_fold_coalesced(
    acc: Seq<ThreeAddressInstruction>,
    s: Seq<ThreeAddressInstruction>,
    i: int,
)
    requires
        0 <= i <= s.len(),
        noop_free(s),
        acc.len() >= 1,
        acc[0] == ThreeAddressInstruction::NoOp,
        forall|j: int| 1 <= j < acc.len() ==> #[trigger] acc[j] != ThreeAddressInstruction::NoOp,
        coalesced(acc),
    ensures
        peephole_fold(acc, s, i).len() >= 1,
        peephole_fold(acc, s, i)[0] == ThreeAddressInstruction::NoOp,
        forall|j: int| 1 <= j < peephole_fold(acc, s, i).len() ==> #[trigger] peephole_fold(
            acc,
            s,
            i,
        )[j] != ThreeAddressInstruction::NoOp,
        coalesced(peephole_fold(acc, s, i)),
    decreases s.len() - i,
{
    if i < s.len() {
        let x = s[i];
        let acc2 = peephole_step(acc, x);
        assert(x != ThreeAddressInstruction::NoOp);
        match (acc.last(), x) {
            (ThreeAddressInstruction::ChangeVal(a), ThreeAddressInstruction::ChangeVal(b)) => {
                assert(acc.len() >= 2);
                assert(coalesced(acc2)) by {
                    assert(!mergeable(acc[acc.len() - 2], acc[acc.len() - 1]));
                }
            },
            (ThreeAddressInstruction::ChangeAddr(a), ThreeAddressInstruction::ChangeAddr(b)) => {
                assert(acc.len() >= 2);
                assert(coalesced(acc2)) by {
                    assert(!mergeable(acc[acc.len() - 2], acc[acc.len() - 1]));
                }
            },
            _ => {
                assert(acc2 == acc.push(x));
                assert(coalesced(acc2)) by {
                    assert(!mergeable(acc.last(), x));
                }
            },
        }
        lemma_fold_coalesced(acc2, s, i + 1);
    }
}

/// Coalescing input that has nothing to coalesce and no `NoOp` changes
/// nothing.
proof fn lemma_fold_identity(s: Seq<ThreeAddressInstruction>, i: int)
    requires
        0 <= i <= s.len(),
        noop_free(s),
        coalesced(s),
    ensures
        peephole_fold(seq![ThreeAddressInstruction::NoOp] + s.take(i), s, i) == seq![
            ThreeAddressInstruction::NoOp,
        ] + s,
    decreases s.len() - i,
{
    let acc = seq![ThreeAddressInstruction::NoOp] + s.take(i);
    if i >= s.len() {
        assert(acc =~= seq![ThreeAddressInstruction::NoOp] + s);
    } else {
        let x = s[i];
        if i == 0 {
            assert(acc =~= seq![ThreeAddressInstruction::NoOp]);
            assert(acc.last() == ThreeAddressInstruction::NoOp);
            assert(!mergeable(acc.last(), x));
        } else {
            assert(acc.last() == s[i - 1]);
            assert(!mergeable(s[i - 1], s[i]));
        }
        let acc2 = peephole_step(acc, x);
        assert(acc2 == acc.push(x));
        assert(acc2 =~= seq![ThreeAddressInstruction::NoOp] + s.take(i + 1));
        lemma_fold_identity(s, i + 1);
    }
}

/// Coalescing a block twice is the same as coalescing it once, provided the
/// block carries no `NoOp`: the first pass leaves nothing mergeable.
pub proof fn lemma_peephole_idempotent(s: Seq<ThreeAddressInstruction>)
    requires
        noop_free(s),
    ensures
        spec_peephole(spec_peephole(s)) == spec_peephole(s),
{
    let sentinel = seq![ThreeAddressInstruction::NoOp];
    let f = peephole_fold(sentinel, s, 0);
    lemma_fold_coalesced(sentinel, s, 0);
    lemma_remove_noops_skip_head(f);
    let r = remove_noops(f);
    assert(r == f.skip(1));
    assert(noop_free(r)) by {
        assert(forall|j: int| 0 <= j < r.len() ==> #[trigger] r[j] == f[j + 1]);
    }
    assert(coalesced(r)) by {
        assert(forall|j: int| 0 <= j < r.len() ==> #[trigger] r[j] == f[j + 1]);
    }
    lemma_fold_identity(r, 0);
    assert(sentinel + r.take(0) =~= sentinel);
    assert(peephole_fold(sentinel, r, 0) == sentinel + r);
    lemma_remove_noops_skip_head(sentinel + r);
    assert((sentinel + r).skip(1) =~= r);
}

/// Optimizing twice is the same as optimizing once, for a graph that carries
/// no `NoOp` (as every lowered graph does).
pub proof fn lemma_optimize_idempotent(cfg: Seq<BlockModel>)
    requires
        cfg_noop_free(cfg),
    ensures
        spec_optimize(spec_optimize(cfg)) == spec_optimize(cfg),
{
    let once = spec_optimize(cfg);
    let twice = spec_optimize(once);
    assert forall|i: int| 0 <= i < cfg.len() implies #[trigger] twice[i] == once[i] by {
        lemma_peephole_idempotent(cfg[i].instrs);
    }
    assert(twice =~= once);
}

/// The delta of a value-change instruction; zero for anything else.
pub open spec fn change_val_delta(x: ThreeAddressInstruction) -> u8 {
    match x {
        ThreeAddressInstruction::ChangeVal(v) => v,
        _ => 0,
    }
}

/// The sum, modulo 256, of the deltas of the first `i` instructions.
pub open spec fn change_val_sum(s: Seq<ThreeAddressInstruction>, i: int) -> u8
    decreases i,
{
    if i <= 0 {
        0
    } else {
        vstd::wrapping::u8_specs::wrapping_add(change_val_sum(s, i - 1), change_val_delta(s[i - 1]))
    }
}

/// Once the accumulator holds a single running value change, every further
/// value change merges into it.
proof fn lemma_fold_change_vals(s: Seq<ThreeAddressInstruction>, i: int)
    requires
        1 <= i <= s.len(),
        forall|j: int| 0 <= j < s.len() ==> (#[trigger] s[j]) matches
            ThreeAddressInstruction::ChangeVal(_),
    ensures
        peephole_fold(
            seq![
                ThreeAddressInstruction::NoOp,
                ThreeAddressInstruction::ChangeVal(change_val_sum(s, i)),
            ],
            s,
            i,
        ) == seq![
            ThreeAddressInstruction::NoOp,
            ThreeAddressInstruction::ChangeVal(change_val_sum(s, s.len() as int)),
        ],
    decreases s.len() - i,
{
    let acc = seq![
        ThreeAddressInstruction::NoOp,
        ThreeAddressInstruction::ChangeVal(change_val_sum(s, i)),
    ];
    if i < s.len() {
        assert(s[i] matches ThreeAddressInstruction::ChangeVal(_));
        let d = change_val_delta(s[i]);
        let acc2 = peephole_step(acc, s[i]);
        assert(acc2 =~= seq![
            ThreeAddressInstruction::NoOp,
            ThreeAddressInstruction::ChangeVal(change_val_sum(s, i + 1)),
        ]);
        lemma_fold_change_vals(s, i + 1);
    }
}

/// A block of only value changes collapses to at most one `ChangeVal`, whose
/// delta is the sum of the deltas modulo 256.
pub proof fn lemma_peephole_coalesces_change_vals(s: Seq<ThreeAddressInstruction>)
    requires
        forall|j: int| 0 <= j < s.len() ==> (#[trigger] s[j]) matches
            ThreeAddressInstruction::ChangeVal(_),
    ensures
        spec_peephole(s) == if s.len() == 0 {
            Seq::<ThreeAddressInstruction>::empty()
        } else {
            seq![ThreeAddressInstruction::ChangeVal(change_val_sum(s, s.len() as int))]
        },
{
    let sentinel = seq![ThreeAddressInstruction::NoOp];
    if s.len() == 0 {
        assert(peephole_fold(sentinel, s, 0) == sentinel);
        assert(remove_noops(sentinel.drop_last()) =~= Seq::<ThreeAddressInstruction>::empty());
        assert(spec_peephole(s) =~= Seq::<ThreeAddressInstruction>::empty());
    } else {
        assert(s[0] matches ThreeAddressInstruction::ChangeVal(_));
        let acc1 = peephole_step(sentinel, s[0]);
        assert(acc1 == sentinel.push(s[0]));
        assert(change_val_sum(s, 0) == 0);
        assert(change_val_sum(s, 1) == vstd::wrapping::u8_specs::wrapping_add(
            0u8,
            change_val_delta(s[0]),
        ));
        assert(change_val_sum(s, 1) == change_val_delta(s[0]));
        assert(acc1 =~= seq![
            ThreeAddressInstruction::NoOp,
            ThreeAddressInstruction::ChangeVal(change_val_sum(s, 1)),
        ]);
        lemma_fold_change_vals(s, 1);
        let f = peephole_fold(sentinel, s, 0);
        assert(f == seq![
            ThreeAddressInstruction::NoOp,
            ThreeAddressInstruction::ChangeVal(change_val_sum(s, s.len() as int)),
        ]);
        lemma_remove_noops_skip_head(f);
        assert(f.skip(1) =~= seq![
            ThreeAddressInstruction::ChangeVal(change_val_sum(s, s.len() as int)),
        ]);
    }
}

} // verus!
