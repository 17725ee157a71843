//! Assembler for ARM AArch64: encodes a small subset of the A64 instruction
//! set as 32-bit little-endian words, with symbolic labels and two-pass
//! branch patching.

use vstd::prelude::*;

verus! {

/// Reference to a 64-bit register.
#[derive(Debug, Clone, Copy, PartialEq, Eq, Structural)]
pub struct X(pub u8);

/// Reference to the low 32 bits of a register.
#[derive(Debug, Clone, Copy, PartialEq, Eq, Structural)]
pub struct W(pub u8);

/// A signed immediate of a declared bit width; encoding keeps only the bits
/// that contribute to the field.
#[derive(Debug, Clone, Copy, PartialEq, Eq, Structural)]
pub struct Imm(pub u8, pub i32);

/// An unsigned immediate of a declared bit width; the value must fit the
/// field.
#[derive(Debug, Clone, Copy, PartialEq, Eq, Structural)]
pub struct Umm(pub u8, pub u32);

impl X {
    /// This register number placed at bits `lo..=hi`, a five-bit field.
    pub fn at(self, lo: u32, hi: u32) -> (r: u32)
        requires
            self.0 < 32,
            lo <= hi <= 31,
            hi - lo + 1 == 5,
        ensures
            r == if lo == 0 {
                self.0 as u32
            } else {
                (self.0 as u32) << lo
            },
    {
        let v = self.0 as u32;
        if lo == 0 {
            v
        } else {
            v << lo
        }
    }
}

impl W {
    /// This register number placed at bits `lo..=hi`, a five-bit field.
    pub fn at(self, lo: u32, hi: u32) -> (r: u32)
        requires
            self.0 < 32,
            lo <= hi <= 31,
            hi - lo + 1 == 5,
        ensures
            r == if lo == 0 {
                self.0 as u32
            } else {
                (self.0 as u32) << lo
            },
    {
        let v = self.0 as u32;
        if lo == 0 {
            v
        } else {
            v << lo
        }
    }
}

impl Imm {
    /// The bits of this value that contribute to a field at `lo..=hi`, whose
    /// width must equal the immediate's declared width.
    pub fn at(self, lo: u32, hi: u32) -> (r: u32)
        requires
            lo <= hi <= 31,
            hi - lo + 1 == self.0,
        ensures
            r == if lo == 0 {
                (self.1 as u32) & low_mask((hi - lo + 1) as u32)
            } else {
                ((self.1 as u32) & low_mask((hi - lo + 1) as u32)) << lo
            },
    {
        let masked = (self.1 as u32) & field_mask(hi - lo + 1);
        if lo == 0 {
            masked
        } else {
            masked << lo
        }
    }
}

impl Umm {
    /// This value placed at bits `lo..=hi`; it must fit the field, whose
    /// width must equal the immediate's declared width.
    pub fn at(self, lo: u32, hi: u32) -> (r: u32)
        requires
            lo <= hi <= 31,
            hi - lo + 1 == self.0,
        ensures
            r == if lo == 0 {
                self.1
            } else {
                self.1 << lo
            },
    {
        if lo == 0 {
            self.1
        } else {
            self.1 << lo
        }
    }
}

/// The mask of ones for each field width the assembler uses.
fn field_mask(width: u32) -> (r: u32)
    ensures
        r == low_mask(width),
{
    if width == 19 {
        0x7FFFF
    } else if width == 26 {
        0x3FF_FFFF
    } else if width == 12 {
        0xFFF
    } else if width == 7 {
        0x7F
    } else {
        0
    }
}

/// A branch label in the assembly.
#[derive(Debug, Clone, Copy, Hash, PartialEq, Eq, Structural)]
pub struct Label(pub usize);

/// A 4-byte-aligned position in the instruction buffer, counted in words.
#[derive(Debug, Clone, Copy, PartialEq, Eq, Structural)]
pub struct WordOffset(i32);

impl View for WordOffset {
    type V = int;

    closed spec fn view(&self) -> int {
        self.0 as int
    }
}

impl WordOffset {
    /// The word offset for a byte offset, which must be 4-byte aligned.
    pub fn from_byte_offset(n_bytes: usize) -> (r: WordOffset)
        requires
            n_bytes % 4 == 0,
            n_bytes / 4 <= 0x7FFF_FFFF,
        ensures
            r@ == n_bytes / 4,
    {
        WordOffset((n_bytes / 4) as i32)
    }

    /// The byte offset back from a non-negative word offset.
    pub fn to_usize(self) -> (r: usize)
        requires
            self@ >= 0,
            self@ * 4 <= usize::MAX,
        ensures
            r == self@ * 4,
    {
        let WordOffset(words) = self;
        (words as usize) * 4
    }

    /// The signed word distance from `other` to `self`.
    pub fn sub(self, other: WordOffset) -> (r: WordOffset)
        requires
            i32::MIN <= self@ - other@ <= i32::MAX,
        ensures
            r@ == self@ - other@,
    {
        let WordOffset(a) = self;
        let WordOffset(b) = other;
        WordOffset(a - b)
    }
}

/// The kinds of branch emitted before their target is known.
#[derive(Debug, Clone, Copy, PartialEq, Eq, Structural)]
pub enum IncompleteInstruction {
    Cbz,
    B,
}

/// A branch emitted with a zeroed target field: where it stands, what kind it
/// is, and which label it waits for.
#[derive(Debug, Clone, Copy)]
pub struct PendingBranch {
    site: WordOffset,
    kind: IncompleteInstruction,
    label: Label,
}

/// The mathematical content of a [PendingBranch].
pub struct PendingModel {
    pub site: int,
    pub kind: IncompleteInstruction,
    pub label: int,
}

impl View for PendingBranch {
    type V = PendingModel;

    closed spec fn view(&self) -> PendingModel {
        PendingModel { site: self.site@, kind: self.kind, label: self.label.0 as int }
    }
}

/// The mathematical content of the assembler: the words emitted so far, the
/// resolved target of each label, and the branches not yet resolved.
pub struct AsmModel {
    pub words: Seq<u32>,
    pub targets: Seq<Option<u32>>,
    pub pending: Seq<PendingModel>,
}

/// Generates ARM AArch64 machine code.
pub struct AArch64Assembly {
    instr: Vec<u32>,
    label_targets: Vec<Option<u32>>,
    unresolved_branch_targets: Vec<PendingBranch>,
}

impl View for AArch64Assembly {
    type V = AsmModel;

    closed spec fn view(&self) -> AsmModel {
        AsmModel {
            words: self.instr@,
            targets: self.label_targets@,
            pending: self.unresolved_branch_targets@.map_values(|p: PendingBranch| p@),
        }
    }
}

/// The largest instruction buffer the assembler accepts, in words.
pub const MAX_WORDS: usize = 0x0FFF_FFFF;

/// The assembler's invariant: the buffer is bounded, every pending site names
/// an emitted word, sites grow strictly, and every resolved target points at
/// or before the end of the buffer.
pub open spec fn asm_wf(m: AsmModel) -> bool {
    &&& m.words.len() <= MAX_WORDS
    &&& m.targets.len() <= MAX_WORDS
    &&& forall|k: int|
        0 <= k < m.pending.len() ==> 0 <= (#[trigger] m.pending[k]).site < m.words.len()
    &&& forall|k1: int, k2: int|
        0 <= k1 < k2 < m.pending.len() ==> (#[trigger] m.pending[k1]).site < (
        #[trigger] m.pending[k2]).site
    &&& forall|l: int|
        0 <= l < m.targets.len() ==> ((#[trigger] m.targets[l]) matches Some(t) ==> t
            <= m.words.len())
}

/// The low `width` bits of a two's-complement value.
pub open spec fn low_bits(v: i32, width: u32) -> u32 {
    (v as u32) & (low_mask(width))
}

/// A mask of `width` one bits.
pub open spec fn low_mask(width: u32) -> u32 {
    if width == 19 {
        0x7FFFF
    } else if width == 26 {
        0x3FF_FFFF
    } else if width == 12 {
        0xFFF
    } else if width == 7 {
        0x7F
    } else {
        0
    }
}

/// A value that fits seven bits is unchanged by the seven-bit mask.
proof fn lemma_small_field_masked(x: u32)
    by (bit_vector)
    requires
        x < 128,
    ensures
        x & 0x7F == x,
{
}

/// The bits a resolved `cbz` gains: a 19-bit word displacement at bits 5-23.
pub open spec fn enc_cbz_disp(d: i32) -> u32 {
    low_bits(d, 19) << 5
}

/// The bits a resolved `b` gains: a 26-bit word displacement at bits 0-25.
pub open spec fn enc_b_disp(d: i32) -> u32 {
    low_bits(d, 26)
}

/// Within the 19-bit signed range, a `cbz` displacement is read back
/// exactly from its field: the encoding loses nothing.
pub proof fn lemma_cbz_displacement_exact(d: i32)
    by (bit_vector)
    requires
        -0x40000 <= d < 0x40000,
    ensures
        (enc_cbz_disp(d) >> 5) & 0x7FFFF == if d >= 0 {
            d as u32
        } else {
            (d + 0x80000) as u32
        },
{
}

/// Within the 26-bit signed range, a `b` displacement is read back exactly
/// from its field: the encoding loses nothing.
pub proof fn lemma_b_displacement_exact(d: i32)
    by (bit_vector)
    requires
        -0x200_0000 <= d < 0x200_0000,
    ensures
        enc_b_disp(d) & 0x3FF_FFFF == if d >= 0 {
            d as u32
        } else {
            (d + 0x400_0000) as u32
        },
{
}

/// `cbz wt, <unresolved>`: the base word before the displacement is known.
pub open spec fn enc_cbz_base(rt: u8) -> u32 {
    0x34000000u32 | (rt as u32)
}

/// `b <unresolved>`: the base word before the displacement is known.
pub open spec fn enc_b_base() -> u32 {
    0x14000000u32
}

/// `blr xn`.
pub open spec fn enc_blr(rn: u8) -> u32 {
    0xD63F0000u32 | ((rn as u32) << 5)
}

/// `ret x30`.
pub open spec fn enc_ret() -> u32 {
    0xD65F0000u32 | (30u32 << 5)
}

/// `strb wt, [xn, #offset]` with the byte offset's low 3 bits dropped.
pub open spec fn enc_strb(wt: u8, xn: u8, offset: u16) -> u32 {
    0x39000000u32 | (wt as u32) | ((xn as u32) << 5) | ((((offset as u32) >> 3) & 0xFFF) << 10)
}

/// `ldrb wt, [xn, #offset]` with the byte offset's low 3 bits dropped.
pub open spec fn enc_ldrb(wt: u8, xn: u8, offset: u16) -> u32 {
    0x39400000u32 | (wt as u32) | ((xn as u32) << 5) | ((((offset as u32) >> 3) & 0xFFF) << 10)
}

/// `str xt, [xn, #offset]`, offset scaled to doublewords.
pub open spec fn enc_str_imm(rt: u8, rn: u8, offset: u16) -> u32 {
    0xF9000000u32 | (rt as u32) | ((rn as u32) << 5) | ((((offset as u32) >> 3) & 0xFFF) << 10)
}

/// `ldr xt, [xn, #offset]`, offset scaled to doublewords.
pub open spec fn enc_ldr_imm(rt: u8, rn: u8, offset: i16) -> u32 {
    0xF9400000u32 | (rt as u32) | ((rn as u32) << 5) | ((((offset as u32) >> 3) & 0xFFF) << 10)
}

/// The 7-bit two's-complement doubleword count for a pair-instruction offset.
pub open spec fn pair_imm7(imm: i16) -> u32 {
    if imm >= 0 {
        (imm / 8) as u32
    } else {
        ((imm / 8) + 128) as u32
    }
}

/// `stp rt, rt2, [rn, #imm]`.
pub open spec fn enc_stp_offset(rt: u8, rt2: u8, rn: u8, imm: i16) -> u32 {
    0xA9000000u32 | (rt as u32) | ((rn as u32) << 5) | ((rt2 as u32) << 10) | (pair_imm7(imm)
        << 15)
}

/// `ldp rt, rt2, [rn, #imm]`.
pub open spec fn enc_ldp_offset(rt: u8, rt2: u8, rn: u8, imm: i16) -> u32 {
    0xA9400000u32 | (rt as u32) | ((rn as u32) << 5) | ((rt2 as u32) << 10) | (pair_imm7(imm)
        << 15)
}

/// `ldp rt, rt2, [rn], #imm` (post-index).
pub open spec fn enc_ldp_postindex(rt: u8, rt2: u8, rn: u8, imm: i16) -> u32 {
    0xA8C00000u32 | (rt as u32) | ((rn as u32) << 5) | ((rt2 as u32) << 10) | (pair_imm7(imm)
        << 15)
}

/// `stp rt, rt2, [rn, #imm]!` (pre-index).
pub open spec fn enc_stp_preindex(rt: u8, rt2: u8, rn: u8, imm: i16) -> u32 {
    0xA9800000u32 | (rt as u32) | ((rn as u32) << 5) | ((rt2 as u32) << 10) | (pair_imm7(imm)
        << 15)
}

/// `add wd, wn, #imm` (32-bit).
pub open spec fn enc_add(wd: u8, wn: u8, imm: u16) -> u32 {
    0x11000000u32 | (((imm as u32) & 0xFFF) << 10) | ((wn as u32) << 5) | (wd as u32)
}

/// `add xd, xn, #imm` (64-bit).
pub open spec fn enc_add64(xd: u8, xn: u8, imm: u16) -> u32 {
    0x91000000u32 | (((imm as u32) & 0xFFF) << 10) | ((xn as u32) << 5) | (xd as u32)
}

/// `sub wd, wn, #imm` (32-bit).
pub open spec fn enc_sub(wd: u8, wn: u8, imm: u16) -> u32 {
    0x51000000u32 | (((imm as u32) & 0xFFF) << 10) | ((wn as u32) << 5) | (wd as u32)
}

/// `sub xd, xn, #imm` (64-bit).
pub open spec fn enc_sub64(xd: u8, xn: u8, imm: u16) -> u32 {
    0xD1000000u32 | (((imm as u32) & 0xFFF) << 10) | ((xn as u32) << 5) | (xd as u32)
}

/// `mov rd, rm` (an alias of `orr rd, xzr, rm`).
pub open spec fn enc_mov(rd: u8, rm: u8) -> u32 {
    0xAA000000u32 | ((rm as u32) << 16) | (31u32 << 5) | (rd as u32)
}

/// The bits a pending branch gains when resolved to a displacement of `d`
/// words.
pub open spec fn patch_bits(kind: IncompleteInstruction, d: int) -> u32 {
    match kind {
        IncompleteInstruction::Cbz => enc_cbz_disp(d as i32),
        IncompleteInstruction::B => enc_b_disp(d as i32),
    }
}

/// The instruction buffer serialized as little-endian bytes, one word after
/// another.
pub open spec fn le_bytes_of_words(words: Seq<u32>) -> Seq<u8>
    decreases words.len(),
{
    if words.len() == 0 {
        Seq::empty()
    } else {
        let w = words.last();
        le_bytes_of_words(words.drop_last()) + seq![
            (w & 0xFF) as u8,
            ((w >> 8) & 0xFF) as u8,
            ((w >> 16) & 0xFF) as u8,
            ((w >> 24) & 0xFF) as u8,
        ]
    }
}

impl AArch64Assembly {
    /// A fresh assembler: no words, no labels, no pending branches.
    pub fn new() -> (r: Self)
        ensures
            r@.words == Seq::<u32>::empty(),
            r@.targets == Seq::<Option<u32>>::empty(),
            r@.pending == Seq::<PendingModel>::empty(),
            asm_wf(r@),
    {
        let r = AArch64Assembly {
            instr: Vec::new(),
            label_targets: Vec::new(),
            unresolved_branch_targets: Vec::new(),
        };
        proof {
            assert(r@.pending =~= Seq::<PendingModel>::empty());
        }
        r
    }

    /// Call this before the first instruction of the desired label: records
    /// the current write position as the label's target.
    pub fn set_label_target(&mut self, label: Label)
        requires
            asm_wf(old(self)@),
            label.0 < MAX_WORDS,
        ensures
            asm_wf(final(self)@),
            final(self)@.words == old(self)@.words,
            final(self)@.pending == old(self)@.pending,
            final(self)@.targets.len() == if label.0 < old(self)@.targets.len() {
                old(self)@.targets.len() as int
            } else {
                label.0 + 1
            },
            final(self)@.targets[label.0 as int] == Some(old(self)@.words.len() as u32),
            forall|l: int|
                0 <= l < final(self)@.targets.len() && l != label.0
                    ==> #[trigger] final(self)@.targets[l] == if l < old(self)@.targets.len() {
                    old(self)@.targets[l]
                } else {
                    None::<u32>
                },
    {
        while self.label_targets.len() <= label.0
            invariant
                label.0 < MAX_WORDS,
                self.label_targets@.len() <= if old(self).label_targets@.len() > label.0 {
                    old(self).label_targets@.len() as int
                } else {
                    label.0 + 1
                },
                self.instr@ == old(self).instr@,
                self.unresolved_branch_targets@ == old(self).unresolved_branch_targets@,
                forall|l: int|
                    0 <= l < self.label_targets@.len() ==> #[trigger] self.label_targets@[l] == if l
                        < old(self).label_targets@.len() {
                        old(self).label_targets@[l]
                    } else {
                        None::<u32>
                    },
                old(self).label_targets@.len() <= self.label_targets@.len(),
            decreases label.0 + 1 - self.label_targets@.len(),
        {
            self.label_targets.push(None);
        }
        let offset = self.instr.len() as u32;
        self.label_targets[label.0] = Some(offset);
    }

    // The private emission helpers.

    fn emit(&mut self, instruction: u32)
        requires
            asm_wf(old(self)@),
            old(self)@.words.len() < MAX_WORDS,
        ensures
            asm_wf(final(self)@),
            final(self)@.words == old(self)@.words.push(instruction),
            final(self)@.targets == old(self)@.targets,
            final(self)@.pending == old(self)@.pending,
    {
        self.instr.push(instruction);
    }

    fn emit_incomplete_branch(
        &mut self,
        label: Label,
        which: IncompleteInstruction,
        partial_instruction: u32,
    )
        requires
            asm_wf(old(self)@),
            old(self)@.words.len() < MAX_WORDS,
        ensures
            asm_wf(final(self)@),
            final(self)@.words == old(self)@.words.push(partial_instruction),
            final(self)@.targets == old(self)@.targets,
            final(self)@.pending == old(self)@.pending.push(
                PendingModel {
                    site: old(self)@.words.len() as int,
                    kind: which,
                    label: label.0 as int,
                },
            ),
    {
        // The site must be taken before the instruction is emitted.
        let offset = WordOffset(self.instr.len() as i32);
        let ghost pre_pending = self@.pending;
        self.instr.push(partial_instruction);
        self.unresolved_branch_targets.push(PendingBranch { site: offset, kind: which, label });
        proof {
            assert(self@.pending =~= pre_pending.push(
                PendingModel {
                    site: old(self)@.words.len() as int,
                    kind: which,
                    label: label.0 as int,
                },
            ));
        }
    }

    fn get_instruction(&self, offset: WordOffset) -> (r: u32)
        requires
            0 <= offset@ < self@.words.len(),
        ensures
            r == self@.words[offset@],
    {
        let WordOffset(words) = offset;
        self.instr[words as usize]
    }

    fn set_instruction(&mut self, offset: WordOffset, instr: u32)
        requires
            0 <= offset@ < old(self)@.words.len(),
        ensures
            final(self)@.words == old(self)@.words.update(offset@, instr),
            final(self)@.targets == old(self)@.targets,
            final(self)@.pending == old(self)@.pending,
    {
        let WordOffset(words) = offset;
        self.instr[words as usize] = instr;
    }

    /// Returns the machine code as little-endian bytes. All branches must
    /// have been resolved first.
    pub fn machine_code(&self) -> (r: Vec<u8>)
        requires
            self@.pending.len() == 0,
            self@.words.len() <= MAX_WORDS,
        ensures
            r@ == le_bytes_of_words(self@.words),
    {
        let mut out: Vec<u8> = Vec::new();
        let n = self.instr.len();
        let mut i: usize = 0;
        while i < n
            invariant
                n == self.instr@.len(),
                n <= MAX_WORDS,
                0 <= i <= n,
                out@ == le_bytes_of_words(self.instr@.take(i as int)),
            decreases n - i,
        {
            let w = self.instr[i];
            out.push((w & 0xFF) as u8);
            out.push(((w >> 8) & 0xFF) as u8);
            out.push(((w >> 16) & 0xFF) as u8);
            out.push(((w >> 24) & 0xFF) as u8);
            proof {
                let pre = self.instr@.take(i as int);
                let post = self.instr@.take(i as int + 1);
                assert(post.drop_last() =~= pre);
                assert(post.last() == self.instr@[i as int]);
                assert(out@ =~= le_bytes_of_words(pre) + seq![
                    (w & 0xFF) as u8,
                    ((w >> 8) & 0xFF) as u8,
                    ((w >> 16) & 0xFF) as u8,
                    ((w >> 24) & 0xFF) as u8,
                ]);
            }
            i = i + 1;
        }
        proof {
            assert(self.instr@.take(n as int) =~= self.instr@);
        }
        out
    }

    /// Resolves every pending branch: each branch word gains the
    /// two's-complement encoding of `target − site`, in words, in its
    /// kind's displacement field, and the pending list comes out empty.
    pub fn patch_branch_targets(&mut self)
        requires
            asm_wf(old(self)@),
            forall|k: int|
                0 <= k < old(self)@.pending.len() ==> 0 <= (#[trigger] old(self)@.pending[k]).label
                    < old(self)@.targets.len() && old(self)@.targets[old(
                    self,
                )@.pending[k].label] is Some,
        ensures
            asm_wf(final(self)@),
            final(self)@.pending.len() == 0,
            final(self)@.targets == old(self)@.targets,
            final(self)@.words.len() == old(self)@.words.len(),
            forall|k: int|
                0 <= k < old(self)@.pending.len() ==> {
                    let p = #[trigger] old(self)@.pending[k];
                    final(self)@.words[p.site] == old(self)@.words[p.site] | patch_bits(
                        p.kind,
                        old(self)@.targets[p.label].unwrap() - p.site,
                    )
                },
            forall|w: int|
                0 <= w < old(self)@.words.len() && (forall|k: int|
                    0 <= k < old(self)@.pending.len() ==> (#[trigger] old(self)@.pending[k]).site
                        != w) ==> final(self)@.words[w] == old(self)@.words[w],
    {
        let ghost pre = old(self)@;
        let num = self.unresolved_branch_targets.len();
        let mut k: usize = 0;
        while k < num
            invariant
                asm_wf(pre),
                num == pre.pending.len(),
                0 <= k <= num,
                self@.targets == pre.targets,
                self@.pending == pre.pending,
                self@.words.len() == pre.words.len(),
                forall|k2: int|
                    0 <= k2 < pre.pending.len() ==> 0 <= (#[trigger] pre.pending[k2]).label
                        < pre.targets.len() && pre.targets[pre.pending[k2].label] is Some,
                forall|k2: int|
                    0 <= k2 < k ==> {
                        let p = #[trigger] pre.pending[k2];
                        self@.words[p.site] == pre.words[p.site] | patch_bits(
                            p.kind,
                            pre.targets[p.label].unwrap() - p.site,
                        )
                    },
                forall|w: int|
                    0 <= w < pre.words.len() && (forall|k2: int|
                        0 <= k2 < k ==> (#[trigger] pre.pending[k2]).site != w) ==> self@.words[w]
                        == pre.words[w],
            decreases num - k,
        {
            let entry = self.unresolved_branch_targets[k];
            let source = entry.site;
            let instr_kind = entry.kind;
            let label = entry.label;

            let target_opt = self.label_targets[label.0];
            let target = match target_opt {
                Some(t) => t,
                None => vstd::pervasive::unreached(),
            };

            let incomplete = self.get_instruction(source);
            let offset = WordOffset(target as i32).sub(source);

            let missing_bits = match instr_kind {
                IncompleteInstruction::Cbz => Self::patch_cbz(offset),
                IncompleteInstruction::B => Self::patch_b(offset),
            };

            let complete = incomplete | missing_bits;
            self.set_instruction(source, complete);
            proof {
                // Earlier patches stand at strictly smaller sites, so this
                // write touched none of them.
                assert(self@.words[entry@.site] == pre.words[entry@.site] | patch_bits(
                    entry@.kind,
                    pre.targets[entry@.label].unwrap() - entry@.site,
                ));
                assert forall|k2: int| 0 <= k2 < k + 1 implies {
                    let p = #[trigger] pre.pending[k2];
                    self@.words[p.site] == pre.words[p.site] | patch_bits(
                        p.kind,
                        pre.targets[p.label].unwrap() - p.site,
                    )
                } by {
                    if k2 < k {
                        assert(pre.pending[k2].site < pre.pending[k as int].site);
                    }
                }
            }
            k = k + 1;
        }

        self.unresolved_branch_targets.clear();
        proof {
            assert(self@.pending =~= Seq::<PendingModel>::empty());
        }
    }

    fn patch_cbz(offset: WordOffset) -> (r: u32)
        ensures
            r == enc_cbz_disp(offset@ as i32),
    {
        let WordOffset(imm) = offset;
        Imm(19, imm).at(5, 23)
    }

    fn patch_b(offset: WordOffset) -> (r: u32)
        ensures
            r == enc_b_disp(offset@ as i32),
    {
        let WordOffset(imm) = offset;
        Imm(26, imm).at(0, 25)
    }

    // Branch, exception generation, and system instructions.

    /// Compare register and branch if zero; the target is resolved later.
    pub fn cbz(&mut self, rt: W, label: Label)
        requires
            asm_wf(old(self)@),
            old(self)@.words.len() < MAX_WORDS,
            rt.0 < 32,
        ensures
            asm_wf(final(self)@),
            final(self)@.words == old(self)@.words.push(enc_cbz_base(rt.0)),
            final(self)@.targets == old(self)@.targets,
            final(self)@.pending == old(self)@.pending.push(
                PendingModel {
                    site: old(self)@.words.len() as int,
                    kind: IncompleteInstruction::Cbz,
                    label: label.0 as int,
                },
            ),
    {
        let base: u32 = 0x34000000;
        self.emit_incomplete_branch(label, IncompleteInstruction::Cbz, base | rt.at(0, 4));
    }

    /// Unconditional branch; the target is resolved later.
    pub fn b(&mut self, label: Label)
        requires
            asm_wf(old(self)@),
            old(self)@.words.len() < MAX_WORDS,
        ensures
            asm_wf(final(self)@),
            final(self)@.words == old(self)@.words.push(enc_b_base()),
            final(self)@.targets == old(self)@.targets,
            final(self)@.pending == old(self)@.pending.push(
                PendingModel {
                    site: old(self)@.words.len() as int,
                    kind: IncompleteInstruction::B,
                    label: label.0 as int,
                },
            ),
    {
        let base: u32 = 0x14000000;
        self.emit_incomplete_branch(label, IncompleteInstruction::B, base);
    }

    /// Branch and link to register.
    pub fn blr(&mut self, rn: X)
        requires
            asm_wf(old(self)@),
            old(self)@.words.len() < MAX_WORDS,
            rn.0 < 32,
        ensures
            asm_wf(final(self)@),
            final(self)@.words == old(self)@.words.push(enc_blr(rn.0)),
            final(self)@.targets == old(self)@.targets,
            final(self)@.pending == old(self)@.pending,
    {
        let base: u32 = 0xD63F0000;
        self.emit(base | rn.at(5, 9));
    }

    /// Return from subroutine.
    pub fn ret(&mut self)
        requires
            asm_wf(old(self)@),
            old(self)@.words.len() < MAX_WORDS,
        ensures
            asm_wf(final(self)@),
            final(self)@.words == old(self)@.words.push(enc_ret()),
            final(self)@.targets == old(self)@.targets,
            final(self)@.pending == old(self)@.pending,
    {
        let base: u32 = 0xD65F0000;
        self.emit(base | X(30).at(5, 9));
    }

    // Loads and stores.

    /// Store register byte with unsigned immediate offset.
    pub fn strb(&mut self, wt: W, xn: X, offset: u16)
        requires
            asm_wf(old(self)@),
            old(self)@.words.len() < MAX_WORDS,
            wt.0 < 32,
            xn.0 < 32,
        ensures
            asm_wf(final(self)@),
            final(self)@.words == old(self)@.words.push(enc_strb(wt.0, xn.0, offset)),
            final(self)@.targets == old(self)@.targets,
            final(self)@.pending == old(self)@.pending,
    {
        let base: u32 = 0x39000000;
        // The byte offset's low 3 bits are implied zero.
        let dword_aligned_offset = ((offset as u32) >> 3) as i32;
        self.emit(base | wt.at(0, 4) | xn.at(5, 9) | Imm(12, dword_aligned_offset).at(10, 21));
    }

    /// Load register byte with unsigned immediate offset.
    pub fn ldrb(&mut self, wt: W, xn: X, offset: u16)
        requires
            asm_wf(old(self)@),
            old(self)@.words.len() < MAX_WORDS,
            wt.0 < 32,
            xn.0 < 32,
        ensures
            asm_wf(final(self)@),
            final(self)@.words == old(self)@.words.push(enc_ldrb(wt.0, xn.0, offset)),
            final(self)@.targets == old(self)@.targets,
            final(self)@.pending == old(self)@.pending,
    {
        let base: u32 = 0x39400000;
        // The byte offset's low 3 bits are implied zero.
        let dword_aligned_offset = ((offset as u32) >> 3) as i32;
        self.emit(base | wt.at(0, 4) | xn.at(5, 9) | Imm(12, dword_aligned_offset).at(10, 21));
    }

    /// Store doubleword register with unsigned immediate offset.
    pub fn str_imm(&mut self, rt: X, rn: X, offset: u16)
        requires
            asm_wf(old(self)@),
            old(self)@.words.len() < MAX_WORDS,
            rt.0 < 32,
            rn.0 < 32,
        ensures
            asm_wf(final(self)@),
            final(self)@.words == old(self)@.words.push(enc_str_imm(rt.0, rn.0, offset)),
            final(self)@.targets == old(self)@.targets,
            final(self)@.pending == old(self)@.pending,
    {
        let base: u32 = 0xF9000000;
        // The byte offset's low 3 bits are implied zero.
        let dword_aligned_offset = ((offset as u32) >> 3) as i32;
        self.emit(base | rt.at(0, 4) | rn.at(5, 9) | Imm(12, dword_aligned_offset).at(10, 21));
    }

    /// Load doubleword register with immediate offset.
    pub fn ldr_imm(&mut self, rt: X, rn: X, offset: i16)
        requires
            asm_wf(old(self)@),
            old(self)@.words.len() < MAX_WORDS,
            rt.0 < 32,
            rn.0 < 32,
            offset >= 0,
        ensures
            asm_wf(final(self)@),
            final(self)@.words == old(self)@.words.push(enc_ldr_imm(rt.0, rn.0, offset)),
            final(self)@.targets == old(self)@.targets,
            final(self)@.pending == old(self)@.pending,
    {
        let base: u32 = 0xF9400000;
        // The byte offset's low 3 bits are implied zero.
        let dword_aligned_offset = ((offset as u32) >> 3) as i32;
        self.emit(base | rt.at(0, 4) | rn.at(5, 9) | Imm(12, dword_aligned_offset).at(10, 21));
    }

    /// Store pair of registers with unsigned offset.
    pub fn stp_offset(&mut self, rt: X, rt2: X, rn: X, imm: i16)
        requires
            asm_wf(old(self)@),
            old(self)@.words.len() < MAX_WORDS,
            rt.0 < 32,
            rt2.0 < 32,
            rn.0 < 32,
            imm % 8 == 0,
            0 <= imm < 1024,
        ensures
            asm_wf(final(self)@),
            final(self)@.words == old(self)@.words.push(enc_stp_offset(rt.0, rt2.0, rn.0, imm)),
            final(self)@.targets == old(self)@.targets,
            final(self)@.pending == old(self)@.pending,
    {
        let base: u32 = 0xA9000000;
        let dword_aligned_offset = (imm / 8) as u32;
        self.emit(
            base | rt.at(0, 4) | rn.at(5, 9) | rt2.at(10, 14) | Umm(7, dword_aligned_offset).at(
                15,
                21,
            ),
        );
    }

    /// Load pair of registers with unsigned offset.
    pub fn ldp_offset(&mut self, rt: X, rt2: X, rn: X, imm: i16)
        requires
            asm_wf(old(self)@),
            old(self)@.words.len() < MAX_WORDS,
            rt.0 < 32,
            rt2.0 < 32,
            rn.0 < 32,
            imm % 8 == 0,
            0 <= imm < 1024,
        ensures
            asm_wf(final(self)@),
            final(self)@.words == old(self)@.words.push(enc_ldp_offset(rt.0, rt2.0, rn.0, imm)),
            final(self)@.targets == old(self)@.targets,
            final(self)@.pending == old(self)@.pending,
    {
        let base: u32 = 0xA9400000;
        let dword_aligned_offset = (imm / 8) as u32;
        self.emit(
            base | rt.at(0, 4) | rn.at(5, 9) | rt2.at(10, 14) | Umm(7, dword_aligned_offset).at(
                15,
                21,
            ),
        );
    }

    /// Load pair of registers, post-indexed: the offset is added after
    /// indexing.
    pub fn ldp_postindex(&mut self, rt1: X, rt2: X, rn: X, imm: i16)
        requires
            asm_wf(old(self)@),
            old(self)@.words.len() < MAX_WORDS,
            rt1.0 < 32,
            rt2.0 < 32,
            rn.0 < 32,
            imm % 8 == 0,
            -512 <= imm < 512,
        ensures
            asm_wf(final(self)@),
            final(self)@.words == old(self)@.words.push(
                enc_ldp_postindex(rt1.0, rt2.0, rn.0, imm),
            ),
            final(self)@.targets == old(self)@.targets,
            final(self)@.pending == old(self)@.pending,
    {
        let base: u32 = 0xA8C00000;
        let dword_aligned_offset: u32 = if imm >= 0 {
            (imm / 8) as u32
        } else {
            ((imm / 8) + 128) as u32
        };
        proof {
            lemma_small_field_masked(dword_aligned_offset);
        }
        self.emit(
            base | rt1.at(0, 4) | rn.at(5, 9) | rt2.at(10, 14) | Imm(
                7,
                dword_aligned_offset as i32,
            ).at(15, 21),
        );
    }

    /// Store pair of registers, pre-indexed: the offset is added before
    /// indexing.
    pub fn stp_preindex(&mut self, rt1: X, rt2: X, rn: X, imm: i16)
        requires
            asm_wf(old(self)@),
            old(self)@.words.len() < MAX_WORDS,
            rt1.0 < 32,
            rt2.0 < 32,
            rn.0 < 32,
            imm % 8 == 0,
            -512 <= imm < 512,
        ensures
            asm_wf(final(self)@),
            final(self)@.words == old(self)@.words.push(
                enc_stp_preindex(rt1.0, rt2.0, rn.0, imm),
            ),
            final(self)@.targets == old(self)@.targets,
            final(self)@.pending == old(self)@.pending,
    {
        let base: u32 = 0xA9800000;
        let dword_aligned_offset: u32 = if imm >= 0 {
            (imm / 8) as u32
        } else {
            ((imm / 8) + 128) as u32
        };
        proof {
            lemma_small_field_masked(dword_aligned_offset);
        }
        self.emit(
            base | rt1.at(0, 4) | rn.at(5, 9) | rt2.at(10, 14) | Imm(
                7,
                dword_aligned_offset as i32,
            ).at(15, 21),
        );
    }

    // Data processing with immediates.

    /// 32-bit add with immediate.
    pub fn add(&mut self, wd: W, wn: W, imm: u16)
        requires
            asm_wf(old(self)@),
            old(self)@.words.len() < MAX_WORDS,
            wd.0 < 32,
            wn.0 < 32,
        ensures
            asm_wf(final(self)@),
            final(self)@.words == old(self)@.words.push(enc_add(wd.0, wn.0, imm)),
            final(self)@.targets == old(self)@.targets,
            final(self)@.pending == old(self)@.pending,
    {
        let base: u32 = 0x11000000;
        self.emit(base | Imm(12, imm as i32).at(10, 21) | wn.at(5, 9) | wd.at(0, 4));
    }

    /// 64-bit add with immediate.
    pub fn add64(&mut self, xd: X, xn: X, imm: u16)
        requires
            asm_wf(old(self)@),
            old(self)@.words.len() < MAX_WORDS,
            xd.0 < 32,
            xn.0 < 32,
        ensures
            asm_wf(final(self)@),
            final(self)@.words == old(self)@.words.push(enc_add64(xd.0, xn.0, imm)),
            final(self)@.targets == old(self)@.targets,
            final(self)@.pending == old(self)@.pending,
    {
        let base: u32 = 0x91000000;
        self.emit(base | Imm(12, imm as i32).at(10, 21) | xn.at(5, 9) | xd.at(0, 4));
    }

    /// Move register (an alias of `orr` with the zero register).
    pub fn mov(&mut self, rd: X, rm: X)
        requires
            asm_wf(old(self)@),
            old(self)@.words.len() < MAX_WORDS,
            rd.0 < 32,
            rm.0 < 32,
        ensures
            asm_wf(final(self)@),
            final(self)@.words == old(self)@.words.push(enc_mov(rd.0, rm.0)),
            final(self)@.targets == old(self)@.targets,
            final(self)@.pending == old(self)@.pending,
    {
        let base: u32 = 0xAA000000;
        self.emit(base | rm.at(16, 20) | X(31).at(5, 9) | rd.at(0, 4));
    }

    /// 32-bit subtract with immediate.
    pub fn sub(&mut self, wd: W, wn: W, imm: u16)
        requires
            asm_wf(old(self)@),
            old(self)@.words.len() < MAX_WORDS,
            wd.0 < 32,
            wn.0 < 32,
        ensures
            asm_wf(final(self)@),
            final(self)@.words == old(self)@.words.push(enc_sub(wd.0, wn.0, imm)),
            final(self)@.targets == old(self)@.targets,
            final(self)@.pending == old(self)@.pending,
    {
        let base: u32 = 0x51000000;
        self.emit(base | Imm(12, imm as i32).at(10, 21) | wn.at(5, 9) | wd.at(0, 4));
    }

    /// 64-bit subtract with immediate.
    pub fn sub64(&mut self, xd: X, xn: X, imm: u16)
        requires
            asm_wf(old(self)@),
            old(self)@.words.len() < MAX_WORDS,
            xd.0 < 32,
            xn.0 < 32,
        ensures
            asm_wf(final(self)@),
            final(self)@.words == old(self)@.words.push(enc_sub64(xd.0, xn.0, imm)),
            final(self)@.targets == old(self)@.targets,
            final(self)@.pending == old(self)@.pending,
    {
        let base: u32 = 0xD1000000;
        self.emit(base | Imm(12, imm as i32).at(10, 21) | xn.at(5, 9) | xd.at(0, 4));
    }
}

} // verus!
