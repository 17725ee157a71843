//! The native back-end: instruction encodings, branch patching, generated
//! machine code, and the protection discipline around it.

use brainmuck::aarch64::{AArch64Assembly, Label, WordOffset, W, X};
use brainmuck::codegen::{native_limits_ok, CodeGenerator};
use brainmuck::examples::write_square_function;
use brainmuck::ir::lower;
use brainmuck::optimize::optimize;
use brainmuck::protection::RegionState;
use brainmuck::{ast_to_optimized_cfg, compile_to_machine_code, parse};

fn words(bytes: &[u8]) -> Vec<u32> {
    assert_eq!(bytes.len() % 4, 0);
    bytes
        .chunks(4)
        .map(|c| u32::from_le_bytes([c[0], c[1], c[2], c[3]]))
        .collect()
}

#[test]
fn fixed_instructions_encode_as_documented() {
    let mut assembler = AArch64Assembly::new();
    assembler.ret();
    assembler.blr(X(20));
    assembler.add(W(0), W(0), 3);
    assembler.sub(W(0), W(0), 1);
    assembler.add64(X(19), X(19), 1);
    assembler.sub64(X(19), X(19), 2);
    assembler.mov(X(19), X(0));
    assembler.ldrb(W(0), X(19), 0);
    assembler.strb(W(0), X(19), 0);
    assert_eq!(
        words(&assembler.machine_code()),
        vec![
            0xD65F03C0,
            0xD63F0280,
            0x11000C00,
            0x51000400,
            0x91000673,
            0xD1000A73,
            0xAA0003F3,
            0x39400260,
            0x39000260,
        ]
    );
}

#[test]
fn pair_and_frame_instructions_encode_as_documented() {
    let mut assembler = AArch64Assembly::new();
    assembler.stp_preindex(X(20), X(21), X(31), -0x30);
    assembler.stp_offset(X(29), X(30), X(31), 0x20);
    assembler.str_imm(X(19), X(31), 0x10);
    assembler.ldr_imm(X(19), X(31), 0x10);
    assembler.ldp_offset(X(29), X(30), X(31), 0x20);
    assembler.ldp_postindex(X(20), X(21), X(31), 0x30);
    assert_eq!(
        words(&assembler.machine_code()),
        vec![0xA9BD57F4, 0xA9027BFD, 0xF9000BF3, 0xF9400BF3, 0xA9427BFD, 0xA8C357F4]
    );
}

#[test]
fn forward_branch_gets_its_displacement_patched() {
    let mut assembler = AArch64Assembly::new();
    assembler.cbz(W(0), Label(0));
    assembler.add(W(0), W(0), 1);
    assembler.set_label_target(Label(0));
    assembler.ret();
    assembler.patch_branch_targets();
    // The target is two words after the branch site.
    assert_eq!(
        words(&assembler.machine_code()),
        vec![0x34000000 | (2 << 5), 0x11000400, 0xD65F03C0]
    );
}

#[test]
fn backward_branch_encodes_a_negative_displacement() {
    let mut assembler = AArch64Assembly::new();
    assembler.set_label_target(Label(7));
    assembler.add(W(0), W(0), 1);
    assembler.b(Label(7));
    assembler.patch_branch_targets();
    // The branch at word 1 jumps back one word: -1 in 26 bits.
    assert_eq!(
        words(&assembler.machine_code()),
        vec![0x11000400, 0x17FFFFFF]
    );
}

#[test]
fn byte_load_store_offsets_drop_their_low_three_bits() {
    let mut assembler = AArch64Assembly::new();
    assembler.strb(W(0), X(19), 8);
    assembler.ldrb(W(0), X(19), 16);
    assert_eq!(
        words(&assembler.machine_code()),
        vec![0x39000260 | (1 << 10), 0x39400260 | (2 << 10)]
    );
}

#[test]
fn word_offsets_convert_and_subtract() {
    let a = WordOffset::from_byte_offset(8);
    assert_eq!(a.to_usize(), 8);
    let b = WordOffset::from_byte_offset(20);
    assert_eq!(b.sub(a).to_usize(), 12);
}

#[test]
fn straight_line_program_compiles_to_prologue_body_epilogue() {
    let ast = parse("test.b", b"+").unwrap();
    let cfg = ast_to_optimized_cfg(&ast);
    let mut generator = CodeGenerator::new();
    let code = generator.compile(&cfg);
    assert_eq!(
        words(&code),
        vec![
            // prologue: save x20/x21, the frame record, x19; link the frame;
            // take the arguments.
            0xA9BD57F4, 0xA9027BFD, 0xF9000BF3, 0x910083FD, 0xAA0003F3, 0xAA0103F4, 0xAA0203F5,
            // tape[p] += 1
            0x39400260, 0x11000400, 0x39000260,
            // epilogue
            0xF9400BF3, 0xA9427BFD, 0xA8C357F4, 0xD65F03C0,
        ]
    );
}

#[test]
fn loop_program_compiles_with_resolved_branches() {
    let code = compile_to_machine_code(&parse("test.b", b"[-]").unwrap()).unwrap();
    assert_eq!(
        words(&code),
        vec![
            0xA9BD57F4, 0xA9027BFD, 0xF9000BF3, 0x910083FD, 0xAA0003F3, 0xAA0103F4, 0xAA0203F5,
            // loop head: load the cell, skip 5 words ahead when zero
            0x39400260, 0x34000000 | (5 << 5),
            // body: tape[p] -= 1, then 5 words back to the head
            0x39400260, 0x51000400, 0x39000260, 0x14000000 | ((-5i32 as u32) & 0x3FF_FFFF),
            // epilogue
            0xF9400BF3, 0xA9427BFD, 0xA8C357F4, 0xD65F03C0,
        ]
    );
}

#[test]
fn callbacks_are_reached_through_their_fixed_registers() {
    // `.` loads the cell and calls putchar (x20); `,` calls getchar (x21)
    // and stores the cell.
    let code = compile_to_machine_code(&parse("test.b", b".,").unwrap()).unwrap();
    let ws = words(&code);
    assert_eq!(&ws[7..11], &[0x39400260, 0xD63F0280, 0xD63F02A0, 0x39000260]);
}

#[test]
fn a_delta_of_exactly_minus_128_is_outside_the_native_limits() {
    // 128 consecutive increments coalesce into a single adjustment whose
    // signed-8-bit magnitude does not exist.
    let source = vec![b'+'; 128];
    let ast = parse("test.b", &source).unwrap();
    assert!(!native_limits_ok(&ast_to_optimized_cfg(&ast)));
    assert!(compile_to_machine_code(&ast).is_none());
    // One less is fine.
    let source = vec![b'+'; 127];
    let ast = parse("test.b", &source).unwrap();
    assert!(compile_to_machine_code(&ast).is_some());
}

#[test]
fn square_function_bytes_land_at_the_buffer_start() {
    let mut buffer = vec![0u8; 16];
    write_square_function(&mut buffer);
    assert_eq!(
        &buffer[0..8],
        &[0x00, 0x7c, 0x00, 0x9b, 0xc0, 0x03, 0x5f, 0xd6]
    );
    assert_eq!(&buffer[8..], &[0u8; 8]);
}

#[test]
fn region_protection_is_never_writable_and_executable_at_once() {
    let reserved = RegionState::Reserved;
    assert_eq!(reserved.protection_bits(), 0);
    let writable = reserved.into_writable();
    assert_eq!(writable.protection_bits(), 1 | 2);
    let executable = writable.into_executable();
    assert_eq!(executable.protection_bits(), 1 | 4);
    for state in [RegionState::Reserved, RegionState::Writable, RegionState::Executable] {
        let bits = state.protection_bits();
        assert!(!(bits & 2 != 0 && bits & 4 != 0));
    }
}
