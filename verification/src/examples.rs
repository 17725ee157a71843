//! A tiny hand-assembled program, used to exercise executable memory.

use vstd::prelude::*;

verus! {

/// The AArch64 machine code of a function that squares its argument:
/// `mul x0, x0, x0` then `ret`, as little-endian bytes.
pub open spec fn square_program_bytes() -> Seq<u8> {
    seq![0x00u8, 0x7cu8, 0x00u8, 0x9bu8, 0xc0u8, 0x03u8, 0x5fu8, 0xd6u8]
}

/// Writes a program equivalent to `fn(x) { x * x }` over the start of the
/// given buffer, leaving the rest of the buffer as it was.
pub fn write_square_function(buffer: &mut Vec<u8>)
    requires
        old(buffer)@.len() >= 8,
    ensures
        final(buffer)@.len() == old(buffer)@.len(),
        final(buffer)@.take(8) == square_program_bytes(),
        final(buffer)@.skip(8) == old(buffer)@.skip(8),
{
    buffer[0] = 0x00;
    buffer[1] = 0x7c;
    buffer[2] = 0x00;
    buffer[3] = 0x9b;
    buffer[4] = 0xc0;
    buffer[5] = 0x03;
    buffer[6] = 0x5f;
    buffer[7] = 0xd6;
    proof {
        assert(buffer@.take(8) =~= square_program_bytes());
        assert(buffer@.skip(8) =~= old(buffer)@.skip(8));
    }
}

} // verus!
