//! An optimizing compiler for a minimal eight-instruction tape language.
//!
//! Source text is parsed into an [AbstractSyntaxTree], lowered into a
//! [ir::ControlFlowGraph] of basic blocks, peephole-optimized, and then
//! flattened either into threaded code for the interpreter back-end or into
//! AArch64 machine code for the native back-end.

use vstd::prelude::*;

mod errors;
pub mod aarch64;
pub mod bytecode;
pub mod codegen;
pub mod examples;
pub mod ir;
pub mod optimize;
mod parsing;
pub mod protection;

pub use crate::errors::CompilationError;
pub use crate::errors::Location;
pub use crate::errors::Reason;
pub use crate::parsing::AbstractSyntaxTree;
pub use crate::parsing::ConditionalID;
pub use crate::parsing::Statement;
pub use crate::parsing::ast_well_formed;
pub use crate::parsing::parse;

use crate::bytecode::InterpretedProgram;
use crate::codegen::CodeGenerator;
use crate::ir::ControlFlowGraph;

verus! {

/// Go from [AbstractSyntaxTree] straight to [ir::ControlFlowGraph], with
/// optimizations: exactly the optimized lowering of the statements.
pub fn ast_to_optimized_cfg(ast: &AbstractSyntaxTree) -> (r: ControlFlowGraph)
    requires
        ast_well_formed(ast@),
        2 * ast@.len() + 2 <= usize::MAX,
    ensures
        r@ == optimize::spec_optimize(ir::spec_lower(ast@)),
        ir::cfg_well_formed(r@),
        ir::cfg_noop_free(r@),
{
    let initial_cfg = ir::lower(ast);
    optimize::optimize(&initial_cfg)
}

/// Compile the AST down to bytecode, that can then be interpreted: the
/// threaded-code form of the optimized lowering.
pub fn compile_to_bytecode(ast: &AbstractSyntaxTree) -> (r: InterpretedProgram)
    requires
        ast_well_formed(ast@),
        2 * ast@.len() + 2 <= usize::MAX,
    ensures
        r@ == bytecode::spec_compile(optimize::spec_optimize(ir::spec_lower(ast@))),
{
    InterpretedProgram::new(&ast_to_optimized_cfg(ast))
}

/// Compile the AST to native AArch64 machine code: the emitted bytes of the
/// optimized lowering, or `None` where the function would not fit the
/// back-end's limits (a delta beyond what one instruction encodes, or a
/// function past the assembler's buffer).
pub fn compile_to_machine_code(ast: &AbstractSyntaxTree) -> (r: Option<Vec<u8>>)
    requires
        ast_well_formed(ast@),
        2 * ast@.len() + 2 <= usize::MAX,
    ensures
        ({
            let cfg = optimize::spec_optimize(ir::spec_lower(ast@));
            let fits = codegen::cfg_encodable(cfg) && cfg.len() < aarch64::MAX_WORDS
                && codegen::layout_offset(cfg, cfg.len() as int) <= aarch64::MAX_WORDS;
            match r {
                Some(code) => fits && code@ == aarch64::le_bytes_of_words(
                    codegen::gen_words(cfg),
                ),
                None => !fits,
            }
        }),
{
    let cfg = ast_to_optimized_cfg(ast);
    if !codegen::native_limits_ok(&cfg) {
        return None;
    }
    let mut generator = CodeGenerator::new();
    Some(generator.compile(&cfg))
}

} // verus!
