//! What is decided of a compilation before the compiler runs.

use crate::error::CompileError;
use crate::observe::Observed;
use crate::stage::{extension_to_shader_ty, ShaderType};
use vstd::prelude::*;
use vstd::string::StringExecFns;

verus! {

/// The diagnostic for a path whose extension tells no stage.
pub const NO_STAGE: &'static str = "cannot tell the shader stage from the extension of the path";

/// The stage to compile the file at an observed path for. A path whose
/// extension tells no stage cannot be compiled: that is a compiler failure
/// with `NO_STAGE` as its diagnostic, not a reason to stop the program.
pub fn compile_stage(seen: &Observed) -> (r: Result<ShaderType, CompileError>)
    ensures
        match seen.stage() {
            Some(stage) => r matches Ok(ty) && ty == stage,
            None => r matches Err(CompileError::GlslToSpirv { err }) && err@ == NO_STAGE@,
        },
{
    let stage = match &seen.extension {
        Some(ext) => extension_to_shader_ty(ext.as_str()),
        None => None,
    };
    match stage {
        Some(ty) => Ok(ty),
        None => Err(CompileError::GlslToSpirv { err: String::from_str(NO_STAGE) }),
    }
}

} // verus!
