//! Shader stages and the file extensions they are recognised by.

use vstd::prelude::*;

verus! {

/// Equality of string slices, `str`'s `PartialEq::eq`: two slices are equal
/// exactly when they hold the same characters.
pub assume_specification[ <str as PartialEq>::eq ](a: &str, b: &str) -> (r: bool)
    ensures
        r == (a@ == b@),
;

/// The pipeline stage a shader is compiled for.
#[derive(Clone, Copy, Debug, PartialEq, Eq, Structural)]
pub enum ShaderType {
    Vertex,
    Fragment,
    Compute,
}

/// The extensions that mark a file as a GLSL shader, without the leading
/// dot. There is no official list; these are the ones from which the stage
/// can be told.
pub const GLSL_EXTENSIONS: [&'static str; 6] = ["vert", "frag", "comp", "vs", "fs", "cs"];

/// Whether `ext` is one of `GLSL_EXTENSIONS`, character for character.
pub open spec fn is_glsl_extension(ext: Seq<char>) -> bool {
    exists|i: int| 0 <= i < GLSL_EXTENSIONS@.len() && (#[trigger] GLSL_EXTENSIONS@[i])@ == ext
}

/// The stage that an extension stands for, if it stands for one.
pub open spec fn stage_of_extension(ext: Seq<char>) -> Option<ShaderType> {
    if ext == "vert"@ || ext == "vs"@ {
        Some(ShaderType::Vertex)
    } else if ext == "frag"@ || ext == "fs"@ {
        Some(ShaderType::Fragment)
    } else if ext == "comp"@ || ext == "cs"@ {
        Some(ShaderType::Compute)
    } else {
        None
    }
}

/// The stage to compile a shader for, told from its file extension.
pub fn extension_to_shader_ty(ext: &str) -> (ty: Option<ShaderType>)
    ensures
        ty == stage_of_extension(ext@),
{
    if ext.eq("vert") || ext.eq("vs") {
        Some(ShaderType::Vertex)
    } else if ext.eq("frag") || ext.eq("fs") {
        Some(ShaderType::Fragment)
    } else if ext.eq("comp") || ext.eq("cs") {
        Some(ShaderType::Compute)
    } else {
        None
    }
}

/// The extensions in `GLSL_EXTENSIONS` are exactly those that stand for a
/// stage: the list that admits a file and the table that tells its stage
/// never disagree.
pub proof fn lemma_recognised_iff_staged(ext: Seq<char>)
    ensures
        is_glsl_extension(ext) <==> stage_of_extension(ext) is Some,
{
    if stage_of_extension(ext) is Some {
        let i: int = if ext == "vert"@ {
            0
        } else if ext == "frag"@ {
            1
        } else if ext == "comp"@ {
            2
        } else if ext == "vs"@ {
            3
        } else if ext == "fs"@ {
            4
        } else {
            5
        };
        assert(GLSL_EXTENSIONS@[i]@ == ext);
    }
}

/// Each stage has a long and a short extension, and both tell the same
/// stage; the three stages are told apart.
pub proof fn lemma_extension_pairs()
    ensures
        stage_of_extension("vert"@) == Some(ShaderType::Vertex),
        stage_of_extension("vs"@) == Some(ShaderType::Vertex),
        stage_of_extension("frag"@) == Some(ShaderType::Fragment),
        stage_of_extension("fs"@) == Some(ShaderType::Fragment),
        stage_of_extension("comp"@) == Some(ShaderType::Compute),
        stage_of_extension("cs"@) == Some(ShaderType::Compute),
{
    reveal_strlit("vert");
    reveal_strlit("vs");
    reveal_strlit("frag");
    reveal_strlit("fs");
    reveal_strlit("comp");
    reveal_strlit("cs");
    assert("vert"@.len() == 4 && "frag"@.len() == 4 && "comp"@.len() == 4);
    assert("vs"@.len() == 2 && "fs"@.len() == 2 && "cs"@.len() == 2);
    assert("vert"@[0] == 'v' && "frag"@[0] == 'f' && "comp"@[0] == 'c');
    assert("vs"@[0] == 'v' && "fs"@[0] == 'f' && "cs"@[0] == 'c');
}

} // verus!
