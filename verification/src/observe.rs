//! What is seen of a path when a change notification names it, and the rule
//! that tells shader files from everything else.

use crate::stage::{
    extension_to_shader_ty, is_glsl_extension, lemma_recognised_iff_staged, stage_of_extension,
    ShaderType, GLSL_EXTENSIONS,
};
use vstd::prelude::*;

verus! {

/// A path named by a change notification, with what was seen of it when the
/// notification was taken in.
#[derive(Debug)]
pub struct Observed {
    /// The path as the notification gave it.
    pub path: String,
    /// The path's extension, without the leading dot, if it has one.
    pub extension: Option<String>,
    /// Whether the path named an existing regular file.
    pub is_file: bool,
}

/// A shader file: its path, and the stage that its extension tells.
#[derive(Debug)]
pub struct ShaderFile {
    pub path: String,
    pub stage: ShaderType,
}

impl Observed {
    /// A path is a shader file when it named a regular file and its
    /// extension is one of `GLSL_EXTENSIONS`.
    pub open spec fn is_shader_file(self) -> bool {
        &&& self.is_file
        &&& self.extension matches Some(ext)
        &&& is_glsl_extension(ext@)
    }

    /// The stage told by the path's extension.
    pub open spec fn stage(self) -> Option<ShaderType> {
        match self.extension {
            Some(ext) => stage_of_extension(ext@),
            None => None,
        }
    }

    /// The shader file that this path is, if it is one.
    pub open spec fn shader_file(self) -> Option<ShaderFile> {
        if self.is_shader_file() {
            Some(ShaderFile { path: self.path, stage: self.stage()->0 })
        } else {
            None
        }
    }
}

/// `std::path::Path::is_file` on `path`: whether the path names a regular
/// file at the moment of the call. Nothing is claimed of the answer, which
/// is the file system's.
#[verifier::external_body]
fn is_regular_file(path: &str) -> (b: bool) {
    std::path::Path::new(path).is_file()
}

/// `std::path::Path::extension` on `path`, as text. `None` where the path
/// has no extension or the extension is not valid UTF-8. Nothing is claimed
/// of the answer: how a path splits into components is the platform's rule.
#[verifier::external_body]
fn extension_of(path: &str) -> (ext: Option<String>) {
    let ext = std::path::Path::new(path).extension()?;
    Some(ext.to_str()?.to_string())
}

/// Looks at `path` now: is it a regular file, and what is its extension.
pub fn observe(path: String) -> (seen: Observed)
    ensures
        seen.path == path,
{
    let is_file = is_regular_file(path.as_str());
    let extension = extension_of(path.as_str());
    Observed { path, extension, is_file }
}

/// Whether what was seen of a path makes it a shader file.
pub fn path_is_shader_file(seen: &Observed) -> (b: bool)
    ensures
        b == seen.is_shader_file(),
{
    if seen.is_file {
        let path_ext = match &seen.extension {
            None => {
                return false;
            },
            Some(ext) => ext.as_str(),
        };
        let mut i: usize = 0;
        while i < GLSL_EXTENSIONS.len()
            invariant
                seen.is_file,
                seen.extension matches Some(ext) && ext@ == path_ext@,
                i <= GLSL_EXTENSIONS@.len(),
                forall|j: int| 0 <= j < i ==> (#[trigger] GLSL_EXTENSIONS@[j])@ != path_ext@,
            decreases GLSL_EXTENSIONS@.len() - i,
        {
            if path_ext.eq(GLSL_EXTENSIONS[i]) {
                return true;
            }
            i += 1;
        }
    }
    false
}

/// The shader file that `seen` is, with its stage, or `None` where it is
/// not a shader file.
pub fn shader_file(seen: Observed) -> (file: Option<ShaderFile>)
    ensures
        file == seen.shader_file(),
{
    if !path_is_shader_file(&seen) {
        return None;
    }
    proof {
        lemma_recognised_iff_staged(seen.extension->0@);
    }
    let stage = extension_to_shader_ty(seen.extension.as_ref()?.as_str())?;
    Some(ShaderFile { path: seen.path, stage })
}

} // verus!
