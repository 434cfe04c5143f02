//! What is decided when a watch is set up: how each path is to be watched.

use vstd::prelude::*;

verus! {

/// How a path is watched.
#[derive(Clone, Copy, Debug, PartialEq, Eq, Structural)]
pub enum WatchMode {
    /// A directory, with everything below it.
    Recursive,
    /// A single file.
    NonRecursive,
}

/// A path to watch, and how.
#[derive(Debug)]
pub struct WatchTarget {
    pub path: String,
    pub mode: WatchMode,
}

/// A directory is watched with everything below it, anything else alone.
pub fn watch_mode(is_dir: bool) -> (mode: WatchMode)
    ensures
        mode == if is_dir {
            WatchMode::Recursive
        } else {
            WatchMode::NonRecursive
        },
{
    if is_dir {
        WatchMode::Recursive
    } else {
        WatchMode::NonRecursive
    }
}

/// `std::path::Path::is_dir` on `path`: whether the path names a directory
/// at the moment of the call. Nothing is claimed of the answer, which is
/// the file system's.
#[verifier::external_body]
fn is_directory(path: &str) -> (b: bool) {
    std::path::Path::new(path).is_dir()
}

/// The targets for watching `paths`: each path, in the order given, with
/// the mode for what it names now.
pub fn watch_targets(paths: Vec<String>) -> (targets: Vec<WatchTarget>)
    ensures
        targets@.len() == paths@.len(),
        forall|i: int| 0 <= i < paths@.len() ==> (#[trigger] targets@[i]).path == paths@[i],
{
    let ghost named = paths@;
    let mut targets: Vec<WatchTarget> = Vec::new();
    for path in it: paths
        invariant
            it.seq() == named,
            targets@.len() == it.index(),
            forall|i: int| 0 <= i < targets@.len() ==> (#[trigger] targets@[i]).path == named[i],
    {
        let mode = watch_mode(is_directory(path.as_str()));
        targets.push(WatchTarget { path, mode });
    }
    targets
}

} // verus!
