//! Change tracking for GLSL shader files: which shader files were touched
//! since the last look, in what order, and for which pipeline stage each
//! one is to be compiled.
//!
//! A [`Watch`] is fed the raw events of a file system notification source
//! with [`Watch::deliver`], and told with [`Watch::close`] when the source
//! is gone. It keeps the shader files that the events name, and hands them
//! out one by one ([`Watch::try_next_path`]), all at once without repeats
//! ([`Watch::paths_touched`]) or as a queue of files to compile
//! ([`Watch::compile_touched`]). The watch never waits, never reads a shader
//! and never runs a compiler: waiting for the source and compiling are the
//! caller's part.
//!
//! What a path is on disk is looked up once, when its event is taken in
//! ([`observe`]); from there on every answer of the watch is a function of
//! what it was given. [`model`] states that function, and [`laws`] proves
//! what follows from it.

pub mod compile;
pub mod error;
pub mod event;
pub mod laws;
pub mod model;
pub mod observe;
pub mod setup;
pub mod stage;
pub mod touched;
pub mod watch;

pub use compile::{compile_stage, NO_STAGE};
pub use error::{AwaitEventError, CompileError, CreationError, NextPathError};
pub use event::{shaders_related_to_event, Event};
pub use observe::{observe, path_is_shader_file, shader_file, Observed, ShaderFile};
pub use setup::{watch_mode, watch_targets, WatchMode, WatchTarget};
pub use stage::{extension_to_shader_ty, ShaderType, GLSL_EXTENSIONS};
pub use touched::{CompileQueue, TouchedSet};
pub use watch::Watch;
