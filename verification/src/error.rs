//! The errors of the library, and the outside error values they carry.

use vstd::prelude::*;

verus! {

/// `notify::Error`, the error value of the notification source. The library
/// never looks inside one: it hands the value on to the caller unchanged.
#[verifier::external_type_specification]
#[verifier::external_body]
pub struct ExNotifyError(notify::Error);

/// `std::io::Error`. The library never looks inside one.
#[verifier::external_type_specification]
#[verifier::external_body]
pub struct ExIoError(std::io::Error);

/// Why a `Watch` could not be set up.
#[derive(Debug)]
pub struct CreationError {
    pub err: notify::Error,
}

/// Why no path could be fetched.
#[derive(Debug)]
pub enum NextPathError {
    /// The notification source is gone and everything it sent was consumed.
    ChannelClosed,
    /// The notification source reported an error in place of a change.
    Notify { err: notify::Error },
}

/// Why waiting for an event failed.
#[derive(Debug)]
pub enum AwaitEventError {
    /// The notification source is gone and everything it sent was consumed.
    ChannelClosed,
    /// The notification source reported an error in place of a change.
    Notify { err: notify::Error },
}

/// Why a shader file could not be compiled.
#[derive(Debug)]
#[allow(inconsistent_fields)]
pub enum CompileError {
    /// The file, or the compiler's output, could not be read.
    Io { err: std::io::Error },
    /// The compiler rejected the shader, or no stage could be inferred for
    /// it; `err` is the diagnostic text.
    GlslToSpirv { err: String },
}

impl From<notify::Error> for CreationError {
    fn from(err: notify::Error) -> (e: CreationError) {
        CreationError { err }
    }
}

impl vstd::std_specs::convert::FromSpecImpl<notify::Error> for CreationError {
    open spec fn obeys_from_spec() -> bool {
        true
    }

    open spec fn from_spec(err: notify::Error) -> CreationError {
        CreationError { err }
    }
}

impl From<notify::Error> for NextPathError {
    fn from(err: notify::Error) -> (e: NextPathError) {
        NextPathError::Notify { err }
    }
}

impl vstd::std_specs::convert::FromSpecImpl<notify::Error> for NextPathError {
    open spec fn obeys_from_spec() -> bool {
        true
    }

    open spec fn from_spec(err: notify::Error) -> NextPathError {
        NextPathError::Notify { err }
    }
}

impl From<notify::Error> for AwaitEventError {
    fn from(err: notify::Error) -> (e: AwaitEventError) {
        AwaitEventError::Notify { err }
    }
}

impl vstd::std_specs::convert::FromSpecImpl<notify::Error> for AwaitEventError {
    open spec fn obeys_from_spec() -> bool {
        true
    }

    open spec fn from_spec(err: notify::Error) -> AwaitEventError {
        AwaitEventError::Notify { err }
    }
}

impl From<std::io::Error> for CompileError {
    fn from(err: std::io::Error) -> (e: CompileError) {
        CompileError::Io { err }
    }
}

impl vstd::std_specs::convert::FromSpecImpl<std::io::Error> for CompileError {
    open spec fn obeys_from_spec() -> bool {
        true
    }

    open spec fn from_spec(err: std::io::Error) -> CompileError {
        CompileError::Io { err }
    }
}

} // verus!
