//! The ways in which leaving the sandbox can fail.

use vstd::prelude::*;

verus! {

/// Why no host invocation could be built. Each failure ends the attempt:
/// nothing is retried.
#[derive(Clone, Copy, Debug, PartialEq, Eq, Structural)]
pub enum UnsandboxError {
    /// The process does not run inside the sandbox.
    NotSandboxed,
    /// The sandbox is not allowed to talk to the host's spawn service.
    NoPermission,
    /// The instance metadata could not be read.
    ConfigUnavailable,
    /// The instance metadata does not name both host roots.
    ConfigMalformed,
    /// The linker catalog lists no dynamic linker.
    LinkerNotFound,
    /// A catalog query could not be run, or its output is not text.
    SubprocessError,
    /// The message bus could not be reached.
    IpcError,
}

/// A result as contracts speak of it: a value by what it holds, a failure
/// as it is.
pub open spec fn outcome<T: DeepView>(r: Result<T, UnsandboxError>) -> Result<T::V, UnsandboxError> {
    match r {
        Ok(value) => Ok(value.deep_view()),
        Err(error) => Err(error),
    }
}

impl UnsandboxError {
    /// The text that describes the failure to a user.
    pub open spec fn message_text(self) -> Seq<char> {
        match self {
            UnsandboxError::NotSandboxed => "The program is not sandboxed."@,
            UnsandboxError::NoPermission =>
                "No --talk-name=org.freedesktop.Flatpak permission for this Flatpak"@,
            UnsandboxError::ConfigUnavailable => "Failed to read config"@,
            UnsandboxError::ConfigMalformed => "The config lacks an absolute app-path or runtime-path"@,
            UnsandboxError::LinkerNotFound => "LD not found."@,
            UnsandboxError::SubprocessError => "The linker catalog could not be queried"@,
            UnsandboxError::IpcError => "The session bus could not be reached"@,
        }
    }

    /// The text that describes the failure to a user.
    pub fn message(&self) -> (text: String)
        ensures
            text@ == self.message_text(),
    {
        match self {
            UnsandboxError::NotSandboxed => "The program is not sandboxed.".to_string(),
            UnsandboxError::NoPermission =>
                "No --talk-name=org.freedesktop.Flatpak permission for this Flatpak".to_string(),
            UnsandboxError::ConfigUnavailable => "Failed to read config".to_string(),
            UnsandboxError::ConfigMalformed =>
                "The config lacks an absolute app-path or runtime-path".to_string(),
            UnsandboxError::LinkerNotFound => "LD not found.".to_string(),
            UnsandboxError::SubprocessError => "The linker catalog could not be queried".to_string(),
            UnsandboxError::IpcError => "The session bus could not be reached".to_string(),
        }
    }
}

} // verus!
