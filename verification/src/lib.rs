//! Building host invocations from inside an application sandbox: paths that
//! the sandbox sees are rewritten to where the host keeps them, arguments are
//! told apart by what they name, and the host's dynamic linker is put in
//! front of the command so that a host binary runs with host libraries.
//!
//! The library reads nothing and runs nothing, with one exception: it can
//! ask the file system whether a name exists. What else it needs from
//! outside, the caller hands in: the instance metadata, the outputs of the
//! catalog tool, the environment. [`Escape`] says, step by step, what is
//! needed next; [`FlatpakInfo::new`] and [`FlatpakInfo::run_unsandboxed`]
//! make the descriptor and the invocation in one go from everything at
//! once.

pub mod arg;
pub mod error;
pub mod escape;
pub mod info;
pub mod probe;
pub mod resolver;
pub mod spawn;
pub mod text;

pub use arg::CmdArg;
pub use error::UnsandboxError;
pub use escape::{has_flatpak_spawn_permission, Escape, ProbeOutcome, Reply, Request};
pub use info::FlatpakInfo;
pub use probe::{is_flatpaked, metadata_path, KnownPaths};
pub use spawn::{parse_assignment, HostInvocation, Observed, UnsandboxOptions};
