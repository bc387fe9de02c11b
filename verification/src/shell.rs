//! Why a shell-out (`:!`, `:r !`, `:{range}!`) failed, and the status-line message for it.
use vstd::prelude::*;
use crate::text::owned;

verus! {

/// Why a shell-out failed.
#[derive(Clone, PartialEq, Eq, Debug)]
pub enum ShellError {
    /// The shell could not be started; the cause's text.
    Spawn(String),
    /// Waiting for the shell or reading its output failed; the cause's text.
    Wait(String),
    /// Shell commands are not supported on this platform.
    Unsupported,
}

/// The status-line message of a shell error.
pub open spec fn shell_message_of(e: ShellError) -> Seq<char> {
    match e {
        ShellError::Spawn(c) => "E485: cannot run shell: "@ + c@,
        ShellError::Wait(c) => "E485: shell wait failed: "@ + c@,
        ShellError::Unsupported => "shell commands are not supported on this platform"@,
    }
}

impl ShellError {
    /// The status-line message (see `shell_message_of`).
    pub fn message(&self) -> (r: String)
        ensures
            r@ == shell_message_of(*self),
    {
        match self {
            ShellError::Spawn(c) => {
                let mut out = owned("E485: cannot run shell: ");
                out.append(c.as_str());
                out
            },
            ShellError::Wait(c) => {
                let mut out = owned("E485: shell wait failed: ");
                out.append(c.as_str());
                out
            },
            ShellError::Unsupported => owned("shell commands are not supported on this platform"),
        }
    }
}

} // verus!
