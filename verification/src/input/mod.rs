//! Input-side state machines and parsers: the command-line namespace with its history and window,
//! the Normal-mode count, the digraph table, the Emacs prefix argument, `CTRL-V` literal entry, the language-argument
//! stage, the operators, the Vim keymap namespaces and the ex command parser.
use vstd::prelude::*;

pub mod cmdline;
pub mod cmdwin;
pub mod count;
pub mod digraph;
pub mod emacs;
pub mod ex;
pub mod history;
pub mod lang;
pub mod literal;
pub mod op;
pub mod vim;

verus! {

/// The input profile: the modal Vim grammar, non-modal Emacs bindings, or the Native profile
/// (the Vim grammar with its own command discovery layered on).
#[derive(Clone, Copy, PartialEq, Eq, Debug, Structural)]
pub enum InputProfile {
    Vim,
    Emacs,
    Native,
}

} // verus!
