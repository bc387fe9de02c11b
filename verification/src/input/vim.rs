//! The Vim keymap namespaces: each names itself, so that a layer of the keymap stack and its
//! unmatched-key policy can be addressed by namespace.
use vstd::prelude::*;

verus! {

/// A keymap namespace of the Vim profile.
#[derive(Clone, Copy, PartialEq, Eq, Debug, Structural)]
pub enum Ns {
    Normal,
    Insert,
    Visual,
    /// Shares Visual's selection state and differs in its unmatched-key policy.
    Select,
    /// Operator-pending: its own namespace, whose unmatched keys abort the operator.
    OperatorPending,
    /// The command line (`:`, `/`, `?`).
    Cmdline,
    /// A terminal job: keys are forwarded to the job.
    Terminal,
    /// The language-argument namespace (`:lmap`).
    Lang,
    /// Replace mode (`R`, `gR`): a printable key overwrites.
    Replace,
}

/// The id of a namespace.
pub open spec fn ns_id(ns: Ns) -> Seq<char> {
    match ns {
        Ns::Normal => "vim.normal"@,
        Ns::Insert => "vim.insert"@,
        Ns::Visual => "vim.visual"@,
        Ns::Select => "vim.select"@,
        Ns::OperatorPending => "vim.operator_pending"@,
        Ns::Cmdline => "vim.command_line"@,
        Ns::Terminal => "vim.terminal"@,
        Ns::Lang => "vim.lang_arg"@,
        Ns::Replace => "vim.replace"@,
    }
}

impl Ns {
    /// The namespace's id (see `ns_id`).
    pub fn id(self) -> (r: &'static str)
        ensures
            r@ == ns_id(self),
    {
        match self {
            Ns::Normal => "vim.normal",
            Ns::Insert => "vim.insert",
            Ns::Visual => "vim.visual",
            Ns::Select => "vim.select",
            Ns::OperatorPending => "vim.operator_pending",
            Ns::Cmdline => "vim.command_line",
            Ns::Terminal => "vim.terminal",
            Ns::Lang => "vim.lang_arg",
            Ns::Replace => "vim.replace",
        }
    }
}

/// Law: every namespace has its own id — two namespaces with the same id are the same
/// namespace.
pub proof fn law_ns_ids_distinct(a: Ns, b: Ns)
    ensures
        ns_id(a) == ns_id(b) ==> a == b,
{
    reveal_strlit("vim.normal");
    reveal_strlit("vim.insert");
    reveal_strlit("vim.visual");
    reveal_strlit("vim.select");
    reveal_strlit("vim.operator_pending");
    reveal_strlit("vim.command_line");
    reveal_strlit("vim.terminal");
    reveal_strlit("vim.lang_arg");
    reveal_strlit("vim.replace");
    if ns_id(a) == ns_id(b) {
        // Ids of one length differ right after the shared `vim.` prefix.
        assert(ns_id(a).len() == ns_id(b).len() && ns_id(a)[4] == ns_id(b)[4]);
    }
}

} // verus!
