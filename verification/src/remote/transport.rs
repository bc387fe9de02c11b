//! How the client launches the agent: its own `agent` subcommand locally, or the remote command
//! over `ssh` in batch mode. This module gives the argument lists; building the process is the
//! caller's.
use vstd::prelude::*;
use crate::input::history::views;
use crate::remote::protocol::str_views;
use crate::text::owned;

verus! {

/// The remote command that starts the agent: `ruse agent`.
pub fn default_remote_agent_cmd() -> (r: Vec<&'static str>)
    ensures
        str_views(r@) == seq!["ruse"@, "agent"@],
{
    let r = vec!["ruse", "agent"];
    assert(str_views(r@) =~= seq!["ruse"@, "agent"@]);
    r
}

/// The arguments of the local agent: `agent`.
pub fn local_args() -> (r: Vec<String>)
    ensures
        views(r@) == seq!["agent"@],
{
    let r = vec![owned("agent")];
    assert(views(r@) =~= seq!["agent"@]);
    r
}

/// The arguments of `ssh` that start the agent on `host`: batch mode (no password prompt), the
/// host, then the remote command.
pub fn ssh_args(host: &str, remote_cmd: &[&str]) -> (r: Vec<String>)
    ensures
        views(r@) == seq!["-o"@, "BatchMode=yes"@, host@] + str_views(remote_cmd@),
{
    let mut r = vec![owned("-o"), owned("BatchMode=yes"), owned(host)];
    let ghost head = seq!["-o"@, "BatchMode=yes"@, host@];
    assert(views(r@) =~= head);
    let mut i: usize = 0;
    while i < remote_cmd.len()
        invariant
            i <= remote_cmd@.len(),
            views(r@) == head + str_views(remote_cmd@).take(i as int),
        decreases remote_cmd.len() - i,
    {
        let ghost before = views(r@);
        r.push(owned(remote_cmd[i]));
        assert(views(r@) =~= before.push(remote_cmd@[i as int]@));
        assert(str_views(remote_cmd@).take(i + 1) =~= str_views(remote_cmd@).take(i as int).push(remote_cmd@[i as int]@));
        i += 1;
    }
    assert(str_views(remote_cmd@).take(remote_cmd@.len() as int) =~= str_views(remote_cmd@));
    r
}

} // verus!
