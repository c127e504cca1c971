//! Firewall rules that cut a process off the network: their names and the commands that add
//! and remove them. Running the commands is the application's.

use vstd::prelude::*;
use crate::detection::patterns::string_views;
use crate::error::AgentError;
use crate::num::{decimal, is_digit, lemma_decimal_starts_with_digit, push_decimal};
use crate::text::{chars_of, push_str, slice_range, starts_with, string_of};

verus! {

/// The prefix of every firewall rule that the agent installs.
pub const RULE_PREFIX: &'static str = "aegisone-block-";

/// The name of the rule that blocks `pid`.
pub open spec fn rule_name_text(pid: u32) -> Seq<char> {
    RULE_PREFIX@ + decimal(pid as nat)
}

/// The name of the rule that blocks `pid`.
pub fn rule_name(pid: u32) -> (r: String)
    ensures
        r@ == rule_name_text(pid),
{
    let mut out: Vec<char> = Vec::new();
    push_str(&mut out, RULE_PREFIX);
    push_decimal(&mut out, pid as u64);
    string_of(out.as_slice())
}

/// `s` with every leading copy of `p` removed, as `trim_start_matches` removes them.
pub open spec fn trim_start_matches_spec(s: Seq<char>, p: Seq<char>) -> Seq<char>
    decreases s.len(),
{
    if p.len() > 0 && p.len() <= s.len() && s.take(p.len() as int) == p {
        trim_start_matches_spec(s.skip(p.len() as int), p)
    } else {
        s
    }
}

/// The pid text of a rule name: the name without its leading copies of the rule prefix.
pub fn rule_pid_text(rule: &str) -> (r: String)
    ensures
        r@ == trim_start_matches_spec(rule@, RULE_PREFIX@),
{
    let s = chars_of(rule);
    let p = chars_of(RULE_PREFIX);
    let n = s.len();
    let m = p.len();
    let mut i: usize = 0;
    assert(s@.skip(0) =~= s@);
    while m > 0 && m <= n - i && starts_with(&s.as_slice()[i..n], p.as_slice())
        invariant
            i <= n,
            n == s@.len(),
            m == p@.len(),
            trim_start_matches_spec(s@.skip(i as int), p@) == trim_start_matches_spec(s@, p@),
        decreases n - i,
    {
        assert(s@.skip(i as int).skip(m as int) =~= s@.skip(i + m));
        i = i + m;
    }
    let r = slice_range(s.as_slice(), i, n);
    assert(r@ =~= s@.skip(i as int));
    string_of(r.as_slice())
}

/// The arguments of `iptables` for `action` (`-A` to add, `-D` to delete) on the rule that
/// drops outbound traffic of the process `pid`.
pub open spec fn iptables_args_spec(action: Seq<char>, pid: Seq<char>) -> Seq<Seq<char>> {
    seq![action, "OUTPUT"@, "-m"@, "owner"@, "--pid-owner"@, pid, "-j"@, "DROP"@]
}

/// The arguments of `iptables` for `action` on the rule that drops outbound traffic of `pid`.
pub fn iptables_args(action: &str, pid: &str) -> (r: Vec<String>)
    ensures
        string_views(r@) == iptables_args_spec(action@, pid@),
{
    let mut r: Vec<String> = Vec::new();
    r.push(action.to_owned());
    r.push("OUTPUT".to_owned());
    r.push("-m".to_owned());
    r.push("owner".to_owned());
    r.push("--pid-owner".to_owned());
    r.push(pid.to_owned());
    r.push("-j".to_owned());
    r.push("DROP".to_owned());
    assert(string_views(r@) =~= iptables_args_spec(action@, pid@));
    r
}

/// The arguments of `iptables` that block `pid`.
pub fn iptables_block_args(pid: u32) -> (r: Vec<String>)
    ensures
        string_views(r@) == iptables_args_spec("-A"@, decimal(pid as nat)),
{
    let mut t: Vec<char> = Vec::new();
    push_decimal(&mut t, pid as u64);
    let p = string_of(t.as_slice());
    iptables_args("-A", p.as_str())
}

/// The arguments of `iptables` that remove the rule named `rule`.
pub fn iptables_unblock_args(rule: &str) -> (r: Vec<String>)
    ensures
        string_views(r@) == iptables_args_spec("-D"@, trim_start_matches_spec(rule@, RULE_PREFIX@)),
{
    let p = rule_pid_text(rule);
    iptables_args("-D", p.as_str())
}

fn prefixed(prefix: &str, s: &str) -> (r: String)
    ensures
        r@ == prefix@ + s@,
{
    let mut out: Vec<char> = Vec::new();
    push_str(&mut out, prefix);
    push_str(&mut out, s);
    string_of(out.as_slice())
}

/// The arguments of `netsh` that add the outbound block rule `rule`, for the program at
/// `program` where its path is known.
pub open spec fn netsh_add_args_spec(rule: Seq<char>, program: Option<Seq<char>>) -> Seq<Seq<char>> {
    let base = seq![
        "advfirewall"@,
        "firewall"@,
        "add"@,
        "rule"@,
        "name="@ + rule,
        "dir=out"@,
        "action=block"@,
    ];
    match program {
        Some(p) => base.push("program="@ + p),
        None => base,
    }
}

/// The arguments of `netsh` that add the outbound block rule `rule`.
pub fn netsh_add_args(rule: &str, program: Option<&str>) -> (r: Vec<String>)
    ensures
        string_views(r@) == netsh_add_args_spec(
            rule@,
            match program {
                Some(p) => Some(p@),
                None => None,
            },
        ),
{
    let mut r: Vec<String> = Vec::new();
    r.push("advfirewall".to_owned());
    r.push("firewall".to_owned());
    r.push("add".to_owned());
    r.push("rule".to_owned());
    r.push(prefixed("name=", rule));
    r.push("dir=out".to_owned());
    r.push("action=block".to_owned());
    match program {
        Some(p) => r.push(prefixed("program=", p)),
        None => {},
    }
    assert(string_views(r@) =~= netsh_add_args_spec(
        rule@,
        match program {
            Some(p) => Some(p@),
            None => None,
        },
    ));
    r
}

/// The arguments of `netsh` that delete the rule `rule`.
pub open spec fn netsh_delete_args_spec(rule: Seq<char>) -> Seq<Seq<char>> {
    seq!["advfirewall"@, "firewall"@, "delete"@, "rule"@, "name="@ + rule]
}

/// The arguments of `netsh` that delete the rule `rule`.
pub fn netsh_delete_args(rule: &str) -> (r: Vec<String>)
    ensures
        string_views(r@) == netsh_delete_args_spec(rule@),
{
    let mut r: Vec<String> = Vec::new();
    r.push("advfirewall".to_owned());
    r.push("firewall".to_owned());
    r.push("delete".to_owned());
    r.push("rule".to_owned());
    r.push(prefixed("name=", rule));
    assert(string_views(r@) =~= netsh_delete_args_spec(rule@));
    r
}

/// The error of a firewall tool that failed to block `pid`, with what it printed.
pub fn block_failure(pid: u32, tool: &str, stderr: &str) -> (r: AgentError)
    ensures
        r matches AgentError::NetworkBlock { pid: p, reason } && p == pid && reason@ == tool@
            + " failed: "@ + stderr@,
{
    let mut out: Vec<char> = Vec::new();
    push_str(&mut out, tool);
    push_str(&mut out, " failed: ");
    push_str(&mut out, stderr);
    AgentError::NetworkBlock { pid, reason: string_of(out.as_slice()) }
}

/// Removing the rule that blocks `pid` names the same process that blocking it named: the
/// pid text of the rule's name is the pid's decimal text.
pub proof fn lemma_unblock_undoes_block(pid: u32)
    ensures
        trim_start_matches_spec(rule_name_text(pid), RULE_PREFIX@) == decimal(pid as nat),
        iptables_args_spec("-D"@, trim_start_matches_spec(rule_name_text(pid), RULE_PREFIX@))
            == iptables_args_spec("-D"@, decimal(pid as nat)),
{
    reveal_strlit("aegisone-block-");
    let p = RULE_PREFIX@;
    let d = decimal(pid as nat);
    let s = rule_name_text(pid);
    lemma_decimal_starts_with_digit(pid as nat);
    assert(s.take(p.len() as int) =~= p);
    assert(s.skip(p.len() as int) =~= d);
    assert(d.len() < p.len() || d.take(p.len() as int) != p) by {
        if d.len() >= p.len() {
            assert(d.take(p.len() as int)[0] == d[0]);
            assert(p[0] == 'a');
            assert(!is_digit('a'));
        }
    }
    assert(p.len() > 0);
    assert(trim_start_matches_spec(d, p) == d);
    assert(trim_start_matches_spec(s, p) == trim_start_matches_spec(s.skip(p.len() as int), p));
}

} // verus!
