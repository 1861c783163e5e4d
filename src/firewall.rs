//! The packet-filter adapter. It owns a dedicated `iptables` chain linked into a
//! base chain, and plans the commands that set the chain up, tear it down, and
//! add or remove one reject rule per address. Running a command is left to the
//! caller, who reports back whether it succeeded; the adapter keeps the set of
//! addresses whose rule is in place, so that a deny or an allow is never repeated.

use vstd::prelude::*;
use crate::text::views;

verus! {

/// The name of the dedicated chain.
pub open spec fn chain_name() -> Seq<char> {
    "banalize"@
}

/// The base chain the dedicated chain is linked into, unless configured otherwise.
pub open spec fn default_link_chain() -> Seq<char> {
    "INPUT"@
}

/// The rule text after the address, shared by the deny and the allow command.
pub open spec fn rule_tail() -> Seq<char> {
    "/32 -j REJECT --reject-with icmp-port-unreachable"@
}

/// One step of setting up or tearing down the dedicated chain.
#[derive(Debug, Clone, Copy, PartialEq, Eq, Structural)]
pub enum ChainStep {
    /// Create the chain.
    Create,
    /// List the chain, to learn whether a failed creation found it already there.
    Check,
    /// Insert the jump to the chain at the head of the base chain.
    Link,
    /// Remove every rule of the chain.
    Flush,
    /// Remove the jump from the base chain.
    Unlink,
    /// Delete the chain.
    Delete,
}

/// Which procedure a task runs.
#[derive(Debug, Clone, Copy, PartialEq, Eq, Structural)]
pub enum Procedure {
    /// Create (or find), link and flush the chain.
    Init,
    /// Flush, unlink and delete the chain.
    Cleanup,
    /// Unlink the chain only.
    Unlink,
    /// Delete the chain only.
    Delete,
}

/// Why setting up or tearing down the chain failed.
#[derive(Debug, Clone, Copy, PartialEq, Eq, Structural)]
pub enum FirewallError {
    /// The chain could neither be created nor found.
    CreateChainFailed,
    /// The chain could not be flushed.
    FlushChainFailed,
}

/// The step after `step` of procedure `p` once its command succeeded (`ok`) or
/// failed, and the result where the procedure ends there. Failures to link,
/// unlink or delete are tolerated: the object may already be in the wanted state.
pub open spec fn after(p: Procedure, step: ChainStep, ok: bool) -> (Option<ChainStep>, Result<(), FirewallError>) {
    match step {
        ChainStep::Create => if ok { (Some(ChainStep::Link), Ok(())) } else { (Some(ChainStep::Check), Ok(())) },
        ChainStep::Check => if ok {
            (Some(ChainStep::Link), Ok(()))
        } else {
            (None, Err(FirewallError::CreateChainFailed))
        },
        ChainStep::Link => (Some(ChainStep::Flush), Ok(())),
        ChainStep::Flush => if !ok {
            (None, Err(FirewallError::FlushChainFailed))
        } else if p == Procedure::Cleanup {
            (Some(ChainStep::Unlink), Ok(()))
        } else {
            (None, Ok(()))
        },
        ChainStep::Unlink => if p == Procedure::Cleanup {
            (Some(ChainStep::Delete), Ok(()))
        } else {
            (None, Ok(()))
        },
        ChainStep::Delete => (None, Ok(())),
    }
}

/// The first step of a procedure.
pub open spec fn first_step(p: Procedure) -> ChainStep {
    match p {
        Procedure::Init => ChainStep::Create,
        Procedure::Cleanup => ChainStep::Flush,
        Procedure::Unlink => ChainStep::Unlink,
        Procedure::Delete => ChainStep::Delete,
    }
}

/// A chain procedure under way: the step whose command is to run next, or the
/// result once none is left.
pub struct ChainTask {
    pub procedure: Procedure,
    pub next: Option<ChainStep>,
    pub result: Result<(), FirewallError>,
}

impl ChainTask {
    fn start(p: Procedure) -> (r: ChainTask)
        ensures
            r.procedure == p,
            r.next == Some(first_step(p)),
            r.result is Ok,
    {
        let first = match p {
            Procedure::Init => ChainStep::Create,
            Procedure::Cleanup => ChainStep::Flush,
            Procedure::Unlink => ChainStep::Unlink,
            Procedure::Delete => ChainStep::Delete,
        };
        ChainTask { procedure: p, next: Some(first), result: Ok(()) }
    }

    /// Moves past the current step, given whether its command succeeded.
    pub fn advance(&mut self, ok: bool)
        requires
            old(self).next is Some,
        ensures
            final(self).procedure == old(self).procedure,
            (final(self).next, final(self).result) == after(old(self).procedure, old(self).next->0, ok),
    {
        let step = match self.next {
            Some(s) => s,
            None => return,
        };
        let p = self.procedure;
        let (next, result) = match step {
            ChainStep::Create => if ok {
                (Some(ChainStep::Link), Ok(()))
            } else {
                (Some(ChainStep::Check), Ok(()))
            },
            ChainStep::Check => if ok {
                (Some(ChainStep::Link), Ok(()))
            } else {
                (None, Err(FirewallError::CreateChainFailed))
            },
            ChainStep::Link => (Some(ChainStep::Flush), Ok(())),
            ChainStep::Flush => if !ok {
                (None, Err(FirewallError::FlushChainFailed))
            } else if p == Procedure::Cleanup {
                (Some(ChainStep::Unlink), Ok(()))
            } else {
                (None, Ok(()))
            },
            ChainStep::Unlink => if p == Procedure::Cleanup {
                (Some(ChainStep::Delete), Ok(()))
            } else {
                (None, Ok(()))
            },
            ChainStep::Delete => (None, Ok(())),
        };
        self.next = next;
        self.result = result;
    }

    /// The result, once no step is left.
    pub fn outcome(&self) -> (r: Option<Result<(), FirewallError>>)
        ensures
            self.next is Some ==> r is None,
            self.next is None ==> r == Some(self.result),
    {
        match self.next {
            Some(_) => None,
            None => Some(self.result),
        }
    }
}

/// The adapter's state: the chain names and the addresses whose reject rule is in place.
pub struct Firewall {
    chain: String,
    link_chain: String,
    banned_ips: Vec<String>,
}

impl Firewall {
    /// The dedicated chain.
    pub closed spec fn chain(&self) -> Seq<char> {
        self.chain@
    }

    /// The base chain.
    pub closed spec fn link_chain(&self) -> Seq<char> {
        self.link_chain@
    }

    /// The addresses whose reject rule is in place.
    pub closed spec fn denied(&self) -> Seq<Seq<char>> {
        views(self.banned_ips@)
    }

    /// No address is held twice.
    pub open spec fn wf(&self) -> bool {
        self.denied().no_duplicates()
    }

    /// The command that runs `step`.
    pub open spec fn step_command(&self, step: ChainStep) -> Seq<char> {
        match step {
            ChainStep::Create => "iptables -N "@ + self.chain(),
            ChainStep::Check => "iptables -L "@ + self.chain() + " -n"@,
            ChainStep::Link => "iptables -I "@ + self.link_chain() + " -j "@ + self.chain(),
            ChainStep::Flush => "iptables -F "@ + self.chain(),
            ChainStep::Unlink => "iptables -D "@ + self.link_chain() + " -j "@ + self.chain(),
            ChainStep::Delete => "iptables -X "@ + self.chain(),
        }
    }

    /// The command that rejects traffic from `ip`.
    pub open spec fn deny_command(&self, ip: Seq<char>) -> Seq<char> {
        "iptables -A "@ + self.chain() + " -s "@ + ip + rule_tail()
    }

    /// The command that removes the reject rule of `ip`.
    pub open spec fn allow_command(&self, ip: Seq<char>) -> Seq<char> {
        "iptables -D "@ + self.chain() + " -s "@ + ip + rule_tail()
    }

    /// An adapter with no rule in place, linking into `link_chain` where one is
    /// configured and into the inbound base chain otherwise.
    pub fn new(link_chain: Option<String>) -> (r: Firewall)
        ensures
            r.wf(),
            r.denied().len() == 0,
            r.chain() == chain_name(),
            r.link_chain() == match link_chain {
                Some(l) => l@,
                None => default_link_chain(),
            },
    {
        let link = match link_chain {
            Some(l) => l,
            None => "INPUT".to_string(),
        };
        let r = Firewall { chain: "banalize".to_string(), link_chain: link, banned_ips: Vec::new() };
        assert(r.denied() =~= Seq::<Seq<char>>::empty());
        r
    }

    /// Renders the command of a chain step.
    pub fn command(&self, step: ChainStep) -> (r: String)
        ensures
            r@ == self.step_command(step),
    {
        let mut out = String::new();
        match step {
            ChainStep::Create => {
                out.append("iptables -N ");
                out.append(self.chain.as_str());
            },
            ChainStep::Check => {
                out.append("iptables -L ");
                out.append(self.chain.as_str());
                out.append(" -n");
            },
            ChainStep::Link => {
                out.append("iptables -I ");
                out.append(self.link_chain.as_str());
                out.append(" -j ");
                out.append(self.chain.as_str());
            },
            ChainStep::Flush => {
                out.append("iptables -F ");
                out.append(self.chain.as_str());
            },
            ChainStep::Unlink => {
                out.append("iptables -D ");
                out.append(self.link_chain.as_str());
                out.append(" -j ");
                out.append(self.chain.as_str());
            },
            ChainStep::Delete => {
                out.append("iptables -X ");
                out.append(self.chain.as_str());
            },
        }
        assert(out@ =~= self.step_command(step));
        out
    }

    /// Starts setting up the chain: create it (or find it already there), link it
    /// first into the base chain, and flush it.
    pub fn init(&self) -> (r: ChainTask)
        ensures
            r.procedure == Procedure::Init,
            r.next == Some(ChainStep::Create),
            r.result is Ok,
    {
        ChainTask::start(Procedure::Init)
    }

    /// Starts tearing the chain down: flush, unlink, delete.
    pub fn cleanup(&self) -> (r: ChainTask)
        ensures
            r.procedure == Procedure::Cleanup,
            r.next == Some(ChainStep::Flush),
            r.result is Ok,
    {
        ChainTask::start(Procedure::Cleanup)
    }

    /// Starts removing the jump from the base chain; a failure is tolerated.
    pub fn unlink_chain(&self) -> (r: ChainTask)
        ensures
            r.procedure == Procedure::Unlink,
            r.next == Some(ChainStep::Unlink),
            r.result is Ok,
    {
        ChainTask::start(Procedure::Unlink)
    }

    /// Starts deleting the chain; a failure is tolerated.
    pub fn delete_chain(&self) -> (r: ChainTask)
        ensures
            r.procedure == Procedure::Delete,
            r.next == Some(ChainStep::Delete),
            r.result is Ok,
    {
        ChainTask::start(Procedure::Delete)
    }

    fn find(&self, ip: &String) -> (r: Option<usize>)
        ensures
            r matches Some(i) ==> i < self.denied().len() && self.denied()[i as int] == ip@,
            r is None <==> !self.denied().contains(ip@),
    {
        let mut i: usize = 0;
        while i < self.banned_ips.len()
            invariant
                i <= self.banned_ips@.len(),
                forall|k: int| 0 <= k < i ==> self.denied()[k] != ip@,
            decreases self.banned_ips@.len() - i,
        {
            if self.banned_ips[i] == *ip {
                assert(self.denied()[i as int] == ip@);
                return Some(i);
            }
            i = i + 1;
        }
        None
    }

    /// Whether the reject rule of `ip` is in place.
    pub fn is_denied(&self, ip: &str) -> (r: bool)
        ensures
            r == self.denied().contains(ip@),
    {
        self.find(&ip.to_string()).is_some()
    }

    fn rule_command(&self, verb: &str, ip: &str) -> (r: String)
        ensures
            r@ == verb@ + self.chain() + " -s "@ + ip@ + rule_tail(),
    {
        let mut out = String::new();
        out.append(verb);
        out.append(self.chain.as_str());
        out.append(" -s ");
        out.append(ip);
        out.append("/32 -j REJECT --reject-with icmp-port-unreachable");
        assert(out@ =~= verb@ + self.chain() + " -s "@ + ip@ + rule_tail());
        out
    }

    /// The command that rejects traffic from `ip`.
    pub fn build_deny_command(&self, ip: &str) -> (r: String)
        ensures
            r@ == self.deny_command(ip@),
    {
        self.rule_command("iptables -A ", ip)
    }

    /// The command that removes the reject rule of `ip`.
    pub fn build_allow_command(&self, ip: &str) -> (r: String)
        ensures
            r@ == self.allow_command(ip@),
    {
        self.rule_command("iptables -D ", ip)
    }

    /// The command to run to deny `ip`, or none where its rule is already in place.
    pub fn deny_ip_sync(&self, ip: &str) -> (r: Option<String>)
        ensures
            self.denied().contains(ip@) ==> r is None,
            !self.denied().contains(ip@) ==> (r matches Some(c) && c@ == self.deny_command(ip@)),
    {
        if self.is_denied(ip) {
            None
        } else {
            Some(self.build_deny_command(ip))
        }
    }

    /// The command to run to allow `ip` again, or none where it has no rule in place.
    pub fn allow_ip_sync(&self, ip: &str) -> (r: Option<String>)
        ensures
            !self.denied().contains(ip@) ==> r is None,
            self.denied().contains(ip@) ==> (r matches Some(c) && c@ == self.allow_command(ip@)),
    {
        if self.is_denied(ip) {
            Some(self.build_allow_command(ip))
        } else {
            None
        }
    }

    /// Takes note of how the deny command of `ip` went: on success its rule is in place.
    pub fn record_deny(&mut self, ip: &str, ok: bool)
        requires
            old(self).wf(),
        ensures
            final(self).wf(),
            final(self).chain() == old(self).chain(),
            final(self).link_chain() == old(self).link_chain(),
            forall|x: Seq<char>| #[trigger] final(self).denied().contains(x) <==> (old(self).denied().contains(x)
                || (ok && x == ip@)),
    {
        if ok && !self.is_denied(ip) {
            let ghost before = self.denied();
            self.banned_ips.push(ip.to_string());
            assert(self.denied() =~= before.push(ip@));
            assert forall|x: Seq<char>| #[trigger] self.denied().contains(x) <==> (before.contains(x) || x == ip@) by {
                if self.denied().contains(x) {
                    let k = choose|k: int| 0 <= k < self.denied().len() && self.denied()[k] == x;
                    if k < before.len() {
                        assert(before[k] == x);
                    }
                }
                if before.contains(x) {
                    let k = choose|k: int| 0 <= k < before.len() && before[k] == x;
                    assert(self.denied()[k] == x);
                }
                if x == ip@ {
                    assert(self.denied()[before.len() as int] == x);
                }
            }
        }
    }

    /// Takes note of how the allow command of `ip` went: on success its rule is gone.
    pub fn record_allow(&mut self, ip: &str, ok: bool)
        requires
            old(self).wf(),
        ensures
            final(self).wf(),
            final(self).chain() == old(self).chain(),
            final(self).link_chain() == old(self).link_chain(),
            forall|x: Seq<char>| #[trigger] final(self).denied().contains(x) <==> (old(self).denied().contains(x)
                && !(ok && x == ip@)),
    {
        if !ok {
            return;
        }
        match self.find(&ip.to_string()) {
            Some(i) => {
                let ghost before = self.denied();
                self.banned_ips.remove(i);
                assert(self.denied() =~= before.remove(i as int));
                assert forall|x: Seq<char>| #[trigger] self.denied().contains(x) <==> (before.contains(x)
                    && x != ip@) by {
                    if self.denied().contains(x) {
                        let k = choose|k: int| 0 <= k < self.denied().len() && self.denied()[k] == x;
                        if k < i {
                            assert(before[k] == x);
                        } else {
                            assert(before[k + 1] == x);
                        }
                    }
                    if before.contains(x) && x != ip@ {
                        let k = choose|k: int| 0 <= k < before.len() && before[k] == x;
                        if k < i {
                            assert(self.denied()[k] == x);
                        } else {
                            assert(k != i);
                            assert(self.denied()[k - 1] == x);
                        }
                    }
                }
            },
            None => {},
        }
    }

    /// The addresses among `ips` whose rule is to be put back at startup: each
    /// address not yet in place, once, in order of first appearance.
    pub fn restore_bans(&self, ips: &Vec<String>) -> (r: Vec<String>)
        ensures
            views(r@).no_duplicates(),
            forall|x: Seq<char>| #[trigger] views(r@).contains(x) <==> (views(ips@).contains(x)
                && !self.denied().contains(x)),
    {
        let mut out: Vec<String> = Vec::new();
        let mut i: usize = 0;
        while i < ips.len()
            invariant
                i <= ips@.len(),
                views(out@).no_duplicates(),
                forall|x: Seq<char>| #[trigger] views(out@).contains(x) <==> (views(ips@).subrange(0, i as int).contains(x)
                    && !self.denied().contains(x)),
            decreases ips@.len() - i,
        {
            let ip = &ips[i];
            let ghost before = views(out@);
            let ghost pre = views(ips@).subrange(0, i as int + 1);
            assert(pre =~= views(ips@).subrange(0, i as int).push(ip@));
            if !self.is_denied(ip.as_str()) && !contains_string(&out, ip) {
                out.push(ip.clone());
                assert(views(out@) =~= before.push(ip@));
            }
            assert forall|x: Seq<char>| #[trigger] views(out@).contains(x) <==> (pre.contains(x)
                && !self.denied().contains(x)) by {
                let q = views(ips@).subrange(0, i as int);
                if pre.contains(x) && x != ip@ {
                    let k = choose|k: int| 0 <= k < pre.len() && pre[k] == x;
                    assert(q[k] == x);
                }
                if q.contains(x) {
                    let k = choose|k: int| 0 <= k < q.len() && q[k] == x;
                    assert(pre[k] == x);
                }
                assert(pre[i as int] == ip@);
                if views(out@).contains(x) && x != ip@ {
                    let k = choose|k: int| 0 <= k < views(out@).len() && views(out@)[k] == x;
                    assert(before[k] == x);
                }
                if before.contains(x) {
                    let k = choose|k: int| 0 <= k < before.len() && before[k] == x;
                    assert(views(out@)[k] == x);
                }
                if views(out@).len() > before.len() {
                    assert(views(out@)[before.len() as int] == ip@);
                }
            }
            i = i + 1;
        }
        assert(views(ips@).subrange(0, ips@.len() as int) =~= views(ips@));
        out
    }
}

/// Whether `v` holds a string equal to `s`.
pub fn contains_string(v: &Vec<String>, s: &String) -> (r: bool)
    ensures
        r == views(v@).contains(s@),
{
    let mut i: usize = 0;
    while i < v.len()
        invariant
            i <= v@.len(),
            forall|k: int| 0 <= k < i ==> views(v@)[k] != s@,
        decreases v@.len() - i,
    {
        if v[i] == *s {
            assert(views(v@)[i as int] == s@);
            return true;
        }
        i = i + 1;
    }
    false
}

} // verus!
