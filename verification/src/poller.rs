//! The poller's decisions: when to ask the control plane for work and what
//! to do with a batch of jobs.
//!
//! The fetch itself is HTTP and happens outside; this module decides
//! whether a fetch may happen at all (the admission gate), turns a fetched
//! batch into the ordered command list (insert each job before executing
//! it), and renders the headers the poll request carries.

use crate::job::{Job, JobModel};
use vstd::prelude::*;

verus! {

/// What the poller does at the top of one iteration.
#[derive(Debug, Clone, Copy, PartialEq, Eq, Structural)]
pub enum PollGate {
    /// Shutdown was signalled: leave the loop.
    Exit,
    /// The running count is at or past the cap: sleep without fetching.
    Sleep,
    /// Fetch a batch of jobs.
    Poll,
}

/// The admission rule: exit on shutdown, throttle at the concurrency cap,
/// poll otherwise.
pub open spec fn spec_poll_gate(shutdown: bool, running: nat, max_concurrent: nat) -> PollGate {
    if shutdown {
        PollGate::Exit
    } else if running >= max_concurrent {
        PollGate::Sleep
    } else {
        PollGate::Poll
    }
}

/// Decides what the poller does this iteration.
pub fn poll_gate(shutdown: bool, running: usize, max_concurrent: u64) -> (r: PollGate)
    ensures
        r == spec_poll_gate(shutdown, running as nat, max_concurrent as nat),
{
    if shutdown {
        PollGate::Exit
    } else if running as u64 >= max_concurrent {
        PollGate::Sleep
    } else {
        PollGate::Poll
    }
}

/// While the running count sits at (or past) the cap, the poller fetches
/// nothing, so no Execute is issued until the count drops.
pub proof fn lemma_at_capacity_never_polls(shutdown: bool, running: nat, max_concurrent: nat)
    requires
        running >= max_concurrent,
    ensures
        spec_poll_gate(shutdown, running, max_concurrent) != PollGate::Poll,
{
}

/// One command the poller issues for a fetched job.
pub enum PollerAction {
    /// Hand the job to the tracker.
    Insert(Job),
    /// Hand the job to the executor.
    Execute(Job),
}

impl View for PollerAction {
    /// `true` tags an insert; the model of the job follows.
    type V = (bool, JobModel);

    open spec fn view(&self) -> (bool, JobModel) {
        match self {
            PollerAction::Insert(j) => (true, j@),
            PollerAction::Execute(j) => (false, j@),
        }
    }
}

/// The command list for a batch: for each job, in batch order, an insert
/// directly followed by an execute of that same job.
pub open spec fn spec_batch_plan(jobs: Seq<JobModel>) -> Seq<(bool, JobModel)>
    decreases jobs.len(),
{
    if jobs.len() == 0 {
        Seq::empty()
    } else {
        spec_batch_plan(jobs.drop_last()).push((true, jobs.last())).push((false, jobs.last()))
    }
}

/// Turns a fetched batch into the ordered command list: every job is
/// inserted into the tracker before it is handed to the executor.
#[verifier::loop_isolation(false)]
pub fn batch_plan(jobs: &Vec<Job>) -> (r: Vec<PollerAction>)
    ensures
        r@.map_values(|a: PollerAction| a@) == spec_batch_plan(jobs@.map_values(|j: Job| j@)),
{
    let ghost jm = jobs@.map_values(|j: Job| j@);
    let n = jobs.len();
    let mut r: Vec<PollerAction> = Vec::new();
    let mut i: usize = 0;
    while i < n
        invariant
            i <= n,
            n == jobs.len(),
            r@.map_values(|a: PollerAction| a@) == spec_batch_plan(jm.take(i as int)),
        decreases n - i,
    {
        proof {
            assert(jm.take(i + 1).drop_last() =~= jm.take(i as int));
            assert(jm.take(i + 1).last() == jm[i as int]);
        }
        r.push(PollerAction::Insert(jobs[i].clone()));
        r.push(PollerAction::Execute(jobs[i].clone()));
        proof {
            assert(r@.map_values(|a: PollerAction| a@) =~= spec_batch_plan(jm.take(i + 1)));
        }
        i = i + 1;
    }
    proof {
        assert(jm.take(n as int) =~= jm);
    }
    r
}

/// The `Authorization` header the poll request carries.
pub fn authorization_header(token: &String) -> (r: String)
    ensures
        r@ == "Bearer "@ + token@,
{
    let mut out = String::new();
    out.append("Bearer ");
    out.append(token.as_str());
    proof {
        assert(out@ =~= "Bearer "@ + token@);
    }
    out
}

/// The `User-Agent` string: `foreman/<version> (<os>, <arch>)`.
pub fn user_agent(version: &String, os: &String, arch: &String) -> (r: String)
    ensures
        r@ == "foreman/"@ + version@ + " ("@ + os@ + ", "@ + arch@ + ")"@,
{
    let mut out = String::new();
    out.append("foreman/");
    out.append(version.as_str());
    out.append(" (");
    out.append(os.as_str());
    out.append(", ");
    out.append(arch.as_str());
    out.append(")");
    proof {
        assert(out@ =~= "foreman/"@ + version@ + " ("@ + os@ + ", "@ + arch@ + ")"@);
    }
    out
}

} // verus!
