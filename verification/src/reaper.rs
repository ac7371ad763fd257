//! The reaper's decisions: which containers to stop or remove this pass.
//!
//! The reaper walks the registry's answers and turns them into an ordered
//! action list.  Sending the commands and sleeping between passes happens
//! outside; every `Stop` here is followed by marking the job `Stopped` in
//! the tracker, every `Remove` by marking it `Finished`.

use vstd::prelude::*;

verus! {

/// One clean-up command the reaper issues to the executor.
pub enum ReaperAction {
    /// Stop the job's container, then mark the job `Stopped`.
    Stop { job_id: String },
    /// Remove the job's container, then mark the job `Finished`.
    Remove { job_id: String },
}

impl View for ReaperAction {
    /// `true` tags a stop; the job id follows.
    type V = (bool, Seq<char>);

    open spec fn view(&self) -> (bool, Seq<char>) {
        match self {
            ReaperAction::Stop { job_id } => (true, job_id@),
            ReaperAction::Remove { job_id } => (false, job_id@),
        }
    }
}

/// A stop command for each id, in order.
pub open spec fn spec_stops_of(ids: Seq<Seq<char>>) -> Seq<(bool, Seq<char>)> {
    ids.map_values(|id: Seq<char>| (true, id))
}

/// A remove command for each id, in order.
pub open spec fn spec_removes_of(ids: Seq<Seq<char>>) -> Seq<(bool, Seq<char>)> {
    ids.map_values(|id: Seq<char>| (false, id))
}

#[verifier::loop_isolation(false)]
fn push_actions(r: &mut Vec<ReaperAction>, ids: &Vec<String>, stop: bool)
    ensures
        final(r)@.map_values(|a: ReaperAction| a@) == old(r)@.map_values(|a: ReaperAction| a@) + (
        if stop {
            spec_stops_of(ids.deep_view())
        } else {
            spec_removes_of(ids.deep_view())
        }),
{
    let ghost base = old(r)@;
    let ghost dv = ids.deep_view();
    let n = ids.len();
    let mut i: usize = 0;
    while i < n
        invariant
            i <= n,
            n == ids.len(),
            r@.len() == base.len() + i,
            forall|k: int| 0 <= k < base.len() ==> r@[k] == base[k],
            forall|k: int| 0 <= k < i ==> (#[trigger] r@[base.len() + k])@ == (stop, dv[k]),
        decreases n - i,
    {
        let job_id = ids[i].clone();
        proof {
            assert(dv[i as int] == ids@[i as int]@);
            assert(job_id@ == dv[i as int]);
        }
        if stop {
            r.push(ReaperAction::Stop { job_id });
        } else {
            r.push(ReaperAction::Remove { job_id });
        }
        i = i + 1;
    }
    proof {
        let lhs = r@.map_values(|a: ReaperAction| a@);
        let target = base.map_values(|a: ReaperAction| a@) + (if stop {
            spec_stops_of(dv)
        } else {
            spec_removes_of(dv)
        });
        assert forall|k: int| 0 <= k < lhs.len() implies lhs[k] == target[k] by {
            assert(lhs[k] == r@[k]@);
            if k < base.len() {
                assert(r@[k] == base[k]);
            } else {
                let j = k - base.len();
                assert(r@[base.len() + j]@ == (stop, dv[j]));
            }
        }
        assert(lhs =~= target);
    }
}

/// The actions of one ordinary reaper pass: stop every completed job, then
/// stop every timed-out job, then remove every stopped job that has aged
/// out — in exactly that order.
pub fn reaper_pass_plan(
    completed: &Vec<String>,
    timed_out: &Vec<String>,
    stopped_expired: &Vec<String>,
) -> (r: Vec<ReaperAction>)
    ensures
        r@.map_values(|a: ReaperAction| a@) == spec_stops_of(completed.deep_view())
            + spec_stops_of(timed_out.deep_view()) + spec_removes_of(
            stopped_expired.deep_view(),
        ),
{
    let mut r: Vec<ReaperAction> = Vec::new();
    proof {
        assert(r@.map_values(|a: ReaperAction| a@) =~= Seq::<(bool, Seq<char>)>::empty());
        assert(Seq::<(bool, Seq<char>)>::empty() + spec_stops_of(completed.deep_view())
            =~= spec_stops_of(completed.deep_view()));
    }
    push_actions(&mut r, completed, true);
    push_actions(&mut r, timed_out, true);
    push_actions(&mut r, stopped_expired, false);
    r
}

/// The drain actions at shutdown: stop every running job, then, when
/// configured to, remove every stopped one.
pub fn shutdown_plan(running: &Vec<String>, stopped: &Vec<String>, remove_stopped: bool) -> (r:
    Vec<ReaperAction>)
    ensures
        r@.map_values(|a: ReaperAction| a@) == spec_stops_of(running.deep_view()) + (
        if remove_stopped {
            spec_removes_of(stopped.deep_view())
        } else {
            Seq::<(bool, Seq<char>)>::empty()
        }),
{
    let mut r: Vec<ReaperAction> = Vec::new();
    proof {
        assert(r@.map_values(|a: ReaperAction| a@) =~= Seq::<(bool, Seq<char>)>::empty());
        assert(Seq::<(bool, Seq<char>)>::empty() + spec_stops_of(running.deep_view())
            =~= spec_stops_of(running.deep_view()));
    }
    push_actions(&mut r, running, true);
    if remove_stopped {
        push_actions(&mut r, stopped, false);
    } else {
        proof {
            assert(spec_stops_of(running.deep_view()) + Seq::<(bool, Seq<char>)>::empty()
                =~= spec_stops_of(running.deep_view()));
        }
    }
    r
}

/// Whether the reaper has drained everything and may exit: shutdown was
/// signalled and nothing is running or stopped any more.
pub fn reaper_should_exit(shutdown: bool, running_count: usize, stopped_count: usize) -> (r: bool)
    ensures
        r == (shutdown && running_count == 0 && stopped_count == 0),
{
    shutdown && running_count == 0 && stopped_count == 0
}

} // verus!
