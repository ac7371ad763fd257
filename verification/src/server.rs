//! The agent's HTTP surface, as decisions over the registry.
//!
//! Containers reach the agent on two routes: `GET /job/:id` to fetch their
//! work and `PUT /job/:id` to report status and progress.  Listening,
//! header transport and the callback forward are I/O and happen outside;
//! this module decides every answer.

use crate::digits::{parse_progress, spec_parse_progress};
use crate::job::Job;
use crate::tracking::{
    parse_status, spec_can_transition, spec_find_index, spec_parse_status, spec_updated_job,
    JobStatus, JobTracker,
};
use vstd::prelude::*;
use vstd::utf8::encode_utf8;

verus! {

/// The agent's answer to `GET /job/:id`.
pub enum GetJobResponse {
    /// 404: no such job.
    NotFound,
    /// 403: a completed job is not handed out again.
    RefusingCompleted,
    /// 200 with the job's id and its opaque body.
    Payload { id: String, body: String },
}

/// Serves `GET /job/:id`.  A pending job is moved to `Running` with
/// progress zero before it is handed out: this edge records that the
/// container has fetched its work, and it cannot fail.  Any other state
/// leaves the registry untouched.
pub fn handle_get_job(tracker: &mut JobTracker, id: &String, now: u64) -> (r: GetJobResponse)
    requires
        old(tracker).wf(),
    ensures
        final(tracker).wf(),
        ({
            let pre = old(tracker)@;
            let post = final(tracker)@;
            let k = spec_find_index(pre, id@);
            if k == -1 {
                &&& r is NotFound
                &&& post == pre
            } else if pre[k].status is Completed {
                &&& r is RefusingCompleted
                &&& post == pre
            } else {
                &&& r matches GetJobResponse::Payload { id: rid, body } && rid@ == pre[k].job.id
                    && body@ == pre[k].job.body
                &&& post == if pre[k].status is Pending {
                    pre.update(k, spec_updated_job(pre[k], JobStatus::Running, Some(0), now))
                } else {
                    pre
                }
            }
        }),
{
    let snap = match tracker.get_job(id) {
        None => {
            return GetJobResponse::NotFound;
        },
        Some(s) => s,
    };
    let status = *snap.status();
    if status == JobStatus::Completed {
        return GetJobResponse::RefusingCompleted;
    }
    if status == JobStatus::Pending {
        let res = tracker.update_status(id, JobStatus::Running, Some(0), now);
        proof {
            assert(spec_can_transition(JobStatus::Pending, JobStatus::Running));
            assert(res is Ok);
        }
    }
    let payload = match snap.inner() {
        Job::Docker(d) => GetJobResponse::Payload { id: d.id.clone(), body: d.body.clone() },
    };
    payload
}

/// Why a `PUT /job/:id` is refused before anything is forwarded.
#[derive(Debug, Clone, Copy, PartialEq, Eq, Structural)]
pub enum PutReject {
    /// 400: the status header is missing.
    MissingStatus,
    /// 400: the status header names no status.
    BadStatus,
    /// 404: no such job.
    NotFound,
}

/// What an accepted `PUT /job/:id` goes on to do: forward the body to the
/// callback URL first, then apply the status update.
pub struct PutPlan {
    /// The status the container reported.
    pub status: JobStatus,
    /// The reported progress in thousandths; absent or unreadable stays
    /// `None` and leaves the stored progress alone.
    pub progress: Option<u32>,
    /// Where the request body is forwarded, byte-exact, before the update.
    pub callback_url: String,
}

/// Reads the headers of a `PUT /job/:id` and looks the job up: a missing
/// or unreadable status header and an unknown id are refused; otherwise
/// the plan carries the parsed update and the job's callback URL.
pub fn plan_put_job(
    tracker: &JobTracker,
    id: &String,
    status_header: Option<&String>,
    progress_header: Option<&String>,
) -> (r: Result<PutPlan, PutReject>)
    ensures
        ({
            let k = spec_find_index(tracker@, id@);
            if status_header is None {
                r == Err::<PutPlan, PutReject>(PutReject::MissingStatus)
            } else if spec_parse_status(encode_utf8(status_header->0@)) is None {
                r == Err::<PutPlan, PutReject>(PutReject::BadStatus)
            } else if k == -1 {
                r == Err::<PutPlan, PutReject>(PutReject::NotFound)
            } else {
                r matches Ok(plan) && plan.status == spec_parse_status(
                    encode_utf8(status_header->0@),
                )->0 && plan.progress == (match progress_header {
                    Some(h) => spec_parse_progress(encode_utf8(h@)),
                    None => None,
                }) && plan.callback_url@ == tracker@[k].job.callback_url
            }
        }),
        r matches Ok(plan) ==> (plan.progress matches Some(p) ==> p <= 1000),
{
    let header = match status_header {
        None => {
            return Err(PutReject::MissingStatus);
        },
        Some(h) => h,
    };
    let status = match parse_status(header.as_str()) {
        None => {
            return Err(PutReject::BadStatus);
        },
        Some(s) => s,
    };
    let progress = match progress_header {
        Some(h) => parse_progress(h.as_str()),
        None => None,
    };
    let snap = match tracker.get_job(id) {
        None => {
            return Err(PutReject::NotFound);
        },
        Some(s) => s,
    };
    let callback_url = match snap.inner() {
        Job::Docker(d) => d.callback_url.clone(),
    };
    Ok(PutPlan { status, progress, callback_url })
}

} // verus!
