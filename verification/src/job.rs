//! The unit of work the control plane hands out.
//!
//! Today every job is a container run; the tag leaves room for other
//! executors.  The `body` field carries the raw JSON payload the control
//! plane attached, handed back to the container verbatim.

use crate::env::EnvVars;
use vstd::prelude::*;

verus! {

/// Mathematical image of a container job.
#[verifier::ext_equal]
pub ghost struct JobModel {
    pub id: Seq<char>,
    pub image: Seq<char>,
    pub port: u16,
    pub command: Option<Seq<Seq<char>>>,
    pub body: Seq<char>,
    pub env: Option<Seq<(Seq<char>, Seq<char>)>>,
    pub callback_url: Seq<char>,
    pub always_pull: bool,
}

/// One container run: what to pull, how to start it, and where to forward
/// the updates it posts.
pub struct DockerJob {
    pub id: String,
    pub image: String,
    pub port: u16,
    pub command: Option<Vec<String>>,
    pub body: String,
    pub env: Option<EnvVars>,
    pub callback_url: String,
    pub always_pull: bool,
}

impl View for DockerJob {
    type V = JobModel;

    open spec fn view(&self) -> JobModel {
        JobModel {
            id: self.id@,
            image: self.image@,
            port: self.port,
            command: match self.command {
                Some(c) => Some(c.deep_view()),
                None => None,
            },
            body: self.body@,
            env: match self.env {
                Some(e) => Some(e@),
                None => None,
            },
            callback_url: self.callback_url@,
            always_pull: self.always_pull,
        }
    }
}

pub(crate) fn clone_strings(v: &Vec<String>) -> (r: Vec<String>)
    ensures
        r@ == v@,
{
    let mut r: Vec<String> = Vec::new();
    let mut i: usize = 0;
    while i < v.len()
        invariant
            i <= v.len(),
            r@ == v@.take(i as int),
        decreases v.len() - i,
    {
        r.push(v[i].clone());
        proof {
            assert(v@.take(i + 1) =~= v@.take(i as int).push(v@[i as int]));
        }
        i = i + 1;
    }
    proof {
        assert(v@.take(v.len() as int) =~= v@);
    }
    r
}

impl Clone for DockerJob {
    /// A value copy of this job.
    fn clone(&self) -> (r: DockerJob)
        ensures
            r@ == self@,
    {
        DockerJob {
            id: self.id.clone(),
            image: self.image.clone(),
            port: self.port,
            command: match &self.command {
                Some(c) => Some(clone_strings(c)),
                None => None,
            },
            body: self.body.clone(),
            env: match &self.env {
                Some(e) => Some(e.clone()),
                None => None,
            },
            callback_url: self.callback_url.clone(),
            always_pull: self.always_pull,
        }
    }
}

/// A unit of work, tagged by the executor it needs.
pub enum Job {
    Docker(DockerJob),
}

impl View for Job {
    type V = JobModel;

    open spec fn view(&self) -> JobModel {
        match self {
            Job::Docker(d) => d@,
        }
    }
}

impl Clone for Job {
    /// A value copy of this job.
    fn clone(&self) -> (r: Job)
        ensures
            r@ == self@,
    {
        match self {
            Job::Docker(d) => Job::Docker(d.clone()),
        }
    }
}

impl Job {
    /// The job's unique id.
    pub fn id(&self) -> (r: &String)
        ensures
            r@ == self@.id,
    {
        match self {
            Job::Docker(d) => &d.id,
        }
    }
}

} // verus!
