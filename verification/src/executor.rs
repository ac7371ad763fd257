//! The executor's decisions: how a job's container is booted and how its
//! host port is held and given back.
//!
//! The container runtime itself is driven from outside; this module
//! computes everything the runtime calls need (the container name, the
//! pull decision, the full container plan with its merged environment) and
//! keeps the authoritative book of which job holds which host port.  A
//! port is reserved when a job's boot begins and released exactly once,
//! when the job's container is stopped or removed.

use crate::digits::{spec_decimal, u64_to_decimal};
use crate::env::{spec_env_strings, EnvVars};
use crate::job::{clone_strings, DockerJob};
use crate::ports::{reserve_transition, PortManager, PortManagerError};
use crate::settings::Core;
use vstd::prelude::*;

verus! {

/// The container name for a job id: `job-<id>`.
pub open spec fn spec_container_name(id: Seq<char>) -> Seq<char> {
    "job-"@ + id
}

/// Derives the name of the container that runs the job with this id.
pub fn container_name(id: &String) -> (r: String)
    ensures
        r@ == spec_container_name(id@),
{
    let mut out = String::new();
    out.append("job-");
    out.append(id.as_str());
    proof {
        assert(out@ =~= "job-"@ + id@);
    }
    out
}

/// Whether the boot sequence pulls the image: always when the job says
/// so, otherwise only when the image is absent.
pub fn should_pull(always_pull: bool, image_present: bool) -> (r: bool)
    ensures
        r == (always_pull || !image_present),
{
    always_pull || !image_present
}

/// Whether the image name occurs among the listed repository tags.
#[verifier::loop_isolation(false)]
pub fn image_listed(repo_tags: &Vec<Vec<String>>, image: &String) -> (r: bool)
    ensures
        r == exists|i: int|
            0 <= i < repo_tags.deep_view().len() && (#[trigger] repo_tags.deep_view()[i]).contains(
                image@,
            ),
{
    let n = repo_tags.len();
    let mut i: usize = 0;
    while i < n
        invariant
            i <= n,
            n == repo_tags.len(),
            forall|k: int|
                0 <= k < i ==> !(#[trigger] repo_tags.deep_view()[k]).contains(image@),
        decreases n - i,
    {
        let tags = &repo_tags[i];
        let m = tags.len();
        let mut j: usize = 0;
        while j < m
            invariant
                j <= m,
                m == tags.len(),
                0 <= i < n == repo_tags.len(),
                tags == repo_tags@[i as int],
                forall|k: int| 0 <= k < j ==> tags.deep_view()[k] != image@,
            decreases m - j,
        {
            if tags[j].eq(image) {
                proof {
                    assert(repo_tags.deep_view()[i as int] == tags.deep_view());
                    assert(tags.deep_view()[j as int] == image@);
                    assert(repo_tags.deep_view()[i as int].contains(image@));
                }
                return true;
            }
            j = j + 1;
        }
        proof {
            assert forall|x: Seq<char>|
                repo_tags.deep_view()[i as int].contains(x) implies exists|k: int|
                0 <= k < tags.deep_view().len() && tags.deep_view()[k] == x by {
                assert(repo_tags.deep_view()[i as int] == tags.deep_view());
            }
            assert(!repo_tags.deep_view()[i as int].contains(image@));
        }
        i = i + 1;
    }
    false
}

/// Whether a network with the given name is among those listed (a listed
/// network may be nameless).
#[verifier::loop_isolation(false)]
pub fn network_listed(names: &Vec<Option<String>>, target: &String) -> (r: bool)
    ensures
        r == exists|i: int|
            0 <= i < names.deep_view().len() && (#[trigger] names.deep_view()[i]) == Some(
                target@,
            ),
{
    let n = names.len();
    let mut i: usize = 0;
    while i < n
        invariant
            i <= n,
            n == names.len(),
            forall|k: int| 0 <= k < i ==> (#[trigger] names.deep_view()[k]) != Some(target@),
        decreases n - i,
    {
        let hit = match &names[i] {
            Some(name) => name.eq(target),
            None => false,
        };
        proof {
            assert(names.deep_view()[i as int] == names@[i as int].deep_view());
        }
        if hit {
            proof {
                assert(names.deep_view()[i as int] == Some(target@));
            }
            return true;
        }
        i = i + 1;
    }
    false
}

/// The URL a container uses to reach the agent about this job.
pub open spec fn spec_endpoint(hostname: Seq<char>, port: u16, id: Seq<char>) -> Seq<char> {
    "http://"@ + hostname + ":"@ + spec_decimal(port as int) + "/job/"@ + id
}

fn endpoint_string(hostname: &String, port: u16, id: &String) -> (r: String)
    ensures
        r@ == spec_endpoint(hostname@, port, id@),
{
    let mut out = String::new();
    out.append("http://");
    out.append(hostname.as_str());
    out.append(":");
    let digits = u64_to_decimal(port as u64);
    out.append(digits.as_str());
    out.append("/job/");
    out.append(id.as_str());
    proof {
        assert(out@ =~= spec_endpoint(hostname@, port, id@));
    }
    out
}

/// An optional environment as its list of pairs; absent means empty.
pub open spec fn spec_opt_env(e: Option<Seq<(Seq<char>, Seq<char>)>>) -> Seq<
    (Seq<char>, Seq<char>),
> {
    match e {
        Some(x) => x,
        None => Seq::empty(),
    }
}

/// The environment handed to a job's container: the agent's defaults
/// first, then the job's own variables (which shadow the defaults), then
/// the two endpoint variables the agent always injects last, shadowing
/// everything before them.
pub open spec fn spec_resolved_env(
    job_env: Option<Seq<(Seq<char>, Seq<char>)>>,
    default_env: Option<Seq<(Seq<char>, Seq<char>)>>,
    hostname: Seq<char>,
    port: u16,
    id: Seq<char>,
) -> Seq<Seq<char>> {
    spec_env_strings(spec_opt_env(default_env) + spec_opt_env(job_env)).push(
        "FOREMAN_GET_JOB_ENDPOINT="@ + spec_endpoint(hostname, port, id),
    ).push("FOREMAN_PUT_JOB_ENDPOINT="@ + spec_endpoint(hostname, port, id))
}

/// Builds the `NAME=value` environment for a job's container.
pub fn resolve_env(
    job_env: &Option<EnvVars>,
    default_env: &Option<EnvVars>,
    hostname: &String,
    port: u16,
    id: &String,
) -> (r: Vec<String>)
    ensures
        r@.map_values(|s: String| s@) == spec_resolved_env(
            match *job_env {
                Some(ref e) => Some(e@),
                None => None,
            },
            match *default_env {
                Some(ref e) => Some(e@),
                None => None,
            },
            hostname@,
            port,
            id@,
        ),
{
    let mut merged = match default_env {
        Some(d) => d.clone(),
        None => EnvVars::new(),
    };
    match job_env {
        Some(e) => merged.merge(e.clone()),
        None => {
            proof {
                assert(merged@ + Seq::<(Seq<char>, Seq<char>)>::empty() =~= merged@);
            }
        },
    }
    let mut out = merged.to_strings();
    let endpoint = endpoint_string(hostname, port, id);
    let mut get_line = String::new();
    get_line.append("FOREMAN_GET_JOB_ENDPOINT=");
    get_line.append(endpoint.as_str());
    let mut put_line = String::new();
    put_line.append("FOREMAN_PUT_JOB_ENDPOINT=");
    put_line.append(endpoint.as_str());
    let ghost before = out@;
    let ghost gl = get_line@;
    let ghost pl = put_line@;
    out.push(get_line);
    out.push(put_line);
    proof {
        assert(gl =~= "FOREMAN_GET_JOB_ENDPOINT="@ + spec_endpoint(hostname@, port, id@));
        assert(pl =~= "FOREMAN_PUT_JOB_ENDPOINT="@ + spec_endpoint(hostname@, port, id@));
        assert(out@.map_values(|s: String| s@) =~= before.map_values(|s: String| s@).push(
            gl,
        ).push(pl));
    }
    out
}

/// Everything the runtime needs to create and start one job's container.
pub struct ContainerPlan {
    /// Name of the container, `job-<id>`.
    pub container_name: String,
    /// Image to run.
    pub image: String,
    /// Command override, when the job carries one.
    pub command: Option<Vec<String>>,
    /// The port the container listens on.
    pub container_port: u16,
    /// The host port published to it.
    pub host_port: u16,
    /// The address the host port is bound on.
    pub bind_address: String,
    /// The complete `NAME=value` environment.
    pub env: Vec<String>,
    /// The network the container joins.
    pub network_mode: String,
    /// `host:ip` entries attached to the container.
    pub extra_hosts: Option<Vec<String>>,
    /// Name of the ownership label every managed container carries.
    pub label_name: String,
    /// Value of the ownership label.
    pub label_value: String,
}

/// Lays out the container for a job on the given host port.
pub fn make_container_plan(job: &DockerJob, host_port: u16, core: &Core) -> (r: ContainerPlan)
    ensures
        r.container_name@ == spec_container_name(job@.id),
        r.image@ == job@.image,
        r.command is Some <==> job@.command is Some,
        r.command matches Some(c) ==> job@.command == Some(c.deep_view()),
        r.container_port == job@.port,
        r.host_port == host_port,
        r.bind_address@ == "0.0.0.0"@,
        r.env@.map_values(|s: String| s@) == spec_resolved_env(
            job@.env,
            match core.env {
                Some(ref e) => Some(e@),
                None => None,
            },
            core.hostname@,
            core.port,
            job@.id,
        ),
        r.network_mode@ == core.network_name@,
        r.extra_hosts is Some <==> core.extra_hosts is Some,
        r.extra_hosts matches Some(h) ==> (core.extra_hosts matches Some(ch) && h@ == ch@),
        r.label_name@ == "managed-by"@,
        r.label_value@ == "foreman"@,
{
    let env = resolve_env(&job.env, &core.env, &core.hostname, core.port, &job.id);
    let mut label_name = String::new();
    label_name.append("managed-by");
    let mut label_value = String::new();
    label_value.append("foreman");
    let mut bind_address = String::new();
    bind_address.append("0.0.0.0");
    ContainerPlan {
        container_name: container_name(&job.id),
        image: job.image.clone(),
        command: match &job.command {
            Some(c) => Some(clone_strings(c)),
            None => None,
        },
        container_port: job.port,
        host_port,
        bind_address,
        env,
        network_mode: core.network_name.clone(),
        extra_hosts: match &core.extra_hosts {
            Some(h) => Some(clone_strings(h)),
            None => None,
        },
        label_name,
        label_value,
    }
}

/// Why an execute request failed before its container was created.
#[derive(Debug, Clone, Copy, PartialEq, Eq, Structural)]
pub enum ExecError {
    /// Every host port is taken.
    OutOfPorts,
    /// The job already holds a port: a duplicate execute is refused.
    AlreadyAssigned,
}

/// Index of the first port assignment for the given id, or -1.
pub open spec fn spec_assignment_index(s: Seq<(Seq<char>, u16)>, id: Seq<char>) -> int
    decreases s.len(),
{
    if s.len() == 0 {
        -1
    } else if s[0].0 == id {
        0
    } else {
        let r = spec_assignment_index(s.drop_first(), id);
        if r == -1 {
            -1
        } else {
            r + 1
        }
    }
}

/// What `spec_assignment_index` means position by position.
pub proof fn lemma_assignment_index(s: Seq<(Seq<char>, u16)>, id: Seq<char>)
    ensures
        spec_assignment_index(s, id) == -1 ==> forall|i: int| 0 <= i < s.len() ==> s[i].0 != id,
        spec_assignment_index(s, id) != -1 ==> {
            let k = spec_assignment_index(s, id);
            &&& 0 <= k < s.len()
            &&& s[k].0 == id
            &&& forall|i: int| 0 <= i < k ==> s[i].0 != id
        },
    decreases s.len(),
{
    if s.len() > 0 && s[0].0 != id {
        let sub = s.drop_first();
        lemma_assignment_index(sub, id);
        let r = spec_assignment_index(sub, id);
        if r == -1 {
            assert forall|i: int| 0 <= i < s.len() implies s[i].0 != id by {
                if i > 0 {
                    assert(sub[i - 1] == s[i]);
                }
            }
        } else {
            let k = spec_assignment_index(s, id);
            assert(s[k] == sub[r]);
            assert forall|i: int| 0 <= i < k implies s[i].0 != id by {
                if i > 0 {
                    assert(sub[i - 1] == s[i]);
                }
            }
        }
    }
}

/// The executor's book of ports: the pool itself and which job holds which
/// reserved port.
pub struct ExecutorPorts {
    pool: PortManager,
    assignments: Vec<(String, u16)>,
}

impl ExecutorPorts {
    /// The port pool.
    pub closed spec fn pool(&self) -> PortManager {
        self.pool
    }

    /// The ports currently reserved.
    pub open spec fn reserved(&self) -> Set<u16> {
        self.pool().reserved()
    }

    /// Which job holds which port, in reservation order.
    pub closed spec fn assignments(&self) -> Seq<(Seq<char>, u16)> {
        self.assignments@.map_values(|p: (String, u16)| (p.0@, p.1))
    }

    /// Well-formedness: a valid pool, one port per job and one job per
    /// port, and the reserved ports are exactly the assigned ones.
    pub open spec fn wf(&self) -> bool {
        &&& self.pool().wf()
        &&& forall|i: int, j: int|
            0 <= i < j < self.assignments().len() ==> self.assignments()[i].0
                != self.assignments()[j].0
        &&& forall|i: int, j: int|
            0 <= i < j < self.assignments().len() ==> self.assignments()[i].1
                != self.assignments()[j].1
        &&& forall|i: int|
            0 <= i < self.assignments().len() ==> self.reserved().contains(
                (#[trigger] self.assignments()[i]).1,
            )
        &&& forall|p: u16|
            self.reserved().contains(p) ==> exists|i: int|
                0 <= i < self.assignments().len() && (#[trigger] self.assignments()[i]).1 == p
    }

    /// An empty book over the given port range (defaulted when absent);
    /// rejects an inverted range.
    pub fn new(start_port: Option<u16>, end_port: Option<u16>) -> (r: Result<
        ExecutorPorts,
        PortManagerError,
    >)
        ensures
            ({
                let s = if start_port is Some { start_port->0 } else { 49152u16 };
                let e = if end_port is Some { end_port->0 } else { 65535u16 };
                if e < s {
                    r matches Err(PortManagerError::InvalidPortRange)
                } else {
                    &&& r matches Ok(b)
                    &&& (r matches Ok(b) ==> b.wf() && b.pool().start() == s && b.pool().end() == e
                        && b.assignments() == Seq::<(Seq<char>, u16)>::empty() && b.reserved()
                        == Set::<u16>::empty())
                }
            }),
    {
        let pool = match PortManager::new(start_port, end_port) {
            Ok(p) => p,
            Err(e) => {
                return Err(e);
            },
        };
        let r = ExecutorPorts { pool, assignments: Vec::new() };
        proof {
            assert(r.assignments() =~= Seq::<(Seq<char>, u16)>::empty());
        }
        Ok(r)
    }

    /// Index of the assignment held by this id, if any.
    #[verifier::loop_isolation(false)]
    fn find_assignment(&self, id: &String) -> (r: Option<usize>)
        ensures
            match r {
                Some(i) => 0 <= i < self.assignments().len() && i == spec_assignment_index(
                    self.assignments(),
                    id@,
                ),
                None => spec_assignment_index(self.assignments(), id@) == -1,
            },
    {
        proof {
            lemma_assignment_index(self.assignments(), id@);
        }
        let n = self.assignments.len();
        let mut i: usize = 0;
        while i < n
            invariant
                i <= n,
                n == self.assignments.len(),
                forall|k: int| 0 <= k < i ==> self.assignments()[k].0 != id@,
            decreases n - i,
        {
            if self.assignments[i].0.eq(id) {
                proof {
                    let k = spec_assignment_index(self.assignments(), id@);
                    assert(self.assignments()[i as int].0 == id@);
                    assert(k != -1);
                    if k < i as int {
                        assert(self.assignments()[k].0 != id@);
                    }
                    if k > i as int {
                        assert(self.assignments()[i as int].0 != id@);
                    }
                }
                return Some(i);
            }
            i = i + 1;
        }
        proof {
            let k = spec_assignment_index(self.assignments(), id@);
            if k != -1 {
                assert(self.assignments()[k].0 != id@);
            }
        }
        None
    }

    /// Reserves the smallest free host port for a job about to boot and
    /// records who holds it.  A job that already holds a port is refused,
    /// as is a reservation when every port is taken; neither failure
    /// changes anything.
    pub fn begin_execute(&mut self, id: &String) -> (r: Result<u16, ExecError>)
        requires
            old(self).wf(),
        ensures
            final(self).wf(),
            begin_transition(*old(self), *final(self), id@, r),
    {
        match self.find_assignment(id) {
            Some(_) => {
                return Err(ExecError::AlreadyAssigned);
            },
            None => {},
        }
        let ghost pre = *self;
        match self.pool.reserve_port() {
            Ok(p) => {
                self.assignments.push((id.clone(), p));
                proof {
                    lemma_assignment_index(pre.assignments(), id@);
                    assert(self.assignments() =~= pre.assignments().push((id@, p)));
                    let post = *self;
                    assert forall|i: int, j: int|
                        0 <= i < j < post.assignments().len() implies post.assignments()[i].0
                        != post.assignments()[j].0 by {
                        if j == post.assignments().len() - 1 {
                            assert(pre.assignments()[i].0 != id@);
                        } else {
                            assert(pre.assignments()[i].0 != pre.assignments()[j].0);
                        }
                    }
                    assert forall|i: int|
                        0 <= i < post.assignments().len() implies post.reserved().contains(
                        (#[trigger] post.assignments()[i]).1,
                    ) by {
                        if i < post.assignments().len() - 1 {
                            assert(pre.reserved().contains(pre.assignments()[i].1));
                        }
                    }
                    assert forall|i: int, j: int|
                        0 <= i < j < post.assignments().len() implies post.assignments()[i].1
                        != post.assignments()[j].1 by {
                        if j == post.assignments().len() - 1 {
                            assert(pre.reserved().contains(pre.assignments()[i].1));
                        } else {
                            assert(pre.assignments()[i].1 != pre.assignments()[j].1);
                        }
                    }
                    assert forall|q: u16| post.reserved().contains(q) implies exists|i: int|
                        0 <= i < post.assignments().len() && (#[trigger] post.assignments()[i]).1
                            == q by {
                        if q == p {
                            assert(post.assignments()[post.assignments().len() - 1].1 == q);
                        } else {
                            assert(pre.reserved().contains(q));
                            let w = choose|i: int|
                                0 <= i < pre.assignments().len() && (#[trigger] pre.assignments()[i]).1
                                    == q;
                            assert(post.assignments()[w].1 == q);
                        }
                    }
                }
                Ok(p)
            },
            Err(_) => Err(ExecError::OutOfPorts),
        }
    }

    /// Gives back the port held by this id, if it still holds one; a job
    /// without a port is left alone.  Both `Stop` and `Remove` release
    /// through here, so repeating either, in any order, is a no-op.
    pub fn release_for(&mut self, id: &String) -> (released: Option<u16>)
        requires
            old(self).wf(),
        ensures
            final(self).wf(),
            cleanup_transition(*old(self), *final(self), id@, released),
    {
        let idx = match self.find_assignment(id) {
            Some(i) => i,
            None => {
                return None;
            },
        };
        let ghost pre = *self;
        let port = self.assignments[idx].1;
        proof {
            assert(pre.assignments()[idx as int].1 == port);
            assert(pre.reserved().contains(port));
        }
        self.assignments.remove(idx);
        proof {
            assert(self.assignments() =~= pre.assignments().remove(idx as int));
        }
        let res = self.pool.release_port(port);
        proof {
            assert(res is Ok);
            let post = *self;
            let k = idx as int;
            assert forall|i: int, j: int|
                0 <= i < j < post.assignments().len() implies post.assignments()[i].0
                    != post.assignments()[j].0 && post.assignments()[i].1
                    != post.assignments()[j].1 by {
                let i0 = if i < k {
                    i
                } else {
                    i + 1
                };
                let j0 = if j < k {
                    j
                } else {
                    j + 1
                };
                assert(post.assignments()[i] == pre.assignments()[i0]);
                assert(post.assignments()[j] == pre.assignments()[j0]);
                assert(pre.assignments()[i0].0 != pre.assignments()[j0].0);
                assert(pre.assignments()[i0].1 != pre.assignments()[j0].1);
            }
            assert forall|i: int|
                0 <= i < post.assignments().len() implies post.reserved().contains(
                (#[trigger] post.assignments()[i]).1,
            ) by {
                let i0 = if i < k {
                    i
                } else {
                    i + 1
                };
                assert(post.assignments()[i] == pre.assignments()[i0]);
                assert(pre.reserved().contains(pre.assignments()[i0].1));
                if i0 != k {
                    assert(pre.assignments()[i0].1 != pre.assignments()[k].1);
                }
            }
            assert forall|q: u16| post.reserved().contains(q) implies exists|i: int|
                0 <= i < post.assignments().len() && (#[trigger] post.assignments()[i]).1
                    == q by {
                assert(pre.reserved().contains(q));
                let w = choose|i: int|
                    0 <= i < pre.assignments().len() && (#[trigger] pre.assignments()[i]).1 == q;
                assert(q != pre.assignments()[k].1);
                assert(w != k);
                let w2 = if w < k {
                    w
                } else {
                    w - 1
                };
                assert(post.assignments()[w2].1 == q);
            }
        }
        Some(port)
    }
}

/// What `begin_execute` promises about the book before and after the call
/// and about its result.
pub open spec fn begin_transition(
    pre: ExecutorPorts,
    post: ExecutorPorts,
    id: Seq<char>,
    r: Result<u16, ExecError>,
) -> bool {
    match r {
        Ok(p) => {
            &&& spec_assignment_index(pre.assignments(), id) == -1
            &&& reserve_transition(pre.pool(), post.pool(), Ok(p))
            &&& post.assignments() == pre.assignments().push((id, p))
        },
        Err(e) => {
            &&& post == pre
            &&& if e is AlreadyAssigned {
                spec_assignment_index(pre.assignments(), id) != -1
            } else {
                &&& spec_assignment_index(pre.assignments(), id) == -1
                &&& forall|q: u16| pre.pool().in_range(q) ==> pre.reserved().contains(q)
            }
        },
    }
}

/// What `release_for` promises: the id's single assignment, when there is
/// one, disappears and exactly its port leaves the reserved set.
pub open spec fn cleanup_transition(
    pre: ExecutorPorts,
    post: ExecutorPorts,
    id: Seq<char>,
    released: Option<u16>,
) -> bool {
    let k = spec_assignment_index(pre.assignments(), id);
    if k == -1 {
        &&& released is None
        &&& post == pre
    } else {
        &&& released == Some(pre.assignments()[k].1)
        &&& post.assignments() == pre.assignments().remove(k)
        &&& post.reserved() == pre.reserved().remove(pre.assignments()[k].1)
        &&& post.pool().start() == pre.pool().start()
        &&& post.pool().end() == pre.pool().end()
    }
}

/// Cleaning up the same job twice — stop after stop, stop after remove, or
/// remove after stop, in any order — leaves the book exactly as the first
/// clean-up left it: the second pass finds no assignment and releases
/// nothing.
pub proof fn lemma_second_cleanup_noop(
    pre: ExecutorPorts,
    mid: ExecutorPorts,
    post: ExecutorPorts,
    id: Seq<char>,
    first: Option<u16>,
    second: Option<u16>,
)
    requires
        pre.wf(),
        cleanup_transition(pre, mid, id, first),
        cleanup_transition(mid, post, id, second),
    ensures
        second is None,
        post == mid,
{
    lemma_assignment_index(pre.assignments(), id);
    let k = spec_assignment_index(pre.assignments(), id);
    if k == -1 {
        assert(mid == pre);
    } else {
        lemma_assignment_index(mid.assignments(), id);
        let k2 = spec_assignment_index(mid.assignments(), id);
        if k2 != -1 {
            let i0 = if k2 < k {
                k2
            } else {
                k2 + 1
            };
            assert(mid.assignments()[k2] == pre.assignments()[i0]);
            if i0 < k {
                assert(pre.assignments()[i0].0 != id);
            } else {
                assert(pre.assignments()[k].0 != pre.assignments()[i0].0);
            }
            assert(false);
        }
    }
}

/// Every reservation is paired with exactly one release: booting a job
/// reserves one port and records the job as its holder, and the job's
/// clean-up releases exactly that port, returning the book to where it
/// stood.
pub proof fn lemma_reserve_release_pairing(
    pre: ExecutorPorts,
    mid: ExecutorPorts,
    post: ExecutorPorts,
    id: Seq<char>,
    port: u16,
    released: Option<u16>,
)
    requires
        pre.wf(),
        begin_transition(pre, mid, id, Ok(port)),
        cleanup_transition(mid, post, id, released),
    ensures
        released == Some(port),
        post.assignments() == pre.assignments(),
        post.reserved() == pre.reserved(),
{
    lemma_assignment_index(pre.assignments(), id);
    lemma_assignment_index(mid.assignments(), id);
    let n = pre.assignments().len() as int;
    let k2 = spec_assignment_index(mid.assignments(), id);
    assert(mid.assignments()[n].0 == id);
    if k2 == -1 {
        assert(false);
    }
    if k2 < n {
        assert(mid.assignments()[k2] == pre.assignments()[k2]);
        assert(pre.assignments()[k2].0 != id);
        assert(false);
    }
    assert(k2 == n);
    assert(mid.assignments()[k2].1 == port);
    assert(post.assignments() =~= pre.assignments());
    assert(post.reserved() =~= pre.reserved());
}

/// The runtime's verdict on a stop or remove request, as the executor
/// reads it.
#[derive(Debug)]
pub enum RuntimeCallOutcome {
    /// The container was stopped or removed.
    Done,
    /// The container was already stopped.
    AlreadyStopped,
    /// No such container exists (it was never created, or already removed).
    NotFound,
    /// The runtime failed for some other reason.
    Failed(String),
}

/// Whether the executor treats a stop or remove verdict as success: a
/// container that is already stopped or already gone is a success, so a
/// repeated `Stop`, or a `Stop` after a `Remove`, is tolerated and
/// reported as done.
pub fn cleanup_outcome_ok(outcome: &RuntimeCallOutcome) -> (r: bool)
    ensures
        r == !(outcome is Failed),
{
    match outcome {
        RuntimeCallOutcome::Done => true,
        RuntimeCallOutcome::AlreadyStopped => true,
        RuntimeCallOutcome::NotFound => true,
        RuntimeCallOutcome::Failed(_) => false,
    }
}

} // verus!
