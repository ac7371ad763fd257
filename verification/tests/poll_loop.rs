use foreman::job::{DockerJob, Job};
use foreman::poller::{authorization_header, batch_plan, poll_gate, user_agent, PollGate, PollerAction};

fn job_with_id(id: &str) -> Job {
    Job::Docker(DockerJob {
        id: id.to_string(),
        image: "alpine:latest".to_string(),
        port: 8080,
        command: None,
        body: "{}".to_string(),
        env: None,
        callback_url: "http://cb/put".to_string(),
        always_pull: false,
    })
}

#[test]
fn gate_exits_on_shutdown() {
    assert_eq!(poll_gate(true, 0, 12), PollGate::Exit);
    assert_eq!(poll_gate(true, 20, 12), PollGate::Exit);
}

#[test]
fn gate_throttles_at_the_cap() {
    // With the running count exactly at the cap, no fetch happens.
    assert_eq!(poll_gate(false, 12, 12), PollGate::Sleep);
    assert_eq!(poll_gate(false, 13, 12), PollGate::Sleep);
    assert_eq!(poll_gate(false, 1, 0), PollGate::Sleep);
}

#[test]
fn gate_polls_under_the_cap() {
    assert_eq!(poll_gate(false, 0, 12), PollGate::Poll);
    assert_eq!(poll_gate(false, 11, 12), PollGate::Poll);
}

#[test]
fn batch_inserts_each_job_before_executing_it() {
    // One poll batch admits every job it carries, each inserted first.
    let jobs = vec![job_with_id("j1"), job_with_id("j2"), job_with_id("j3")];
    let plan = batch_plan(&jobs);
    assert_eq!(plan.len(), 6);
    let expect = ["j1", "j1", "j2", "j2", "j3", "j3"];
    for (i, action) in plan.iter().enumerate() {
        match action {
            PollerAction::Insert(Job::Docker(d)) => {
                assert_eq!(i % 2, 0);
                assert_eq!(d.id, expect[i]);
            },
            PollerAction::Execute(Job::Docker(d)) => {
                assert_eq!(i % 2, 1);
                assert_eq!(d.id, expect[i]);
            },
        }
    }
}

#[test]
fn empty_batch_plans_nothing() {
    assert!(batch_plan(&Vec::new()).is_empty());
}

#[test]
fn poll_headers_are_rendered_exactly() {
    assert_eq!(authorization_header(&"tok123".to_string()), "Bearer tok123");
    assert_eq!(
        user_agent(&"0.1.0".to_string(), &"linux".to_string(), &"x86_64".to_string()),
        "foreman/0.1.0 (linux, x86_64)"
    );
}
