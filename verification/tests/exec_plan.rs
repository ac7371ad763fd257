use foreman::env::EnvVars;
use foreman::executor::{
    cleanup_outcome_ok, container_name, image_listed, make_container_plan, network_listed,
    resolve_env, should_pull, ExecError, ExecutorPorts, RuntimeCallOutcome,
};
use foreman::job::DockerJob;
use foreman::settings::{Core, Docker, Settings};

fn test_core() -> Core {
    let mut default_env = EnvVars::new();
    default_env.push("REGION".to_string(), "eu".to_string());
    Core {
        url: "http://control/plane".to_string(),
        hostname: "agent.local".to_string(),
        port: 3000,
        network_name: "foreman".to_string(),
        token: "SECRET-REDACTED".to_string(),
        poll_frequency: 5000,
        poll_timeout: 30000,
        extra_hosts: Some(vec!["db:10.0.0.2".to_string()]),
        labels: None,
        job_completion_timeout: 10000,
        job_removal_timeout: 5000,
        remove_stopped_containers_on_terminate: true,
        max_concurrent_jobs: 12,
        env: Some(default_env),
    }
}

fn test_job() -> DockerJob {
    let mut env = EnvVars::new();
    env.push("NODE_ENV".to_string(), "development".to_string());
    DockerJob {
        id: "123abc".to_string(),
        image: "alpine:latest".to_string(),
        port: 8080,
        command: Some(vec!["echo".to_string(), "hi".to_string()]),
        body: "{\"foo\":\"bar\"}".to_string(),
        env: Some(env),
        callback_url: "https://api.example.com/callback".to_string(),
        always_pull: false,
    }
}

#[test]
fn container_names_carry_the_job_prefix() {
    assert_eq!(container_name(&"123abc".to_string()), "job-123abc");
    assert_eq!(container_name(&"".to_string()), "job-");
}

#[test]
fn pull_decision_follows_always_pull_and_presence() {
    assert!(should_pull(true, true));
    assert!(should_pull(true, false));
    assert!(should_pull(false, false));
    assert!(!should_pull(false, true));
}

#[test]
fn image_lookup_scans_all_repo_tags() {
    let tags = vec![
        vec!["debian:12".to_string()],
        vec!["alpine:3".to_string(), "alpine:latest".to_string()],
    ];
    assert!(image_listed(&tags, &"alpine:latest".to_string()));
    assert!(!image_listed(&tags, &"alpine:edge".to_string()));
    assert!(!image_listed(&Vec::new(), &"alpine:latest".to_string()));
}

#[test]
fn network_lookup_matches_named_networks_only() {
    let names = vec![Some("bridge".to_string()), None, Some("foreman".to_string())];
    assert!(network_listed(&names, &"foreman".to_string()));
    assert!(!network_listed(&names, &"other".to_string()));
}

#[test]
fn resolved_env_ends_with_the_endpoint_variables() {
    let job = test_job();
    let core = test_core();
    let env = resolve_env(&job.env, &core.env, &core.hostname, core.port, &job.id);
    assert_eq!(
        env,
        vec![
            "REGION=eu".to_string(),
            "NODE_ENV=development".to_string(),
            "FOREMAN_GET_JOB_ENDPOINT=http://agent.local:3000/job/123abc".to_string(),
            "FOREMAN_PUT_JOB_ENDPOINT=http://agent.local:3000/job/123abc".to_string(),
        ]
    );
}

#[test]
fn container_plan_collects_every_runtime_input() {
    let job = test_job();
    let core = test_core();
    let settings = Settings { core, docker: Docker { url: None, start_port: 49152, end_port: 65535 } };
    let plan = make_container_plan(&job, 49153, &settings.core);
    assert_eq!(plan.container_name, "job-123abc");
    assert_eq!(plan.image, "alpine:latest");
    assert_eq!(plan.command, Some(vec!["echo".to_string(), "hi".to_string()]));
    assert_eq!(plan.container_port, 8080);
    assert_eq!(plan.host_port, 49153);
    assert_eq!(plan.bind_address, "0.0.0.0");
    assert_eq!(plan.network_mode, "foreman");
    assert_eq!(plan.extra_hosts, Some(vec!["db:10.0.0.2".to_string()]));
    assert_eq!(plan.label_name, "managed-by");
    assert_eq!(plan.label_value, "foreman");
    assert_eq!(
        plan.env.last(),
        Some(&"FOREMAN_PUT_JOB_ENDPOINT=http://agent.local:3000/job/123abc".to_string())
    );
}

#[test]
fn ports_are_held_per_job_and_released_on_cleanup() {
    let mut book = ExecutorPorts::new(Some(100), Some(101)).unwrap();
    let j1 = "j1".to_string();
    let j2 = "j2".to_string();
    assert_eq!(book.begin_execute(&j1), Ok(100));
    assert_eq!(book.begin_execute(&j2), Ok(101));
    // Scenario: both ports taken, a third job cannot boot.
    let j3 = "j3".to_string();
    assert_eq!(book.begin_execute(&j3), Err(ExecError::OutOfPorts));
    // A duplicate execute of a booted job is refused.
    assert_eq!(book.begin_execute(&j1), Err(ExecError::AlreadyAssigned));
    // Cleaning up releases exactly the job's own port.
    assert_eq!(book.release_for(&j1), Some(100));
    assert_eq!(book.begin_execute(&j3), Ok(100));
}

#[test]
fn repeated_cleanup_is_a_no_op() {
    let mut book = ExecutorPorts::new(Some(100), Some(110)).unwrap();
    let j1 = "j1".to_string();
    assert_eq!(book.begin_execute(&j1), Ok(100));
    // Stop releases; the remove that follows finds nothing to release.
    assert_eq!(book.release_for(&j1), Some(100));
    assert_eq!(book.release_for(&j1), None);
    // Cleaning up a job that never booted is tolerated, too.
    let ghost_job = "never-booted".to_string();
    assert_eq!(book.release_for(&ghost_job), None);
}

#[test]
fn runtime_verdicts_tolerate_already_gone_containers() {
    // Stopping an already-stopped container is success for the reaper.
    assert!(cleanup_outcome_ok(&RuntimeCallOutcome::AlreadyStopped));
    // A Stop after a Remove finds no container; still success, no panic.
    assert!(cleanup_outcome_ok(&RuntimeCallOutcome::NotFound));
    assert!(cleanup_outcome_ok(&RuntimeCallOutcome::Done));
    assert!(!cleanup_outcome_ok(&RuntimeCallOutcome::Failed("socket closed".to_string())));
}
