use foreman::tracking::JobStatus::{Completed, Finished, Pending, Running, Stopped};
use foreman::tracking::{can_transition, parse_status, JobStatus};

#[test]
fn test_deserialize_job_status() {
    let j: JobStatus = "pending".parse().expect("Failed to parse job status");
    assert_eq!(j, JobStatus::Pending);

    let j: JobStatus = "running".parse().expect("Failed to parse job status");
    assert_eq!(j, JobStatus::Running);

    let j: JobStatus = "completed".parse().expect("Failed to parse job status");
    assert_eq!(j, JobStatus::Completed);
}

#[test]
fn parse_status_accepts_all_upper_case_names() {
    assert_eq!(parse_status("PENDING"), Some(JobStatus::Pending));
    assert_eq!(parse_status("RUNNING"), Some(JobStatus::Running));
    assert_eq!(parse_status("COMPLETED"), Some(JobStatus::Completed));
    assert_eq!(parse_status("STOPPED"), Some(JobStatus::Stopped));
    assert_eq!(parse_status("FINISHED"), Some(JobStatus::Finished));
}

#[test]
fn parse_status_is_case_insensitive() {
    assert_eq!(parse_status("Stopped"), Some(JobStatus::Stopped));
    assert_eq!(parse_status("fInIsHeD"), Some(JobStatus::Finished));
}

#[test]
fn parse_status_rejects_unknown_names() {
    assert_eq!(parse_status(""), None);
    assert_eq!(parse_status("pause"), None);
    assert_eq!(parse_status("PENDING "), None);
    assert_eq!(parse_status("running!"), None);
    let r: Result<JobStatus, _> = "bogus".parse();
    assert!(r.is_err());
}

#[test]
fn transitions_follow_the_lifecycle() {
    assert!(can_transition(Pending, Running));
    assert!(can_transition(Running, Completed));
    assert!(can_transition(Running, Stopped));
    assert!(can_transition(Completed, Stopped));
    assert!(can_transition(Stopped, Finished));
    // A repeated status is a tolerated no-op edge.
    assert!(can_transition(Stopped, Stopped));
    assert!(can_transition(Finished, Finished));
    // Everything else is refused.
    assert!(!can_transition(Completed, Running));
    assert!(!can_transition(Finished, Running));
    assert!(!can_transition(Finished, Stopped));
    assert!(!can_transition(Pending, Completed));
    assert!(!can_transition(Pending, Stopped));
    assert!(!can_transition(Stopped, Running));
    assert!(!can_transition(Completed, Finished));
}
