use foreman::job::{DockerJob, Job};
use foreman::tracking::{JobStatus, JobTracker, TrackerError};

fn job_with_id(id: &str) -> Job {
    Job::Docker(DockerJob {
        id: id.to_string(),
        image: "alpine:latest".to_string(),
        port: 8080,
        command: None,
        body: "{}".to_string(),
        env: None,
        callback_url: "http://cb/put".to_string(),
        always_pull: false,
    })
}

#[test]
fn insert_creates_a_pending_entry() {
    let mut t = JobTracker::new();
    t.insert(job_with_id("j1"), 100);
    let id = "j1".to_string();
    let snap = t.get_job(&id).expect("job should be present");
    assert_eq!(*snap.status(), JobStatus::Pending);
    assert_eq!(snap.progress(), 0);
    assert_eq!(snap.start_time(), 100);
    assert_eq!(snap.completed_time(), None);
    assert_eq!(snap.stopped_time(), None);
    assert_eq!(snap.finished_time(), None);
}

#[test]
fn duplicate_insert_is_dropped() {
    let mut t = JobTracker::new();
    t.insert(job_with_id("j1"), 100);
    let id = "j1".to_string();
    t.update_status(&id, JobStatus::Running, Some(250), 150).unwrap();
    // A second insert with the same id must not reset the entry.
    t.insert(job_with_id("j1"), 999);
    let snap = t.get_job(&id).expect("job should be present");
    assert_eq!(*snap.status(), JobStatus::Running);
    assert_eq!(snap.progress(), 250);
    assert_eq!(snap.start_time(), 100);
    assert_eq!(t.count_running_jobs(), 1);
}

#[test]
fn unknown_job_is_reported() {
    let mut t = JobTracker::new();
    let id = "missing".to_string();
    assert!(t.get_job(&id).is_none());
    assert_eq!(
        t.update_status(&id, JobStatus::Running, None, 0),
        Err(TrackerError::UnknownJob)
    );
}

#[test]
fn legal_walk_stamps_each_terminal_state_once() {
    let mut t = JobTracker::new();
    t.insert(job_with_id("j1"), 100);
    let id = "j1".to_string();
    t.update_status(&id, JobStatus::Running, Some(0), 110).unwrap();
    t.update_status(&id, JobStatus::Completed, Some(1000), 120).unwrap();
    t.update_status(&id, JobStatus::Stopped, None, 130).unwrap();
    t.update_status(&id, JobStatus::Finished, None, 140).unwrap();
    let snap = t.get_job(&id).unwrap();
    assert_eq!(*snap.status(), JobStatus::Finished);
    assert_eq!(snap.progress(), 1000);
    assert_eq!(snap.completed_time(), Some(120));
    assert_eq!(snap.stopped_time(), Some(130));
    assert_eq!(snap.finished_time(), Some(140));
}

#[test]
fn repeated_status_keeps_the_first_stamp() {
    let mut t = JobTracker::new();
    t.insert(job_with_id("j1"), 100);
    let id = "j1".to_string();
    t.update_status(&id, JobStatus::Running, None, 110).unwrap();
    t.update_status(&id, JobStatus::Stopped, None, 130).unwrap();
    // Re-issuing Stopped is a tolerated no-op edge; the stamp stays.
    t.update_status(&id, JobStatus::Stopped, None, 190).unwrap();
    let snap = t.get_job(&id).unwrap();
    assert_eq!(snap.stopped_time(), Some(130));
}

#[test]
fn illegal_transition_is_rejected_and_changes_nothing() {
    let mut t = JobTracker::new();
    t.insert(job_with_id("j1"), 100);
    let id = "j1".to_string();
    t.update_status(&id, JobStatus::Running, Some(500), 110).unwrap();
    t.update_status(&id, JobStatus::Completed, None, 120).unwrap();
    assert_eq!(
        t.update_status(&id, JobStatus::Running, Some(0), 130),
        Err(TrackerError::IllegalTransition { from: JobStatus::Completed, to: JobStatus::Running })
    );
    let snap = t.get_job(&id).unwrap();
    assert_eq!(*snap.status(), JobStatus::Completed);
    assert_eq!(snap.progress(), 500);
}

#[test]
fn finished_is_terminal() {
    let mut t = JobTracker::new();
    t.insert(job_with_id("j1"), 100);
    let id = "j1".to_string();
    t.update_status(&id, JobStatus::Running, None, 110).unwrap();
    t.update_status(&id, JobStatus::Stopped, None, 120).unwrap();
    t.update_status(&id, JobStatus::Finished, None, 130).unwrap();
    for target in [JobStatus::Pending, JobStatus::Running, JobStatus::Completed, JobStatus::Stopped]
    {
        assert_eq!(
            t.update_status(&id, target, None, 140),
            Err(TrackerError::IllegalTransition { from: JobStatus::Finished, to: target })
        );
    }
    assert_eq!(*t.get_job(&id).unwrap().status(), JobStatus::Finished);
}

#[test]
fn ids_are_listed_by_status_in_insertion_order() {
    let mut t = JobTracker::new();
    t.insert(job_with_id("a"), 0);
    t.insert(job_with_id("b"), 0);
    t.insert(job_with_id("c"), 0);
    let a = "a".to_string();
    let c = "c".to_string();
    t.update_status(&a, JobStatus::Running, None, 10).unwrap();
    t.update_status(&c, JobStatus::Running, None, 10).unwrap();
    t.update_status(&c, JobStatus::Completed, None, 20).unwrap();
    assert_eq!(t.get_running_job_ids(), vec!["a".to_string()]);
    assert_eq!(t.get_completed_job_ids(), vec!["c".to_string()]);
    assert_eq!(t.get_stopped_job_ids(), Vec::<String>::new());
    assert_eq!(t.count_running_jobs(), 1);
}

#[test]
fn running_jobs_time_out_after_the_deadline() {
    let mut t = JobTracker::new();
    t.insert(job_with_id("slow"), 1000);
    t.insert(job_with_id("fast"), 1000);
    let slow = "slow".to_string();
    let fast = "fast".to_string();
    t.update_status(&slow, JobStatus::Running, None, 1010).unwrap();
    t.update_status(&fast, JobStatus::Running, None, 1010).unwrap();
    t.update_status(&fast, JobStatus::Completed, None, 1020).unwrap();
    // completionTimeout of 100 ms: at 1500 the running job is overdue.
    assert_eq!(t.get_timed_out_job_ids(1500, 100), vec!["slow".to_string()]);
    // At 1050 nothing has been running longer than 100 ms.
    assert_eq!(t.get_timed_out_job_ids(1050, 100), Vec::<String>::new());
}

#[test]
fn stopped_jobs_expire_after_the_removal_timeout() {
    let mut t = JobTracker::new();
    t.insert(job_with_id("j1"), 0);
    let id = "j1".to_string();
    t.update_status(&id, JobStatus::Running, None, 10).unwrap();
    t.update_status(&id, JobStatus::Stopped, None, 1000).unwrap();
    // removalTimeout of 1000 ms: at 3000 the stopped job has aged out.
    assert_eq!(t.get_stopped_and_expired_job_ids(3000, 1000), vec!["j1".to_string()]);
    assert_eq!(t.get_stopped_and_expired_job_ids(1500, 1000), Vec::<String>::new());
}

#[test]
fn snapshot_is_a_value_copy() {
    let mut t = JobTracker::new();
    t.insert(job_with_id("j1"), 0);
    let id = "j1".to_string();
    let before = t.get_job(&id).unwrap();
    t.update_status(&id, JobStatus::Running, Some(400), 10).unwrap();
    // The earlier snapshot does not see the later update.
    assert_eq!(*before.status(), JobStatus::Pending);
    assert_eq!(before.progress(), 0);
    match before.inner() {
        Job::Docker(d) => {
            assert_eq!(d.id, "j1");
            assert_eq!(d.image, "alpine:latest");
            assert_eq!(d.callback_url, "http://cb/put");
        },
    }
}
