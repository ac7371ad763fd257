use foreman::reaper::{reaper_pass_plan, reaper_should_exit, shutdown_plan, ReaperAction};

fn ids(names: &[&str]) -> Vec<String> {
    names.iter().map(|s| s.to_string()).collect()
}

fn as_pairs(plan: &[ReaperAction]) -> Vec<(bool, String)> {
    plan.iter()
        .map(|a| match a {
            ReaperAction::Stop { job_id } => (true, job_id.clone()),
            ReaperAction::Remove { job_id } => (false, job_id.clone()),
        })
        .collect()
}

#[test]
fn pass_stops_completed_then_timed_out_then_removes_expired() {
    let plan = reaper_pass_plan(&ids(&["c1", "c2"]), &ids(&["t1"]), &ids(&["e1"]));
    assert_eq!(
        as_pairs(&plan),
        vec![
            (true, "c1".to_string()),
            (true, "c2".to_string()),
            (true, "t1".to_string()),
            (false, "e1".to_string()),
        ]
    );
}

#[test]
fn quiet_pass_plans_nothing() {
    let plan = reaper_pass_plan(&Vec::new(), &Vec::new(), &Vec::new());
    assert!(plan.is_empty());
}

#[test]
fn shutdown_drains_running_then_stopped() {
    // Scenario: j1 running, j2 stopped, removal on terminate enabled.
    let plan = shutdown_plan(&ids(&["j1"]), &ids(&["j1", "j2"]), true);
    assert_eq!(
        as_pairs(&plan),
        vec![
            (true, "j1".to_string()),
            (false, "j1".to_string()),
            (false, "j2".to_string()),
        ]
    );
}

#[test]
fn shutdown_keeps_stopped_containers_when_configured() {
    let plan = shutdown_plan(&ids(&["j1"]), &ids(&["j2"]), false);
    assert_eq!(as_pairs(&plan), vec![(true, "j1".to_string())]);
}

#[test]
fn reaper_exits_only_when_drained() {
    assert!(reaper_should_exit(true, 0, 0));
    assert!(!reaper_should_exit(true, 1, 0));
    assert!(!reaper_should_exit(true, 0, 2));
    assert!(!reaper_should_exit(false, 0, 0));
}
