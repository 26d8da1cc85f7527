use gitlab_meta_runner::config::GitLabRunnerInstance;
use gitlab_meta_runner::gitlab_wrap::Job;
use gitlab_meta_runner::matcher::{find_match, name_le};
use gitlab_meta_runner::name_map::NameMap;
use gitlab_meta_runner::run::{
    check_jobs, chunk_group, group_matched_jobs, launch_timeout_secs, order_by_priority,
    partition_outcomes, plan_cycle, JobGroup, LaunchBatch, MatchedJob, PollAction, PollEvent, PollState,
    SuccessfulJobIdSet,
};

fn strings(v: &[&str]) -> Vec<String> {
    v.iter().map(|s| s.to_string()).collect()
}

fn inst(tags: &[&str], priority: Option<u32>) -> GitLabRunnerInstance {
    GitLabRunnerInstance { tags: strings(tags), launch_priority: priority, config_variables: NameMap::new() }
}

fn instances(list: &[(&str, &[&str], Option<u32>)]) -> NameMap<GitLabRunnerInstance> {
    let mut m = NameMap::new();
    for (name, tags, priority) in list {
        m.insert_new(name.to_string(), inst(tags, *priority));
    }
    m
}

fn job(id: u64, tags: &[&str]) -> Job {
    Job { id, name: format!("job-{}", id), tags: strings(tags) }
}

fn batch_shape(batches: &[LaunchBatch]) -> Vec<(String, Vec<u64>)> {
    batches.iter().map(|b| (b.runner.clone(), b.jobs.iter().map(|j| j.id).collect())).collect()
}

#[test]
fn match_prefers_fewest_tags() {
    let runners = instances(&[("B", &["x", "y", "z"], None), ("A", &["x", "y"], None)]);
    assert_eq!(find_match(&runners, &job(1, &["x", "y"])), Some("A".to_string()));
}

#[test]
fn match_none_without_superset() {
    let runners = instances(&[("A", &["x", "y"], None), ("B", &["x", "y", "z"], None)]);
    assert_eq!(find_match(&runners, &job(1, &["x", "w"])), None);
}

#[test]
fn match_ties_broken_by_name() {
    let runners = instances(&[("beta", &["x"], None), ("alpha", &["x"], None), ("alphabet", &["x"], None)]);
    assert_eq!(find_match(&runners, &job(1, &["x"])), Some("alpha".to_string()));
    assert_eq!(find_match(&runners, &job(2, &[])), Some("alpha".to_string()));
    assert!(name_le("alpha", "alphabet"));
    assert!(!name_le("beta", "alpha"));
    assert!(name_le("same", "same"));
}

#[test]
fn batches_of_five_by_two() {
    let jobs: Vec<Job> = (1..=5).map(|i| job(i, &["x"])).collect();
    let batches = chunk_group(&"A".to_string(), jobs, 2);
    let sizes: Vec<usize> = batches.iter().map(|b| b.jobs.len()).collect();
    assert_eq!(sizes, vec![2, 2, 1]);
    assert_eq!(
        batch_shape(&batches),
        vec![("A".to_string(), vec![1, 2]), ("A".to_string(), vec![3, 4]), ("A".to_string(), vec![5])]
    );
}

#[test]
fn successful_job_is_not_dispatched_again() {
    let runners = instances(&[("A", &["x"], None)]);
    let mut done = SuccessfulJobIdSet::new();
    done.record(&vec![1]);
    let matched = check_jobs(&runners, &done, vec![job(1, &["x"]), job(2, &["x"])]);
    let ids: Vec<u64> = matched.iter().map(|m| m.job.id).collect();
    assert_eq!(ids, vec![2]);
    done.record(&vec![2]);
    assert!(done.contains(1));
    assert!(done.contains(2));
    let matched = check_jobs(&runners, &done, vec![job(1, &["x"]), job(2, &["x"])]);
    assert!(matched.is_empty());
}

#[test]
fn failed_batch_marks_all_its_jobs_failed() {
    let batches = vec![
        LaunchBatch { runner: "A".into(), jobs: vec![job(1, &[]), job(2, &[])] },
        LaunchBatch { runner: "A".into(), jobs: vec![job(3, &[])] },
    ];
    let outcomes = partition_outcomes(&batches, &vec![false, true]);
    assert_eq!(outcomes.successful, vec![3]);
    assert_eq!(outcomes.failed, vec![0]);
    let outcomes = partition_outcomes(&batches, &vec![true, true]);
    assert_eq!(outcomes.successful, vec![1, 2, 3]);
    assert!(outcomes.failed.is_empty());
    let mut done = SuccessfulJobIdSet::new();
    done.record(&partition_outcomes(&batches, &vec![false, false]).successful);
    assert!(!done.contains(1) && !done.contains(2) && !done.contains(3));
}

#[test]
fn end_to_end_two_instances() {
    let runners = instances(&[("A", &["build"], None), ("B", &["build", "gpu"], None)]);
    let mut done = SuccessfulJobIdSet::new();
    let jobs = vec![job(1, &["build"]), job(2, &["build", "gpu"])];
    let batches = plan_cycle(&runners, &done, jobs, 1);
    assert_eq!(batch_shape(&batches), vec![("A".to_string(), vec![1]), ("B".to_string(), vec![2])]);
    let outcomes = partition_outcomes(&batches, &vec![true, true]);
    done.record(&outcomes.successful);
    assert!(done.contains(1) && done.contains(2));
    let again = plan_cycle(&runners, &done, vec![job(1, &["build"]), job(2, &["build", "gpu"])], 1);
    assert!(again.is_empty());
}

#[test]
fn groups_keep_first_appearance_order() {
    let matched = vec![
        MatchedJob { runner: "B".into(), job: job(1, &[]) },
        MatchedJob { runner: "A".into(), job: job(2, &[]) },
        MatchedJob { runner: "B".into(), job: job(3, &[]) },
    ];
    let groups = group_matched_jobs(matched);
    let shape: Vec<(String, Vec<u64>)> =
        groups.iter().map(|g| (g.runner.clone(), g.jobs.iter().map(|j| j.id).collect())).collect();
    assert_eq!(shape, vec![("B".to_string(), vec![1, 3]), ("A".to_string(), vec![2])]);
}

#[test]
fn groups_ordered_by_priority() {
    let runners = instances(&[("low", &[], Some(1)), ("none", &[], None), ("high", &[], Some(5)), ("low2", &[], Some(1))]);
    let groups = vec![
        JobGroup { runner: "none".into(), jobs: vec![job(1, &[])] },
        JobGroup { runner: "low".into(), jobs: vec![job(2, &[])] },
        JobGroup { runner: "high".into(), jobs: vec![job(3, &[])] },
        JobGroup { runner: "low2".into(), jobs: vec![job(4, &[])] },
    ];
    let ordered: Vec<String> = order_by_priority(&runners, groups).into_iter().map(|g| g.runner).collect();
    assert_eq!(ordered, vec!["high", "low", "low2", "none"]);
}

#[test]
fn launch_timeout_defaults_to_largest() {
    let mut config = gitlab_meta_runner::config::get_example_config().launch.unwrap();
    assert_eq!(launch_timeout_secs(&config), 300);
    config.timeout = None;
    assert_eq!(launch_timeout_secs(&config), u32::MAX as u64);
}

#[test]
fn poll_loop_finishes_cycle_before_stopping() {
    let mut poll = PollState::new();
    assert_eq!(poll.on_event(PollEvent::Tick), PollAction::RunCycle);
    assert_eq!(poll.on_event(PollEvent::Cancelled), PollAction::Wait);
    assert_eq!(poll.on_event(PollEvent::CycleSucceeded(vec![1, 2])), PollAction::Wait);
    assert!(poll.successful.contains(1) && poll.successful.contains(2));
    assert_eq!(poll.on_event(PollEvent::Tick), PollAction::RunCycle);
    assert_eq!(poll.on_event(PollEvent::CycleTimedOut), PollAction::Wait);
    assert!(!poll.successful.contains(3));
    assert_eq!(poll.on_event(PollEvent::Cancelled), PollAction::Stop);
    assert_eq!(poll.on_event(PollEvent::Tick), PollAction::Stop);
}
