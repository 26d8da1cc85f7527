use gitlab_meta_runner::config::{get_example_config, GitLabRunnerInstance, GitLabRunnersConfig};
use gitlab_meta_runner::configure::{
    apply_update_results, finish_reconcile, instantiate_gitlab_runner_configurations, plan_updates,
    runner_name_to_description, InstantiateError, ReconcileAction,
};
use gitlab_meta_runner::gitlab_config::RunnerRegistration;
use gitlab_meta_runner::gitlab_wrap::RemoteOutcome;
use gitlab_meta_runner::name_map::NameMap;
use gitlab_meta_runner::template::HostEnv;

fn config_with(names: &[&str]) -> GitLabRunnersConfig {
    let mut config = get_example_config();
    let mut runners = NameMap::new();
    for n in names {
        runners.insert_new(
            n.to_string(),
            GitLabRunnerInstance { tags: vec![format!("tag-{}", n)], launch_priority: None, config_variables: NameMap::new() },
        );
    }
    config.runners = runners;
    config
}

fn registrations(list: &[(&str, u64)]) -> NameMap<RunnerRegistration> {
    let mut m = NameMap::new();
    for (n, id) in list {
        m.insert_new(n.to_string(), RunnerRegistration { id: *id, token: format!("token-{}", id) });
    }
    m
}

fn keys(m: &NameMap<RunnerRegistration>) -> Vec<(String, u64)> {
    m.entries.iter().map(|(k, v)| (k.clone(), v.id)).collect()
}

#[test]
fn replaces_undesired_registration() {
    let config = config_with(&["Y"]);
    let current = registrations(&[("X", 7)]);
    let updates = plan_updates(&config, &current);
    assert!(updates.is_empty());
    let phase = apply_update_results(&config, &current, &updates, &Vec::new());
    assert_eq!(phase.creates.len(), 1);
    assert_eq!(phase.creates[0].name, "Y");
    assert_eq!(phase.creates[0].params.description, "meta-runner-Y");
    assert_eq!(phase.creates[0].params.tags, vec!["tag-Y".to_string()]);
    assert_eq!(phase.deletes.len(), 1);
    assert_eq!(phase.deletes[0].registration.id, 7);
    let result = finish_reconcile(
        phase,
        vec![RemoteOutcome::Done(RunnerRegistration { id: 8, token: "t8".into() })],
        vec![RemoteOutcome::NotFound],
    );
    assert_eq!(keys(&result.registrations), vec![("Y".to_string(), 8)]);
    assert!(result.errors.is_empty());
}

#[test]
fn failed_delete_keeps_registration() {
    let config = config_with(&[]);
    let current = registrations(&[("X", 7)]);
    let updates = plan_updates(&config, &current);
    let phase = apply_update_results(&config, &current, &updates, &Vec::new());
    let result = finish_reconcile(phase, Vec::new(), vec![RemoteOutcome::Failed("boom".into())]);
    assert_eq!(keys(&result.registrations), vec![("X".to_string(), 7)]);
    assert_eq!(result.errors.len(), 1);
    assert_eq!(result.errors[0].action, ReconcileAction::Delete);
    assert_eq!(result.errors[0].message, "boom");
}

#[test]
fn update_outcomes() {
    let config = config_with(&["A", "B", "C"]);
    let current = registrations(&[("A", 1), ("B", 2), ("C", 3)]);
    let updates = plan_updates(&config, &current);
    let names: Vec<&str> = updates.iter().map(|u| u.name.as_str()).collect();
    assert_eq!(names, vec!["A", "B", "C"]);
    assert_eq!(updates[1].runner_id, 2);
    assert_eq!(updates[1].params.description, "meta-runner-B");
    let outcomes = vec![RemoteOutcome::Done(()), RemoteOutcome::NotFound, RemoteOutcome::Failed("down".into())];
    let phase = apply_update_results(&config, &current, &updates, &outcomes);
    assert_eq!(keys(&phase.registrations), vec![("A".to_string(), 1), ("C".to_string(), 3)]);
    let creates: Vec<&str> = phase.creates.iter().map(|c| c.name.as_str()).collect();
    assert_eq!(creates, vec!["B"]);
    assert!(phase.deletes.is_empty());
    assert_eq!(phase.errors.len(), 1);
    assert_eq!(phase.errors[0].name, "C");
    assert_eq!(phase.errors[0].action, ReconcileAction::Update);
    let result = finish_reconcile(phase, vec![RemoteOutcome::Failed("quota".into())], Vec::new());
    assert_eq!(keys(&result.registrations), vec![("A".to_string(), 1), ("C".to_string(), 3)]);
    let actions: Vec<ReconcileAction> = result.errors.iter().map(|e| e.action).collect();
    assert_eq!(actions, vec![ReconcileAction::Update, ReconcileAction::Create]);
}

#[test]
fn second_pass_only_updates() {
    let config = config_with(&["A", "B"]);
    let current = registrations(&[("A", 1), ("Z", 9)]);
    let updates = plan_updates(&config, &current);
    let phase = apply_update_results(&config, &current, &updates, &vec![RemoteOutcome::Done(())]);
    let result = finish_reconcile(
        phase,
        vec![RemoteOutcome::Done(RunnerRegistration { id: 5, token: "t".into() })],
        vec![RemoteOutcome::Done(())],
    );
    let second = result.registrations;
    let updates = plan_updates(&config, &second);
    assert_eq!(updates.len(), 2);
    let outcomes = vec![RemoteOutcome::Done(()), RemoteOutcome::Done(())];
    let phase = apply_update_results(&config, &second, &updates, &outcomes);
    assert!(phase.creates.is_empty());
    assert!(phase.deletes.is_empty());
}

#[test]
fn description_joins_names() {
    let config = get_example_config();
    assert_eq!(runner_name_to_description(&config, "gpu"), "meta-runner-gpu");
}

#[test]
fn instantiate_configurations() {
    let config = get_example_config();
    let mut env_vars = NameMap::new();
    env_vars.insert_new("HOME".to_string(), "/home/u".to_string());
    let host = HostEnv { home: "/home/u".into(), this_exe: "/bin/m".into(), env_vars };
    let regs = registrations(&[("test-runner", 4)]);
    let out = instantiate_gitlab_runner_configurations(&config, &regs, &host).unwrap();
    assert_eq!(out.len(), 1);
    assert_eq!(out[0].name, "test-runner");
    assert_eq!(out[0].url, "https://gitlab.com");
    assert_eq!(out[0].registration.id, 4);
    assert_eq!(out[0].config.builds_dir, "/home/u/builds/test-runner/");
    let result = instantiate_gitlab_runner_configurations(&config, &NameMap::new(), &host);
    assert_eq!(result, Err(InstantiateError::Unregistered { instance: "test-runner".into() }));
}

#[test]
fn instantiate_reports_template_error() {
    let mut config = get_example_config();
    config.runner.cache_dir = "$NOT_DEFINED".into();
    let host = HostEnv { home: "/home/u".into(), this_exe: "/bin/m".into(), env_vars: NameMap::new() };
    let regs = registrations(&[("test-runner", 4)]);
    match instantiate_gitlab_runner_configurations(&config, &regs, &host) {
        Err(InstantiateError::Template { instance, .. }) => assert_eq!(instance, "test-runner"),
        other => panic!("unexpected result {:?}", other),
    }
}
