use gitlab_meta_runner::check_config::{check, CheckError, ConfigSection};
use gitlab_meta_runner::cli::Paths;
use gitlab_meta_runner::config::{
    false_bool_or_string, get_example_config, get_generated_config_file_path, get_token_placeholder,
    get_tokens_file_path, one, strs_to_strings, BoolOrString,
};
use gitlab_meta_runner::name_map::NameMap;
use gitlab_meta_runner::template::{HostEnv, TemplateError};

fn host() -> HostEnv {
    let mut env_vars = NameMap::new();
    env_vars.insert_new("HOME".to_string(), "/home/u".to_string());
    env_vars.insert_new("SLURM_JOB_ID".to_string(), "17".to_string());
    HostEnv { home: "/home/u".into(), this_exe: "/bin/m".into(), env_vars }
}

fn paths() -> Paths {
    Paths { config_file: "/etc/c.toml".into(), data_dir: "/var/lib/m".into(), generated_config_file: None }
}

#[test]
fn example_config_values() {
    let config = get_example_config();
    assert_eq!(config.name, "meta-runner");
    assert_eq!(config.management_token, get_token_placeholder());
    assert_eq!(config.poll.interval, 30);
    assert_eq!(config.runners.len(), 1);
    assert_eq!(config.runners.get("test-runner").unwrap().tags, vec!["tag-1".to_string(), "tag-2".to_string()]);
    assert_eq!(config.launch.as_ref().unwrap().executable, "sbatch");
}

#[test]
fn file_paths() {
    assert_eq!(get_tokens_file_path(&"/var/lib/m".to_string(), &"meta".to_string()), "/var/lib/m/meta.tokens");
    assert_eq!(get_tokens_file_path(&"/var/lib/m/".to_string(), &"meta".to_string()), "/var/lib/m/meta.tokens");
    assert_eq!(get_generated_config_file_path(&paths(), &"meta".to_string()), "/var/lib/m/meta.gitlab-config.toml");
    let mut p = paths();
    p.generated_config_file = Some("/tmp/out.toml".into());
    assert_eq!(get_generated_config_file_path(&p, &"meta".to_string()), "/tmp/out.toml");
}

#[test]
fn defaults() {
    assert_eq!(get_token_placeholder(), "enter-your-token-here");
    assert_eq!(false_bool_or_string(), BoolOrString::Bool(false));
    assert_eq!(one(), 1);
    assert_eq!(strs_to_strings(&["a", "b"]), vec!["a".to_string(), "b".to_string()]);
}

#[test]
fn example_config_checks() {
    let config = get_example_config();
    assert_eq!(check(&paths(), &config, &host()), Ok(()));
}

#[test]
fn check_reports_missing_launch() {
    let mut config = get_example_config();
    config.launch = None;
    assert_eq!(
        check(&paths(), &config, &host()),
        Err(CheckError {
            instance: "test-runner".into(),
            section: ConfigSection::Launch,
            error: TemplateError::MissingSection { section: "launch".into() },
        })
    );
}

#[test]
fn check_reports_runner_section() {
    let mut config = get_example_config();
    config.runner.builds_dir = "$NOT_DEFINED/x".into();
    assert_eq!(
        check(&paths(), &config, &host()),
        Err(CheckError {
            instance: "test-runner".into(),
            section: ConfigSection::Runner,
            error: TemplateError::UndefinedVariable { field: "builds_dir".into(), variable: "NOT_DEFINED".into() },
        })
    );
}
