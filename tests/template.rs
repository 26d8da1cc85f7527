use gitlab_meta_runner::cli::Paths;
use gitlab_meta_runner::config::{
    BoolOrString, GitLabCustomExecutorConfigTemplate, GitLabExecutorPullPolicy, GitLabLaunchConfig,
    GitLabPollConfig, GitLabRunnerInstance, GitLabRunnersConfig,
};
use gitlab_meta_runner::gitlab_config::{CustomExecutor, Executor, Runner};
use gitlab_meta_runner::name_map::NameMap;
use gitlab_meta_runner::template::{
    expand_executor_config_template, expand_field, expand_launch_config_template,
    expand_runner_config_template, ExpansionContext, HostEnv, TemplateError,
};

const HOME: &str = "/home/tester";
const EXE: &str = "/opt/bin/gitlab-meta-runner";
const WORKDIR: &str = "/work/dir";

fn string_map(pairs: &[(&str, &str)]) -> NameMap<String> {
    let mut m = NameMap::new();
    for (k, v) in pairs {
        m.insert_new(k.to_string(), v.to_string());
    }
    m
}

fn get_test_host() -> HostEnv {
    HostEnv {
        home: HOME.to_string(),
        this_exe: EXE.to_string(),
        env_vars: string_map(&[("HOME", HOME), ("PWD", WORKDIR), ("SOMETHING", "something")]),
    }
}

fn instance(vars: &[(&str, &str)]) -> GitLabRunnerInstance {
    GitLabRunnerInstance { tags: Vec::new(), launch_priority: None, config_variables: string_map(vars) }
}

#[test]
fn string_expand() {
    let host = get_test_host();
    let inst = instance(&[("ME", "me")]);
    let ctx = ExpansionContext { instance_name: "name", host: &host, launch: None, variables: &inst.config_variables };
    let text = "~/ a $HOME of $NAME is $THIS for $ME at $PWD when $SOMETHING happens".to_string();
    let result = expand_field(&ctx, &text, "text");
    assert!(result.is_ok(), "{:?}", result);
    assert_eq!(
        result.unwrap(),
        format!("{}/ a {} of name is {} for me at {} when something happens", HOME, HOME, EXE, WORKDIR)
    );
}

#[test]
fn string_expand_undefined_variable() {
    let host = get_test_host();
    let inst = instance(&[]);
    let ctx = ExpansionContext { instance_name: "name", host: &host, launch: None, variables: &inst.config_variables };
    let result = expand_field(&ctx, &"a $MISSING b".to_string(), "text");
    assert_eq!(
        result,
        Err(TemplateError::UndefinedVariable { field: "text".to_string(), variable: "MISSING".to_string() })
    );
}

#[test]
fn string_expand_instance_variable_before_environment() {
    let host = get_test_host();
    let inst = instance(&[("PWD", "mine")]);
    let ctx = ExpansionContext { instance_name: "name", host: &host, launch: None, variables: &inst.config_variables };
    assert_eq!(expand_field(&ctx, &"$PWD".to_string(), "f").unwrap(), "mine");
    assert_eq!(expand_field(&ctx, &"plain/text".to_string(), "f").unwrap(), "plain/text");
}

#[test]
fn runner_expand() {
    let config = Runner {
        builds_dir: "~/$FOO/$NAME".into(),
        cache_dir: "$PWD/$BAR".into(),
        executor: Executor::Custom {
            custom: CustomExecutor {
                config_exec: "$THIS".into(),
                config_args: vec!["$A1".to_owned()],
                prepare_exec: "$A2".into(),
                prepare_args: vec!["$A3".to_owned(), "$A4".to_owned()],
                run_exec: "$A5".into(),
                run_args: vec!["$A6".to_owned()],
                cleanup_exec: "$A7".into(),
                cleanup_args: vec!["$NAME".to_owned()],
            },
        },
        environment: Some(vec!["$BAZ".to_owned()]),
    };
    let host = get_test_host();
    let expanded = expand_runner_config_template(
        &config,
        "name",
        &instance(&[
            ("FOO", "foo"),
            ("BAR", "bar"),
            ("BAZ", "baz"),
            ("A1", "a1"),
            ("A2", "a2"),
            ("A3", "a3"),
            ("A4", "a4"),
            ("A5", "a5"),
            ("A6", "a6"),
            ("A7", "a7"),
            ("A8", "a8"),
        ]),
        &host,
    );
    assert!(expanded.is_ok(), "{:?}", expanded);
    let expanded = expanded.unwrap();
    assert_eq!(expanded.builds_dir, format!("{}/foo/name", HOME));
    assert_eq!(expanded.cache_dir, format!("{}/bar", WORKDIR));
    assert_eq!(expanded.environment, Some(vec!["baz".to_owned()]));
    match expanded.executor {
        Executor::Custom { custom } => {
            assert_eq!(custom.config_exec, EXE);
            assert_eq!(custom.config_args, vec!["a1".to_owned()]);
            assert_eq!(custom.prepare_exec, "a2");
            assert_eq!(custom.prepare_args, vec!["a3".to_owned(), "a4".into()]);
            assert_eq!(custom.run_exec, "a5");
            assert_eq!(custom.run_args, vec!["a6".to_owned()]);
            assert_eq!(custom.cleanup_exec, "a7");
            assert_eq!(custom.cleanup_args, vec!["name".to_owned()]);
        }
        Executor::Shell => panic!("Invalid executor"),
    }
}

fn empty_runner(builds_dir: String) -> Runner {
    Runner {
        builds_dir,
        cache_dir: "".into(),
        executor: Executor::Custom {
            custom: CustomExecutor {
                config_exec: "".into(),
                config_args: Vec::new(),
                prepare_exec: "".into(),
                prepare_args: Vec::new(),
                run_exec: "".into(),
                run_args: Vec::new(),
                cleanup_exec: "".into(),
                cleanup_args: Vec::new(),
            },
        },
        environment: Some(Vec::new()),
    }
}

fn build_dummy_config_executor(config: GitLabCustomExecutorConfigTemplate, builds_dir: String) -> GitLabRunnersConfig {
    GitLabRunnersConfig {
        executor: Some(config),
        name: "".into(),
        project: "".into(),
        hostname: "".into(),
        management_token: "".into(),
        runners: NameMap::new(),
        poll: GitLabPollConfig { interval: 1 },
        launch: None,
        runner: empty_runner(builds_dir),
    }
}

#[test]
fn executor_expand_none() {
    let config = build_dummy_config_executor(
        GitLabCustomExecutorConfigTemplate {
            builds_dir: None,
            image_dir: "$PWD/$FOO".into(),
            image_cache_dir: None,
            image_tmp_dir: None,
            pull_policy: GitLabExecutorPullPolicy::Always,
            apptainer_executable: "~/bin/apptainer".into(),
            gpu_amd: BoolOrString::Bool(false),
            gpu_nvidia: BoolOrString::Bool(true),
            mount: vec!["$BAR".to_owned(), "$THIS".into()],
            description: None,
        },
        "$HOME/builds".into(),
    );
    let host = get_test_host();
    let expanded =
        expand_executor_config_template(&config, "name", &instance(&[("FOO", "foo"), ("BAR", "bar"), ("BAZ", "baz")]), &host);
    assert!(expanded.is_ok(), "{:?}", expanded);
    let expanded = expanded.unwrap();
    assert_eq!(expanded.builds_dir, format!("{}/builds", HOME));
    assert_eq!(expanded.image_dir, format!("{}/foo", WORKDIR));
    assert_eq!(expanded.image_dir, format!("{}/foo", WORKDIR));
    assert_eq!(expanded.image_cache_dir, None);
    assert_eq!(expanded.image_tmp_dir, None);
    assert_eq!(expanded.pull_policy, GitLabExecutorPullPolicy::Always);
    assert_eq!(expanded.apptainer_executable, format!("{}/bin/apptainer", HOME));
    assert_eq!(expanded.gpu_amd, false);
    assert_eq!(expanded.gpu_nvidia, true);
    assert_eq!(expanded.mount, vec!["bar".to_owned(), EXE.to_owned()]);
    assert_eq!(expanded.description, None);
}

#[test]
fn executor_expand_some() {
    let config = build_dummy_config_executor(
        GitLabCustomExecutorConfigTemplate {
            builds_dir: Some("$HOME/builds2".into()),
            image_dir: "$PWD/$FOO".into(),
            image_cache_dir: Some("$HOME/cache".into()),
            image_tmp_dir: Some("~/tmp".into()),
            pull_policy: GitLabExecutorPullPolicy::Never,
            apptainer_executable: "~/bin/apptainer".into(),
            gpu_amd: BoolOrString::String("$TRUE".into()),
            gpu_nvidia: BoolOrString::String("$FALSE".into()),
            mount: vec!["$BAR".to_owned(), "$THIS".into()],
            description: Some("$BAZ".into()),
        },
        "$HOME/builds".into(),
    );
    let host = get_test_host();
    let expanded = expand_executor_config_template(
        &config,
        "name",
        &instance(&[("FOO", "foo"), ("BAR", "bar"), ("BAZ", "baz"), ("TRUE", "true"), ("FALSE", "false")]),
        &host,
    );
    assert!(expanded.is_ok(), "{:?}", expanded);
    let expanded = expanded.unwrap();
    assert_eq!(expanded.builds_dir, format!("{}/builds2", HOME));
    assert_eq!(expanded.image_dir, format!("{}/foo", WORKDIR));
    assert_eq!(expanded.image_dir, format!("{}/foo", WORKDIR));
    assert_eq!(expanded.image_cache_dir.unwrap(), format!("{}/cache", HOME));
    assert_eq!(expanded.image_tmp_dir.unwrap(), format!("{}/tmp", HOME));
    assert_eq!(expanded.pull_policy, GitLabExecutorPullPolicy::Never);
    assert_eq!(expanded.apptainer_executable, format!("{}/bin/apptainer", HOME));
    assert_eq!(expanded.gpu_amd, true);
    assert_eq!(expanded.gpu_nvidia, false);
    assert_eq!(expanded.mount, vec!["bar".to_owned(), EXE.to_owned()]);
    assert_eq!(expanded.description, Some("baz".into()));
}

#[test]
fn executor_expand_errors() {
    let mut template = GitLabCustomExecutorConfigTemplate {
        builds_dir: None,
        image_dir: "/images".into(),
        image_cache_dir: None,
        image_tmp_dir: None,
        pull_policy: GitLabExecutorPullPolicy::Always,
        apptainer_executable: "apptainer".into(),
        gpu_amd: BoolOrString::String("maybe".into()),
        gpu_nvidia: BoolOrString::Bool(false),
        mount: Vec::new(),
        description: Some("$UNDEFINED_AT_CONFIGURE_TIME".into()),
    };
    let host = get_test_host();
    let config = build_dummy_config_executor(template.clone(), "/builds".into());
    let result = expand_executor_config_template(&config, "name", &instance(&[]), &host);
    assert_eq!(result, Err(TemplateError::NotABool { field: "gpu_amd".into(), value: "maybe".into() }));
    template.gpu_amd = BoolOrString::Bool(true);
    let config = build_dummy_config_executor(template, "/builds".into());
    let expanded = expand_executor_config_template(&config, "name", &instance(&[]), &host).unwrap();
    assert_eq!(expanded.description, Some("$UNDEFINED_AT_CONFIGURE_TIME".into()));
    let mut config = config;
    config.executor = None;
    let result = expand_executor_config_template(&config, "name", &instance(&[]), &host);
    assert_eq!(result, Err(TemplateError::MissingSection { section: "executor".into() }));
}

fn build_dummy_config_launch(config: GitLabLaunchConfig) -> GitLabRunnersConfig {
    GitLabRunnersConfig {
        executor: None,
        name: "".into(),
        project: "".into(),
        hostname: "".into(),
        management_token: "".into(),
        runners: NameMap::new(),
        poll: GitLabPollConfig { interval: 1 },
        launch: Some(config),
        runner: empty_runner("".into()),
    }
}

fn launch_paths() -> Paths {
    Paths {
        config_file: "config-path".into(),
        data_dir: "data-path".into(),
        generated_config_file: Some("generated-config-path".into()),
    }
}

#[test]
fn launch_expand_none() {
    let config = build_dummy_config_launch(GitLabLaunchConfig {
        executable: "~/bin/$FOO".into(),
        args: vec!["$PWD/$BAR".to_owned(), "~/".into(), "$THIS".into(), "$CONFIG-$NUM_JOBS".into()],
        workdir: None,
        stdin: None,
        timeout: None,
        group_size: 43,
    });
    let host = get_test_host();
    let expanded = expand_launch_config_template(
        &launch_paths(),
        &config,
        "name",
        &instance(&[("FOO", "foo"), ("BAR", "bar"), ("BAZ", "baz")]),
        42,
        &host,
    );
    assert!(expanded.is_ok(), "{:?}", expanded);
    let expanded = expanded.unwrap();
    assert_eq!(expanded.executable, format!("{}/bin/foo", HOME));
    assert_eq!(
        expanded.args,
        vec![format!("{}/bar", WORKDIR), format!("{}/", HOME), EXE.to_owned(), "generated-config-path-42".into()]
    );
    assert_eq!(expanded.workdir, None);
    assert_eq!(expanded.stdin, None);
    assert_eq!(expanded.timeout, None);
    assert_eq!(expanded.group_size, 43);
}

#[test]
fn launch_expand_some() {
    let config = build_dummy_config_launch(GitLabLaunchConfig {
        executable: "~/bin/$FOO".into(),
        args: vec!["$PWD/$BAR".to_owned(), "~/".into(), "$THIS".into(), "$CONFIG-$NUM_JOBS".into()],
        workdir: Some("$FOO".into()),
        stdin: Some("$FOO $BAR $BAZ".into()),
        timeout: Some(1),
        group_size: 43,
    });
    let host = get_test_host();
    let expanded = expand_launch_config_template(
        &launch_paths(),
        &config,
        "name",
        &instance(&[("FOO", "foo"), ("BAR", "bar"), ("BAZ", "baz")]),
        42,
        &host,
    );
    assert!(expanded.is_ok(), "{:?}", expanded);
    let expanded = expanded.unwrap();
    assert_eq!(expanded.executable, format!("{}/bin/foo", HOME));
    assert_eq!(
        expanded.args,
        vec![format!("{}/bar", WORKDIR), format!("{}/", HOME), EXE.to_owned(), "generated-config-path-42".into()]
    );
    assert_eq!(expanded.workdir, Some("foo".into()));
    assert_eq!(expanded.stdin, Some("foo bar baz".into()));
    assert_eq!(expanded.timeout, Some(1));
    assert_eq!(expanded.group_size, 43);
}

#[test]
fn launch_expand_default_config_path() {
    let config = build_dummy_config_launch(GitLabLaunchConfig {
        executable: "$CONFIG".into(),
        args: Vec::new(),
        workdir: None,
        stdin: None,
        timeout: None,
        group_size: 1,
    });
    let mut config = config;
    config.name = "meta".into();
    let paths = Paths { config_file: "c".into(), data_dir: "/data".into(), generated_config_file: None };
    let expanded = expand_launch_config_template(&paths, &config, "name", &instance(&[]), 1, &get_test_host()).unwrap();
    assert_eq!(expanded.executable, "/data/meta.gitlab-config.toml");
    config.launch = None;
    let result = expand_launch_config_template(&paths, &config, "name", &instance(&[]), 1, &get_test_host());
    assert_eq!(result, Err(TemplateError::MissingSection { section: "launch".into() }));
}
