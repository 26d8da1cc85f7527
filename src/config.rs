use vstd::prelude::*;
use vstd::string::*;

use crate::cli::Paths;
use crate::gitlab_config;
use crate::gitlab_config::{CustomExecutor, Executor, Runner};
use crate::name_map::NameMap;
use crate::text::{concat, join_path, joined_path, owned, views};

verus! {

/// A flag that may be given as a boolean or as a string to be expanded.
#[derive(Debug, Clone, PartialEq)]
pub enum BoolOrString {
    Bool(bool),
    String(String),
}

/// A worker instance: a class of ephemeral worker and the tags it can serve.
#[derive(Debug, Clone, PartialEq)]
pub struct GitLabRunnerInstance {
    /// Tags whose jobs this instance runs.
    pub tags: Vec<String>,
    /// Launch priority; higher launches earlier, none launches last.
    pub launch_priority: Option<u32>,
    /// Variables used when expanding this instance's templates.
    pub config_variables: NameMap<String>,
}

/// How one batch of jobs is launched.
#[derive(Debug, Clone, PartialEq)]
pub struct GitLabLaunchConfig {
    /// Executable name or path.
    pub executable: String,
    /// Arguments passed to the executable.
    pub args: Vec<String>,
    /// Working directory of the executable.
    pub workdir: Option<String>,
    /// Input written to the executable's standard input.
    pub stdin: Option<String>,
    /// Seconds to wait for one launch to finish.
    pub timeout: Option<u32>,
    /// Number of jobs launched by one process.
    pub group_size: usize,
}

/// When the executor pulls a container image.
#[derive(Debug, Clone, Copy, PartialEq, Eq, Structural)]
pub enum GitLabExecutorPullPolicy {
    /// Always pull, whether or not the image file is present.
    Always,
    /// Pull only when the image file is missing.
    IfNotPresent,
    /// Never pull.
    Never,
}

/// The custom executor's configuration before expansion.
#[derive(Debug, Clone, PartialEq)]
pub struct GitLabCustomExecutorConfigTemplate {
    /// Overrides the worker's builds directory.
    pub builds_dir: Option<String>,
    /// Where image files are stored.
    pub image_dir: String,
    /// Cache directory for image layers.
    pub image_cache_dir: Option<String>,
    /// Temporary directory used while pulling.
    pub image_tmp_dir: Option<String>,
    /// Pull policy; not expanded.
    pub pull_policy: GitLabExecutorPullPolicy,
    /// Path of the container runtime executable.
    pub apptainer_executable: String,
    /// Whether AMD GPU devices are mounted.
    pub gpu_amd: BoolOrString,
    /// Whether NVIDIA GPU devices are mounted.
    pub gpu_nvidia: BoolOrString,
    /// Additional bind mounts.
    pub mount: Vec<String>,
    /// Text reported in the driver name.
    pub description: Option<String>,
}

/// The custom executor's configuration after expansion.
#[derive(Debug, Clone, PartialEq)]
pub struct GitLabCustomExecutorConfig {
    pub image_dir: String,
    pub image_cache_dir: Option<String>,
    pub image_tmp_dir: Option<String>,
    pub pull_policy: GitLabExecutorPullPolicy,
    pub apptainer_executable: String,
    pub gpu_amd: bool,
    pub gpu_nvidia: bool,
    pub mount: Vec<String>,
    pub builds_dir: String,
    pub cache_dir: String,
    pub description: Option<String>,
}

/// How often pending jobs are polled.
#[derive(Debug, Clone, PartialEq)]
pub struct GitLabPollConfig {
    /// Seconds between polls.
    pub interval: u32,
}

/// The whole configuration of a meta-runner.
#[derive(Debug, Clone, PartialEq)]
pub struct GitLabRunnersConfig {
    /// Unique name of the meta-runner.
    pub name: String,
    /// Project on the CI platform.
    pub project: String,
    /// Host name of the CI platform.
    pub hostname: String,
    /// Token used for API calls.
    pub management_token: String,
    /// The worker instances, by name.
    pub runners: NameMap<GitLabRunnerInstance>,
    /// Polling configuration.
    pub poll: GitLabPollConfig,
    /// Launch configuration, expanded per batch.
    pub launch: Option<GitLabLaunchConfig>,
    /// Custom executor configuration, expanded per instance.
    pub executor: Option<GitLabCustomExecutorConfigTemplate>,
    /// Worker configuration template, expanded per instance.
    pub runner: gitlab_config::Runner,
}

impl GitLabRunnersConfig {
    /// The instance map and every instance's variable map have unique names.
    pub open spec fn wf(&self) -> bool {
        &&& self.runners.wf()
        &&& forall|i: int|
            0 <= i < self.runners.entries@.len()
                ==> (#[trigger] self.runners.entries@[i]).1.config_variables.wf()
    }
}

/// The file holding the registrations of meta-runner `meta_runner_name`.
pub fn get_tokens_file_path(data_dir: &String, meta_runner_name: &String) -> (r: String)
    ensures
        r@ == joined_path(data_dir@, meta_runner_name@ + ".tokens"@),
{
    let file = concat(meta_runner_name.as_str(), ".tokens");
    join_path(data_dir.as_str(), file.as_str())
}

/// The generated downstream configuration file of meta-runner `meta_name`.
pub open spec fn generated_config_path(paths: Paths, meta_name: Seq<char>) -> Seq<char> {
    match paths.generated_config_file {
        Some(f) => f@,
        None => joined_path(paths.data_dir@, meta_name + ".gitlab-config.toml"@),
    }
}

/// The generated downstream configuration file: the one given in `paths`,
/// else a file named after the meta-runner in the data directory.
pub fn get_generated_config_file_path(paths: &Paths, meta_runner_name: &String) -> (r: String)
    ensures
        r@ == generated_config_path(*paths, meta_runner_name@),
{
    match &paths.generated_config_file {
        Some(f) => f.clone(),
        None => {
            let file = concat(meta_runner_name.as_str(), ".gitlab-config.toml");
            join_path(paths.data_dir.as_str(), file.as_str())
        },
    }
}

/// The token written into a fresh configuration in place of a real one.
pub fn get_token_placeholder() -> (r: String)
    ensures
        r@ == "enter-your-token-here"@,
{
    String::from_str("enter-your-token-here")
}

/// The default of a GPU flag: off.
pub fn false_bool_or_string() -> (r: BoolOrString)
    ensures
        r == BoolOrString::Bool(false),
{
    BoolOrString::Bool(false)
}

/// The default batch size.
pub fn one() -> (r: usize)
    ensures
        r == 1,
{
    1
}

/// Owned copies of a list of string slices.
pub fn strs_to_strings(strs: &[&str]) -> (r: Vec<String>)
    ensures
        views(r@) == strs@.map_values(|s: &str| s@),
{
    let mut r: Vec<String> = Vec::new();
    let mut i: usize = 0;
    while i < strs.len()
        invariant
            i <= strs@.len(),
            views(r@) == strs@.take(i as int).map_values(|s: &str| s@),
        decreases strs@.len() - i,
    {
        let ghost before = r@;
        r.push(owned(strs[i]));
        proof {
            assert(views(r@) =~= views(before).push(strs@[i as int]@));
            assert(strs@.take(i + 1).map_values(|s: &str| s@) =~= strs@.take(i as int).map_values(|s: &str| s@).push(strs@[i as int]@));
        }
        i += 1;
    }
    assert(strs@.take(strs@.len() as int) == strs@);
    r
}

/// The input of the example launch command.
pub open spec fn example_launch_input() -> Seq<char> {
    "#!/bin/bash\ngitlab-runner run-single --config $CONFIG --runner $NAME --max-builds $NUM_JOBS --wait-timeout 1\n"@
}

/// The stage arguments of the example's custom executor: `executor`, the
/// instance name and the stage.
pub open spec fn example_stage_args(stage: Seq<char>) -> Seq<Seq<char>> {
    seq!["executor"@, "$NAME"@, stage]
}

/// A complete configuration that shows every section: one instance
/// `test-runner`, launches through `sbatch`, the custom executor calling this
/// program.
pub fn get_example_config() -> (r: GitLabRunnersConfig)
    ensures
        r.wf(),
        r.name@ == "meta-runner"@,
        r.project@ == "gitlab-org/gitlab"@,
        r.hostname@ == "gitlab.com"@,
        r.management_token@ == "enter-your-token-here"@,
        r.runner.builds_dir@ == "$HOME/builds/$NAME/"@,
        r.runner.cache_dir@ == "$HOME/cache/"@,
        r.runner.environment matches Some(env) && views(env@) == seq!["ENV_VARIABLE=value"@],
        r.runner.executor matches Executor::Custom { custom: c } && {
            &&& c.config_exec@ == "$THIS"@ && views(c.config_args@) == example_stage_args("config"@)
            &&& c.prepare_exec@ == "$THIS"@ && views(c.prepare_args@) == example_stage_args("prepare"@)
            &&& c.run_exec@ == "$THIS"@ && views(c.run_args@) == example_stage_args("run"@)
            &&& c.cleanup_exec@ == "$THIS"@ && views(c.cleanup_args@) == example_stage_args("cleanup"@)
        },
        r.launch matches Some(l) && {
            &&& l.executable@ == "sbatch"@
            &&& l.args@.len() == 0
            &&& l.timeout == Some(300u32)
            &&& l.stdin matches Some(i) && i@ == example_launch_input()
            &&& l.workdir matches Some(w) && w@ == "$HOME/launch"@
            &&& l.group_size == 1
        },
        r.poll.interval == 30,
        r.runners.entries@.len() == 1,
        r.runners.entries@[0].0@ == "test-runner"@,
        views(r.runners.entries@[0].1.tags@) == seq!["tag-1"@, "tag-2"@],
        r.runners.entries@[0].1.launch_priority == Some(10u32),
        r.runners.entries@[0].1.config_variables.entries@.len() == 1,
        r.runners.entries@[0].1.config_variables.entries@[0].0@ == "VARIABLE"@,
        r.runners.entries@[0].1.config_variables.entries@[0].1@ == "value"@,
        r.executor matches Some(e) && {
            &&& e.builds_dir matches Some(b) && b@ == "$HOME/builds"@
            &&& e.image_dir@ == "$HOME/images"@
            &&& e.image_cache_dir matches Some(d) && d@ == "$HOME/image_cache"@
            &&& e.image_tmp_dir matches Some(d) && d@ == "$HOME/image_tmp"@
            &&& e.pull_policy == GitLabExecutorPullPolicy::IfNotPresent
            &&& e.apptainer_executable@ == "apptainer"@
            &&& e.gpu_amd == BoolOrString::Bool(false)
            &&& e.gpu_nvidia == BoolOrString::Bool(false)
            &&& e.mount@.len() == 0
            &&& e.description matches Some(d) && d@ == "Slurm job $SLURM_JOB_ID"@
        },
{
    let mut environment: Vec<String> = Vec::new();
    environment.push(owned("ENV_VARIABLE=value"));
    assert(views(environment@) =~= seq!["ENV_VARIABLE=value"@]);
    let config_args = strs_to_strings(&["executor", "$NAME", "config"]);
    let prepare_args = strs_to_strings(&["executor", "$NAME", "prepare"]);
    let run_args = strs_to_strings(&["executor", "$NAME", "run"]);
    let cleanup_args = strs_to_strings(&["executor", "$NAME", "cleanup"]);
    assert(views(config_args@) =~= example_stage_args("config"@));
    assert(views(prepare_args@) =~= example_stage_args("prepare"@));
    assert(views(run_args@) =~= example_stage_args("run"@));
    assert(views(cleanup_args@) =~= example_stage_args("cleanup"@));
    let runner = Runner {
        builds_dir: owned("$HOME/builds/$NAME/"),
        cache_dir: owned("$HOME/cache/"),
        executor: Executor::Custom {
            custom: CustomExecutor {
                config_exec: owned("$THIS"),
                config_args,
                prepare_exec: owned("$THIS"),
                prepare_args,
                run_exec: owned("$THIS"),
                run_args,
                cleanup_exec: owned("$THIS"),
                cleanup_args,
            },
        },
        environment: Some(environment),
    };
    let launch = GitLabLaunchConfig {
        executable: owned("sbatch"),
        args: Vec::new(),
        timeout: Some(300),
        stdin: Some(owned("#!/bin/bash\ngitlab-runner run-single --config $CONFIG --runner $NAME --max-builds $NUM_JOBS --wait-timeout 1\n")),
        workdir: Some(owned("$HOME/launch")),
        group_size: 1,
    };
    let mut tags: Vec<String> = Vec::new();
    tags.push(owned("tag-1"));
    tags.push(owned("tag-2"));
    assert(views(tags@) =~= seq!["tag-1"@, "tag-2"@]);
    let mut config_variables: NameMap<String> = NameMap::new();
    config_variables.insert_new(owned("VARIABLE"), owned("value"));
    let mut runners: NameMap<GitLabRunnerInstance> = NameMap::new();
    runners.insert_new(owned("test-runner"), GitLabRunnerInstance { tags, launch_priority: Some(10), config_variables });
    let executor = GitLabCustomExecutorConfigTemplate {
        builds_dir: Some(owned("$HOME/builds")),
        image_dir: owned("$HOME/images"),
        image_cache_dir: Some(owned("$HOME/image_cache")),
        image_tmp_dir: Some(owned("$HOME/image_tmp")),
        pull_policy: GitLabExecutorPullPolicy::IfNotPresent,
        apptainer_executable: owned("apptainer"),
        gpu_amd: BoolOrString::Bool(false),
        gpu_nvidia: BoolOrString::Bool(false),
        mount: Vec::new(),
        description: Some(owned("Slurm job $SLURM_JOB_ID")),
    };
    GitLabRunnersConfig {
        name: owned("meta-runner"),
        project: owned("gitlab-org/gitlab"),
        hostname: owned("gitlab.com"),
        management_token: get_token_placeholder(),
        runners,
        poll: GitLabPollConfig { interval: 30 },
        launch: Some(launch),
        executor: Some(executor),
        runner,
    }
}

} // verus!
