use vstd::prelude::*;

use crate::cli::Paths;
use crate::config::{
    generated_config_path, get_generated_config_file_path, BoolOrString, GitLabCustomExecutorConfig,
    GitLabLaunchConfig, GitLabRunnerInstance, GitLabRunnersConfig,
};
use crate::gitlab_config::{CustomExecutor, Executor, Runner};
use crate::name_map::NameMap;
use crate::text::{decimal, str_equal, usize_to_decimal};

verus! {

/// What the host contributes to expansion: the home directory (for `~`),
/// the path of the running executable (`$THIS`) and the process environment.
#[derive(Debug, Clone, PartialEq)]
pub struct HostEnv {
    pub home: String,
    pub this_exe: String,
    pub env_vars: NameMap<String>,
}

/// Everything a template is expanded against: the instance name, the host,
/// in a launch context the generated configuration's path (`CONFIG`) and the
/// batch size (`NUM_JOBS`), and the instance's own variables.
pub struct ExpansionContext<'a> {
    pub instance_name: &'a str,
    pub host: &'a HostEnv,
    pub launch: Option<(String, String)>,
    pub variables: &'a NameMap<String>,
}

/// The value of variable `name`, by precedence: `NAME`, `THIS`, in a launch
/// context `CONFIG` and `NUM_JOBS`, the instance's variables, the environment.
pub open spec fn variable_value(
    instance_name: Seq<char>,
    host: HostEnv,
    launch: Option<(Seq<char>, Seq<char>)>,
    variables: Map<Seq<char>, String>,
    name: Seq<char>,
) -> Option<Seq<char>> {
    if name == "NAME"@ {
        Some(instance_name)
    } else if name == "THIS"@ {
        Some(host.this_exe@)
    } else if launch is Some && name == "CONFIG"@ {
        match launch {
            Some((config_path, _)) => Some(config_path),
            None => None,
        }
    } else if launch is Some && name == "NUM_JOBS"@ {
        match launch {
            Some((_, num_jobs)) => Some(num_jobs),
            None => None,
        }
    } else if variables.contains_key(name) {
        Some(variables[name]@)
    } else if host.env_vars@.contains_key(name) {
        Some(host.env_vars@[name]@)
    } else {
        None
    }
}

/// The defined variables and their values (see `variable_value`).
pub open spec fn variable_table(
    instance_name: Seq<char>,
    host: HostEnv,
    launch: Option<(Seq<char>, Seq<char>)>,
    variables: Map<Seq<char>, String>,
) -> Map<Seq<char>, Seq<char>> {
    Map::new(
        |k: Seq<char>| variable_value(instance_name, host, launch, variables, k).is_some(),
        |k: Seq<char>| variable_value(instance_name, host, launch, variables, k).unwrap(),
    )
}

impl<'a> ExpansionContext<'a> {
    pub open spec fn wf(&self) -> bool {
        self.host.env_vars.wf() && self.variables.wf()
    }

    pub open spec fn launch_view(&self) -> Option<(Seq<char>, Seq<char>)> {
        match self.launch {
            Some((c, n)) => Some((c@, n@)),
            None => None,
        }
    }

    pub open spec fn value_of(&self, name: Seq<char>) -> Option<Seq<char>> {
        variable_value(self.instance_name@, *self.host, self.launch_view(), self.variables@, name)
    }

    pub open spec fn table(&self) -> Map<Seq<char>, Seq<char>> {
        variable_table(self.instance_name@, *self.host, self.launch_view(), self.variables@)
    }
}

/// The result of shell-like expansion of `input`: `~` at its start becomes
/// `home`, and each `$NAME` or `${NAME}` the value that `variables` holds;
/// an error names the first variable that `variables` does not hold.
pub uninterp spec fn shell_expansion(
    input: Seq<char>,
    home: Seq<char>,
    variables: Map<Seq<char>, Seq<char>>,
) -> Result<Seq<char>, Seq<char>>;

/// Text that holds no `$` and does not start with `~`.
pub open spec fn is_plain(s: Seq<char>) -> bool {
    !s.contains('$') && !(s.len() > 0 && s[0] == '~')
}

/// Looks up one variable for the expansion; an undefined variable is an
/// error that carries its name.
pub fn resolve_variable(ctx: &ExpansionContext, name: &str) -> (r: Result<Option<String>, String>)
    requires
        ctx.wf(),
    ensures
        match r {
            Ok(Some(v)) => ctx.value_of(name@) == Some(v@),
            Ok(None) => false,
            Err(e) => ctx.value_of(name@) is None && e@ == name@,
        },
{
    if str_equal(name, "NAME") {
        return Ok(Some(crate::text::owned(ctx.instance_name)));
    }
    if str_equal(name, "THIS") {
        return Ok(Some(ctx.host.this_exe.clone()));
    }
    if let Some((config_path, num_jobs)) = &ctx.launch {
        if str_equal(name, "CONFIG") {
            return Ok(Some(config_path.clone()));
        }
        if str_equal(name, "NUM_JOBS") {
            return Ok(Some(num_jobs.clone()));
        }
    }
    if let Some(v) = ctx.variables.get(name) {
        return Ok(Some(v.clone()));
    }
    if let Some(v) = ctx.host.env_vars.get(name) {
        return Ok(Some(v.clone()));
    }
    Err(crate::text::owned(name))
}

/// Relies on `shellexpand::full_with_context`, which expands `~` with the
/// home directory and `$NAME` / `${NAME}` with what the lookup gives. Its
/// result depends on the input, the home directory and the lookup alone; text
/// without `$` that does not start with `~` comes back unchanged.
#[verifier::external_body]
fn shell_expand(ctx: &ExpansionContext, input: &str) -> (r: Result<String, String>)
    requires
        ctx.wf(),
    ensures
        match r {
            Ok(s) => shell_expansion(input@, ctx.host.home@, ctx.table()) == Ok::<Seq<char>, Seq<char>>(s@),
            Err(e) => shell_expansion(input@, ctx.host.home@, ctx.table()) == Err::<Seq<char>, Seq<char>>(e@),
        },
        is_plain(input@) ==> r is Ok && r->Ok_0@ == input@,
{
    shellexpand::full_with_context(input, || Some(ctx.host.home.as_str()), |v| resolve_variable(ctx, v))
        .map(|s| s.into_owned())
        .map_err(|e| e.var_name)
}

/// `out` is what `s` expands to.
pub open spec fn expands_to(home: Seq<char>, table: Map<Seq<char>, Seq<char>>, s: String, out: String) -> bool {
    shell_expansion(s@, home, table) == Ok::<Seq<char>, Seq<char>>(out@)
}

/// `s` expands without error.
pub open spec fn expands(home: Seq<char>, table: Map<Seq<char>, Seq<char>>, s: String) -> bool {
    shell_expansion(s@, home, table) is Ok
}

/// Every string of `v` expands.
pub open spec fn all_expand(home: Seq<char>, table: Map<Seq<char>, Seq<char>>, v: Seq<String>) -> bool {
    forall|i: int| 0 <= i < v.len() ==> expands(home, table, #[trigger] v[i])
}

/// `out` holds what each string of `v` expands to.
pub open spec fn all_expand_to(home: Seq<char>, table: Map<Seq<char>, Seq<char>>, v: Seq<String>, out: Seq<String>) -> bool {
    out.len() == v.len() && forall|i: int| 0 <= i < v.len() ==> expands_to(home, table, #[trigger] v[i], out[i])
}

/// The optional string expands, if present.
pub open spec fn opt_expands(home: Seq<char>, table: Map<Seq<char>, Seq<char>>, o: Option<String>) -> bool {
    match o {
        Some(s) => expands(home, table, s),
        None => true,
    }
}

/// `out` is the expansion of `o`: absent when `o` is.
pub open spec fn opt_expands_to(home: Seq<char>, table: Map<Seq<char>, Seq<char>>, o: Option<String>, out: Option<String>) -> bool {
    match (o, out) {
        (Some(s), Some(t)) => expands_to(home, table, s, t),
        (None, None) => true,
        _ => false,
    }
}

/// The optional list expands, if present.
pub open spec fn opt_all_expand(home: Seq<char>, table: Map<Seq<char>, Seq<char>>, o: Option<Vec<String>>) -> bool {
    match o {
        Some(v) => all_expand(home, table, v@),
        None => true,
    }
}

/// `out` is the expansion of the optional list `o`.
pub open spec fn opt_all_expand_to(home: Seq<char>, table: Map<Seq<char>, Seq<char>>, o: Option<Vec<String>>, out: Option<Vec<String>>) -> bool {
    match (o, out) {
        (Some(v), Some(w)) => all_expand_to(home, table, v@, w@),
        (None, None) => true,
        _ => false,
    }
}

/// Why a template could not be expanded.
#[derive(Debug, Clone, PartialEq)]
pub enum TemplateError {
    /// The configuration has no such section.
    MissingSection { section: String },
    /// A field refers to an undefined variable.
    UndefinedVariable { field: String, variable: String },
    /// A flag expanded to something other than `true` or `false`.
    NotABool { field: String, value: String },
}

/// Expands one template field.
pub fn expand_field(ctx: &ExpansionContext, s: &String, field: &str) -> (r: Result<String, TemplateError>)
    requires
        ctx.wf(),
    ensures
        match r {
            Ok(out) => expands_to(ctx.host.home@, ctx.table(), *s, out),
            Err(_) => !expands(ctx.host.home@, ctx.table(), *s),
        },
{
    match shell_expand(ctx, s.as_str()) {
        Ok(out) => Ok(out),
        Err(variable) => Err(TemplateError::UndefinedVariable { field: crate::text::owned(field), variable }),
    }
}

/// Expands each string of a list field.
pub fn expand_list(ctx: &ExpansionContext, v: &Vec<String>, field: &str) -> (r: Result<Vec<String>, TemplateError>)
    requires
        ctx.wf(),
    ensures
        match r {
            Ok(out) => all_expand_to(ctx.host.home@, ctx.table(), v@, out@),
            Err(_) => !all_expand(ctx.host.home@, ctx.table(), v@),
        },
{
    let mut out: Vec<String> = Vec::new();
    let mut i: usize = 0;
    while i < v.len()
        invariant
            ctx.wf(),
            i <= v@.len(),
            out@.len() == i,
            forall|q: int| 0 <= q < i ==> expands_to(ctx.host.home@, ctx.table(), #[trigger] v@[q], out@[q]),
        decreases v@.len() - i,
    {
        match expand_field(ctx, &v[i], field) {
            Ok(s) => out.push(s),
            Err(e) => {
                assert(!expands(ctx.host.home@, ctx.table(), v@[i as int]));
                return Err(e);
            },
        }
        i += 1;
    }
    Ok(out)
}

/// Expands an optional field.
pub fn expand_optional(ctx: &ExpansionContext, o: &Option<String>, field: &str) -> (r: Result<Option<String>, TemplateError>)
    requires
        ctx.wf(),
    ensures
        match r {
            Ok(out) => opt_expands_to(ctx.host.home@, ctx.table(), *o, out),
            Err(_) => !opt_expands(ctx.host.home@, ctx.table(), *o),
        },
{
    match o {
        Some(s) => match expand_field(ctx, s, field) {
            Ok(out) => Ok(Some(out)),
            Err(e) => Err(e),
        },
        None => Ok(None),
    }
}

/// The variables of a worker or executor template for an instance.
pub open spec fn instance_table(instance_name: Seq<char>, host: HostEnv, instance: GitLabRunnerInstance) -> Map<Seq<char>, Seq<char>> {
    variable_table(instance_name, host, None, instance.config_variables@)
}

/// The variables of a launch template for an instance and a batch of
/// `num_jobs` jobs.
pub open spec fn launch_table(
    paths: Paths,
    config: GitLabRunnersConfig,
    instance_name: Seq<char>,
    instance: GitLabRunnerInstance,
    host: HostEnv,
    num_jobs: usize,
) -> Map<Seq<char>, Seq<char>> {
    variable_table(
        instance_name,
        host,
        Some((generated_config_path(paths, config.name@), decimal(num_jobs as nat))),
        instance.config_variables@,
    )
}

pub open spec fn executor_expands(h: Seq<char>, t: Map<Seq<char>, Seq<char>>, e: Executor) -> bool {
    match e {
        Executor::Custom { custom: c } => {
            &&& expands(h, t, c.config_exec)
            &&& all_expand(h, t, c.config_args@)
            &&& expands(h, t, c.prepare_exec)
            &&& all_expand(h, t, c.prepare_args@)
            &&& expands(h, t, c.run_exec)
            &&& all_expand(h, t, c.run_args@)
            &&& expands(h, t, c.cleanup_exec)
            &&& all_expand(h, t, c.cleanup_args@)
        },
        Executor::Shell => true,
    }
}

pub open spec fn executor_expands_to(h: Seq<char>, t: Map<Seq<char>, Seq<char>>, e: Executor, out: Executor) -> bool {
    match (e, out) {
        (Executor::Custom { custom: c }, Executor::Custom { custom: o }) => {
            &&& expands_to(h, t, c.config_exec, o.config_exec)
            &&& all_expand_to(h, t, c.config_args@, o.config_args@)
            &&& expands_to(h, t, c.prepare_exec, o.prepare_exec)
            &&& all_expand_to(h, t, c.prepare_args@, o.prepare_args@)
            &&& expands_to(h, t, c.run_exec, o.run_exec)
            &&& all_expand_to(h, t, c.run_args@, o.run_args@)
            &&& expands_to(h, t, c.cleanup_exec, o.cleanup_exec)
            &&& all_expand_to(h, t, c.cleanup_args@, o.cleanup_args@)
        },
        (Executor::Shell, Executor::Shell) => true,
        _ => false,
    }
}

/// Every field of a worker template expands.
pub open spec fn runner_expands(h: Seq<char>, t: Map<Seq<char>, Seq<char>>, c: Runner) -> bool {
    &&& expands(h, t, c.builds_dir)
    &&& expands(h, t, c.cache_dir)
    &&& opt_all_expand(h, t, c.environment)
    &&& executor_expands(h, t, c.executor)
}

/// `out` is the worker template `c` with every field expanded.
pub open spec fn runner_expands_to(h: Seq<char>, t: Map<Seq<char>, Seq<char>>, c: Runner, out: Runner) -> bool {
    &&& expands_to(h, t, c.builds_dir, out.builds_dir)
    &&& expands_to(h, t, c.cache_dir, out.cache_dir)
    &&& opt_all_expand_to(h, t, c.environment, out.environment)
    &&& executor_expands_to(h, t, c.executor, out.executor)
}

fn expand_executor(ctx: &ExpansionContext, e: &Executor) -> (r: Result<Executor, TemplateError>)
    requires
        ctx.wf(),
    ensures
        match r {
            Ok(out) => executor_expands_to(ctx.host.home@, ctx.table(), *e, out),
            Err(_) => !executor_expands(ctx.host.home@, ctx.table(), *e),
        },
{
    match e {
        Executor::Custom { custom } => {
            let config_exec = match expand_field(ctx, &custom.config_exec, "config_exec") { Ok(v) => v, Err(e) => return Err(e) };
            let config_args = match expand_list(ctx, &custom.config_args, "config_args") { Ok(v) => v, Err(e) => return Err(e) };
            let prepare_exec = match expand_field(ctx, &custom.prepare_exec, "prepare_exec") { Ok(v) => v, Err(e) => return Err(e) };
            let prepare_args = match expand_list(ctx, &custom.prepare_args, "prepare_args") { Ok(v) => v, Err(e) => return Err(e) };
            let run_exec = match expand_field(ctx, &custom.run_exec, "run_exec") { Ok(v) => v, Err(e) => return Err(e) };
            let run_args = match expand_list(ctx, &custom.run_args, "run_args") { Ok(v) => v, Err(e) => return Err(e) };
            let cleanup_exec = match expand_field(ctx, &custom.cleanup_exec, "cleanup_exec") { Ok(v) => v, Err(e) => return Err(e) };
            let cleanup_args = match expand_list(ctx, &custom.cleanup_args, "cleanup_args") { Ok(v) => v, Err(e) => return Err(e) };
            Ok(Executor::Custom {
                custom: CustomExecutor {
                    config_exec,
                    config_args,
                    prepare_exec,
                    prepare_args,
                    run_exec,
                    run_args,
                    cleanup_exec,
                    cleanup_args,
                },
            })
        },
        Executor::Shell => Ok(Executor::Shell),
    }
}

/// Expands every field of the worker configuration template for instance
/// `instance_name`.
pub fn expand_runner_config_template(
    config: &Runner,
    instance_name: &str,
    instance: &GitLabRunnerInstance,
    host: &HostEnv,
) -> (r: Result<Runner, TemplateError>)
    requires
        instance.config_variables.wf(),
        host.env_vars.wf(),
    ensures
        match r {
            Ok(out) => runner_expands_to(host.home@, instance_table(instance_name@, *host, *instance), *config, out),
            Err(_) => !runner_expands(host.home@, instance_table(instance_name@, *host, *instance), *config),
        },
{
    let ctx = ExpansionContext { instance_name, host, launch: None, variables: &instance.config_variables };
    assert(ctx.table() == instance_table(instance_name@, *host, *instance));
    let builds_dir = match expand_field(&ctx, &config.builds_dir, "builds_dir") { Ok(v) => v, Err(e) => return Err(e) };
    let cache_dir = match expand_field(&ctx, &config.cache_dir, "cache_dir") { Ok(v) => v, Err(e) => return Err(e) };
    let environment = match &config.environment {
        Some(v) => match expand_list(&ctx, v, "environment") {
            Ok(out) => Some(out),
            Err(e) => return Err(e),
        },
        None => None,
    };
    let executor = match expand_executor(&ctx, &config.executor) { Ok(v) => v, Err(e) => return Err(e) };
    Ok(Runner { builds_dir, cache_dir, executor, environment })
}

/// `b` is what the flag `v` stands for: the boolean itself, or a string
/// that expands to `true` or `false`.
pub open spec fn bool_expands_to(h: Seq<char>, t: Map<Seq<char>, Seq<char>>, v: BoolOrString, b: bool) -> bool {
    match v {
        BoolOrString::Bool(x) => x == b,
        BoolOrString::String(s) => shell_expansion(s@, h, t) == Ok::<Seq<char>, Seq<char>>(
            if b { "true"@ } else { "false"@ },
        ),
    }
}

/// The flag `v` stands for a boolean.
pub open spec fn bool_expands(h: Seq<char>, t: Map<Seq<char>, Seq<char>>, v: BoolOrString) -> bool {
    bool_expands_to(h, t, v, true) || bool_expands_to(h, t, v, false)
}

fn expand_bool(ctx: &ExpansionContext, v: &BoolOrString, field: &str) -> (r: Result<bool, TemplateError>)
    requires
        ctx.wf(),
    ensures
        match r {
            Ok(b) => bool_expands_to(ctx.host.home@, ctx.table(), *v, b),
            Err(_) => !bool_expands(ctx.host.home@, ctx.table(), *v),
        },
{
    match v {
        BoolOrString::Bool(b) => Ok(*b),
        BoolOrString::String(s) => match expand_field(ctx, s, field) {
            Ok(value) => {
                if str_equal(value.as_str(), "true") {
                    Ok(true)
                } else if str_equal(value.as_str(), "false") {
                    Ok(false)
                } else {
                    Err(TemplateError::NotABool { field: crate::text::owned(field), value })
                }
            },
            Err(e) => Err(e),
        },
    }
}

/// The builds directory template of the executor: its own, else the worker's.
pub open spec fn executor_builds_dir(config: GitLabRunnersConfig) -> String {
    match config.executor {
        Some(e) => match e.builds_dir {
            Some(b) => b,
            None => config.runner.builds_dir,
        },
        None => config.runner.builds_dir,
    }
}

/// The executor section exists and every field of it expands.
pub open spec fn executor_config_expands(h: Seq<char>, t: Map<Seq<char>, Seq<char>>, config: GitLabRunnersConfig) -> bool {
    match config.executor {
        None => false,
        Some(e) => {
            &&& expands(h, t, e.image_dir)
            &&& opt_expands(h, t, e.image_cache_dir)
            &&& opt_expands(h, t, e.image_tmp_dir)
            &&& expands(h, t, e.apptainer_executable)
            &&& bool_expands(h, t, e.gpu_amd)
            &&& bool_expands(h, t, e.gpu_nvidia)
            &&& all_expand(h, t, e.mount@)
            &&& expands(h, t, executor_builds_dir(config))
            &&& expands(h, t, config.runner.cache_dir)
        },
    }
}

/// `out` is the executor section with every field expanded; a description
/// that does not expand is kept as written.
pub open spec fn executor_config_expands_to(
    h: Seq<char>,
    t: Map<Seq<char>, Seq<char>>,
    config: GitLabRunnersConfig,
    out: GitLabCustomExecutorConfig,
) -> bool {
    match config.executor {
        None => false,
        Some(e) => {
            &&& expands_to(h, t, e.image_dir, out.image_dir)
            &&& opt_expands_to(h, t, e.image_cache_dir, out.image_cache_dir)
            &&& opt_expands_to(h, t, e.image_tmp_dir, out.image_tmp_dir)
            &&& out.pull_policy == e.pull_policy
            &&& expands_to(h, t, e.apptainer_executable, out.apptainer_executable)
            &&& bool_expands_to(h, t, e.gpu_amd, out.gpu_amd)
            &&& bool_expands_to(h, t, e.gpu_nvidia, out.gpu_nvidia)
            &&& all_expand_to(h, t, e.mount@, out.mount@)
            &&& expands_to(h, t, executor_builds_dir(config), out.builds_dir)
            &&& expands_to(h, t, config.runner.cache_dir, out.cache_dir)
            &&& match (e.description, out.description) {
                (Some(d), Some(o)) => o@ == match shell_expansion(d@, h, t) {
                    Ok(x) => x,
                    Err(_) => d@,
                },
                (None, None) => true,
                _ => false,
            }
        },
    }
}

/// Expands the custom executor section for instance `instance_name`.
pub fn expand_executor_config_template(
    config: &GitLabRunnersConfig,
    instance_name: &str,
    instance: &GitLabRunnerInstance,
    host: &HostEnv,
) -> (r: Result<GitLabCustomExecutorConfig, TemplateError>)
    requires
        instance.config_variables.wf(),
        host.env_vars.wf(),
    ensures
        match r {
            Ok(out) => executor_config_expands_to(host.home@, instance_table(instance_name@, *host, *instance), *config, out),
            Err(_) => !executor_config_expands(host.home@, instance_table(instance_name@, *host, *instance), *config),
        },
{
    let executor = match &config.executor {
        Some(e) => e,
        None => return Err(TemplateError::MissingSection { section: crate::text::owned("executor") }),
    };
    let ctx = ExpansionContext { instance_name, host, launch: None, variables: &instance.config_variables };
    assert(ctx.table() == instance_table(instance_name@, *host, *instance));
    let image_dir = match expand_field(&ctx, &executor.image_dir, "image_dir") { Ok(v) => v, Err(e) => return Err(e) };
    let image_cache_dir = match expand_optional(&ctx, &executor.image_cache_dir, "image_cache_dir") { Ok(v) => v, Err(e) => return Err(e) };
    let image_tmp_dir = match expand_optional(&ctx, &executor.image_tmp_dir, "image_tmp_dir") { Ok(v) => v, Err(e) => return Err(e) };
    let apptainer_executable = match expand_field(&ctx, &executor.apptainer_executable, "apptainer_executable") { Ok(v) => v, Err(e) => return Err(e) };
    let gpu_amd = match expand_bool(&ctx, &executor.gpu_amd, "gpu_amd") { Ok(v) => v, Err(e) => return Err(e) };
    let gpu_nvidia = match expand_bool(&ctx, &executor.gpu_nvidia, "gpu_nvidia") { Ok(v) => v, Err(e) => return Err(e) };
    let mount = match expand_list(&ctx, &executor.mount, "mount") { Ok(v) => v, Err(e) => return Err(e) };
    let builds_dir_template = match &executor.builds_dir {
        Some(b) => b,
        None => &config.runner.builds_dir,
    };
    let builds_dir = match expand_field(&ctx, builds_dir_template, "builds_dir") { Ok(v) => v, Err(e) => return Err(e) };
    let cache_dir = match expand_field(&ctx, &config.runner.cache_dir, "cache_dir") { Ok(v) => v, Err(e) => return Err(e) };
    let description = match &executor.description {
        Some(d) => match shell_expand(&ctx, d.as_str()) {
            Ok(v) => Some(v),
            Err(_) => Some(d.clone()),
        },
        None => None,
    };
    Ok(GitLabCustomExecutorConfig {
        image_dir,
        image_cache_dir,
        image_tmp_dir,
        pull_policy: executor.pull_policy,
        apptainer_executable,
        gpu_amd,
        gpu_nvidia,
        mount,
        builds_dir,
        cache_dir,
        description,
    })
}

/// The launch section exists and every expanded field of it expands.
pub open spec fn launch_config_expands(h: Seq<char>, t: Map<Seq<char>, Seq<char>>, config: GitLabRunnersConfig) -> bool {
    match config.launch {
        None => false,
        Some(l) => {
            &&& expands(h, t, l.executable)
            &&& all_expand(h, t, l.args@)
            &&& opt_expands(h, t, l.workdir)
            &&& opt_expands(h, t, l.stdin)
        },
    }
}

/// `out` is the launch section with its executable, arguments, working
/// directory and input expanded, and its timeout and batch size unchanged.
pub open spec fn launch_config_expands_to(
    h: Seq<char>,
    t: Map<Seq<char>, Seq<char>>,
    config: GitLabRunnersConfig,
    out: GitLabLaunchConfig,
) -> bool {
    match config.launch {
        None => false,
        Some(l) => {
            &&& expands_to(h, t, l.executable, out.executable)
            &&& all_expand_to(h, t, l.args@, out.args@)
            &&& opt_expands_to(h, t, l.workdir, out.workdir)
            &&& opt_expands_to(h, t, l.stdin, out.stdin)
            &&& out.timeout == l.timeout
            &&& out.group_size == l.group_size
        },
    }
}

/// Expands the launch section for instance `instance_name` and a batch of
/// `num_jobs` jobs.
pub fn expand_launch_config_template(
    paths: &Paths,
    config: &GitLabRunnersConfig,
    instance_name: &str,
    instance: &GitLabRunnerInstance,
    num_jobs: usize,
    host: &HostEnv,
) -> (r: Result<GitLabLaunchConfig, TemplateError>)
    requires
        instance.config_variables.wf(),
        host.env_vars.wf(),
    ensures
        match r {
            Ok(out) => launch_config_expands_to(
                host.home@,
                launch_table(*paths, *config, instance_name@, *instance, *host, num_jobs),
                *config,
                out,
            ),
            Err(_) => !launch_config_expands(
                host.home@,
                launch_table(*paths, *config, instance_name@, *instance, *host, num_jobs),
                *config,
            ),
        },
{
    let launch = match &config.launch {
        Some(l) => l,
        None => return Err(TemplateError::MissingSection { section: crate::text::owned("launch") }),
    };
    let config_path = get_generated_config_file_path(paths, &config.name);
    let num_jobs_text = usize_to_decimal(num_jobs);
    let ctx = ExpansionContext {
        instance_name,
        host,
        launch: Some((config_path, num_jobs_text)),
        variables: &instance.config_variables,
    };
    assert(ctx.table() == launch_table(*paths, *config, instance_name@, *instance, *host, num_jobs));
    let executable = match expand_field(&ctx, &launch.executable, "executable") { Ok(v) => v, Err(e) => return Err(e) };
    let args = match expand_list(&ctx, &launch.args, "args") { Ok(v) => v, Err(e) => return Err(e) };
    let workdir = match expand_optional(&ctx, &launch.workdir, "workdir") { Ok(v) => v, Err(e) => return Err(e) };
    let stdin = match expand_optional(&ctx, &launch.stdin, "stdin") { Ok(v) => v, Err(e) => return Err(e) };
    Ok(GitLabLaunchConfig { executable, args, workdir, stdin, timeout: launch.timeout, group_size: launch.group_size })
}

} // verus!
