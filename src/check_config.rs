use vstd::prelude::*;

use crate::cli::Paths;
use crate::config::GitLabRunnersConfig;
use crate::template::{
    executor_config_expands, expand_executor_config_template, expand_launch_config_template,
    expand_runner_config_template, instance_table, launch_config_expands, launch_table,
    runner_expands, HostEnv, TemplateError,
};

verus! {

/// Which section of the configuration failed to expand.
#[derive(Debug, Clone, Copy, PartialEq, Eq, Structural)]
pub enum ConfigSection {
    Runner,
    Executor,
    Launch,
}

/// A section that does not expand for an instance.
#[derive(Debug, Clone, PartialEq)]
pub struct CheckError {
    pub instance: String,
    pub section: ConfigSection,
    pub error: TemplateError,
}

/// The batch size that the check expands launch templates with.
pub open spec fn check_num_jobs(config: GitLabRunnersConfig) -> usize {
    match config.launch {
        Some(l) => l.group_size,
        None => 1,
    }
}

/// Every section of the configuration expands for instance entry `i`.
pub open spec fn instance_checks(paths: Paths, config: GitLabRunnersConfig, host: HostEnv, i: int) -> bool {
    let name = config.runners.entries@[i].0@;
    let instance = config.runners.entries@[i].1;
    &&& runner_expands(host.home@, instance_table(name, host, instance), config.runner)
    &&& executor_config_expands(host.home@, instance_table(name, host, instance), config)
    &&& launch_config_expands(
        host.home@,
        launch_table(paths, config, name, instance, host, check_num_jobs(config)),
        config,
    )
}

/// Checks that the worker, executor and launch sections expand for every
/// instance; the first failure is reported.
pub fn check(paths: &Paths, config: &GitLabRunnersConfig, host: &HostEnv) -> (r: Result<(), CheckError>)
    requires
        config.wf(),
        host.env_vars.wf(),
    ensures
        r is Ok <==> forall|i: int| 0 <= i < config.runners.entries@.len() ==> #[trigger] instance_checks(*paths, *config, *host, i),
{
    let num_jobs = match &config.launch {
        Some(l) => l.group_size,
        None => 1,
    };
    let mut i: usize = 0;
    while i < config.runners.entries.len()
        invariant
            i <= config.runners.entries@.len(),
            config.wf(),
            host.env_vars.wf(),
            num_jobs == check_num_jobs(*config),
            forall|q: int| 0 <= q < i ==> #[trigger] instance_checks(*paths, *config, *host, q),
        decreases config.runners.entries@.len() - i,
    {
        let entry = &config.runners.entries[i];
        let name = entry.0.as_str();
        let instance = &entry.1;
        assert(instance.config_variables.wf());
        if let Err(error) = expand_runner_config_template(&config.runner, name, instance, host) {
            assert(!instance_checks(*paths, *config, *host, i as int));
            return Err(CheckError { instance: entry.0.clone(), section: ConfigSection::Runner, error });
        }
        if let Err(error) = expand_executor_config_template(config, name, instance, host) {
            assert(!instance_checks(*paths, *config, *host, i as int));
            return Err(CheckError { instance: entry.0.clone(), section: ConfigSection::Executor, error });
        }
        if let Err(error) = expand_launch_config_template(paths, config, name, instance, num_jobs, host) {
            assert(!instance_checks(*paths, *config, *host, i as int));
            return Err(CheckError { instance: entry.0.clone(), section: ConfigSection::Launch, error });
        }
        i += 1;
    }
    Ok(())
}

} // verus!
