use vstd::prelude::*;

verus! {

/// Locations of the files that the meta-runner reads and writes.
#[derive(Debug, Clone, PartialEq)]
pub struct Paths {
    /// The configuration file.
    pub config_file: String,
    /// The directory holding registrations and generated configuration.
    pub data_dir: String,
    /// Where the generated downstream configuration goes, if not in `data_dir`.
    pub generated_config_file: Option<String>,
}

/// A stage of the custom executor.
#[derive(Debug, Clone, PartialEq)]
pub enum ExecutorCommand {
    Config,
    Prepare,
    Run { script_name: String, step_name: String },
    Cleanup,
}

/// The custom executor's invocation: which worker instance, which stage.
#[derive(Debug, Clone, PartialEq)]
pub struct ExecutorOptions {
    pub runner_name: String,
    pub command: ExecutorCommand,
}

/// The operations of the meta-runner.
#[derive(Debug, Clone, PartialEq)]
pub enum Command {
    CreateExampleConfig,
    ShowExampleConfig,
    CheckConfig,
    ShowConfig,
    Configure,
    Executor(ExecutorOptions),
    RunSingle,
    Run,
}

} // verus!
