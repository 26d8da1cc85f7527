use vstd::prelude::*;

verus! {

/// The custom executor's four stages: the executable and arguments of each.
#[derive(Debug, Clone, PartialEq)]
pub struct CustomExecutor {
    /// The executable that configures a job.
    pub config_exec: String,
    /// The arguments passed to `config_exec`.
    pub config_args: Vec<String>,
    /// The executable that prepares a job.
    pub prepare_exec: String,
    /// The arguments passed to `prepare_exec`.
    pub prepare_args: Vec<String>,
    /// The executable that runs a job.
    pub run_exec: String,
    /// The arguments passed to `run_exec`.
    pub run_args: Vec<String>,
    /// The executable that cleans up after a job.
    pub cleanup_exec: String,
    /// The arguments passed to `cleanup_exec`.
    pub cleanup_args: Vec<String>,
}

/// The executor that a registered worker uses.
#[derive(Debug, Clone, PartialEq)]
pub enum Executor {
    Custom { custom: CustomExecutor },
    Shell,
}

/// Configuration of one registered worker, written to the downstream
/// configuration file.
#[derive(Debug, Clone, PartialEq)]
pub struct Runner {
    /// Directory used for builds.
    pub builds_dir: String,
    /// Directory used for build caches.
    pub cache_dir: String,
    /// The executor of this worker.
    pub executor: Executor,
    /// Additional environment variables, as `NAME=value` entries.
    pub environment: Option<Vec<String>>,
}

/// A worker configuration together with the registration it runs under.
#[derive(Debug, Clone, PartialEq)]
pub struct RegisteredRunner {
    /// The worker instance name.
    pub name: String,
    /// The expanded configuration.
    pub config: Runner,
    /// The CI platform's URL.
    pub url: String,
    /// The registration used by this configuration.
    pub registration: RunnerRegistration,
}

/// The remote identity of a registered worker.
#[derive(Debug, Clone, PartialEq)]
pub struct RunnerRegistration {
    /// The remote worker id.
    pub id: u64,
    /// The worker's API token.
    pub token: String,
}

impl RunnerRegistration {
    /// A copy of this registration.
    pub fn duplicate(&self) -> (r: RunnerRegistration)
        ensures
            r == *self,
    {
        RunnerRegistration { id: self.id, token: self.token.clone() }
    }
}

} // verus!
