//! Fleet reconciliation and job dispatch for ephemeral CI runners.

/// Validity check of a configuration
pub mod check_config;
/// Command-line operations and file locations
pub mod cli;
/// The meta-runner's configuration
pub mod config;
/// Reconciliation of worker registrations with the configuration
pub mod configure;
/// Decisions of the custom executor's stages
pub mod executor;
/// Worker configuration written for the downstream runner program
pub mod gitlab_config;
/// Values exchanged with the CI platform
pub mod gitlab_wrap;
/// Choice of the instance that serves a job
pub mod matcher;
/// Maps keyed by name that keep insertion order
pub mod name_map;
/// Selection, grouping and batching of pending jobs, and the dispatch loop
pub mod run;
/// Variable expansion of configuration templates
pub mod template;
/// Text helpers
pub mod text;
