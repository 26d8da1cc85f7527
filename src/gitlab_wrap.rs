use vstd::prelude::*;

verus! {

/// A project on the CI platform.
#[derive(Debug, Clone, PartialEq)]
pub struct Project {
    pub id: u64,
}

/// A pending job reported by the CI platform.
#[derive(Debug, Clone, PartialEq)]
pub struct Job {
    pub id: u64,
    pub name: String,
    pub tags: Vec<String>,
}

/// What is sent to the CI platform when a worker is created or updated.
#[derive(Debug, Clone, PartialEq)]
pub struct RunnerParameters {
    pub description: String,
    pub tags: Vec<String>,
}

/// The outcome of one call to the CI platform, classified once where the
/// call is made: success, "not found", or any other failure with its message.
#[derive(Debug, Clone, PartialEq)]
pub enum RemoteOutcome<T> {
    Done(T),
    NotFound,
    Failed(String),
}

} // verus!
