//! How a recipe is tried again.

use vstd::prelude::*;

verus! {

/// A check that decides whether a run succeeded.
#[derive(Debug, Clone)]
pub enum SuccessCheck {
    /// A shell command that has to succeed.
    Shell { command: String },
}

/// How often a recipe is tried again, and what is run in between.
#[derive(Debug, Clone)]
pub struct RetryConfig {
    /// The number of attempts after the first.
    pub max_retries: u32,
    /// All of these have to pass.
    pub checks: Vec<SuccessCheck>,
    /// A shell command that is run after an attempt failed.
    pub on_failure: Option<String>,
    /// How long a check may take.
    pub timeout_seconds: Option<u64>,
    /// How long the command after a failure may take.
    pub on_failure_timeout_seconds: Option<u64>,
}

} // verus!
