//! Error types shared across runtime, tools, and providers.
use vstd::prelude::*;

verus! {

/// Failures reported by a model provider.
#[derive(Debug, Clone, PartialEq, Eq)]
pub enum ProviderError {
    /// The provider answered with something that could not be interpreted.
    InvalidResponse(String),
    /// Any other provider failure.
    Other(String),
}

/// The single failure type used across the runtime.
#[derive(Debug, Clone, PartialEq, Eq)]
pub enum AgentError {
    /// Input that does not satisfy a documented shape.
    Validation(String),
    /// Invalid or missing configuration.
    Config(String),
    /// A tool, hook, or policy failed while running.
    ToolExecution { tool: String, message: String },
    /// An operation was refused by a permission boundary.
    PermissionDenied(String),
    /// A provider failure.
    Provider(ProviderError),
    /// The turn was cancelled.
    Cancelled,
    /// The turn exceeded its iteration limit.
    MaxIterations(usize),
    /// The provider kept failing after every retry.
    ProviderRetriesExhausted { attempts: usize, last_error: String },
}

} // verus!
