//! The failure taxonomy of the agent core. Every failure is surfaced as a
//! typed value to the immediate caller; none is silently swallowed.

use vstd::prelude::*;

verus! {

/// One failure of the agent core.
#[derive(Debug)]
pub enum AgentError {
    /// The model endpoint could not be reached or the transfer failed.
    UpstreamError,
    /// The model endpoint answered, but not in the expected shape.
    MalformedModelOutput,
    /// No directive could be decoded from the model's reply; carries the raw
    /// reply text for diagnostics.
    ParseError(Vec<u8>),
    /// A local capability was invoked without its required arguments.
    ArgumentError,
    /// The transport was asked to act in a state that does not allow it.
    NotReady,
    /// The tool-server subprocess could not be started.
    SpawnError,
    /// No response line arrived within the deadline.
    Timeout,
    /// The response stream ended without a line.
    EmptyResponse,
    /// A response line arrived but was not valid structured data.
    MalformedToolResponse,
    /// The tool server reported an error; carries the rendered payload.
    ToolError(Vec<u8>),
    /// A local input/output action failed.
    IOError,
}

/// The bare kind of an [`AgentError`], convenient for comparisons.
#[derive(Clone, Copy, PartialEq, Eq, Structural, Debug)]
pub enum ErrorKind {
    Upstream,
    MalformedModelOutput,
    Parse,
    Argument,
    NotReady,
    Spawn,
    Timeout,
    EmptyResponse,
    MalformedToolResponse,
    Tool,
    Io,
}

impl AgentError {
    pub open spec fn spec_kind(&self) -> ErrorKind {
        match self {
            AgentError::UpstreamError => ErrorKind::Upstream,
            AgentError::MalformedModelOutput => ErrorKind::MalformedModelOutput,
            AgentError::ParseError(_) => ErrorKind::Parse,
            AgentError::ArgumentError => ErrorKind::Argument,
            AgentError::NotReady => ErrorKind::NotReady,
            AgentError::SpawnError => ErrorKind::Spawn,
            AgentError::Timeout => ErrorKind::Timeout,
            AgentError::EmptyResponse => ErrorKind::EmptyResponse,
            AgentError::MalformedToolResponse => ErrorKind::MalformedToolResponse,
            AgentError::ToolError(_) => ErrorKind::Tool,
            AgentError::IOError => ErrorKind::Io,
        }
    }

    pub fn kind(&self) -> (k: ErrorKind)
        ensures
            k == self.spec_kind(),
    {
        match self {
            AgentError::UpstreamError => ErrorKind::Upstream,
            AgentError::MalformedModelOutput => ErrorKind::MalformedModelOutput,
            AgentError::ParseError(_) => ErrorKind::Parse,
            AgentError::ArgumentError => ErrorKind::Argument,
            AgentError::NotReady => ErrorKind::NotReady,
            AgentError::SpawnError => ErrorKind::Spawn,
            AgentError::Timeout => ErrorKind::Timeout,
            AgentError::EmptyResponse => ErrorKind::EmptyResponse,
            AgentError::MalformedToolResponse => ErrorKind::MalformedToolResponse,
            AgentError::ToolError(_) => ErrorKind::Tool,
            AgentError::IOError => ErrorKind::Io,
        }
    }
}

} // verus!
