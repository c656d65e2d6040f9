//! A small poem type and the trait of anything that can produce one.

use crate::errors::AgentError;
use vstd::prelude::*;

verus! {

/// A haiku: three lines of text in one string.
#[derive(Debug, Clone, PartialEq)]
pub struct Haiku {
    pub content: String,
}

/// A producer of haikus, for callers that bring their own source.
pub trait HaikuGenerator {
    fn generate(&self) -> Result<Haiku, AgentError>;
}

} // verus!
