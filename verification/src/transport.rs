//! The language model that answers prompts.

use vstd::prelude::*;

verus! {

/// Answers a prompt with a text, or says why it cannot.
pub trait LlmTransport {
    fn generate(&self, prompt: &str) -> Result<String, String>;
}

} // verus!
