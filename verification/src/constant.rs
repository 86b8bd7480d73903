use vstd::prelude::*;

verus! {

/// The chat model the agent talks to.
pub const AGENT_MODEL: &'static str = "deepseek-v4-pro";

/// The embedding model used when none is configured.
pub const EMBEDDING_MODEL: &'static str = "deepseek-v4-pro";

} // verus!
