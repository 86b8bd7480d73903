//! Core logic of an LLM agent runtime: conversation memory, event log,
//! tool-call bookkeeping, context optimisation and text chunking.

pub mod agent;
pub mod json;
pub mod memory;
pub mod text;
pub mod knowledge_base;
pub mod callback;
pub mod complete;
pub mod tools;
pub mod fs_mcp;
pub mod constant;
