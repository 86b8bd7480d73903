pub mod context;
pub mod event;
pub mod llm_request;
pub mod runtime;
