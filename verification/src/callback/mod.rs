pub mod context_optimizer;
pub mod search_compressor;
pub mod approval;
