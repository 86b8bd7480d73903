pub mod chunk;
pub mod search;
pub mod embed;
