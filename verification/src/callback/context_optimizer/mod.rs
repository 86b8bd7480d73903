pub mod compaction;
pub mod sliding_windows;
