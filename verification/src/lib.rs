pub mod args;
pub mod failed;
pub mod processor;
pub mod filename;
pub mod metadata;
pub mod text;
pub mod timestamp;
