//! Parallel tag generation: sharding a file list over workers, judging the
//! workers' results and merging their tag streams into one ordered output.

pub mod bin;
pub mod cmd_ctags;
pub mod cmd_git;
pub mod command;
pub mod decode;
pub mod lfs;
pub mod lines;
pub mod merge;
pub mod output;
pub mod run;
pub mod shard;
pub mod show;
pub mod sort;
