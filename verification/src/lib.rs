//! The rules of a CrystalDiskMark-style disk benchmark: which workloads run in
//! which order, how their results are scored, and what is shown of them.

pub mod abort;
pub mod cli;
pub mod disk;
pub mod duration;
pub mod eta;
pub mod fio;
pub mod human;
pub mod measure;
pub mod mounts;
pub mod paths;
pub mod platform;
pub mod report;
pub mod runner;
pub mod session;
pub mod steps;
pub mod task;
pub mod text;
pub mod trace;
pub mod ui;
