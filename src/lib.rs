//! Planning and provisioning of block storage: partition layout planning with
//! undo, size-driven allocation strategies, filesystem superblock
//! identification, and the decisions made when writing a plan to disk.

pub mod sizing;
pub mod text;
pub mod disk;
pub mod types;
pub mod attributes;
pub mod planner;
pub mod strategy;
pub mod superblock;
pub mod writer;
pub mod formatter;
pub mod config;
pub mod provisioning;
