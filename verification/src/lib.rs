//! Verified core of a pluggable thread-state storage layer.

pub mod cascade;
pub mod delete_report;
pub mod errors;
pub mod fs_path;
pub mod ids;
pub mod json;
pub mod local_fs;
pub mod manage_tasks;
pub mod memory;
pub mod memory_archive;
pub mod memory_cache;
pub mod memory_clusters;
pub mod memory_conflicts;
pub mod memory_injection;
pub mod memory_json;
pub mod memory_profile;
pub mod memory_segments;
pub mod numbers;
pub mod path_safety;
pub mod prompts;
pub mod records;
pub mod redis_keys;
pub mod registry;
pub mod s3_layout;
pub mod semantic_terms;
pub mod session;
pub mod storage_config;
pub mod text;
pub mod tools;
