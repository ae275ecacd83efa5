pub mod text;
pub mod error;
pub mod thread_guard;
pub mod uuid;
pub mod task_map;
pub mod timestamp;
pub mod operation;
pub mod operations;
pub mod status;
pub mod access_mode;
pub mod tag;
pub mod annotation;
pub mod task;
pub mod task_data;
pub mod storage;
pub mod working_set;
pub mod dependency_map;
pub mod replica;
pub mod config;
