pub mod bender;
pub mod cache;
pub mod effectors;
pub mod param_pool;
