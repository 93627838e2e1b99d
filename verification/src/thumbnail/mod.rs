pub mod generator;
pub mod loader;
pub mod cache;
pub mod scheduler;
