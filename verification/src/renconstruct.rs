pub mod config;
pub mod packaging;
pub mod plugin;
pub mod resolver;
pub mod scheduler;
pub mod tasks;
