pub mod text;
pub mod env;
pub mod error;
pub mod log;
pub mod plugin;
pub mod recipe;
pub mod task;
