pub mod api;
pub mod manager;
