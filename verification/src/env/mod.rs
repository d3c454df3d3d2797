pub mod platform;
pub mod prober;
