pub mod pipeline;
