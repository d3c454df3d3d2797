pub mod parser;
pub mod registry;
pub mod schema;
pub mod vars;
