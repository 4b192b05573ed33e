pub mod cli;
pub mod command;
pub mod config;
pub mod errors;
pub mod laws;
pub mod placeholder;
pub mod routes;
pub mod store;
pub mod text;
