pub mod config;
pub mod connection;
pub mod error;
pub mod response;
pub mod store;
pub mod text;
