pub mod cache;
pub mod hashing;
pub mod laws;
pub mod matcher;
pub mod models;
pub mod naming;
pub mod session;
pub mod store;
