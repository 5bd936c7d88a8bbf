//! The operations behind the service's endpoints.

pub mod artifact;
pub mod database;
pub mod identifier;
pub mod media;
pub mod relation;
pub mod session;
