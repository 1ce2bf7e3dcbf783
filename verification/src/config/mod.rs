//! Profile configuration: the data model, its loader, and the portal's
//! policy state.

pub mod error;
pub mod loader;
pub mod portal;
pub mod profile;

pub use error::ConfigError;
pub use loader::get_config;
