//! A minimal line-search library: given a query and the full text of a
//! file, it returns the lines that contain the query, either exactly or
//! after lowercasing both sides, together with the configuration builder
//! that validates command-line tokens.

pub mod config;
pub mod laws;
pub mod matcher;
pub mod text;

pub use config::Config;
pub use config::ConfigError;
pub use matcher::search;
pub use matcher::search_case_insentive;
pub use matcher::search_configured;
