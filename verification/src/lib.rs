//! An order-sensitive key/value store for line-oriented `key = "value"`
//! configuration text, with its parser, its renderer and its queries.

pub mod command;
pub mod config;
pub mod error;
pub mod laws;
pub mod order;
pub mod ordered;
pub mod pairs;
pub mod path;
pub mod pattern;
pub mod style;
pub mod text;

pub use config::as_rev_list;
pub use config::Config;
pub use path::normalize_path;
pub use path::PathPart;
pub use error::ConfigError;
pub use style::format_key_string;
pub use style::format_value_string;
