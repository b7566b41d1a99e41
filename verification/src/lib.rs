//! Path-addressed lookups into a parsed YAML document.
//!
//! A [`Config`](config::Config) owns a parsed YAML tree, a path separator
//! and an optional environment tag. Paths split on the separator address
//! nested mapping keys; convenience accessors coerce the node reached to
//! its canonical text or to a list of texts, and a templated formatter
//! interpolates several sibling leaves into one string.

pub mod config;
pub mod node;
pub mod parse;
pub mod render;
pub mod scan;

pub use config::Config;
pub use config::ConfigError;
pub use node::Entry;
pub use node::Node;
