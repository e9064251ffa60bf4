//! Converts a parsed XML element tree into a JSON value tree, deciding for
//! each node whether it becomes a string, an object or an array.

pub mod cli;
pub mod config;
pub mod convert;
pub mod json;
pub mod laws;
pub mod plural;
pub mod xml;

pub use cli::{Cli, get_args};
pub use config::{Config, ListDetection, is_ignored};
pub use convert::{convert_children, convert_node, parse_xml};
pub use json::JsonValue;
pub use plural::{looks_singular_of, stems_match, suffix_strip_matches};
pub use xml::{XmlElement, XmlNode};
