//! Read and write single fields of a TOML-like document tree through dot
//! paths such as `package.authors[0]`.
//!
//! A path is split into segments ([`path`]), which the resolver follows to
//! read a node ([`resolve`]) and the mutator follows to write one, creating
//! missing tables, arrays and array slots when asked to ([`mutate`]). The
//! value written is typed from raw text and an optional hint ([`coerce`]).

pub mod coerce;
pub mod config;
pub mod error;
pub mod json;
pub mod mutate;
pub mod number;
pub mod path;
pub mod quotes;
pub mod resolve;
pub mod value;

pub use coerce::{auto_parse_value, parse_value_with_type};
pub use config::{ExtractConfig, ExtractionResult, FieldMap, GetConfig, GetResult, SetConfig};
pub use error::TomlExtractError;
pub use mutate::{set_field, set_nested_value};
pub use path::{
    is_array_access, last_part, parent_path, parse_array_access, parse_path, split_field_path,
    split_path, PathSegment,
};
pub use quotes::{is_quoted_string, strip_quotes, strip_quotes_internal};
pub use resolve::{
    dependency_version, extract_array, extract_array_element, extract_array_length,
    get_dependencies, get_nested_value, get_package_authors, get_package_categories,
    get_package_keywords, get_package_name, get_package_version,
};
pub use value::Value;
