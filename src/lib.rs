//! Parsing and ordering of version strings written in heterogeneous schemes:
//! semantic versions, epochs, `-rcN` pre-releases, trailing patch letters,
//! pre-release letters and `+build` suffixes.
pub mod args;
pub mod classic;
pub mod cmp;
pub mod compare;
pub mod config;
pub mod display;
pub mod laws;
pub mod operations;
pub mod parse;
pub mod render;
pub mod roundtrip;
pub mod structs;
pub mod text;

pub use args::parse_arguments;
pub use compare::{compare, compare_with_operator, operator_matches};
pub use config::permissive_parser_config;
pub use display::display;
pub use operations::{assert_operation, canonical_operations, compare_operation, Outcome};
pub use parse::parse_raw_version;
pub use structs::{BuildBlock, MainBlock, ParseError, ParserConfig, PrereleaseBlock, Version};
