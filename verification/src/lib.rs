//! A library for parsing command-line arguments.
//!
//! Before an argument list is parsed, a `ParsingConfig` is set up. It says
//! which syntaxes are read and how edge cases are settled, and it holds the
//! flags, parameters, aliases and subcommands of the program. `parse` then
//! reads an argument list under it.
//!
//! A flag is an option that has a name and takes no value. A parameter is an
//! option that has a name and takes a value. An unnamed parameter is an
//! argument that is neither an option nor the value of one. An alias is
//! another name for a flag or a parameter; it is used only while the
//! arguments are read, and a result or an error names the option itself.
//!
//! The first argument is always taken as the name under which the program
//! (or subcommand) was called.
//!
//! What `parse` returns is stated in `rules`, as a function of the
//! configuration and the arguments; `laws` and `invariants` hold what
//! follows from it.

use vstd::prelude::*;

pub mod invariants;
pub mod laws;
pub mod param_parser;
pub mod parse;
pub mod parsed_args;
pub mod parser;
pub mod parsing_config;
pub mod parsing_error;
pub mod parsing_results;
pub mod resolve;
pub mod rules;
pub mod text;

pub use crate::param_parser::{ParamParser, ParamParserTyped};
pub use crate::parse::parse;
pub use crate::parsed_args::ParsedArgs;
pub use crate::parser::Parser;
pub use crate::parsing_config::{ArgDesc, ConfigError, Features, ParsingConfig};
pub use crate::parsing_error::ParsingError;
pub use crate::parsing_results::ParsingResults;
pub use crate::resolve::{parse_option_name, parse_subcommand_name, Target};
pub use crate::text::Name;

verus! {

} // verus!
