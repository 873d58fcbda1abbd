//! Decoding of the sections of a WebAssembly binary module.
//!
//! A section is one identifier byte, a LEB128 byte count and exactly that many
//! body bytes. Every parser here is a function from a byte slice to either a
//! decoded value together with the bytes that follow it, or a `ParseError`;
//! each one is specified by a spec function over `Seq<u8>` that says what it
//! decodes and how many bytes it consumes.
pub mod errors;
pub mod sections;
pub mod types;
pub mod values;

pub use errors::ParseError;
pub use sections::{parse_custom_section, parse_section, parse_type_section, Custom, ModuleSection};
pub use types::{FunctionType, ValueType};
