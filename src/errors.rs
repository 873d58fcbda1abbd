use vstd::prelude::*;

verus! {

/// The kind of failure of a parse.
///
/// The binary parsers collapse every cause (a wrong identifier byte, a
/// malformed integer, a truncated body, bytes left over) into `InvalidBinary`.
#[derive(Debug)]
pub enum ParseError {
    /// The text front end refused its input; carries its diagnostic.
    InvalidText(wat::Error),
    /// The bytes are not a valid binary encoding.
    InvalidBinary,
}

/// The diagnostic type of the `wat` text front end, carried opaquely.
#[verifier::external_type_specification]
#[verifier::external_body]
pub struct ExWatError(wat::Error);

impl ParseError {
    /// The human-readable description of this error.
    pub fn message(&self) -> (r: &'static str)
        ensures
            self is InvalidText ==> r@
                == "The WebAssembly module in text format could not be transformed to the binary format."@,
            self is InvalidBinary ==> r@ == "The WebAssembly module is not a valid binary format."@,
    {
        match self {
            ParseError::InvalidText(_) => {
                "The WebAssembly module in text format could not be transformed to the binary format."
            },
            ParseError::InvalidBinary => "The WebAssembly module is not a valid binary format.",
        }
    }
}

impl From<wat::Error> for ParseError {
    fn from(e: wat::Error) -> (r: ParseError)
        ensures
            r == ParseError::InvalidText(e),
    {
        ParseError::InvalidText(e)
    }
}

impl vstd::std_specs::convert::FromSpecImpl<wat::Error> for ParseError {
    open spec fn obeys_from_spec() -> bool {
        true
    }

    open spec fn from_spec(v: wat::Error) -> ParseError {
        ParseError::InvalidText(v)
    }
}

} // verus!
