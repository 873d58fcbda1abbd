use wasm_ast::ParseError;

#[test]
fn binary_error_message() {
    assert_eq!(
        ParseError::InvalidBinary.message(),
        "The WebAssembly module is not a valid binary format."
    );
}

#[test]
fn text_error_from_front_end() {
    let e = wat::parse_str("(module").unwrap_err();
    let p = ParseError::from(e);
    assert!(matches!(p, ParseError::InvalidText(_)));
    assert_eq!(
        p.message(),
        "The WebAssembly module in text format could not be transformed to the binary format."
    );
}
