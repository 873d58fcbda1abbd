use wasm_ast::sections::parse_section_raw;
use wasm_ast::{
    parse_custom_section, parse_section, parse_type_section, Custom, FunctionType, ModuleSection,
    ParseError, ValueType,
};

fn is_invalid_binary<T>(r: &Result<T, ParseError>) -> bool {
    matches!(r, Err(ParseError::InvalidBinary))
}

#[test]
fn empty_type_section() {
    let input = [0x01u8, 0x01, 0x00];
    let (rest, types) = parse_type_section(&input).unwrap();
    assert!(types.is_empty());
    assert!(rest.is_empty());
}

#[test]
fn empty_type_section_leaves_next_section() {
    let input = [0x01u8, 0x01, 0x00, 0x00, 0x01, 0x00];
    let (rest, types) = parse_type_section(&input).unwrap();
    assert!(types.is_empty());
    assert_eq!(rest, &[0x00, 0x01, 0x00]);
}

#[test]
fn type_section_with_one_empty_signature() {
    let input = [0x01u8, 0x04, 0x01, 0x60, 0x00, 0x00];
    let (rest, types) = parse_type_section(&input).unwrap();
    assert!(rest.is_empty());
    assert_eq!(types.len(), 1);
    assert!(types[0].parameters().is_empty());
    assert!(types[0].results().is_empty());
}

#[test]
fn type_section_with_parameters_and_results() {
    let input = [
        0x01u8, 0x0C, 0x02, 0x60, 0x02, 0x7F, 0x7E, 0x01, 0x7D, 0x60, 0x00, 0x02, 0x70, 0x6F,
    ];
    let (rest, types) = parse_type_section(&input).unwrap();
    assert!(rest.is_empty());
    assert_eq!(types.len(), 2);
    assert_eq!(types[0].parameters(), &[ValueType::I32, ValueType::I64]);
    assert_eq!(types[0].results(), &[ValueType::Float32]);
    assert!(types[1].parameters().is_empty());
    assert_eq!(
        types[1].results(),
        &[ValueType::FunctionReference, ValueType::ExternalReference]
    );
}

#[test]
fn type_section_with_fewer_signatures_than_counted() {
    let input = [0x01u8, 0x04, 0x02, 0x60, 0x00, 0x00];
    assert!(is_invalid_binary(&parse_type_section(&input)));
}

#[test]
fn type_section_with_bad_signature_tag() {
    let input = [0x01u8, 0x04, 0x01, 0x61, 0x00, 0x00];
    assert!(is_invalid_binary(&parse_type_section(&input)));
}

#[test]
fn type_section_with_bad_value_type() {
    let input = [0x01u8, 0x05, 0x01, 0x60, 0x01, 0x40, 0x00];
    assert!(is_invalid_binary(&parse_type_section(&input)));
}

#[test]
fn trailing_bytes_in_body_are_rejected() {
    let input = [0x01u8, 0x02, 0x00, 0x00];
    assert!(is_invalid_binary(&parse_type_section(&input)));
}

#[test]
fn declared_length_beyond_input_is_rejected() {
    let input = [0x00u8, 0x05, 0x01, b'a'];
    assert!(is_invalid_binary(&parse_custom_section(&input)));
    let input = [0x01u8, 0x02, 0x00];
    assert!(is_invalid_binary(&parse_type_section(&input)));
}

#[test]
fn wrong_identifier_is_rejected() {
    assert!(is_invalid_binary(&parse_custom_section(&[0x01, 0x01, 0x00])));
    assert!(is_invalid_binary(&parse_type_section(&[0x00, 0x02, 0x01, b'a'])));
    assert!(is_invalid_binary(&parse_type_section(&[])));
}

#[test]
fn malformed_length_is_rejected() {
    let input = [0x00u8, 0x80];
    assert!(is_invalid_binary(&parse_custom_section(&input)));
    let input = [0x00u8, 0x80, 0x80, 0x80, 0x80, 0x80, 0x00];
    assert!(is_invalid_binary(&parse_custom_section(&input)));
}

#[test]
fn custom_section_with_padded_length() {
    let input = [0x00u8, 0x83, 0x00, 0x01, b'a', 0xFF, 0xEE, 0xDD];
    let (rest, custom) = parse_custom_section(&input).unwrap();
    assert_eq!(custom.name(), "a");
    assert_eq!(custom.contents(), &[0xFF]);
    assert_eq!(rest, &[0xEE, 0xDD]);
}

#[test]
fn custom_section_round_trip() {
    let name = "hello";
    let contents = [1u8, 2, 3, 0, 255];
    let mut body = vec![name.len() as u8];
    body.extend_from_slice(name.as_bytes());
    body.extend_from_slice(&contents);
    let mut input = vec![0x00u8, body.len() as u8];
    input.extend_from_slice(&body);
    input.extend_from_slice(&[0x01, 0x01, 0x00]);
    let (rest, custom) = parse_custom_section(&input).unwrap();
    assert_eq!(custom.name, "hello");
    assert_eq!(custom.contents, contents.to_vec());
    assert_eq!(rest, &[0x01, 0x01, 0x00]);
}

#[test]
fn custom_section_with_non_ascii_name() {
    let input = [0x00u8, 0x04, 0x02, 0xC3, 0xA9, 0x07];
    let (rest, custom) = parse_custom_section(&input).unwrap();
    assert_eq!(custom.name(), "\u{e9}");
    assert_eq!(custom.contents(), &[0x07]);
    assert!(rest.is_empty());
}

#[test]
fn custom_section_with_empty_name_and_contents() {
    let input = [0x00u8, 0x01, 0x00];
    let (rest, custom) = parse_custom_section(&input).unwrap();
    assert_eq!(custom.name(), "");
    assert!(custom.contents().is_empty());
    assert!(rest.is_empty());
}

#[test]
fn empty_custom_section_is_rejected() {
    assert!(is_invalid_binary(&parse_custom_section(&[0x00, 0x00])));
}

#[test]
fn custom_section_with_invalid_utf8_name() {
    let input = [0x00u8, 0x03, 0x02, 0xC3, 0x28];
    assert!(is_invalid_binary(&parse_custom_section(&input)));
}

#[test]
fn custom_section_with_truncated_name() {
    let input = [0x00u8, 0x02, 0x05, b'a'];
    assert!(is_invalid_binary(&parse_custom_section(&input)));
}

#[test]
fn generic_section_parser() {
    let input = [0x00u8, 0x02, 0x00, 0x09, 0x42];
    let (rest, custom) = parse_section::<Custom>(ModuleSection::Custom, &input).unwrap();
    assert_eq!(custom.name(), "");
    assert_eq!(custom.contents(), &[0x09]);
    assert_eq!(rest, &[0x42]);
    let input = [0x01u8, 0x01, 0x00];
    let (rest, types) = parse_section::<Vec<FunctionType>>(ModuleSection::Type, &input).unwrap();
    assert!(types.is_empty());
    assert!(rest.is_empty());
}

#[test]
fn raw_section_framing() {
    let input = [0x0Bu8, 0x02, 0xAA, 0xBB, 0xCC];
    let (rest, body) = parse_section_raw(ModuleSection::Data, &input).unwrap();
    assert_eq!(body, &[0xAA, 0xBB]);
    assert_eq!(rest, &[0xCC]);
    let input = [0x0Bu8, 0x00];
    let (rest, body) = parse_section_raw(ModuleSection::Data, &input).unwrap();
    assert!(body.is_empty());
    assert!(rest.is_empty());
    assert!(is_invalid_binary(&parse_section_raw(ModuleSection::Code, &[0x0B, 0x00])));
}

#[test]
fn section_identifiers() {
    let all = [
        ModuleSection::Custom,
        ModuleSection::Type,
        ModuleSection::Import,
        ModuleSection::Function,
        ModuleSection::Table,
        ModuleSection::Memory,
        ModuleSection::Global,
        ModuleSection::Export,
        ModuleSection::Start,
        ModuleSection::Element,
        ModuleSection::Code,
        ModuleSection::Data,
        ModuleSection::DataCount,
    ];
    for (i, s) in all.iter().enumerate() {
        assert_eq!(s.id() as usize, i);
    }
}

#[test]
fn constructors_and_accessors() {
    let c = Custom::new("n".to_string(), vec![1, 2]);
    assert_eq!(c.name(), "n");
    assert_eq!(c.contents(), &[1, 2]);
    let f = FunctionType::new(vec![ValueType::V128], vec![ValueType::Float64]);
    assert_eq!(f.parameters(), &[ValueType::V128]);
    assert_eq!(f.results(), &[ValueType::Float64]);
}
