use vstd::prelude::*;
use vstd::slice::slice_subrange;
use crate::errors::ParseError;
use crate::values::{parse_vector, spec_vector, Decode};

verus! {

/// The type of a value: a number, a vector or a reference.
#[derive(Clone, Copy, Debug, PartialEq, Eq, Structural)]
pub enum ValueType {
    I32,
    I64,
    Float32,
    Float64,
    V128,
    FunctionReference,
    ExternalReference,
}

/// The value type that byte `x` encodes, if any.
pub open spec fn value_type_of(x: u8) -> Option<ValueType> {
    if x == 0x7F {
        Some(ValueType::I32)
    } else if x == 0x7E {
        Some(ValueType::I64)
    } else if x == 0x7D {
        Some(ValueType::Float32)
    } else if x == 0x7C {
        Some(ValueType::Float64)
    } else if x == 0x7B {
        Some(ValueType::V128)
    } else if x == 0x70 {
        Some(ValueType::FunctionReference)
    } else if x == 0x6F {
        Some(ValueType::ExternalReference)
    } else {
        None
    }
}

impl DeepView for ValueType {
    type V = ValueType;

    open spec fn deep_view(&self) -> ValueType {
        *self
    }
}

/// Decodes a value type, one byte, from the front of `input`.
pub fn parse_value_type(input: &[u8]) -> (r: Result<(&[u8], ValueType), ParseError>)
    ensures
        match ValueType::spec_decode(input@) {
            Some((v, k)) => r matches Ok((rest, x)) && x == v && k <= input@.len()
                && rest@ == input@.subrange(k as int, input@.len() as int),
            None => r matches Err(ParseError::InvalidBinary),
        },
{
    if input.len() == 0 {
        return Err(ParseError::InvalidBinary);
    }
    let t = match input[0] {
        0x7F => ValueType::I32,
        0x7E => ValueType::I64,
        0x7D => ValueType::Float32,
        0x7C => ValueType::Float64,
        0x7B => ValueType::V128,
        0x70 => ValueType::FunctionReference,
        0x6F => ValueType::ExternalReference,
        _ => return Err(ParseError::InvalidBinary),
    };
    Ok((slice_subrange(input, 1, input.len()), t))
}

impl Decode for ValueType {
    open spec fn spec_decode(b: Seq<u8>) -> Option<(ValueType, nat)> {
        if b.len() > 0 {
            match value_type_of(b[0]) {
                Some(t) => Some((t, 1)),
                None => None,
            }
        } else {
            None
        }
    }

    fn decode(input: &[u8]) -> (r: Result<(&[u8], ValueType), ParseError>) {
        parse_value_type(input)
    }
}

/// The signature of a function: the types of its parameters and of its
/// results, in order.
#[derive(Clone, Debug)]
pub struct FunctionType {
    pub parameters: Vec<ValueType>,
    pub results: Vec<ValueType>,
}

/// The mathematical value of a `FunctionType`.
pub struct FunctionTypeView {
    pub parameters: Seq<ValueType>,
    pub results: Seq<ValueType>,
}

impl DeepView for FunctionType {
    type V = FunctionTypeView;

    open spec fn deep_view(&self) -> FunctionTypeView {
        FunctionTypeView { parameters: self.parameters@, results: self.results@ }
    }
}

impl FunctionType {
    /// A function type with the given parameter and result types.
    pub fn new(parameters: Vec<ValueType>, results: Vec<ValueType>) -> (r: FunctionType)
        ensures
            r.parameters@ == parameters@,
            r.results@ == results@,
    {
        FunctionType { parameters, results }
    }

    /// The types of the parameters, in order.
    pub fn parameters(&self) -> (r: &[ValueType])
        ensures
            r@ == self.parameters@,
    {
        self.parameters.as_slice()
    }

    /// The types of the results, in order.
    pub fn results(&self) -> (r: &[ValueType])
        ensures
            r@ == self.results@,
    {
        self.results.as_slice()
    }
}

/// The byte that opens an encoded function type.
pub const FUNCTION_TYPE_TAG: u8 = 0x60;

/// A function type: the byte `0x60`, then a vector of parameter types and a
/// vector of result types.
pub open spec fn spec_function_type(b: Seq<u8>) -> Option<(FunctionTypeView, nat)> {
    if b.len() > 0 && b[0] == FUNCTION_TYPE_TAG {
        let b1 = b.drop_first();
        match spec_vector::<ValueType>(b1) {
            Some((ps, k1)) => if k1 <= b1.len() {
                match spec_vector::<ValueType>(b1.subrange(k1 as int, b1.len() as int)) {
                    Some((rs, k2)) => Some(
                        (FunctionTypeView { parameters: ps, results: rs }, 1 + k1 + k2),
                    ),
                    None => None,
                }
            } else {
                None
            },
            None => None,
        }
    } else {
        None
    }
}

/// Decodes a function type from the front of `input`.
pub fn parse_function_type(input: &[u8]) -> (r: Result<(&[u8], FunctionType), ParseError>)
    ensures
        match spec_function_type(input@) {
            Some((v, k)) => r matches Ok((rest, x)) && x.deep_view() == v && k <= input@.len()
                && rest@ == input@.subrange(k as int, input@.len() as int),
            None => r matches Err(ParseError::InvalidBinary),
        },
{
    if input.len() == 0 || input[0] != FUNCTION_TYPE_TAG {
        return Err(ParseError::InvalidBinary);
    }
    let body = slice_subrange(input, 1, input.len());
    assert(body@ =~= input@.drop_first());
    let (rest, parameters) = match parse_vector::<ValueType>(body) {
        Ok(p) => p,
        Err(e) => return Err(e),
    };
    let (rest, results) = match parse_vector::<ValueType>(rest) {
        Ok(p) => p,
        Err(e) => return Err(e),
    };
    assert(parameters@ =~= parameters.deep_view());
    assert(results@ =~= results.deep_view());
    Ok((rest, FunctionType { parameters, results }))
}

impl Decode for FunctionType {
    open spec fn spec_decode(b: Seq<u8>) -> Option<(FunctionTypeView, nat)> {
        spec_function_type(b)
    }

    fn decode(input: &[u8]) -> (r: Result<(&[u8], FunctionType), ParseError>) {
        parse_function_type(input)
    }
}

} // verus!
