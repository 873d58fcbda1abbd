use vstd::prelude::*;
use vstd::slice::{slice_subrange, slice_to_vec};
use vstd::utf8::{encode_utf8, encode_utf8_decode_utf8, encode_utf8_valid_utf8};
use crate::errors::ParseError;
use crate::types::{FunctionType, FunctionTypeView};
use crate::values::{
    leb_encode, lemma_leb_cap_u32, lemma_leb_decode_prefix,
    lemma_leb_encode_decode, parse_name, parse_u32, spec_name, spec_u32, Decode,
};

verus! {

/// The kinds of section of a module, each with its identifier byte.
#[derive(Clone, Copy, Debug, PartialEq, Eq, Structural)]
pub enum ModuleSection {
    Custom,
    Type,
    Import,
    Function,
    Table,
    Memory,
    Global,
    Export,
    Start,
    Element,
    Code,
    Data,
    DataCount,
}

impl ModuleSection {
    /// The identifier byte of this kind of section.
    pub open spec fn spec_id(self) -> u8 {
        match self {
            ModuleSection::Custom => 0,
            ModuleSection::Type => 1,
            ModuleSection::Import => 2,
            ModuleSection::Function => 3,
            ModuleSection::Table => 4,
            ModuleSection::Memory => 5,
            ModuleSection::Global => 6,
            ModuleSection::Export => 7,
            ModuleSection::Start => 8,
            ModuleSection::Element => 9,
            ModuleSection::Code => 10,
            ModuleSection::Data => 11,
            ModuleSection::DataCount => 12,
        }
    }

    /// The identifier byte of this kind of section.
    #[verifier::when_used_as_spec(spec_id)]
    pub fn id(self) -> (r: u8)
        ensures
            r == self.spec_id(),
    {
        match self {
            ModuleSection::Custom => 0,
            ModuleSection::Type => 1,
            ModuleSection::Import => 2,
            ModuleSection::Function => 3,
            ModuleSection::Table => 4,
            ModuleSection::Memory => 5,
            ModuleSection::Global => 6,
            ModuleSection::Export => 7,
            ModuleSection::Start => 8,
            ModuleSection::Element => 9,
            ModuleSection::Code => 10,
            ModuleSection::Data => 11,
            ModuleSection::DataCount => 12,
        }
    }
}

/// Distinct kinds of section have distinct identifier bytes.
pub proof fn lemma_section_id_injective(a: ModuleSection, b: ModuleSection)
    ensures
        a.spec_id() == b.spec_id() ==> a == b,
{
}

/// A custom section: a name and bytes of no further structure.
#[derive(Clone, Debug)]
pub struct Custom {
    pub name: String,
    pub contents: Vec<u8>,
}

/// The mathematical value of a `Custom` section.
pub struct CustomView {
    pub name: Seq<char>,
    pub contents: Seq<u8>,
}

impl DeepView for Custom {
    type V = CustomView;

    open spec fn deep_view(&self) -> CustomView {
        CustomView { name: self.name@, contents: self.contents@ }
    }
}

impl Custom {
    /// A custom section with the given name and contents.
    pub fn new(name: String, contents: Vec<u8>) -> (r: Custom)
        ensures
            r.name@ == name@,
            r.contents@ == contents@,
    {
        Custom { name, contents }
    }

    /// The name of this section.
    pub fn name(&self) -> (r: &str)
        ensures
            r@ == self.name@,
    {
        self.name.as_str()
    }

    /// The bytes of this section after its name.
    pub fn contents(&self) -> (r: &[u8])
        ensures
            r@ == self.contents@,
    {
        self.contents.as_slice()
    }
}

/// The body of a custom section: a name, then everything that is left.
pub open spec fn spec_custom(b: Seq<u8>) -> Option<(CustomView, nat)> {
    match spec_name(b) {
        Some((name, k)) => Some(
            (CustomView { name, contents: b.subrange(k as int, b.len() as int) }, b.len()),
        ),
        None => None,
    }
}

/// Decodes the body of a custom section: its name, then the remaining bytes
/// as its contents.
fn parse_custom_content(input: &[u8]) -> (r: Result<(&[u8], Custom), ParseError>)
    ensures
        match spec_custom(input@) {
            Some((v, k)) => r matches Ok((rest, x)) && x.deep_view() == v && k <= input@.len()
                && rest@ == input@.subrange(k as int, input@.len() as int),
            None => r matches Err(ParseError::InvalidBinary),
        },
{
    let (rest, name) = match parse_name(input) {
        Ok(p) => p,
        Err(e) => return Err(e),
    };
    let contents = slice_to_vec(rest);
    let end = slice_subrange(rest, rest.len(), rest.len());
    assert(end@ =~= input@.subrange(input@.len() as int, input@.len() as int));
    Ok((end, Custom { name, contents }))
}

impl Decode for Custom {
    open spec fn spec_decode(b: Seq<u8>) -> Option<(CustomView, nat)> {
        spec_custom(b)
    }

    fn decode(input: &[u8]) -> (r: Result<(&[u8], Custom), ParseError>) {
        parse_custom_content(input)
    }
}

/// Where the body of a section with identifier `id` lies in `b`: from the
/// byte after the identifier and the LEB128 length, for that length.
pub open spec fn spec_frame(id: u8, b: Seq<u8>) -> Option<(nat, nat)> {
    if b.len() > 0 && b[0] == id {
        match spec_u32(b.drop_first()) {
            Some((n, k)) => if 1 + k + n <= b.len() {
                Some(((1 + k) as nat, (1 + k + n) as nat))
            } else {
                None
            },
            None => None,
        }
    } else {
        None
    }
}

/// A section with identifier `id` whose body decodes as a `P` that takes the
/// whole body: the value, and the number of bytes the section takes.
pub open spec fn spec_section<P: Decode>(id: u8, b: Seq<u8>) -> Option<(P::V, nat)> {
    match spec_frame(id, b) {
        Some((s, e)) => match P::spec_decode(b.subrange(s as int, e as int)) {
            Some((v, k)) => if k == e - s {
                Some((v, e))
            } else {
                None
            },
            None => None,
        },
        None => None,
    }
}

/// Checks the identifier byte and the length of a section at the front of
/// `input`; returns the bytes after the section and its body.
pub fn parse_section_raw(section: ModuleSection, input: &[u8]) -> (r: Result<
    (&[u8], &[u8]),
    ParseError,
>)
    ensures
        match spec_frame(section.spec_id(), input@) {
            Some((s, e)) => r matches Ok((rest, body)) && e <= input@.len()
                && body@ == input@.subrange(s as int, e as int)
                && rest@ == input@.subrange(e as int, input@.len() as int),
            None => r matches Err(ParseError::InvalidBinary),
        },
{
    if input.len() == 0 || input[0] != section.id() {
        return Err(ParseError::InvalidBinary);
    }
    let after_id = slice_subrange(input, 1, input.len());
    assert(after_id@ =~= input@.drop_first());
    let (after_len, length) = match parse_u32(after_id) {
        Ok(p) => p,
        Err(e) => return Err(e),
    };
    let length = length as usize;
    if length > after_len.len() {
        return Err(ParseError::InvalidBinary);
    }
    let body = slice_subrange(after_len, 0, length);
    let rest = slice_subrange(after_len, length, after_len.len());
    let ghost s = input@.len() - after_len@.len();
    assert(body@ =~= input@.subrange(s, s + length));
    assert(rest@ =~= input@.subrange(s + length, input@.len() as int));
    Ok((rest, body))
}

/// Decodes a section with the identifier of `section` from the front of
/// `input`, whose body must decode as a `P` with no byte left over.
pub fn parse_section<P: Decode>(section: ModuleSection, input: &[u8]) -> (r: Result<
    (&[u8], P),
    ParseError,
>)
    ensures
        match spec_section::<P>(section.spec_id(), input@) {
            Some((v, k)) => r matches Ok((rest, x)) && x.deep_view() == v && k <= input@.len()
                && rest@ == input@.subrange(k as int, input@.len() as int),
            None => r matches Err(ParseError::InvalidBinary),
        },
{
    let (rest, body) = match parse_section_raw(section, input) {
        Ok(p) => p,
        Err(e) => return Err(e),
    };
    match P::decode(body) {
        Ok((left, x)) => {
            if left.len() == 0 {
                Ok((rest, x))
            } else {
                Err(ParseError::InvalidBinary)
            }
        },
        Err(_) => Err(ParseError::InvalidBinary),
    }
}

/// Decodes a custom section from the front of `input`.
pub fn parse_custom_section(input: &[u8]) -> (r: Result<(&[u8], Custom), ParseError>)
    ensures
        match spec_section::<Custom>(ModuleSection::Custom.spec_id(), input@) {
            Some((v, k)) => r matches Ok((rest, x)) && x.deep_view() == v && k <= input@.len()
                && rest@ == input@.subrange(k as int, input@.len() as int),
            None => r matches Err(ParseError::InvalidBinary),
        },
{
    parse_section(ModuleSection::Custom, input)
}

/// Decodes a type section, a vector of function types, from the front of `input`.
pub fn parse_type_section(input: &[u8]) -> (r: Result<(&[u8], Vec<FunctionType>), ParseError>)
    ensures
        match spec_section::<Vec<FunctionType>>(ModuleSection::Type.spec_id(), input@) {
            Some((v, k)) => r matches Ok((rest, x)) && x.deep_view() == v && k <= input@.len()
                && rest@ == input@.subrange(k as int, input@.len() as int),
            None => r matches Err(ParseError::InvalidBinary),
        },
{
    parse_section(ModuleSection::Type, input)
}

/// A section made of the identifier, a valid encoding of the body's length,
/// and a body that its payload decodes whole, is consumed exactly: the
/// bytes that follow it are what is left.
pub proof fn lemma_exact_consumption<P: Decode>(
    id: u8,
    length: Seq<u8>,
    body: Seq<u8>,
    rest: Seq<u8>,
    v: P::V,
)
    requires
        spec_u32(length) == Some((body.len(), length.len())),
        P::spec_decode(body) == Some((v, body.len())),
    ensures
        ({
            let b = seq![id] + length + body + rest;
            let n = 1 + length.len() + body.len();
            &&& spec_section::<P>(id, b) == Some((v, n))
            &&& b.subrange(n as int, b.len() as int) == rest
        }),
{
    let b = seq![id] + length + body + rest;
    let n = 1 + length.len() + body.len();
    lemma_leb_decode_prefix(length, body + rest, 5);
    assert(b.drop_first() =~= length + (body + rest));
    assert(b.subrange((1 + length.len()) as int, n as int) =~= body);
    assert(b.subrange(n as int, b.len() as int) =~= rest);
}

/// A section whose declared length is more than the bytes after it fails.
pub proof fn lemma_truncated_body<P: Decode>(id: u8, b: Seq<u8>)
    requires
        b.len() > 0,
        b[0] == id,
        spec_u32(b.drop_first()) matches Some((n, k)) && 1 + k + n > b.len(),
    ensures
        spec_frame(id, b) is None,
        spec_section::<P>(id, b) is None,
{
}

/// A section whose payload decodes only a part of the body fails.
pub proof fn lemma_trailing_bytes<P: Decode>(id: u8, b: Seq<u8>)
    requires
        spec_frame(id, b) matches Some((s, e)) && P::spec_decode(b.subrange(s as int, e as int))
            matches Some((v, k)) && k < e - s,
    ensures
        spec_section::<P>(id, b) is None,
{
}

/// Input that does not start with the expected identifier byte fails,
/// whatever follows it.
pub proof fn lemma_identifier_mismatch<P: Decode>(id: u8, b: Seq<u8>)
    requires
        b.len() == 0 || b[0] != id,
    ensures
        spec_frame(id, b) is None,
        spec_section::<P>(id, b) is None,
{
}

/// Encoding a name and contents as a custom section, with the shortest
/// length prefixes, and decoding it gives back the name and the contents.
pub proof fn lemma_custom_round_trip(name: Seq<char>, contents: Seq<u8>, rest: Seq<u8>)
    requires
        leb_encode(encode_utf8(name).len()).len() + encode_utf8(name).len() + contents.len()
            < 0x1_0000_0000,
    ensures
        ({
            let nb = encode_utf8(name);
            let body = leb_encode(nb.len()) + nb + contents;
            let b = seq![ModuleSection::Custom.spec_id()] + leb_encode(body.len()) + body + rest;
            let n = 1 + leb_encode(body.len()).len() + body.len();
            &&& spec_section::<Custom>(ModuleSection::Custom.spec_id(), b) == Some(
                (CustomView { name, contents }, n),
            )
            &&& b.subrange(n as int, b.len() as int) == rest
        }),
{
    let nb = encode_utf8(name);
    let prefix = leb_encode(nb.len());
    let body = prefix + nb + contents;
    lemma_leb_cap_u32();
    lemma_leb_encode_decode(nb.len(), 5, nb + contents);
    assert(body =~= prefix + (nb + contents));
    lemma_leb_encode_decode(body.len(), 5, Seq::empty());
    assert(leb_encode(body.len()) + Seq::empty() =~= leb_encode(body.len()));
    encode_utf8_valid_utf8(name);
    encode_utf8_decode_utf8(name);
    let k = prefix.len();
    assert(body.subrange(k as int, (k + nb.len()) as int) =~= nb);
    assert(body.subrange((k + nb.len()) as int, body.len() as int) =~= contents);
    lemma_exact_consumption::<Custom>(
        ModuleSection::Custom.spec_id(),
        leb_encode(body.len()),
        body,
        rest,
        CustomView { name, contents },
    );
}

/// A type section whose body is the single byte `0` decodes to no function
/// types and takes its three bytes, whatever follows it.
pub proof fn lemma_empty_type_section(rest: Seq<u8>)
    ensures
        ({
            let b = seq![ModuleSection::Type.spec_id(), 1u8, 0u8] + rest;
            &&& spec_section::<Vec<FunctionType>>(ModuleSection::Type.spec_id(), b) == Some(
                (Seq::<FunctionTypeView>::empty(), 3nat),
            )
            &&& b.subrange(3, b.len() as int) == rest
        }),
{
    let b = seq![ModuleSection::Type.spec_id(), 1u8, 0u8] + rest;
    assert(b.drop_first() =~= seq![1u8] + (seq![0u8] + rest));
    assert(b.subrange(2, 3) =~= seq![0u8]);
    assert(b.subrange(2, 3).drop_first() =~= Seq::<u8>::empty());
    assert(b.subrange(3, b.len() as int) =~= rest);
    reveal_with_fuel(crate::values::leb_decode, 2);
}

} // verus!
