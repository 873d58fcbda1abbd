use vstd::prelude::*;
use vstd::slice::slice_subrange;
use vstd::utf8::{decode_utf8, encode_utf8, encode_utf8_decode_utf8, valid_utf8};
use crate::errors::ParseError;

verus! {

/// One more than the largest value that `n` LEB128 bytes of a `u32` can
/// carry, when they are the last `n` of the five that a `u32` may take: the
/// fifth byte holds only four bits.
pub open spec fn leb_cap(n: nat) -> nat
    decreases n,
{
    if n <= 1 {
        16
    } else {
        128 * leb_cap((n - 1) as nat)
    }
}

/// Unsigned LEB128 decoding of the front of `b` with at most `n` bytes left
/// of the five that a `u32` may take: the value and the number of bytes read.
pub open spec fn leb_decode(b: Seq<u8>, n: nat) -> Option<(nat, nat)>
    decreases n,
{
    if n == 0 || b.len() == 0 {
        None
    } else if b[0] < 0x80 {
        if n == 1 && b[0] >= 0x10 {
            None
        } else {
            Some((b[0] as nat, 1))
        }
    } else if n == 1 {
        None
    } else {
        match leb_decode(b.drop_first(), (n - 1) as nat) {
            Some((v, k)) => Some(((b[0] - 0x80) as nat + 128 * v, k + 1)),
            None => None,
        }
    }
}

/// A `u32` in unsigned LEB128 at the front of `b`: its value and its length
/// in bytes (at most five, with no bit set beyond the 32nd).
pub open spec fn spec_u32(b: Seq<u8>) -> Option<(nat, nat)> {
    leb_decode(b, 5)
}

/// The shortest LEB128 encoding of `v`.
pub open spec fn leb_encode(v: nat) -> Seq<u8>
    decreases v,
{
    if v < 128 {
        seq![v as u8]
    } else {
        seq![(v % 128 + 128) as u8] + leb_encode(v / 128)
    }
}

/// A decoded value fits the bytes that were left, and the decoder reads at
/// least one byte and no more than it may.
pub proof fn lemma_leb_decode_bounds(b: Seq<u8>, n: nat)
    ensures
        leb_decode(b, n) matches Some((v, k)) ==> v < leb_cap(n) && 1 <= k <= n && k <= b.len(),
    decreases n,
{
    if n > 1 && b.len() > 0 {
        lemma_leb_cap_positive((n - 1) as nat);
        if b[0] >= 0x80 {
            lemma_leb_decode_bounds(b.drop_first(), (n - 1) as nat);
            if let Some((v, k)) = leb_decode(b.drop_first(), (n - 1) as nat) {
                assert(128 * v + 128 <= 128 * leb_cap((n - 1) as nat)) by (nonlinear_arith)
                    requires
                        v < leb_cap((n - 1) as nat),
                ;
            }
        }
    }
}

/// Every bound is at least one.
pub proof fn lemma_leb_cap_positive(n: nat)
    ensures
        leb_cap(n) >= 1,
    decreases n,
{
    if n > 1 {
        lemma_leb_cap_positive((n - 1) as nat);
    }
}

/// `leb_cap(5)` is `2^32`, so a decoded `u32` fits its type.
pub proof fn lemma_leb_cap_u32()
    ensures
        leb_cap(5) == 0x1_0000_0000,
{
    reveal_with_fuel(leb_cap, 5);
}

/// Decoding reads only the bytes of the encoding: what follows them does not matter.
pub proof fn lemma_leb_decode_prefix(b: Seq<u8>, t: Seq<u8>, n: nat)
    requires
        leb_decode(b, n) is Some,
    ensures
        leb_decode(b + t, n) == leb_decode(b, n),
    decreases n,
{
    if b[0] >= 0x80 {
        assert((b + t).drop_first() =~= b.drop_first() + t);
        lemma_leb_decode_prefix(b.drop_first(), t, (n - 1) as nat);
    }
}

/// The shortest encoding of a value below `leb_cap(n)` decodes back to it,
/// whatever follows it.
pub proof fn lemma_leb_encode_decode(v: nat, n: nat, t: Seq<u8>)
    requires
        1 <= n,
        v < leb_cap(n),
    ensures
        leb_decode(leb_encode(v) + t, n) == Some((v, leb_encode(v).len())),
    decreases v,
{
    let e = leb_encode(v);
    if v < 128 {
        if n == 1 {
            assert(v < 16);
        }
    } else {
        if n == 1 {
            assert(false);
        }
        assert(v / 128 < leb_cap((n - 1) as nat));
        lemma_leb_encode_decode(v / 128, (n - 1) as nat, t);
        assert((e + t).drop_first() =~= leb_encode(v / 128) + t);
    }
}

/// Reads an unsigned LEB128 integer from `input[pos..]` with at most `n` bytes.
fn read_leb(input: &[u8], pos: usize, n: u8) -> (r: Option<(u64, usize)>)
    requires
        pos <= input@.len(),
        1 <= n <= 5,
    ensures
        match leb_decode(input@.subrange(pos as int, input@.len() as int), n as nat) {
            Some((v, k)) => r == Some((v as u64, k as usize)),
            None => r is None,
        },
    decreases n,
{
    let ghost b = input@.subrange(pos as int, input@.len() as int);
    proof {
        lemma_leb_decode_bounds(b, n as nat);
        lemma_leb_cap_u32();
        reveal_with_fuel(leb_cap, 5);
    }
    if pos >= input.len() {
        return None;
    }
    let x = input[pos];
    if x < 0x80 {
        if n == 1 && x >= 0x10 {
            None
        } else {
            Some((x as u64, 1))
        }
    } else if n == 1 {
        None
    } else {
        assert(b.drop_first() =~= input@.subrange(pos + 1, input@.len() as int));
        proof {
            lemma_leb_decode_bounds(b.drop_first(), (n - 1) as nat);
        }
        match read_leb(input, pos + 1, n - 1) {
            Some((v, k)) => Some(((x - 0x80) as u64 + 128 * v, k + 1)),
            None => None,
        }
    }
}

/// Decodes a `u32` in unsigned LEB128 from the front of `input`.
pub fn parse_u32(input: &[u8]) -> (r: Result<(&[u8], u32), ParseError>)
    ensures
        match spec_u32(input@) {
            Some((v, k)) => r matches Ok((rest, x)) && x == v && k <= input@.len()
                && rest@ == input@.subrange(k as int, input@.len() as int),
            None => r matches Err(ParseError::InvalidBinary),
        },
{
    proof {
        lemma_leb_decode_bounds(input@, 5);
        lemma_leb_cap_u32();
    }
    assert(input@.subrange(0, input@.len() as int) =~= input@);
    match read_leb(input, 0, 5) {
        Some((v, k)) => Ok((slice_subrange(input, k, input.len()), v as u32)),
        None => Err(ParseError::InvalidBinary),
    }
}

/// A name: a `u32` byte count in LEB128 and that many bytes of UTF-8. Its
/// characters and the number of bytes it takes.
pub open spec fn spec_name(b: Seq<u8>) -> Option<(Seq<char>, nat)> {
    match spec_u32(b) {
        Some((n, k)) => if k + n <= b.len() && valid_utf8(b.subrange(k as int, (k + n) as int)) {
            Some((decode_utf8(b.subrange(k as int, (k + n) as int)), k + n))
        } else {
            None
        },
        None => None,
    }
}

/// Relies on `std::str::from_utf8`: it succeeds exactly on valid UTF-8, and
/// the `str` it returns is made of the given bytes.
#[verifier::external_body]
fn utf8_str(b: &[u8]) -> (r: Option<&str>)
    ensures
        r is Some <==> valid_utf8(b@),
        r matches Some(s) ==> encode_utf8(s@) == b@,
{
    std::str::from_utf8(b).ok()
}

/// Decodes a name (a length-prefixed UTF-8 string) from the front of `input`.
pub fn parse_name(input: &[u8]) -> (r: Result<(&[u8], String), ParseError>)
    ensures
        match spec_name(input@) {
            Some((s, k)) => r matches Ok((rest, x)) && x@ == s && k <= input@.len()
                && rest@ == input@.subrange(k as int, input@.len() as int),
            None => r matches Err(ParseError::InvalidBinary),
        },
{
    broadcast use vstd::string::to_string_from_display_ensures_for_str;

    let (rest, n) = match parse_u32(input) {
        Ok(p) => p,
        Err(e) => return Err(e),
    };
    let n = n as usize;
    if n > rest.len() {
        return Err(ParseError::InvalidBinary);
    }
    let bytes = slice_subrange(rest, 0, n);
    let after = slice_subrange(rest, n, rest.len());
    let ghost k = input@.len() - rest@.len();
    assert(bytes@ =~= input@.subrange(k, k + n));
    assert(after@ =~= input@.subrange(k + n, input@.len() as int));
    match utf8_str(bytes) {
        Some(s) => {
            proof {
                encode_utf8_decode_utf8(s@);
            }
            Ok((after, s.to_string()))
        },
        None => Err(ParseError::InvalidBinary),
    }
}

/// A value that can be decoded from the front of a byte sequence.
pub trait Decode: DeepView + Sized {
    /// What `decode` reads from the front of `b`: the value and the number of
    /// bytes it takes, or `None` where `b` does not start with an encoding.
    spec fn spec_decode(b: Seq<u8>) -> Option<(Self::V, nat)>;

    /// Decodes a value from the front of `input` and returns the bytes after it.
    fn decode(input: &[u8]) -> (r: Result<(&[u8], Self), ParseError>)
        ensures
            match Self::spec_decode(input@) {
                Some((v, k)) => r matches Ok((rest, x)) && x.deep_view() == v && k <= input@.len()
                    && rest@ == input@.subrange(k as int, input@.len() as int),
                None => r matches Err(ParseError::InvalidBinary),
            },
    ;
}

/// `n` values of `T` one after the other at the front of `b`, and the number
/// of bytes they take.
pub open spec fn spec_elems<T: Decode>(b: Seq<u8>, n: nat) -> Option<(Seq<T::V>, nat)>
    decreases n,
{
    if n == 0 {
        Some((seq![], 0))
    } else {
        match T::spec_decode(b) {
            Some((v, k)) => if k <= b.len() {
                match spec_elems::<T>(b.subrange(k as int, b.len() as int), (n - 1) as nat) {
                    Some((vs, j)) => Some((seq![v] + vs, k + j)),
                    None => None,
                }
            } else {
                None
            },
            None => None,
        }
    }
}

/// A vector: a `u32` count in LEB128, then that many values of `T`.
pub open spec fn spec_vector<T: Decode>(b: Seq<u8>) -> Option<(Seq<T::V>, nat)> {
    match spec_u32(b) {
        Some((n, k)) => match spec_elems::<T>(b.subrange(k as int, b.len() as int), n) {
            Some((vs, j)) => Some((vs, k + j)),
            None => None,
        },
        None => None,
    }
}

/// Decodes a vector of `T` from the front of `input`: a count, then that
/// many values in order.
pub fn parse_vector<T: Decode>(input: &[u8]) -> (r: Result<(&[u8], Vec<T>), ParseError>)
    ensures
        match spec_vector::<T>(input@) {
            Some((vs, k)) => r matches Ok((rest, x)) && x.deep_view() == vs && k <= input@.len()
                && rest@ == input@.subrange(k as int, input@.len() as int),
            None => r matches Err(ParseError::InvalidBinary),
        },
{
    let (mut rest, count) = match parse_u32(input) {
        Ok(p) => p,
        Err(e) => return Err(e),
    };
    let ghost start = rest@;
    let ghost k0 = input@.len() - rest@.len();
    let mut items: Vec<T> = Vec::new();
    let mut i: u32 = 0;
    while i < count
        invariant
            0 <= i <= count,
            spec_u32(input@) == Some((count as nat, k0 as nat)),
            0 <= k0 <= input@.len(),
            start == input@.subrange(k0, input@.len() as int),
            rest@.len() <= start.len(),
            rest@ == start.subrange(start.len() - rest@.len(), start.len() as int),
            items.deep_view().len() == i,
            spec_elems::<T>(start, count as nat) == match spec_elems::<T>(rest@, (count - i) as nat) {
                Some((vs, j)) => Some((items.deep_view() + vs, ((start.len() - rest@.len()) + j) as nat)),
                None => None,
            },
        decreases count - i,
    {
        let ghost before = rest@;
        let ghost done = items.deep_view();
        match T::decode(rest) {
            Ok((after, x)) => {
                let ghost k = before.len() - after@.len();
                assert(after@ =~= start.subrange(start.len() - after@.len(), start.len() as int));
                items.push(x);
                assert(items.deep_view() =~= done + seq![x.deep_view()]);
                rest = after;
                i = i + 1;
                proof {
                    match spec_elems::<T>(after@, (count - i) as nat) {
                        Some((vs, j)) => {
                            assert(done + (seq![x.deep_view()] + vs) =~= items.deep_view() + vs);
                        },
                        None => {},
                    }
                }
            },
            Err(_) => {
                assert(spec_elems::<T>(before, (count - i) as nat) is None);
                return Err(ParseError::InvalidBinary);
            },
        }
    }
    assert(spec_elems::<T>(rest@, 0) == Some((Seq::<T::V>::empty(), 0nat)));
    assert(items.deep_view() + Seq::<T::V>::empty() =~= items.deep_view());
    Ok((rest, items))
}

impl<T: Decode> Decode for Vec<T> {
    open spec fn spec_decode(b: Seq<u8>) -> Option<(Seq<T::V>, nat)> {
        spec_vector::<T>(b)
    }

    fn decode(input: &[u8]) -> (r: Result<(&[u8], Vec<T>), ParseError>) {
        parse_vector(input)
    }
}

} // verus!
