//! Values that know their own byte layout: fixed-width integers, booleans,
//! delimiter-terminated text, optional values and records of these.
use vstd::prelude::*;
use crate::error::CodecError;
use crate::reader::Reader;
use crate::wire::{
    be_bytes, be_value, lemma_be_bytes_len, lemma_be_round_trip, lemma_pow256_small, pow256,
    write_be,
};

verus! {

/// A type with a byte encoding and a decoder that reads it back. The
/// encoding is stated of the value's deep view.
pub trait Protocol: DeepView + Sized {
    /// The values that the encoding can carry.
    spec fn well_formed(value: Self::V) -> bool;

    /// The bytes that encode `value`.
    spec fn spec_encode(value: Self::V) -> Seq<u8>;

    /// What decoding the front of `src` gives: the value and how many bytes
    /// it used, or the error.
    spec fn spec_decode(src: Seq<u8>) -> Result<(Self::V, nat), CodecError>;

    /// Decoding the encoding of `value`, whatever follows it, gives `value`
    /// back and uses exactly its bytes.
    proof fn lemma_round_trip(value: Self::V, rest: Seq<u8>)
        requires
            Self::well_formed(value),
        ensures
            Self::spec_decode(Self::spec_encode(value) + rest) == Ok::<(Self::V, nat), CodecError>(
                (value, Self::spec_encode(value).len()),
            ),
    ;

    /// Decoding a strict prefix of the encoding of `value` fails with
    /// `TruncatedInput`.
    proof fn lemma_truncated(value: Self::V, k: nat)
        requires
            Self::well_formed(value),
            k < Self::spec_encode(value).len(),
        ensures
            Self::spec_decode(Self::spec_encode(value).take(k as int)) == Err::<
                (Self::V, nat),
                CodecError,
            >(CodecError::TruncatedInput),
    ;

    /// The number of bytes that `encode` writes for `value`.
    fn byte_length(value: &Self) -> (r: usize)
        requires
            Self::well_formed(value.deep_view()),
        ensures
            r == Self::spec_encode(value.deep_view()).len(),
    ;

    /// Appends the encoding of `value` to `dest`.
    fn encode(value: &Self, dest: &mut Vec<u8>)
        requires
            Self::well_formed(value.deep_view()),
        ensures
            final(dest)@ == old(dest)@ + Self::spec_encode(value.deep_view()),
    ;

    /// Decodes a value from the front of `src` and moves past it.
    fn decode(src: &mut Reader) -> (r: Result<Self, CodecError>)
        ensures
            match Self::spec_decode(old(src)@) {
                Ok((v, n)) => r is Ok && r->Ok_0.deep_view() == v && n <= old(src)@.len()
                    && final(src)@ == old(src)@.skip(n as int),
                Err(e) => r is Err && r->Err_0 == e,
            },
    ;
}

/// The front of `src` read as an `n`-byte unsigned integer.
pub open spec fn uint_decode(src: Seq<u8>, n: nat) -> Result<(nat, nat), CodecError> {
    if src.len() < n {
        Err(CodecError::TruncatedInput)
    } else {
        Ok((be_value(src.take(n as int)), n))
    }
}

proof fn lemma_uint_prefix(v: nat, n: nat, rest: Seq<u8>)
    requires
        v < pow256(n),
    ensures
        uint_decode(be_bytes(v, n) + rest, n) == Ok::<(nat, nat), CodecError>((v, n)),
        be_bytes(v, n).len() == n,
{
    lemma_be_round_trip(v, n);
    assert((be_bytes(v, n) + rest).take(n as int) =~= be_bytes(v, n));
}

fn encode_uint(v: u64, n: usize, dest: &mut Vec<u8>)
    requires
        1 <= n <= 8,
        (v as nat) < pow256(n as nat),
    ensures
        final(dest)@ == old(dest)@ + be_bytes(v as nat, n as nat),
{
    let mut bytes = write_be(v, n);
    dest.append(&mut bytes);
}

impl Protocol for u8 {
    open spec fn well_formed(value: u8) -> bool {
        true
    }

    open spec fn spec_encode(value: u8) -> Seq<u8> {
        be_bytes(value as nat, 1)
    }

    open spec fn spec_decode(src: Seq<u8>) -> Result<(u8, nat), CodecError> {
        match uint_decode(src, 1) {
            Ok((v, n)) => Ok((v as u8, n)),
            Err(e) => Err(e),
        }
    }

    proof fn lemma_round_trip(value: u8, rest: Seq<u8>) {
        lemma_pow256_small();
        lemma_uint_prefix(value as nat, 1, rest);
    }

    proof fn lemma_truncated(value: u8, k: nat) {
        lemma_be_bytes_len(value as nat, 1);
    }

    fn byte_length(value: &u8) -> (r: usize) {
        proof {
            lemma_be_bytes_len(*value as nat, 1);
        }
        1
    }

    fn encode(value: &u8, dest: &mut Vec<u8>) {
        proof {
            lemma_pow256_small();
        }
        encode_uint(*value as u64, 1, dest);
    }

    fn decode(src: &mut Reader) -> (r: Result<u8, CodecError>) {
        let v = src.read_uint(1)?;
        Ok(v as u8)
    }
}

impl Protocol for i8 {
    open spec fn well_formed(value: i8) -> bool {
        true
    }

    open spec fn spec_encode(value: i8) -> Seq<u8> {
        be_bytes((value as u8) as nat, 1)
    }

    open spec fn spec_decode(src: Seq<u8>) -> Result<(i8, nat), CodecError> {
        match uint_decode(src, 1) {
            Ok((v, n)) => Ok(((v as u8) as i8, n)),
            Err(e) => Err(e),
        }
    }

    proof fn lemma_round_trip(value: i8, rest: Seq<u8>) {
        lemma_pow256_small();
        lemma_uint_prefix((value as u8) as nat, 1, rest);
        assert(((value as u8) as i8) == value) by (bit_vector);
    }

    proof fn lemma_truncated(value: i8, k: nat) {
        lemma_be_bytes_len((value as u8) as nat, 1);
    }

    fn byte_length(value: &i8) -> (r: usize) {
        proof {
            lemma_be_bytes_len((*value as u8) as nat, 1);
        }
        1
    }

    fn encode(value: &i8, dest: &mut Vec<u8>) {
        proof {
            lemma_pow256_small();
        }
        encode_uint((*value as u8) as u64, 1, dest);
    }

    fn decode(src: &mut Reader) -> (r: Result<i8, CodecError>) {
        let v = src.read_uint(1)?;
        Ok((v as u8) as i8)
    }
}

impl Protocol for u16 {
    open spec fn well_formed(value: u16) -> bool {
        true
    }

    open spec fn spec_encode(value: u16) -> Seq<u8> {
        be_bytes(value as nat, 2)
    }

    open spec fn spec_decode(src: Seq<u8>) -> Result<(u16, nat), CodecError> {
        match uint_decode(src, 2) {
            Ok((v, n)) => Ok((v as u16, n)),
            Err(e) => Err(e),
        }
    }

    proof fn lemma_round_trip(value: u16, rest: Seq<u8>) {
        lemma_pow256_small();
        lemma_uint_prefix(value as nat, 2, rest);
    }

    proof fn lemma_truncated(value: u16, k: nat) {
        lemma_be_bytes_len(value as nat, 2);
    }

    fn byte_length(value: &u16) -> (r: usize) {
        proof {
            lemma_be_bytes_len(*value as nat, 2);
        }
        2
    }

    fn encode(value: &u16, dest: &mut Vec<u8>) {
        proof {
            lemma_pow256_small();
        }
        encode_uint(*value as u64, 2, dest);
    }

    fn decode(src: &mut Reader) -> (r: Result<u16, CodecError>) {
        let v = src.read_uint(2)?;
        Ok(v as u16)
    }
}

impl Protocol for i16 {
    open spec fn well_formed(value: i16) -> bool {
        true
    }

    open spec fn spec_encode(value: i16) -> Seq<u8> {
        be_bytes((value as u16) as nat, 2)
    }

    open spec fn spec_decode(src: Seq<u8>) -> Result<(i16, nat), CodecError> {
        match uint_decode(src, 2) {
            Ok((v, n)) => Ok(((v as u16) as i16, n)),
            Err(e) => Err(e),
        }
    }

    proof fn lemma_round_trip(value: i16, rest: Seq<u8>) {
        lemma_pow256_small();
        lemma_uint_prefix((value as u16) as nat, 2, rest);
        assert(((value as u16) as i16) == value) by (bit_vector);
    }

    proof fn lemma_truncated(value: i16, k: nat) {
        lemma_be_bytes_len((value as u16) as nat, 2);
    }

    fn byte_length(value: &i16) -> (r: usize) {
        proof {
            lemma_be_bytes_len((*value as u16) as nat, 2);
        }
        2
    }

    fn encode(value: &i16, dest: &mut Vec<u8>) {
        proof {
            lemma_pow256_small();
        }
        encode_uint((*value as u16) as u64, 2, dest);
    }

    fn decode(src: &mut Reader) -> (r: Result<i16, CodecError>) {
        let v = src.read_uint(2)?;
        Ok((v as u16) as i16)
    }
}

impl Protocol for u32 {
    open spec fn well_formed(value: u32) -> bool {
        true
    }

    open spec fn spec_encode(value: u32) -> Seq<u8> {
        be_bytes(value as nat, 4)
    }

    open spec fn spec_decode(src: Seq<u8>) -> Result<(u32, nat), CodecError> {
        match uint_decode(src, 4) {
            Ok((v, n)) => Ok((v as u32, n)),
            Err(e) => Err(e),
        }
    }

    proof fn lemma_round_trip(value: u32, rest: Seq<u8>) {
        lemma_pow256_small();
        lemma_uint_prefix(value as nat, 4, rest);
    }

    proof fn lemma_truncated(value: u32, k: nat) {
        lemma_be_bytes_len(value as nat, 4);
    }

    fn byte_length(value: &u32) -> (r: usize) {
        proof {
            lemma_be_bytes_len(*value as nat, 4);
        }
        4
    }

    fn encode(value: &u32, dest: &mut Vec<u8>) {
        proof {
            lemma_pow256_small();
        }
        encode_uint(*value as u64, 4, dest);
    }

    fn decode(src: &mut Reader) -> (r: Result<u32, CodecError>) {
        let v = src.read_uint(4)?;
        Ok(v as u32)
    }
}

impl Protocol for i32 {
    open spec fn well_formed(value: i32) -> bool {
        true
    }

    open spec fn spec_encode(value: i32) -> Seq<u8> {
        be_bytes((value as u32) as nat, 4)
    }

    open spec fn spec_decode(src: Seq<u8>) -> Result<(i32, nat), CodecError> {
        match uint_decode(src, 4) {
            Ok((v, n)) => Ok(((v as u32) as i32, n)),
            Err(e) => Err(e),
        }
    }

    proof fn lemma_round_trip(value: i32, rest: Seq<u8>) {
        lemma_pow256_small();
        lemma_uint_prefix((value as u32) as nat, 4, rest);
        assert(((value as u32) as i32) == value) by (bit_vector);
    }

    proof fn lemma_truncated(value: i32, k: nat) {
        lemma_be_bytes_len((value as u32) as nat, 4);
    }

    fn byte_length(value: &i32) -> (r: usize) {
        proof {
            lemma_be_bytes_len((*value as u32) as nat, 4);
        }
        4
    }

    fn encode(value: &i32, dest: &mut Vec<u8>) {
        proof {
            lemma_pow256_small();
        }
        encode_uint((*value as u32) as u64, 4, dest);
    }

    fn decode(src: &mut Reader) -> (r: Result<i32, CodecError>) {
        let v = src.read_uint(4)?;
        Ok((v as u32) as i32)
    }
}

impl Protocol for u64 {
    open spec fn well_formed(value: u64) -> bool {
        true
    }

    open spec fn spec_encode(value: u64) -> Seq<u8> {
        be_bytes(value as nat, 8)
    }

    open spec fn spec_decode(src: Seq<u8>) -> Result<(u64, nat), CodecError> {
        match uint_decode(src, 8) {
            Ok((v, n)) => Ok((v as u64, n)),
            Err(e) => Err(e),
        }
    }

    proof fn lemma_round_trip(value: u64, rest: Seq<u8>) {
        lemma_pow256_small();
        lemma_uint_prefix(value as nat, 8, rest);
    }

    proof fn lemma_truncated(value: u64, k: nat) {
        lemma_be_bytes_len(value as nat, 8);
    }

    fn byte_length(value: &u64) -> (r: usize) {
        proof {
            lemma_be_bytes_len(*value as nat, 8);
        }
        8
    }

    fn encode(value: &u64, dest: &mut Vec<u8>) {
        proof {
            lemma_pow256_small();
        }
        encode_uint(*value as u64, 8, dest);
    }

    fn decode(src: &mut Reader) -> (r: Result<u64, CodecError>) {
        let v = src.read_uint(8)?;
        Ok(v as u64)
    }
}

impl Protocol for i64 {
    open spec fn well_formed(value: i64) -> bool {
        true
    }

    open spec fn spec_encode(value: i64) -> Seq<u8> {
        be_bytes((value as u64) as nat, 8)
    }

    open spec fn spec_decode(src: Seq<u8>) -> Result<(i64, nat), CodecError> {
        match uint_decode(src, 8) {
            Ok((v, n)) => Ok(((v as u64) as i64, n)),
            Err(e) => Err(e),
        }
    }

    proof fn lemma_round_trip(value: i64, rest: Seq<u8>) {
        lemma_pow256_small();
        lemma_uint_prefix((value as u64) as nat, 8, rest);
        assert(((value as u64) as i64) == value) by (bit_vector);
    }

    proof fn lemma_truncated(value: i64, k: nat) {
        lemma_be_bytes_len((value as u64) as nat, 8);
    }

    fn byte_length(value: &i64) -> (r: usize) {
        proof {
            lemma_be_bytes_len((*value as u64) as nat, 8);
        }
        8
    }

    fn encode(value: &i64, dest: &mut Vec<u8>) {
        proof {
            lemma_pow256_small();
        }
        encode_uint((*value as u64) as u64, 8, dest);
    }

    fn decode(src: &mut Reader) -> (r: Result<i64, CodecError>) {
        let v = src.read_uint(8)?;
        Ok((v as u64) as i64)
    }
}

impl Protocol for bool {
    open spec fn well_formed(value: bool) -> bool {
        true
    }

    /// `1` for true, `0` for false.
    open spec fn spec_encode(value: bool) -> Seq<u8> {
        seq![if value { 1u8 } else { 0u8 }]
    }

    /// Only the bytes `0` and `1` are booleans.
    open spec fn spec_decode(src: Seq<u8>) -> Result<(bool, nat), CodecError> {
        if src.len() == 0 {
            Err(CodecError::TruncatedInput)
        } else if src[0] > 1 {
            Err(CodecError::InvalidEncoding)
        } else {
            Ok((src[0] == 1, 1))
        }
    }

    proof fn lemma_round_trip(value: bool, rest: Seq<u8>) {
    }

    proof fn lemma_truncated(value: bool, k: nat) {
    }

    fn byte_length(value: &bool) -> (r: usize) {
        1
    }

    fn encode(value: &bool, dest: &mut Vec<u8>) {
        dest.push(if *value { 1u8 } else { 0u8 });
        assert(dest@ =~= old(dest)@ + Self::spec_encode(*value));
    }

    fn decode(src: &mut Reader) -> (r: Result<bool, CodecError>) {
        let b = src.read_byte()?;
        if b > 1 {
            Err(CodecError::InvalidEncoding)
        } else {
            Ok(b == 1)
        }
    }
}

/// Decoding what is encoded for a well-formed value of any codec type gives
/// that value back, using exactly its encoded length, whatever bytes follow.
pub proof fn lemma_decode_encode<T: Protocol>(value: T::V, rest: Seq<u8>)
    requires
        T::well_formed(value),
    ensures
        T::spec_decode(T::spec_encode(value) + rest) == Ok::<(T::V, nat), CodecError>(
            (value, T::spec_encode(value).len()),
        ),
{
    T::lemma_round_trip(value, rest);
}

/// Decoding fewer bytes than a value's encoding fails with `TruncatedInput`
/// and yields no value.
pub proof fn lemma_decode_short<T: Protocol>(value: T::V, k: nat)
    requires
        T::well_formed(value),
        k < T::spec_encode(value).len(),
    ensures
        T::spec_decode(T::spec_encode(value).take(k as int)) == Err::<(T::V, nat), CodecError>(
            CodecError::TruncatedInput,
        ),
{
    T::lemma_truncated(value, k);
}

/// A boolean byte decodes to false for `0`, true for `1`, and fails with
/// `InvalidEncoding` for any other value.
pub proof fn lemma_bool_domain(b: u8, rest: Seq<u8>)
    ensures
        <bool as Protocol>::spec_decode(seq![b] + rest) == if b > 1 {
            Err::<(bool, nat), CodecError>(CodecError::InvalidEncoding)
        } else {
            Ok::<(bool, nat), CodecError>((b == 1, 1))
        },
{
    assert((seq![b] + rest)[0] == b);
}

} // verus!
