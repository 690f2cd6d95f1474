//! Variable-length encodings: delimiter-terminated text and presence-tagged
//! optional values.
use vstd::prelude::*;
use vstd::string::*;
use crate::error::CodecError;
use crate::protocol::Protocol;
use crate::reader::Reader;

verus! {

/// The byte that ends a text value (line feed).
pub const DELIMITER: u8 = 10;

/// Each character as one byte.
pub open spec fn text_bytes(s: Seq<char>) -> Seq<u8> {
    s.map_values(|c: char| (c as u32) as u8)
}

/// Each byte as one character.
pub open spec fn bytes_text(b: Seq<u8>) -> Seq<char> {
    b.map_values(|x: u8| x as char)
}

/// `i` is the position of the first delimiter in `src`.
pub open spec fn is_first_delimiter(src: Seq<u8>, i: int) -> bool {
    &&& 0 <= i < src.len()
    &&& src[i] == DELIMITER
    &&& forall|j: int| 0 <= j < i ==> src[j] != DELIMITER
}

proof fn lemma_first_delimiter_unique(src: Seq<u8>, i: int)
    requires
        is_first_delimiter(src, i),
    ensures
        exists|k: int| is_first_delimiter(src, k),
        (choose|k: int| is_first_delimiter(src, k)) == i,
{
    let k = choose|k: int| is_first_delimiter(src, k);
    if k < i {
        assert(src[k] != DELIMITER);
    }
    if k > i {
        assert(src[i] != DELIMITER);
    }
}

proof fn lemma_char_byte(c: char)
    requires
        (c as u32) < 256,
    ensures
        (((c as u32) as u8) as char) == c,
        c != '\n' ==> (c as u32) as u8 != DELIMITER,
{
    assert('\n' as u32 == 10);
}

proof fn lemma_text_byte(value: Seq<char>, rest: Seq<u8>, j: int)
    requires
        0 <= j < value.len(),
    ensures
        (text_bytes(value).push(DELIMITER) + rest)[j] == (value[j] as u32) as u8,
{
    assert((text_bytes(value).push(DELIMITER) + rest)[j] == text_bytes(value).push(DELIMITER)[j]);
    assert(text_bytes(value).push(DELIMITER)[j] == text_bytes(value)[j]);
}

/// Relies on std's `String::push`: appends one character.
#[verifier::external_body]
fn push_char(s: &mut String, c: char)
    ensures
        final(s)@ == old(s)@.push(c),
{
    s.push(c)
}

impl Protocol for String {
    /// Every character fits in one byte and none is the delimiter.
    open spec fn well_formed(value: Seq<char>) -> bool {
        &&& value.len() < usize::MAX
        &&& forall|i: int| 0 <= i < value.len() ==> (value[i] as u32) < 256 && value[i] != '\n'
    }

    /// One byte per character, then the delimiter.
    open spec fn spec_encode(value: Seq<char>) -> Seq<u8> {
        text_bytes(value).push(DELIMITER)
    }

    /// The bytes before the first delimiter, one character each; without a
    /// delimiter the text is cut short.
    open spec fn spec_decode(src: Seq<u8>) -> Result<(Seq<char>, nat), CodecError> {
        if exists|i: int| is_first_delimiter(src, i) {
            let i = choose|i: int| is_first_delimiter(src, i);
            Ok((bytes_text(src.take(i)), (i + 1) as nat))
        } else {
            Err(CodecError::TruncatedInput)
        }
    }

    proof fn lemma_round_trip(value: Seq<char>, rest: Seq<u8>) {
        let src = Self::spec_encode(value) + rest;
        let n = value.len() as int;
        assert forall|j: int| 0 <= j < n implies src[j] != DELIMITER by {
            lemma_text_byte(value, rest, j);
            lemma_char_byte(value[j]);
        }
        assert(is_first_delimiter(src, n));
        lemma_first_delimiter_unique(src, n);
        assert(src.take(n) =~= text_bytes(value));
        assert forall|j: int| 0 <= j < n implies bytes_text(src.take(n))[j] == value[j] by {
            lemma_char_byte(value[j]);
        }
        assert(bytes_text(src.take(n)) =~= value);
    }

    proof fn lemma_truncated(value: Seq<char>, k: nat) {
        let src = Self::spec_encode(value).take(k as int);
        assert forall|i: int| !is_first_delimiter(src, i) by {
            if 0 <= i < src.len() {
                lemma_text_byte(value, Seq::empty(), i);
                assert(Self::spec_encode(value) + Seq::empty() =~= Self::spec_encode(value));
                lemma_char_byte(value[i]);
            }
        }
    }

    fn byte_length(value: &String) -> (r: usize) {
        value.as_str().unicode_len() + 1
    }

    fn encode(value: &String, dest: &mut Vec<u8>) {
        let s = value.as_str();
        let n = s.unicode_len();
        let mut i: usize = 0;
        while i < n
            invariant
                s@ == value@,
                n == value@.len(),
                i <= n,
                dest@ == old(dest)@ + text_bytes(value@.take(i as int)),
            decreases n - i,
        {
            let c = s.get_char(i);
            dest.push((c as u32) as u8);
            assert(text_bytes(value@.take(i + 1)) =~= text_bytes(value@.take(i as int)).push(
                (c as u32) as u8,
            ));
            i = i + 1;
        }
        dest.push(DELIMITER);
        assert(value@.take(n as int) =~= value@);
        assert(dest@ =~= old(dest)@ + Self::spec_encode(value@));
    }

    fn decode(src: &mut Reader) -> (r: Result<String, CodecError>) {
        let ghost start = src@;
        let total = src.remaining();
        let mut s = String::new();
        let mut i: usize = 0;
        loop
            invariant
                i <= total,
                total == start.len(),
                start == old(src)@,
                src@ == start.skip(i as int),
                s@ == bytes_text(start.take(i as int)),
                forall|j: int| 0 <= j < i ==> start[j] != DELIMITER,
            decreases start.len() - i,
        {
            match src.read_byte() {
                Err(e) => {
                    proof {
                        assert forall|k: int| !is_first_delimiter(start, k) by {
                            if 0 <= k < start.len() {
                                assert(start[k] != DELIMITER);
                            }
                        }
                        assert(!(exists|k: int| is_first_delimiter(start, k)));
                    }
                    return Err(e);
                },
                Ok(b) => {
                    if b == DELIMITER {
                        proof {
                            assert(is_first_delimiter(start, i as int));
                            lemma_first_delimiter_unique(start, i as int);
                            assert(start.skip(i as int).skip(1) =~= start.skip(i + 1));
                            assert(Self::spec_decode(start) == Ok::<(Seq<char>, nat), CodecError>(
                                (s@, (i + 1) as nat),
                            ));
                        }
                        return Ok(s);
                    }
                    push_char(&mut s, b as char);
                    proof {
                        assert(start.take(i + 1) =~= start.take(i as int).push(b));
                        assert(bytes_text(start.take(i + 1)) =~= bytes_text(start.take(i as int)).push(
                            b as char,
                        ));
                        assert(start.skip(i as int).skip(1) =~= start.skip(i + 1));
                    }
                    i = i + 1;
                },
            }
        }
    }
}

impl<T: Protocol> Protocol for Option<T> {
    open spec fn well_formed(value: Option<T::V>) -> bool {
        match value {
            Some(v) => T::well_formed(v) && T::spec_encode(v).len() < usize::MAX,
            None => true,
        }
    }

    /// A presence byte, then the inner value when present.
    open spec fn spec_encode(value: Option<T::V>) -> Seq<u8> {
        match value {
            Some(v) => <bool as Protocol>::spec_encode(true) + T::spec_encode(v),
            None => <bool as Protocol>::spec_encode(false),
        }
    }

    open spec fn spec_decode(src: Seq<u8>) -> Result<(Option<T::V>, nat), CodecError> {
        match <bool as Protocol>::spec_decode(src) {
            Err(e) => Err(e),
            Ok((present, n)) => if present {
                match T::spec_decode(src.skip(n as int)) {
                    Ok((v, m)) => Ok((Some(v), n + m)),
                    Err(e) => Err(e),
                }
            } else {
                Ok((None, n))
            },
        }
    }

    proof fn lemma_round_trip(value: Option<T::V>, rest: Seq<u8>) {
        if let Some(v) = value {
            let src = Self::spec_encode(value) + rest;
            assert(src.skip(1) =~= T::spec_encode(v) + rest);
            T::lemma_round_trip(v, rest);
        }
    }

    proof fn lemma_truncated(value: Option<T::V>, k: nat) {
        if let Some(v) = value {
            if k > 0 {
                let src = Self::spec_encode(value).take(k as int);
                assert(src.skip(1) =~= T::spec_encode(v).take(k - 1));
                T::lemma_truncated(v, (k - 1) as nat);
            }
        }
    }

    fn byte_length(value: &Option<T>) -> (r: usize) {
        match value {
            Some(inner) => 1 + T::byte_length(inner),
            None => 1,
        }
    }

    fn encode(value: &Option<T>, dest: &mut Vec<u8>) {
        match value {
            Some(inner) => {
                <bool as Protocol>::encode(&true, dest);
                T::encode(inner, dest);
            },
            None => {
                <bool as Protocol>::encode(&false, dest);
            },
        }
        assert(dest@ =~= old(dest)@ + Self::spec_encode(value.deep_view()));
    }

    fn decode(src: &mut Reader) -> (r: Result<Option<T>, CodecError>) {
        if <bool as Protocol>::decode(src)? {
            let inner = T::decode(src)?;
            assert(old(src)@.skip(1).skip(
                (old(src)@.len() - 1 - src@.len()) as int,
            ) =~= old(src)@.skip(old(src)@.len() - src@.len()));
            Ok(Some(inner))
        } else {
            Ok(None)
        }
    }
}

} // verus!
