//! 256-bit hashes.

use vstd::prelude::*;

use crate::encoding::{bytes_eq, copy_bytes, first_32, push_bytes};

verus! {

// ---------------------------------------------------------------------------
// BLAKE3 and hexadecimal text
// ---------------------------------------------------------------------------

/// The BLAKE3 digest of a byte string.
pub uninterp spec fn blake3_digest(data: Seq<u8>) -> Seq<u8>;

/// `blake3::hash`: the 32-byte BLAKE3 digest of `data`, which depends on `data` alone.
#[verifier::external_body]
pub(crate) fn blake3_hash(data: &[u8]) -> (digest: [u8; 32])
    ensures
        digest@ == blake3_digest(data@),
{
    *blake3::hash(data).as_bytes()
}

/// The BLAKE3 key-derivation output for a context string and key material.
pub uninterp spec fn blake3_derived(context: Seq<char>, material: Seq<u8>) -> Seq<u8>;

/// `blake3::derive_key`: the 32-byte output of BLAKE3 in its key-derivation mode, which depends
/// on the context string and the key material alone.
#[verifier::external_body]
pub(crate) fn blake3_derive(context: &str, material: &[u8]) -> (key: [u8; 32])
    ensures
        key@ == blake3_derived(context@, material@),
{
    blake3::derive_key(context, material)
}

/// The BLAKE3 keyed hash of a byte string.
pub uninterp spec fn blake3_keyed(key: Seq<u8>, data: Seq<u8>) -> Seq<u8>;

/// `blake3::keyed_hash`: the 32-byte BLAKE3 keyed hash, which depends on the key and `data` alone.
#[verifier::external_body]
pub(crate) fn blake3_keyed_hash(key: &[u8; 32], data: &[u8]) -> (digest: [u8; 32])
    ensures
        digest@ == blake3_keyed(key@, data@),
{
    *blake3::keyed_hash(key, data).as_bytes()
}

/// Whether two different byte strings have the same BLAKE3 digest.
pub open spec fn collides(x: Seq<u8>, y: Seq<u8>) -> bool {
    x != y && blake3_digest(x) == blake3_digest(y)
}

/// Whether every BLAKE3 digest has its 32 bytes.
pub open spec fn digests_have_32_bytes() -> bool {
    forall|x: Seq<u8>| (#[trigger] blake3_digest(x)).len() == 32
}

/// Whether two different byte strings have the same BLAKE3 digest in a context.
pub open spec fn derived_collides(context: Seq<char>, x: Seq<u8>, y: Seq<u8>) -> bool {
    x != y && blake3_derived(context, x) == blake3_derived(context, y)
}

/// Whether two different byte strings have the same BLAKE3 digest under a key.
pub open spec fn keyed_collides(key: Seq<u8>, x: Seq<u8>, y: Seq<u8>) -> bool {
    x != y && blake3_keyed(key, x) == blake3_keyed(key, y)
}

/// The character of a hexadecimal digit, in lower case.
pub open spec fn hex_digit(d: nat) -> char {
    if d < 10 {
        ('0' as u32 + d) as char
    } else {
        ('a' as u32 + (d - 10)) as char
    }
}

/// A byte string in lower-case hexadecimal, two digits to a byte, high half first.
pub open spec fn hex_text(data: Seq<u8>) -> Seq<char> {
    Seq::new(
        2 * data.len(),
        |i: int|
            if i % 2 == 0 {
                hex_digit((data[i / 2] / 16) as nat)
            } else {
                hex_digit((data[i / 2] % 16) as nat)
            },
    )
}

/// `hex::encode`: lower-case hexadecimal text, two digits to a byte, high half first.
#[verifier::external_body]
pub(crate) fn hex_encode(data: &[u8]) -> (text: String)
    ensures
        text@ == hex_text(data@),
{
    hex::encode(data)
}

/// The value of a hexadecimal digit in either case.
pub open spec fn hex_digit_value(c: u8) -> Option<nat> {
    if 48 <= c <= 57 {
        Some((c - 48) as nat)
    } else if 97 <= c <= 102 {
        Some((c - 97 + 10) as nat)
    } else if 65 <= c <= 70 {
        Some((c - 65 + 10) as nat)
    } else {
        None
    }
}

/// Whether every byte of `text` is a hexadecimal digit.
pub open spec fn all_hex_digits(text: Seq<u8>) -> bool {
    forall|i: int| 0 <= i < text.len() ==> (#[trigger] hex_digit_value(text[i])) is Some
}

/// The bytes that hexadecimal text spells.
pub open spec fn hex_value(text: Seq<u8>) -> Seq<u8> {
    Seq::new(
        text.len() / 2,
        |i: int|
            (16 * hex_digit_value(text[2 * i])->0 + hex_digit_value(text[2 * i + 1])->0) as u8,
    )
}

/// Why hexadecimal text does not decode.
#[derive(Clone, Copy, Debug, PartialEq, Eq, Structural)]
pub enum HexError {
    /// The first byte that is not a hexadecimal digit, as a character, and its position.
    InvalidHexCharacter { c: char, index: usize },
    /// The text has an odd number of bytes.
    OddLength,
    /// The text has not the length that a fixed-size target asks for.
    InvalidStringLength,
}

/// The outcome of decoding hexadecimal text.
pub open spec fn hex_decoded(text: Seq<u8>, r: Result<Seq<u8>, HexError>) -> bool {
    if text.len() % 2 != 0 {
        r == Err::<Seq<u8>, HexError>(HexError::OddLength)
    } else if all_hex_digits(text) {
        r == Ok::<Seq<u8>, HexError>(hex_value(text))
    } else {
        &&& r matches Err(HexError::InvalidHexCharacter { c, index })
        &&& index < text.len()
        &&& hex_digit_value(text[index as int]) is None
        &&& c as u32 == text[index as int]
        &&& forall|j: int| 0 <= j < index ==> (#[trigger] hex_digit_value(text[j])) is Some
    }
}

/// `hex::decode`: text of odd length is refused; otherwise the first byte that is no
/// hexadecimal digit is reported, and where there is none the bytes that the text spells are
/// returned.
#[verifier::external_body]
pub(crate) fn hex_decode(text: &[u8]) -> (r: Result<Vec<u8>, HexError>)
    ensures
        hex_decoded(
            text@,
            match r {
                Ok(v) => Ok(v@),
                Err(e) => Err(e),
            },
        ),
{
    match hex::decode(text) {
        Ok(bytes) => Ok(bytes),
        Err(hex::FromHexError::InvalidHexCharacter { c, index }) => {
            Err(HexError::InvalidHexCharacter { c, index })
        },
        Err(hex::FromHexError::OddLength) => Err(HexError::OddLength),
        Err(hex::FromHexError::InvalidStringLength) => Err(HexError::InvalidStringLength),
    }
}

/// A byte string survives being written in hexadecimal and read back.
pub proof fn law_hex_roundtrip(data: Seq<u8>)
    ensures
        vstd::utf8::encode_utf8(hex_text(data)).len() == 2 * data.len(),
        all_hex_digits(vstd::utf8::encode_utf8(hex_text(data))),
        hex_value(vstd::utf8::encode_utf8(hex_text(data))) == data,
{
    let text = hex_text(data);
    let bytes = vstd::utf8::encode_utf8(text);
    assert(vstd::utf8::is_ascii_chars(text));
    vstd::utf8::is_ascii_chars_encode_utf8(text);
    assert forall|i: int| 0 <= i < bytes.len() implies #[trigger] hex_digit_value(bytes[i])
        == Some(
        if i % 2 == 0 {
            (data[i / 2] / 16) as nat
        } else {
            (data[i / 2] % 16) as nat
        },
    ) by {
        assert(bytes[i] == text[i] as u8);
    }
    assert forall|i: int| 0 <= i < data.len() implies hex_value(bytes)[i] == data[i] by {
        assert(hex_digit_value(bytes[2 * i]) == Some((data[i] / 16) as nat));
        assert(hex_digit_value(bytes[2 * i + 1]) == Some((data[i] % 16) as nat));
    }
    assert(hex_value(bytes) =~= data);
}

// ---------------------------------------------------------------------------
// Hash256
// ---------------------------------------------------------------------------

/// 256-bit hash used throughout the chain.
#[derive(Clone, Copy, Debug, Eq, Hash)]
pub struct Hash256(pub [u8; 32]);

impl View for Hash256 {
    type V = Seq<u8>;

    open spec fn view(&self) -> Seq<u8> {
        self.0@
    }
}

impl PartialEq for Hash256 {
    fn eq(&self, other: &Self) -> (r: bool) {
        bytes_eq(&self.0, &other.0)
    }
}

impl vstd::std_specs::cmp::PartialEqSpecImpl for Hash256 {
    open spec fn obeys_eq_spec() -> bool {
        true
    }

    open spec fn eq_spec(&self, other: &Self) -> bool {
        self@ == other@
    }
}

/// 32 zero bytes.
pub open spec fn zero_digest() -> Seq<u8> {
    Seq::new(32, |i: int| 0u8)
}

impl Default for Hash256 {
    fn default() -> (h: Self)
        ensures
            h@ == zero_digest(),
    {
        let h: Hash256 = Hash256([0u8; 32]);
        assert(h@ =~= zero_digest());
        h
    }
}

impl Hash256 {
    /// The hash of all zero bytes.
    pub fn zero() -> (h: Self)
        ensures
            h@ == zero_digest(),
    {
        Hash256::default()
    }

    pub fn as_bytes(&self) -> (b: &[u8; 32])
        ensures
            *b == self.0,
    {
        &self.0
    }

    /// The hash in lower-case hexadecimal.
    pub fn to_hex(&self) -> (text: String)
        ensures
            text@ == hex_text(self@),
    {
        hex_encode(&self.0)
    }

    /// Reads a hash from hexadecimal text of at least 32 bytes; what follows the first 32 bytes is
    /// dropped.
    pub fn from_hex(s: &str) -> (r: Result<Self, HexError>)
        requires
            vstd::utf8::encode_utf8(s@).len() % 2 == 0 && all_hex_digits(vstd::utf8::encode_utf8(s@))
                ==> vstd::utf8::encode_utf8(s@).len() >= 64,
        ensures
            hex_decoded(
                vstd::utf8::encode_utf8(s@),
                match r {
                    Ok(_) => Ok(hex_value(vstd::utf8::encode_utf8(s@))),
                    Err(e) => Err(e),
                },
            ),
            r matches Ok(h) ==> h@ == hex_value(vstd::utf8::encode_utf8(s@)).subrange(0, 32),
    {
        match hex_decode(s.as_bytes()) {
            Ok(bytes) => Ok(Hash256(first_32(&bytes))),
            Err(e) => Err(e),
        }
    }
}

/// BLAKE3 hash of arbitrary bytes.
pub fn hash_bytes(data: &[u8]) -> (h: Hash256)
    ensures
        h@ == blake3_digest(data@),
{
    Hash256(blake3_hash(data))
}

/// The digest of an inner node: the hash of its children's digests, left before right.
pub open spec fn pair_digest(left: Seq<u8>, right: Seq<u8>) -> Seq<u8> {
    blake3_digest(left + right)
}

/// Hash two 32-byte values together (for Merkle tree internal nodes).
pub fn hash_pair(left: &Hash256, right: &Hash256) -> (h: Hash256)
    ensures
        h@ == pair_digest(left@, right@),
{
    let mut input: Vec<u8> = copy_bytes(&left.0);
    push_bytes(&mut input, &right.0);
    hash_bytes(&input)
}

/// The digest of a pair belongs to its left and its right part alone, unless the digests of what is
/// hashed collide.
pub proof fn law_pair_digests_bind_both_parts(
    left_a: Seq<u8>,
    right_a: Seq<u8>,
    left_b: Seq<u8>,
    right_b: Seq<u8>,
)
    requires
        left_a.len() == left_b.len(),
        pair_digest(left_a, right_a) == pair_digest(left_b, right_b),
    ensures
        (left_a == left_b && right_a == right_b) || collides(left_a + right_a, left_b + right_b),
{
    if left_a + right_a == left_b + right_b {
        crate::encoding::lemma_split(left_a, right_a, left_b, right_b);
    }
}

/// Byte strings have the same hexadecimal form only where they are the same.
pub proof fn law_hex_injective(a: Seq<u8>, b: Seq<u8>)
    ensures
        hex_text(a).len() == 2 * a.len(),
        hex_text(a) == hex_text(b) <==> a == b,
{
    law_hex_roundtrip(a);
    law_hex_roundtrip(b);
}

/// The digits are those of sixteen, in lower case; either case is read as the same digit, and nothing
/// else is read.
pub proof fn law_hex_digits(d: nat, c: u8)
    requires
        d < 16,
    ensures
        d < 10 ==> hex_digit(d) as u32 == '0' as u32 + d,
        d >= 10 ==> hex_digit(d) as u32 == 'a' as u32 + d - 10,
        hex_digit_value(c) == Some(d) <==> {
            ||| c as u32 == hex_digit(d) as u32
            ||| d >= 10 && c + 32 == hex_digit(d) as u32
        },
{
}

/// The text of bytes that are joined is that of the parts, joined; that of one byte is its upper and
/// its lower half.
pub proof fn law_hex_texts_join(a: Seq<u8>, b: Seq<u8>, x: u8)
    ensures
        hex_text(a + b) == hex_text(a) + hex_text(b),
        hex_text(seq![x]) == seq![hex_digit((x / 16) as nat), hex_digit((x % 16) as nat)],
{
    assert(hex_text(a + b) =~= hex_text(a) + hex_text(b));
    assert(hex_text(seq![x]) =~= seq![hex_digit((x / 16) as nat), hex_digit((x % 16) as nat)]);
}

/// Text is decoded exactly where it has an even number of characters and all are digits; what is read
/// then has half the length. Otherwise the first character that is no digit is named.
pub proof fn law_hex_decoding(text: Seq<u8>, r: Result<Seq<u8>, HexError>)
    requires
        hex_decoded(text, r),
    ensures
        r is Ok <==> text.len() % 2 == 0 && all_hex_digits(text),
        r matches Ok(data) ==> 2 * data.len() == text.len(),
        r == Err::<Seq<u8>, HexError>(HexError::OddLength) <==> text.len() % 2 != 0,
        r matches Ok(data) ==> forall|i: int|
            0 <= i < data.len() ==> #[trigger] data[i] == 16 * hex_digit_value(text[2 * i])->0
                + hex_digit_value(text[2 * i + 1])->0,
{
    if r is Ok {
        let data = r->Ok_0;
        assert forall|i: int| 0 <= i < data.len() implies #[trigger] data[i] == 16
            * hex_digit_value(text[2 * i])->0 + hex_digit_value(text[2 * i + 1])->0 by {
            assert(hex_digit_value(text[2 * i]) is Some);
            assert(hex_digit_value(text[2 * i + 1]) is Some);
        }
    }
}

} // verus!
