use vstd::prelude::*;

use vstd::string::StringSliceAdditionalSpecFns;
use vstd::utf8::*;

use crate::error::{Error, HexError};
use crate::Result;

verus! {

/// The lower-case hex digit of a value below 16.
pub open spec fn hex_digit(n: int) -> char {
    if n < 10 {
        seq!['0', '1', '2', '3', '4', '5', '6', '7', '8', '9'][n]
    } else {
        seq!['a', 'b', 'c', 'd', 'e', 'f'][n - 10]
    }
}

/// Lower-case hex encoding: each byte becomes its high then its low digit.
pub open spec fn hex_encoding(bytes: Seq<u8>) -> Seq<char> {
    Seq::new(
        2 * bytes.len(),
        |i: int|
            if i % 2 == 0 {
                hex_digit(bytes[i / 2] as int / 16)
            } else {
                hex_digit(bytes[i / 2] as int % 16)
            },
    )
}

/// The value of one hex digit byte (`0-9`, `a-f`, `A-F`), if it is one.
pub open spec fn hex_value(c: u8) -> Option<u8> {
    if 48 <= c <= 57 {
        Some((c - 48) as u8)
    } else if 97 <= c <= 102 {
        Some((c - 87) as u8)
    } else if 65 <= c <= 70 {
        Some((c - 55) as u8)
    } else {
        None
    }
}

/// The position of the first byte at or after `from` that is not a hex
/// digit, or the length of `bytes` when there is none.
pub open spec fn first_non_hex(bytes: Seq<u8>, from: int) -> int
    decreases bytes.len() - from,
{
    if from >= bytes.len() || from < 0 {
        bytes.len() as int
    } else if hex_value(bytes[from]) is None {
        from
    } else {
        first_non_hex(bytes, from + 1)
    }
}

/// The bytes that a string of hex digit pairs stands for.
pub open spec fn hex_pairs_value(bytes: Seq<u8>) -> Seq<u8> {
    Seq::new(
        bytes.len() / 2,
        |k: int|
            (hex_value(bytes[2 * k]).unwrap() * 16 + hex_value(bytes[2 * k + 1]).unwrap()) as u8,
    )
}

/// Hex decoding of a byte string: an odd length is refused first, then the
/// first byte that is not a hex digit; otherwise each pair of digits gives a
/// byte.
pub open spec fn hex_decoding(bytes: Seq<u8>) -> core::result::Result<Seq<u8>, HexError> {
    if bytes.len() % 2 != 0 {
        Err(HexError::OddLength)
    } else if first_non_hex(bytes, 0) < bytes.len() {
        let i = first_non_hex(bytes, 0);
        Err(HexError::InvalidHexCharacter { c: bytes[i] as char, index: i as usize })
    } else {
        Ok(hex_pairs_value(bytes))
    }
}

/// Calls `hex::encode`, which writes each byte as two lower-case hex digits,
/// high digit first.
#[verifier::external_body]
fn hex_encode(data: &[u8]) -> (s: String)
    ensures
        s@ == hex_encoding(data@),
{
    hex::encode(data)
}

/// Calls `hex::decode` on the bytes of `data`: an odd number of bytes gives
/// `OddLength`, else the first byte that is not a hex digit gives
/// `InvalidHexCharacter` with that byte and its position, else the decoded
/// bytes. The error is carried over variant by variant.
#[verifier::external_body]
fn hex_decode(data: &str) -> (res: core::result::Result<Vec<u8>, HexError>)
    ensures
        match (res, hex_decoding(data.spec_bytes())) {
            (Ok(v), Ok(b)) => v@ == b,
            (Err(e), Err(f)) => e == f,
            _ => false,
        },
{
    match hex::decode(data) {
        Ok(v) => Ok(v),
        Err(hex::FromHexError::InvalidHexCharacter { c, index }) => Err(
            HexError::InvalidHexCharacter { c, index },
        ),
        Err(hex::FromHexError::OddLength) => Err(HexError::OddLength),
        Err(hex::FromHexError::InvalidStringLength) => Err(HexError::InvalidStringLength),
    }
}

/// A 32-byte public key.
#[derive(Debug, Clone, Copy)]
pub struct Pubkey([u8; 32]);

impl PartialEq for Pubkey {
    /// Keys are equal when their bytes are.
    fn eq(&self, other: &Pubkey) -> (same: bool) {
        let mut i: usize = 0;
        while i < 32
            invariant
                0 <= i <= 32,
                forall|j: int| 0 <= j < i ==> self.0@[j] == other.0@[j],
            decreases 32 - i,
        {
            if self.0[i] != other.0[i] {
                return false;
            }
            i = i + 1;
        }
        assert(self.0@ =~= other.0@);
        true
    }
}

impl Eq for Pubkey {
}

impl vstd::std_specs::cmp::PartialEqSpecImpl for Pubkey {
    open spec fn obeys_eq_spec() -> bool {
        true
    }

    open spec fn eq_spec(&self, other: &Pubkey) -> bool {
        self@ == other@
    }
}

impl View for Pubkey {
    type V = Seq<u8>;

    closed spec fn view(&self) -> Seq<u8> {
        self.0@
    }
}

/// What `Pubkey::from_hex` gives for a string with these bytes: the decoding
/// error, or the key when exactly 32 bytes come out, or a length error.
pub open spec fn from_hex_outcome(bytes: Seq<u8>, res: Result<Pubkey>) -> bool {
    match hex_decoding(bytes) {
        Err(e) => res matches Err(Error::HexError(f)) && f == e,
        Ok(b) => if b.len() == 32 {
            res matches Ok(p) && p@ == b
        } else {
            res matches Err(Error::TryFromSliceError)
        },
    }
}

impl Pubkey {
    /// The key with these bytes.
    pub fn new(data: &[u8; 32]) -> (k: Self)
        ensures
            k@ == data@,
    {
        Pubkey(*data)
    }

    /// The key in lower-case hex: 64 digits.
    pub fn hex(&self) -> (s: String)
        ensures
            s@ == hex_encoding(self@),
            s@.len() == 64,
    {
        hex_encode(self.bytes().as_slice())
    }

    /// The bytes of the key.
    pub fn bytes(&self) -> (b: &[u8; 32])
        ensures
            b@ == self@,
    {
        &self.0
    }

    /// Reads a key from hex digits (either case): the string must decode to
    /// exactly 32 bytes.
    pub fn from_hex(data: &str) -> (res: Result<Self>)
        ensures
            from_hex_outcome(data.spec_bytes(), res),
    {
        let decoded = match hex_decode(data) {
            Ok(v) => v,
            Err(e) => return Err(Error::HexError(e)),
        };
        if decoded.len() != 32 {
            return Err(Error::TryFromSliceError);
        }
        let mut arr = [0u8; 32];
        let mut i: usize = 0;
        while i < 32
            invariant
                0 <= i <= 32,
                decoded@.len() == 32,
                forall|j: int| 0 <= j < i ==> arr@[j] == decoded@[j],
            decreases 32 - i,
        {
            arr[i] = decoded[i];
            i = i + 1;
        }
        let k = Pubkey(arr);
        assert(k@ =~= decoded@);
        Ok(k)
    }
}

/// The digit characters are ASCII and read back as their value.
proof fn lemma_hex_digit(n: int)
    requires
        0 <= n < 16,
    ensures
        '\0' <= hex_digit(n) <= '\u{7f}',
        hex_value(hex_digit(n) as u8) == Some(n as u8),
{
    if n < 10 {
        assert(seq!['0', '1', '2', '3', '4', '5', '6', '7', '8', '9'][n] == hex_digit(n));
    } else {
        assert(seq!['a', 'b', 'c', 'd', 'e', 'f'][n - 10] == hex_digit(n));
    }
}

/// A run of hex digits from `from` on has no first non-digit.
proof fn lemma_first_non_hex_none(bytes: Seq<u8>, from: int)
    requires
        0 <= from <= bytes.len(),
        forall|i: int| from <= i < bytes.len() ==> hex_value(#[trigger] bytes[i]) is Some,
    ensures
        first_non_hex(bytes, from) == bytes.len(),
    decreases bytes.len() - from,
{
    if from < bytes.len() {
        lemma_first_non_hex_none(bytes, from + 1);
    }
}

/// Hex encoding then decoding gives the bytes back: the UTF-8 bytes of the
/// lower-case hex text of any byte string decode to that byte string.
pub proof fn lemma_hex_roundtrip(bytes: Seq<u8>)
    ensures
        hex_decoding(encode_utf8(hex_encoding(bytes))) == Ok::<Seq<u8>, HexError>(bytes),
{
    let chars = hex_encoding(bytes);
    assert forall|i: int| 0 <= i < chars.len() implies '\0' <= #[trigger] chars[i] <= '\u{7f}' by {
        lemma_hex_digit(bytes[i / 2] as int / 16);
        lemma_hex_digit(bytes[i / 2] as int % 16);
    }
    is_ascii_chars_encode_utf8(chars);
    let enc = encode_utf8(chars);
    assert forall|i: int| 0 <= i < enc.len() implies hex_value(#[trigger] enc[i]) == Some(
        (if i % 2 == 0 { bytes[i / 2] as int / 16 } else { bytes[i / 2] as int % 16 }) as u8,
    ) by {
        assert(chars[i] as u8 == enc[i]);
        lemma_hex_digit(bytes[i / 2] as int / 16);
        lemma_hex_digit(bytes[i / 2] as int % 16);
    }
    lemma_first_non_hex_none(enc, 0);
    assert forall|k: int| 0 <= k < bytes.len() implies #[trigger] hex_pairs_value(enc)[k]
        == bytes[k] by {
        assert(hex_value(enc[2 * k]) == Some((bytes[k] as int / 16) as u8));
        assert(hex_value(enc[2 * k + 1]) == Some((bytes[k] as int % 16) as u8));
    }
    assert(hex_pairs_value(enc) =~= bytes);
}

/// Reading a key back from its hex text gives the same key.
pub proof fn lemma_pubkey_hex_roundtrip(k: Pubkey, text: &str, res: Result<Pubkey>)
    requires
        text@ == hex_encoding(k@),
        from_hex_outcome(text.spec_bytes(), res),
    ensures
        res matches Ok(p) && p@ == k@,
{
    lemma_hex_roundtrip(k@);
    assert(k@.len() == 32);
}

} // verus!
