//! BLAKE3 and SHA3 hashing primitives.
//!
//! BLAKE3 is the primary hash for blocks, transactions and state roots;
//! SHA3-256 derives addresses from public keys.
use vstd::prelude::*;
use vstd::string::*;
use vstd::std_specs::cmp::PartialEqSpecImpl;
use crate::bytes::{array32_eq, array32_from_slice};
use crate::crypto::error::CryptoError;

verus! {

/// The BLAKE3 digest of a byte sequence (32 bytes), as computed by the
/// `blake3` crate.
pub uninterp spec fn blake3_of(data: Seq<u8>) -> Seq<u8>;

/// The SHA3-256 digest of a byte sequence (32 bytes), as computed by the
/// `sha3` crate.
pub uninterp spec fn sha3_256_of(data: Seq<u8>) -> Seq<u8>;

/// Calls `blake3::hash`. Claimed: the returned array is the BLAKE3 digest
/// of the input, a function of the input bytes alone.
#[verifier::external_body]
pub(crate) fn blake3_digest(data: &[u8]) -> (out: [u8; 32])
    ensures
        out@ == blake3_of(data@),
{
    *blake3::hash(data).as_bytes()
}

/// Calls `sha3::Sha3_256::digest`. Claimed: the returned array is the
/// SHA3-256 digest of the input, a function of the input bytes alone.
#[verifier::external_body]
pub(crate) fn sha3_256_digest(data: &[u8]) -> (out: [u8; 32])
    ensures
        out@ == sha3_256_of(data@),
{
    let d = <sha3::Sha3_256 as sha3::Digest>::digest(data);
    let mut arr = [0u8; 32];
    arr.copy_from_slice(&d);
    arr
}

/// The lowercase hex digit for a nibble.
pub open spec fn hex_digit(n: int) -> char {
    if n < 10 { (48 + n) as char } else { (87 + n) as char }
}

/// Lowercase hex encoding: two digits per byte, high nibble first.
pub open spec fn hex_lower(bytes: Seq<u8>) -> Seq<char> {
    Seq::new(2 * bytes.len(), |i: int|
        if i % 2 == 0 { hex_digit((bytes[i / 2] / 16) as int) } else { hex_digit((bytes[i / 2] % 16) as int) })
}

/// A byte that is an ASCII hex digit of either case.
pub open spec fn is_hex_byte(c: u8) -> bool {
    (48 <= c <= 57) || (65 <= c <= 70) || (97 <= c <= 102)
}

/// The value of an ASCII hex digit.
pub open spec fn hex_val(c: u8) -> int {
    if c <= 57 { c - 48 } else if c <= 70 { c - 55 } else { c - 87 }
}

/// Input that hex decoding accepts: an even number of hex digits.
pub open spec fn hex_decodable(b: Seq<u8>) -> bool {
    &&& b.len() % 2 == 0
    &&& forall|i: int| 0 <= i < b.len() ==> is_hex_byte(#[trigger] b[i])
}

/// The bytes that a decodable hex text stands for.
pub open spec fn hex_decoded(b: Seq<u8>) -> Seq<u8> {
    Seq::new(b.len() / 2, |i: int| (hex_val(b[2 * i]) * 16 + hex_val(b[2 * i + 1])) as u8)
}

/// Calls `hex::encode`. Claimed: the result is the lowercase hex text of
/// the input, two digits per byte.
#[verifier::external_body]
pub(crate) fn hex_encode(data: &[u8]) -> (s: String)
    ensures
        s@ == hex_lower(data@),
{
    hex::encode(data)
}

/// Calls `hex::decode` on the bytes of `s`. Claimed: it succeeds exactly
/// when the text is an even number of hex digits of either case, and then
/// yields the bytes they stand for; the error is carried as its message.
#[verifier::external_body]
pub(crate) fn hex_decode(s: &str) -> (r: Result<Vec<u8>, String>)
    ensures
        r is Ok <==> hex_decodable(s.spec_bytes()),
        r matches Ok(v) ==> v@ == hex_decoded(s.spec_bytes()),
{
    match hex::decode(s) {
        Ok(v) => Ok(v),
        Err(e) => Err(e.to_string()),
    }
}

/// A 32-byte BLAKE3 hash.
#[derive(Clone, Copy, Eq, Hash, Debug)]
pub struct Blake3Hash(pub [u8; 32]);

/// A 32-byte SHA3-256 hash.
#[derive(Clone, Copy, Eq, Hash, Debug)]
pub struct Sha3Hash(pub [u8; 32]);

impl PartialEq for Blake3Hash {
    fn eq(&self, other: &Self) -> (r: bool) {
        array32_eq(&self.0, &other.0)
    }
}

impl PartialEqSpecImpl for Blake3Hash {
    open spec fn obeys_eq_spec() -> bool {
        true
    }

    open spec fn eq_spec(&self, other: &Self) -> bool {
        self.0@ == other.0@
    }
}

impl PartialEq for Sha3Hash {
    fn eq(&self, other: &Self) -> (r: bool) {
        array32_eq(&self.0, &other.0)
    }
}

impl PartialEqSpecImpl for Sha3Hash {
    open spec fn obeys_eq_spec() -> bool {
        true
    }

    open spec fn eq_spec(&self, other: &Self) -> bool {
        self.0@ == other.0@
    }
}

/// The all-zero hash.
pub open spec fn zero_hash() -> Blake3Hash {
    Blake3Hash(vstd::array::spec_array_fill_for_copy_type::<u8, 32>(0u8))
}

/// The all-zero 32-byte sequence.
pub open spec fn zero32() -> Seq<u8> {
    Seq::new(32, |i: int| 0u8)
}

impl Blake3Hash {
    /// Compute the BLAKE3 hash of arbitrary data.
    pub fn compute(data: &[u8]) -> (h: Self)
        ensures
            h.0@ == blake3_of(data@),
    {
        Blake3Hash(blake3_digest(data))
    }

    /// Return the hash as a lowercase hex string.
    pub fn to_hex(&self) -> (s: String)
        ensures
            s@ == hex_lower(self.0@),
    {
        hex_encode(self.0.as_slice())
    }

    /// Parse a BLAKE3 hash from a hex string.
    pub fn from_hex(s: &str) -> (r: Result<Self, CryptoError>)
        ensures
            !hex_decodable(s.spec_bytes()) ==> r is Err && r->Err_0 is InvalidHex,
            hex_decodable(s.spec_bytes()) && s.spec_bytes().len() != 64 ==> r == Err::<Self, CryptoError>(
                CryptoError::InvalidKeyLength { expected: 32, got: (s.spec_bytes().len() / 2) as usize }),
            hex_decodable(s.spec_bytes()) && s.spec_bytes().len() == 64 ==> (r matches Ok(h) && h.0@
                == hex_decoded(s.spec_bytes())),
    {
        let bytes = match hex_decode(s) {
            Ok(b) => b,
            Err(msg) => return Err(CryptoError::InvalidHex(msg)),
        };
        if bytes.len() != 32 {
            return Err(CryptoError::InvalidKeyLength { expected: 32, got: bytes.len() });
        }
        Ok(Blake3Hash(array32_from_slice(bytes.as_slice())))
    }

    /// Verify that this hash matches the given data.
    pub fn verify(&self, data: &[u8]) -> (r: bool)
        ensures
            r == (self.0@ == blake3_of(data@)),
    {
        let computed = Self::compute(data);
        array32_eq(&self.0, &computed.0)
    }

    /// Return the raw bytes.
    pub fn as_bytes(&self) -> (b: &[u8; 32])
        ensures
            *b == self.0,
    {
        &self.0
    }

    /// A zero hash (used as placeholder / genesis parent).
    pub fn zero() -> (h: Self)
        ensures
            h.0@ == zero32(),
            h == zero_hash(),
    {
        let h = Blake3Hash([0u8; 32]);
        assert(h.0@ =~= zero32());
        h
    }
}

impl Default for Blake3Hash {
    fn default() -> (h: Self)
        ensures
            h.0@ == zero32(),
    {
        Self::zero()
    }
}

impl Sha3Hash {
    /// Compute the SHA3-256 hash of arbitrary data.
    pub fn compute(data: &[u8]) -> (h: Self)
        ensures
            h.0@ == sha3_256_of(data@),
    {
        Sha3Hash(sha3_256_digest(data))
    }

    /// Return the hash as a lowercase hex string.
    pub fn to_hex(&self) -> (s: String)
        ensures
            s@ == hex_lower(self.0@),
    {
        hex_encode(self.0.as_slice())
    }
}

/// Compute the BLAKE3 hash of a serialized block header.
pub fn block_hash(header_bytes: &[u8]) -> (h: Blake3Hash)
    ensures
        h.0@ == blake3_of(header_bytes@),
{
    Blake3Hash::compute(header_bytes)
}

/// Compute the BLAKE3 hash of a serialized transaction.
pub fn transaction_hash(tx_bytes: &[u8]) -> (h: Blake3Hash)
    ensures
        h.0@ == blake3_of(tx_bytes@),
{
    Blake3Hash::compute(tx_bytes)
}

/// Derive a 32-byte wallet address from a public key using SHA3-256.
pub fn wallet_address_from_pubkey(pubkey_bytes: &[u8]) -> (a: [u8; 32])
    ensures
        a@ == sha3_256_of(pubkey_bytes@),
{
    Sha3Hash::compute(pubkey_bytes).0
}

} // verus!
