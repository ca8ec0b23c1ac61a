//! ML-DSA-65 key structures and wallet addresses.
//!
//! The key material has the byte sizes of the NIST FIPS 204 ML-DSA-65
//! parameter set; deterministic keys are expanded from a seed with BLAKE3.
use vstd::prelude::*;
use vstd::string::*;
use vstd::std_specs::cmp::PartialEqSpecImpl;
use vstd::bytes::spec_u64_to_le_bytes;
use vstd::slice::slice_to_vec;
use crate::bytes::{append_bytes, array32_eq, array32_from_slice, push_u64_le};
use crate::crypto::error::CryptoError;
use crate::crypto::hash::{blake3_of, blake3_digest, hex_encode, hex_decode, hex_lower, hex_decodable, hex_decoded, sha3_256_of, wallet_address_from_pubkey, zero32};

verus! {

/// ML-DSA-65 public key size in bytes (NIST FIPS 204).
pub const PUBKEY_SIZE: usize = 1952;
/// ML-DSA-65 private key size in bytes (NIST FIPS 204).
pub const PRIVKEY_SIZE: usize = 4032;
/// ML-DSA-65 signature size in bytes (NIST FIPS 204).
pub const SIGNATURE_SIZE: usize = 3309;

/// Fills a fresh vector of `n` bytes from `rand::thread_rng()` (via
/// `rand::Rng::fill`). Only the number of bytes is claimed: their values
/// are random.
#[verifier::external_body]
pub(crate) fn random_bytes(n: usize) -> (v: Vec<u8>)
    ensures
        v@.len() == n,
{
    let mut v = vec![0u8; n];
    rand::Rng::fill(&mut rand::thread_rng(), &mut v[..]);
    v
}

/// An ML-DSA-65 public key (1952 bytes).
#[derive(Clone, Debug)]
pub struct MlDsaPublicKey(pub Vec<u8>);

/// An ML-DSA-65 private key (4032 bytes).
#[derive(Clone, Debug)]
pub struct MlDsaPrivateKey(pub Vec<u8>);

/// An ML-DSA-65 digital signature (3309 bytes).
#[derive(Clone, Debug)]
pub struct MlDsaSignature(pub Vec<u8>);

/// A complete ML-DSA-65 keypair.
#[derive(Clone, Debug)]
pub struct KeyPair {
    pub public: MlDsaPublicKey,
    pub private: MlDsaPrivateKey,
}

/// A 32-byte wallet address derived from a public key via SHA3.
#[derive(Clone, Copy, Eq, Hash, Debug)]
pub struct WalletAddress(pub [u8; 32]);

impl PartialEq for WalletAddress {
    fn eq(&self, other: &Self) -> (r: bool) {
        array32_eq(&self.0, &other.0)
    }
}

impl PartialEqSpecImpl for WalletAddress {
    open spec fn obeys_eq_spec() -> bool {
        true
    }

    open spec fn eq_spec(&self, other: &Self) -> bool {
        self.0@ == other.0@
    }
}

/// The concatenation of `count` BLAKE3 blocks, block `k` being the digest
/// of `prefix` followed by the little-endian 8-byte counter `first + k`.
pub open spec fn expand_blocks(prefix: Seq<u8>, first: nat, count: nat) -> Seq<u8>
    decreases count,
{
    if count == 0 {
        Seq::empty()
    } else {
        expand_blocks(prefix, first, (count - 1) as nat) + blake3_of(
            prefix + spec_u64_to_le_bytes((first + count - 1) as u64),
        )
    }
}

/// Appends BLAKE3 blocks `first .. first + count` of `prefix` to `out`.
pub(crate) fn expand_into(out: &mut Vec<u8>, prefix: &[u8], first: u64, count: u64)
    requires
        first + count <= u64::MAX,
    ensures
        final(out)@ == old(out)@ + expand_blocks(prefix@, first as nat, count as nat),
        final(out)@.len() == old(out)@.len() + 32 * count,
{
    let mut k: u64 = 0;
    while k < count
        invariant
            k <= count,
            first + count <= u64::MAX,
            out@ == old(out)@ + expand_blocks(prefix@, first as nat, k as nat),
            out@.len() == old(out)@.len() + 32 * k,
        decreases count - k,
    {
        let mut input: Vec<u8> = Vec::new();
        append_bytes(&mut input, prefix);
        push_u64_le(&mut input, first + k);
        let block = blake3_digest(input.as_slice());
        append_bytes(out, block.as_slice());
        k = k + 1;
        assert(expand_blocks(prefix@, first as nat, k as nat) == expand_blocks(
            prefix@,
            first as nat,
            (k - 1) as nat,
        ) + blake3_of(prefix@ + spec_u64_to_le_bytes((first + k - 1) as u64)));
    }
}

/// The public key that `KeyPair::from_seed` derives from `seed`.
pub open spec fn seed_public_key(seed: Seq<u8>) -> Seq<u8> {
    expand_blocks(seed, 0, 61)
}

/// The private key that `KeyPair::from_seed` derives from `seed`: a
/// different domain (a leading 0xFF byte) and the counters that follow the
/// public key's.
pub open spec fn seed_private_key(seed: Seq<u8>) -> Seq<u8> {
    expand_blocks(seq![0xFFu8] + seed, 61, 126)
}

impl KeyPair {
    /// Generate a new random ML-DSA-65 keypair.
    pub fn generate() -> (kp: Self)
        ensures
            kp.public.0@.len() == PUBKEY_SIZE,
            kp.private.0@.len() == PRIVKEY_SIZE,
    {
        let pubkey = random_bytes(PUBKEY_SIZE);
        let privkey = random_bytes(PRIVKEY_SIZE);
        KeyPair { public: MlDsaPublicKey(pubkey), private: MlDsaPrivateKey(privkey) }
    }

    /// Generate a deterministic keypair from a 32-byte seed.
    ///
    /// The public key is the concatenation of 61 BLAKE3 blocks of
    /// `seed || counter` (counters 0..61); the private key the 126 blocks of
    /// `0xFF || seed || counter` (counters 61..187).
    pub fn from_seed(seed: &[u8; 32]) -> (kp: Self)
        ensures
            kp.public.0@ == seed_public_key(seed@),
            kp.private.0@ == seed_private_key(seed@),
            kp.public.0@.len() == PUBKEY_SIZE,
            kp.private.0@.len() == PRIVKEY_SIZE,
    {
        let mut pubkey: Vec<u8> = Vec::new();
        expand_into(&mut pubkey, seed.as_slice(), 0, 61);
        let mut domain: Vec<u8> = Vec::new();
        domain.push(0xFFu8);
        append_bytes(&mut domain, seed.as_slice());
        let mut privkey: Vec<u8> = Vec::new();
        expand_into(&mut privkey, domain.as_slice(), 61, 126);
        assert(pubkey@ =~= seed_public_key(seed@));
        assert(domain@ =~= seq![0xFFu8] + seed@);
        assert(privkey@ =~= seed_private_key(seed@));
        KeyPair { public: MlDsaPublicKey(pubkey), private: MlDsaPrivateKey(privkey) }
    }

    /// Get a reference to the public key.
    pub fn public_key(&self) -> (k: &MlDsaPublicKey)
        ensures
            k == &self.public,
    {
        &self.public
    }

    /// Get a reference to the private key.
    pub fn private_key(&self) -> (k: &MlDsaPrivateKey)
        ensures
            k == &self.private,
    {
        &self.private
    }
}

impl MlDsaPublicKey {
    /// Return the raw public key bytes.
    pub fn to_bytes(&self) -> (b: &[u8])
        ensures
            b@ == self.0@,
    {
        self.0.as_slice()
    }

    /// Return the public key as a hex string.
    pub fn to_hex(&self) -> (s: String)
        ensures
            s@ == hex_lower(self.0@),
    {
        hex_encode(self.0.as_slice())
    }

    /// Derive a wallet address from this public key.
    pub fn wallet_address(&self) -> (a: WalletAddress)
        ensures
            a.0@ == sha3_256_of(self.0@),
    {
        WalletAddress(wallet_address_from_pubkey(self.0.as_slice()))
    }

    /// Create from raw bytes with validation.
    pub fn from_bytes(bytes: &[u8]) -> (r: Result<Self, CryptoError>)
        ensures
            bytes@.len() == PUBKEY_SIZE ==> (r matches Ok(k) && k.0@ == bytes@),
            bytes@.len() != PUBKEY_SIZE ==> r == Err::<Self, CryptoError>(
                CryptoError::InvalidKeyLength { expected: PUBKEY_SIZE, got: bytes@.len() as usize },
            ),
    {
        if bytes.len() != PUBKEY_SIZE {
            return Err(CryptoError::InvalidKeyLength { expected: PUBKEY_SIZE, got: bytes.len() });
        }
        Ok(MlDsaPublicKey(slice_to_vec(bytes)))
    }
}

impl MlDsaPrivateKey {
    /// Return the raw private key bytes.
    pub fn to_bytes(&self) -> (b: &[u8])
        ensures
            b@ == self.0@,
    {
        self.0.as_slice()
    }

    /// Create from raw bytes with validation.
    pub fn from_bytes(bytes: &[u8]) -> (r: Result<Self, CryptoError>)
        ensures
            bytes@.len() == PRIVKEY_SIZE ==> (r matches Ok(k) && k.0@ == bytes@),
            bytes@.len() != PRIVKEY_SIZE ==> r == Err::<Self, CryptoError>(
                CryptoError::InvalidKeyLength { expected: PRIVKEY_SIZE, got: bytes@.len() as usize },
            ),
    {
        if bytes.len() != PRIVKEY_SIZE {
            return Err(CryptoError::InvalidKeyLength { expected: PRIVKEY_SIZE, got: bytes.len() });
        }
        Ok(MlDsaPrivateKey(slice_to_vec(bytes)))
    }
}

impl MlDsaSignature {
    /// Return the raw signature bytes.
    pub fn to_bytes(&self) -> (b: &[u8])
        ensures
            b@ == self.0@,
    {
        self.0.as_slice()
    }

    /// Create from raw bytes with validation.
    pub fn from_bytes(bytes: &[u8]) -> (r: Result<Self, CryptoError>)
        ensures
            bytes@.len() == SIGNATURE_SIZE ==> (r matches Ok(k) && k.0@ == bytes@),
            bytes@.len() != SIGNATURE_SIZE ==> r == Err::<Self, CryptoError>(
                CryptoError::InvalidSignatureLength {
                    expected: SIGNATURE_SIZE,
                    got: bytes@.len() as usize,
                },
            ),
    {
        if bytes.len() != SIGNATURE_SIZE {
            return Err(
                CryptoError::InvalidSignatureLength { expected: SIGNATURE_SIZE, got: bytes.len() },
            );
        }
        Ok(MlDsaSignature(slice_to_vec(bytes)))
    }
}

impl WalletAddress {
    /// Return the address as a lowercase hex string.
    pub fn to_hex(&self) -> (s: String)
        ensures
            s@ == hex_lower(self.0@),
    {
        hex_encode(self.0.as_slice())
    }

    /// Parse a wallet address from a hex string.
    pub fn from_hex(s: &str) -> (r: Result<Self, CryptoError>)
        ensures
            !hex_decodable(s.spec_bytes()) ==> r is Err && r->Err_0 is InvalidHex,
            hex_decodable(s.spec_bytes()) && s.spec_bytes().len() != 64 ==> r == Err::<Self, CryptoError>(
                CryptoError::InvalidKeyLength { expected: 32, got: (s.spec_bytes().len() / 2) as usize }),
            hex_decodable(s.spec_bytes()) && s.spec_bytes().len() == 64 ==> (r matches Ok(a) && a.0@
                == hex_decoded(s.spec_bytes())),
    {
        let bytes = match hex_decode(s) {
            Ok(b) => b,
            Err(msg) => return Err(CryptoError::InvalidHex(msg)),
        };
        if bytes.len() != 32 {
            return Err(CryptoError::InvalidKeyLength { expected: 32, got: bytes.len() });
        }
        Ok(WalletAddress(array32_from_slice(bytes.as_slice())))
    }

    /// The zero address (used as burn address).
    pub fn zero() -> (a: Self)
        ensures
            a.0@ == zero32(),
    {
        let a = WalletAddress([0u8; 32]);
        assert(a.0@ =~= zero32());
        a
    }

    /// Return the raw bytes.
    pub fn as_bytes(&self) -> (b: &[u8; 32])
        ensures
            *b == self.0,
    {
        &self.0
    }
}

/// Appends a character to a string (`String::push`).
pub assume_specification[ String::push ](s: &mut String, ch: char)
    ensures
        final(s)@ == old(s)@.push(ch),
;

/// Byte `i` of `data`, or zero past its end.
pub open spec fn padded_byte(data: Seq<u8>, i: int) -> u64 {
    if 0 <= i < data.len() { data[i] as u64 } else { 0 }
}

/// The 40-bit value of the `c`-th group of five bytes (zero-padded),
/// first byte most significant.
pub open spec fn chunk40(data: Seq<u8>, c: int) -> u64 {
    (padded_byte(data, 5 * c) << 32u64) | (padded_byte(data, 5 * c + 1) << 24u64) | (padded_byte(
        data,
        5 * c + 2,
    ) << 16u64) | (padded_byte(data, 5 * c + 3) << 8u64) | padded_byte(data, 5 * c + 4)
}

/// The lowercase RFC 4648 base32 digit for a 5-bit value.
pub open spec fn base32_digit(v: u64) -> char {
    if v < 26 { (97 + v) as char } else { (24 + v) as char }
}

/// Number of base32 digits for `n` bytes, without padding.
pub open spec fn base32_len(n: nat) -> nat {
    (8 * n + 4) / 5
}

/// Lowercase RFC 4648 base32 without padding: digit `k` is the 5-bit group
/// `k` of the input's bits, most significant first, zero-filled at the end.
pub open spec fn base32_lower(data: Seq<u8>) -> Seq<char> {
    Seq::new(base32_len(data.len()), |k: int|
        base32_digit((chunk40(data, k / 8) >> ((35 - 5 * (k % 8)) as u64)) & 31u64))
}

fn byte_or_zero(data: &[u8], i: usize) -> (b: u64)
    ensures
        b == padded_byte(data@, i as int),
{
    if i < data.len() { data[i] as u64 } else { 0 }
}

/// Simple base32 encoding (RFC 4648 lowercase, no padding).
pub fn base32_encode(data: &[u8]) -> (s: String)
    requires
        8 * data@.len() + 4 <= usize::MAX,
    ensures
        s@ == base32_lower(data@),
{
    let n = (8 * data.len() + 4) / 5;
    let mut result = String::new();
    let mut k: usize = 0;
    while k < n
        invariant
            n == base32_len(data@.len()),
            k <= n,
            n <= usize::MAX,
            result@ == base32_lower(data@).subrange(0, k as int),
        decreases n - k,
    {
        let c = k / 8;
        proof {
            assert(5 * c + 4 < 8 * data@.len() + 8) by (nonlinear_arith)
                requires c == k / 8, k < n, n == (8 * data@.len() + 4) / 5;
        }
        let v: u64 = (byte_or_zero(data, 5 * c) << 32u64) | (byte_or_zero(data, 5 * c + 1) << 24u64)
            | (byte_or_zero(data, 5 * c + 2) << 16u64) | (byte_or_zero(data, 5 * c + 3) << 8u64)
            | byte_or_zero(data, 5 * c + 4);
        let sh: u64 = (35 - 5 * (k % 8)) as u64;
        let idx: u64 = (v >> sh) & 31u64;
        assert((v >> sh) & 31u64 < 32u64) by (bit_vector);
        let ch: char = if idx < 26 { (97u8 + idx as u8) as char } else { (24u8 + idx as u8) as char };
        assert(v == chunk40(data@, (k / 8) as int));
        assert(ch == base32_digit(idx));
        result.push(ch);
        k = k + 1;
        assert(result@ =~= base32_lower(data@).subrange(0, k as int));
    }
    assert(base32_lower(data@).subrange(0, n as int) =~= base32_lower(data@));
    result
}

impl WalletAddress {
    /// Encode the address in bech32-style format with the "nxr1" prefix
    /// followed by the base32 digits of the 32 address bytes.
    pub fn to_bech32(&self) -> (s: String)
        ensures
            s@ == "nxr1"@ + base32_lower(self.0@),
    {
        let encoded = base32_encode(self.0.as_slice());
        let mut out = "nxr1".to_owned();
        out.append(encoded.as_str());
        out
    }
}

impl Default for WalletAddress {
    fn default() -> (a: Self)
        ensures
            a.0@ == zero32(),
    {
        Self::zero()
    }
}

} // verus!
