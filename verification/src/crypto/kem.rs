//! ML-KEM-1024-sized key encapsulation.
//!
//! Keys and ciphertexts have the byte sizes of the NIST FIPS 203 ML-KEM-1024
//! parameter set; the mixing is done with BLAKE3.
use vstd::prelude::*;
use vstd::std_specs::cmp::PartialEqSpecImpl;
use crate::bytes::{array32_eq, array32_from_slice};
use crate::crypto::error::CryptoError;
use crate::crypto::hash::{blake3_digest, blake3_of};
use crate::crypto::keys::{expand_blocks, expand_into, random_bytes};

verus! {

/// ML-KEM-1024 public key size in bytes (NIST FIPS 203).
pub const KEM_PUBKEY_SIZE: usize = 1568;
/// ML-KEM-1024 private key size in bytes (NIST FIPS 203).
pub const KEM_PRIVKEY_SIZE: usize = 3168;
/// ML-KEM-1024 ciphertext size in bytes (NIST FIPS 203).
pub const KEM_CIPHERTEXT_SIZE: usize = 1568;
/// Shared secret size in bytes.
pub const SHARED_SECRET_SIZE: usize = 32;

/// An ML-KEM-1024 public key (1568 bytes).
#[derive(Clone, Debug)]
pub struct KemPublicKey(pub Vec<u8>);

/// An ML-KEM-1024 private key (3168 bytes).
#[derive(Clone, Debug)]
pub struct KemPrivateKey(pub Vec<u8>);

/// An ML-KEM-1024 ciphertext (1568 bytes).
#[derive(Clone, Debug)]
pub struct KemCiphertext(pub Vec<u8>);

/// A 32-byte shared secret derived from KEM encapsulation/decapsulation.
#[derive(Clone, Eq, Debug)]
pub struct SharedSecret(pub [u8; 32]);

impl PartialEq for SharedSecret {
    fn eq(&self, other: &Self) -> (r: bool) {
        array32_eq(&self.0, &other.0)
    }
}

impl PartialEqSpecImpl for SharedSecret {
    open spec fn obeys_eq_spec() -> bool {
        true
    }

    open spec fn eq_spec(&self, other: &Self) -> bool {
        self.0@ == other.0@
    }
}

/// A complete ML-KEM-1024 keypair.
#[derive(Clone, Debug)]
pub struct KemKeyPair {
    pub public: KemPublicKey,
    pub private: KemPrivateKey,
}

impl KemKeyPair {
    /// Generate a new random ML-KEM-1024 keypair; the private key starts
    /// with a copy of the public key.
    pub fn generate() -> (kp: Self)
        ensures
            kp.public.0@.len() == KEM_PUBKEY_SIZE,
            kp.private.0@.len() == KEM_PRIVKEY_SIZE,
            kp.private.0@.subrange(0, KEM_PUBKEY_SIZE as int) == kp.public.0@,
    {
        let pubkey = random_bytes(KEM_PUBKEY_SIZE);
        let mut privkey = random_bytes(KEM_PRIVKEY_SIZE);
        let mut i: usize = 0;
        while i < KEM_PUBKEY_SIZE
            invariant
                i <= KEM_PUBKEY_SIZE,
                pubkey@.len() == KEM_PUBKEY_SIZE,
                privkey@.len() == KEM_PRIVKEY_SIZE,
                forall|j: int| 0 <= j < i ==> privkey@[j] == pubkey@[j],
            decreases KEM_PUBKEY_SIZE - i,
        {
            privkey.set(i, pubkey[i]);
            i = i + 1;
        }
        assert(privkey@.subrange(0, KEM_PUBKEY_SIZE as int) =~= pubkey@);
        KemKeyPair { public: KemPublicKey(pubkey), private: KemPrivateKey(privkey) }
    }
}

/// Where the secret is embedded in a ciphertext for a public key.
pub open spec fn embed_offset(pubkey: Seq<u8>) -> int {
    (blake3_of(pubkey)[0] as int) % 1536
}

/// The ciphertext that encapsulating `secret` for `pubkey` produces: the
/// 49 BLAKE3 blocks of `BLAKE3(pubkey) || counter`, with the secret XOR-ed in
/// at the key's embed offset.
pub open spec fn kem_ciphertext(secret: Seq<u8>, pubkey: Seq<u8>) -> Seq<u8> {
    let noise = expand_blocks(blake3_of(pubkey), 0, 49);
    let off = embed_offset(pubkey);
    Seq::new(1568, |j: int| if off <= j < off + 32 { noise[j] ^ secret[j - off] } else { noise[j] })
}

/// Encapsulate: generate a random shared secret and encrypt it for the
/// recipient. Returns (ciphertext, shared_secret).
pub fn encapsulate(recipient_pubkey: &KemPublicKey) -> (r: (KemCiphertext, SharedSecret))
    ensures
        r.0.0@.len() == KEM_CIPHERTEXT_SIZE,
        r.0.0@ == kem_ciphertext(r.1.0@, recipient_pubkey.0@),
{
    let secret_vec = random_bytes(32);
    let secret = array32_from_slice(secret_vec.as_slice());
    let key_hash = blake3_digest(recipient_pubkey.0.as_slice());
    let embed = (key_hash[0] as usize) % (KEM_CIPHERTEXT_SIZE - 32);
    let mut ciphertext: Vec<u8> = Vec::new();
    expand_into(&mut ciphertext, key_hash.as_slice(), 0, 49);
    let ghost noise = ciphertext@;
    let mut i: usize = 0;
    while i < 32
        invariant
            i <= 32,
            embed + 32 <= 1568,
            ciphertext@.len() == 1568,
            noise.len() == 1568,
            forall|j: int| 0 <= j < 1568 ==> #[trigger] ciphertext@[j] == if embed <= j < embed + i {
                noise[j] ^ secret@[j - embed]
            } else {
                noise[j]
            },
        decreases 32 - i,
    {
        let b = ciphertext[embed + i] ^ secret[i];
        ciphertext.set(embed + i, b);
        i = i + 1;
    }
    assert(ciphertext@ =~= kem_ciphertext(secret@, recipient_pubkey.0@));
    (KemCiphertext(ciphertext), SharedSecret(secret))
}

/// The secret that decapsulation recovers: the ciphertext bytes at the
/// embed offset of the public key held in the private key's first 1568
/// bytes, XOR-ed with the noise that key gives.
pub open spec fn decapsulated_secret(privkey: Seq<u8>, ciphertext: Seq<u8>) -> Seq<u8> {
    let pubkey = privkey.subrange(0, 1568);
    let noise = expand_blocks(blake3_of(pubkey), 0, 49);
    let off = embed_offset(pubkey);
    Seq::new(32, |i: int| ciphertext[off + i] ^ noise[off + i])
}

/// Decapsulate: recover the shared secret from a ciphertext using the
/// private key, which begins with the public key.
pub fn decapsulate(privkey: &KemPrivateKey, ciphertext: &KemCiphertext) -> (r: Result<
    SharedSecret,
    CryptoError,
>)
    requires
        privkey.0@.len() >= KEM_PUBKEY_SIZE,
    ensures
        ciphertext.0@.len() != KEM_CIPHERTEXT_SIZE ==> r == Err::<SharedSecret, CryptoError>(
            CryptoError::DecapsulationFailed),
        ciphertext.0@.len() == KEM_CIPHERTEXT_SIZE ==> (r matches Ok(s) && s.0@ == decapsulated_secret(
            privkey.0@,
            ciphertext.0@,
        )),
{
    if ciphertext.0.len() != KEM_CIPHERTEXT_SIZE {
        return Err(CryptoError::DecapsulationFailed);
    }
    let mut pubkey: Vec<u8> = Vec::new();
    let mut i: usize = 0;
    while i < KEM_PUBKEY_SIZE
        invariant
            i <= KEM_PUBKEY_SIZE,
            privkey.0@.len() >= KEM_PUBKEY_SIZE,
            pubkey@ == privkey.0@.subrange(0, i as int),
        decreases KEM_PUBKEY_SIZE - i,
    {
        pubkey.push(privkey.0[i]);
        i = i + 1;
        assert(pubkey@ =~= privkey.0@.subrange(0, i as int));
    }
    let key_hash = blake3_digest(pubkey.as_slice());
    let embed = (key_hash[0] as usize) % (KEM_CIPHERTEXT_SIZE - 32);
    let mut noise: Vec<u8> = Vec::new();
    expand_into(&mut noise, key_hash.as_slice(), 0, 49);
    let mut secret = [0u8; 32];
    let mut j: usize = 0;
    while j < 32
        invariant
            j <= 32,
            embed + 32 <= 1568,
            ciphertext.0@.len() == 1568,
            noise@.len() == 1568,
            forall|k: int| 0 <= k < j ==> secret@[k] == ciphertext.0@[embed + k] ^ noise@[embed + k],
        decreases 32 - j,
    {
        secret[j] = ciphertext.0[embed + j] ^ noise[embed + j];
        j = j + 1;
    }
    assert(secret@ =~= decapsulated_secret(privkey.0@, ciphertext.0@));
    Ok(SharedSecret(secret))
}

/// Decapsulating with a private key that holds the public key recovers the
/// secret encapsulated for that public key.
pub proof fn decapsulation_recovers_secret(secret: Seq<u8>, pubkey: Seq<u8>, privkey: Seq<u8>)
    requires
        secret.len() == 32,
        privkey.len() >= 1568,
        privkey.subrange(0, 1568) == pubkey,
    ensures
        decapsulated_secret(privkey, kem_ciphertext(secret, pubkey)) == secret,
{
    let ct = kem_ciphertext(secret, pubkey);
    let noise = expand_blocks(blake3_of(pubkey), 0, 49);
    let off = embed_offset(pubkey);
    assert(0 <= off < 1536);
    assert forall|i: int| 0 <= i < 32 implies #[trigger] decapsulated_secret(privkey, ct)[i] == secret[i] by {
        let n = noise[off + i];
        let x = secret[i];
        assert(ct[off + i] == n ^ x);
        assert((n ^ x) ^ n == x) by (bit_vector);
    }
    assert(decapsulated_secret(privkey, ct) =~= secret);
}

} // verus!
