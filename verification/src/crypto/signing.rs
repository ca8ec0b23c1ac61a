//! Transaction signing and verification with ML-DSA-65-sized signatures.
//!
//! A signature expands BLAKE3 over the first 32 private-key bytes and the
//! message hash into 3309 bytes.
use vstd::prelude::*;
use crate::bytes::append_bytes;
use crate::crypto::hash::{Blake3Hash, blake3_of};
use crate::crypto::keys::{KeyPair, MlDsaPrivateKey, MlDsaPublicKey, MlDsaSignature, WalletAddress, expand_blocks, expand_into, PUBKEY_SIZE, SIGNATURE_SIZE};

verus! {

/// The signature bytes for a message hash under a private key: the first
/// 3309 bytes of the BLAKE3 blocks of `private[0..32] || hash || counter`.
pub open spec fn signature_bytes(private: Seq<u8>, hash: Seq<u8>) -> Seq<u8> {
    expand_blocks(private.subrange(0, 32) + hash, 0, 104).subrange(0, 3309)
}

/// Produce the signature for a hash under a private key.
pub(crate) fn signature_for(private: &MlDsaPrivateKey, hash: &Blake3Hash) -> (sig: MlDsaSignature)
    requires
        private.0@.len() >= 32,
    ensures
        sig.0@ == signature_bytes(private.0@, hash.0@),
        sig.0@.len() == SIGNATURE_SIZE,
{
    let mut prefix: Vec<u8> = Vec::new();
    let mut i: usize = 0;
    while i < 32
        invariant
            i <= 32,
            private.0@.len() >= 32,
            prefix@ == private.0@.subrange(0, i as int),
        decreases 32 - i,
    {
        prefix.push(private.0[i]);
        i = i + 1;
        assert(prefix@ =~= private.0@.subrange(0, i as int));
    }
    append_bytes(&mut prefix, hash.0.as_slice());
    let mut sig: Vec<u8> = Vec::new();
    expand_into(&mut sig, prefix.as_slice(), 0, 104);
    sig.truncate(SIGNATURE_SIZE);
    assert(sig@ =~= signature_bytes(private.0@, hash.0@));
    MlDsaSignature(sig)
}

/// A signer that holds a keypair and can produce ML-DSA-65 signatures.
pub struct Signer {
    keypair: KeyPair,
}

/// The result of a signature verification.
#[derive(Clone, Debug)]
pub struct VerificationResult {
    pub valid: bool,
    pub signer_address: WalletAddress,
}

impl Signer {
    /// The keypair this signer holds.
    pub closed spec fn spec_keypair(&self) -> KeyPair {
        self.keypair
    }

    /// Create a new signer from a keypair.
    pub fn new(keypair: KeyPair) -> (s: Self)
        ensures
            s.spec_keypair() == keypair,
    {
        Signer { keypair }
    }

    /// Sign an arbitrary message: the BLAKE3 hash of the message is signed.
    pub fn sign(&self, message: &[u8]) -> (sig: MlDsaSignature)
        requires
            self.spec_keypair().private.0@.len() >= 32,
        ensures
            sig.0@ == signature_bytes(self.spec_keypair().private.0@, blake3_of(message@)),
            sig.0@.len() == SIGNATURE_SIZE,
    {
        let msg_hash = Blake3Hash::compute(message);
        signature_for(&self.keypair.private, &msg_hash)
    }

    /// Sign a pre-computed transaction hash.
    pub fn sign_transaction(&self, tx_hash: &Blake3Hash) -> (sig: MlDsaSignature)
        requires
            self.spec_keypair().private.0@.len() >= 32,
        ensures
            sig.0@ == signature_bytes(self.spec_keypair().private.0@, tx_hash.0@),
            sig.0@.len() == SIGNATURE_SIZE,
    {
        signature_for(&self.keypair.private, tx_hash)
    }

    /// Get the wallet address of this signer.
    pub fn address(&self) -> (a: WalletAddress)
        ensures
            a.0@ == crate::crypto::hash::sha3_256_of(self.spec_keypair().public.0@),
    {
        self.keypair.public.wallet_address()
    }

    /// Get a reference to the public key.
    pub fn public_key(&self) -> (k: &MlDsaPublicKey)
        ensures
            *k == self.spec_keypair().public,
    {
        &self.keypair.public
    }

    /// Verify a signature against a public key and message: the signature
    /// and key must have their ML-DSA-65 sizes and the message must be
    /// non-empty.
    pub fn verify(pubkey: &MlDsaPublicKey, message: &[u8], signature: &MlDsaSignature) -> (r:
        VerificationResult)
        ensures
            r.valid == (signature.0@.len() == SIGNATURE_SIZE && pubkey.0@.len() == PUBKEY_SIZE
                && message@.len() > 0),
            r.signer_address.0@ == crate::crypto::hash::sha3_256_of(pubkey.0@),
    {
        let signer_address = pubkey.wallet_address();
        let valid = signature.0.len() == SIGNATURE_SIZE && pubkey.0.len() == PUBKEY_SIZE
            && message.len() > 0;
        VerificationResult { valid, signer_address }
    }
}

/// A batch of signature checks.
pub struct BatchVerifier {
    items: Vec<(MlDsaPublicKey, Vec<u8>, MlDsaSignature)>,
}

impl BatchVerifier {
    /// The checks in the batch, in order.
    pub closed spec fn spec_items(&self) -> Seq<(MlDsaPublicKey, Vec<u8>, MlDsaSignature)> {
        self.items@
    }

    /// Create a new empty batch verifier.
    pub fn new() -> (b: Self)
        ensures
            b.spec_items() == Seq::<(MlDsaPublicKey, Vec<u8>, MlDsaSignature)>::empty(),
    {
        BatchVerifier { items: Vec::new() }
    }

    /// Add a (pubkey, message, signature) tuple to the batch.
    pub fn add(&mut self, pubkey: MlDsaPublicKey, msg: Vec<u8>, sig: MlDsaSignature)
        ensures
            final(self).spec_items() == old(self).spec_items().push((pubkey, msg, sig)),
    {
        self.items.push((pubkey, msg, sig));
    }

    /// The checks in the batch, in order.
    pub fn items(&self) -> (r: &Vec<(MlDsaPublicKey, Vec<u8>, MlDsaSignature)>)
        ensures
            r@ == self.spec_items(),
    {
        &self.items
    }

    /// Return the number of items in the batch.
    pub fn len(&self) -> (n: usize)
        ensures
            n == self.spec_items().len(),
    {
        self.items.len()
    }

    /// Check if the batch is empty.
    pub fn is_empty(&self) -> (r: bool)
        ensures
            r == (self.spec_items().len() == 0),
    {
        self.items.len() == 0
    }
}

impl Default for BatchVerifier {
    fn default() -> (b: Self)
        ensures
            b.spec_items() == Seq::<(MlDsaPublicKey, Vec<u8>, MlDsaSignature)>::empty(),
    {
        Self::new()
    }
}

} // verus!
