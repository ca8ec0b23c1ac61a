//! Wallets: a signing keypair, a key-exchange keypair and the derived
//! on-chain address.
use vstd::prelude::*;
use vstd::string::*;
use crate::crypto::hash::{blake3_of, hex_lower, sha3_256_of, Blake3Hash, Sha3Hash};
use crate::crypto::kem::{KemKeyPair, KEM_PRIVKEY_SIZE, KEM_PUBKEY_SIZE};
use crate::crypto::keys::{base32_lower, seed_private_key, seed_public_key, KeyPair, MlDsaSignature, WalletAddress, PRIVKEY_SIZE, PUBKEY_SIZE};
use crate::crypto::signing::{signature_bytes, signature_for};

verus! {

/// A complete NEXARA wallet with signing and encryption keys.
pub struct Wallet {
    pub address: WalletAddress,
    pub keypair: KeyPair,
    pub kem_keypair: KemKeyPair,
    pub nonce: u64,
}

/// Exported wallet information (safe to share publicly).
#[derive(Clone, Debug)]
pub struct WalletExport {
    pub address: String,
    pub public_key_hex: String,
    pub nonce: u64,
}

impl Wallet {
    /// Create a new wallet with random keys.
    pub fn create_new() -> (w: Self)
        ensures
            w.address.0@ == sha3_256_of(w.keypair.public.0@),
            w.keypair.public.0@.len() == PUBKEY_SIZE,
            w.keypair.private.0@.len() == PRIVKEY_SIZE,
            w.kem_keypair.public.0@.len() == KEM_PUBKEY_SIZE,
            w.kem_keypair.private.0@.len() == KEM_PRIVKEY_SIZE,
            w.nonce == 0,
    {
        let keypair = KeyPair::generate();
        let kem_keypair = KemKeyPair::generate();
        let address = keypair.public.wallet_address();
        Wallet { address, keypair, kem_keypair, nonce: 0 }
    }

    /// Create a wallet from a seed phrase: the SHA3-256 of the phrase's
    /// bytes seeds the signing keypair; the key-exchange keypair is random.
    pub fn from_seed_phrase(phrase: &str) -> (w: Self)
        ensures
            w.keypair.public.0@ == seed_public_key(sha3_256_of(phrase.spec_bytes())),
            w.keypair.private.0@ == seed_private_key(sha3_256_of(phrase.spec_bytes())),
            w.address.0@ == sha3_256_of(w.keypair.public.0@),
            w.kem_keypair.public.0@.len() == KEM_PUBKEY_SIZE,
            w.kem_keypair.private.0@.len() == KEM_PRIVKEY_SIZE,
            w.nonce == 0,
    {
        let seed = Sha3Hash::compute(phrase.as_bytes()).0;
        let keypair = KeyPair::from_seed(&seed);
        let kem_keypair = KemKeyPair::generate();
        let address = keypair.public.wallet_address();
        Wallet { address, keypair, kem_keypair, nonce: 0 }
    }

    /// Get the wallet address.
    pub fn address(&self) -> (a: &WalletAddress)
        ensures
            *a == self.address,
    {
        &self.address
    }

    /// Sign transaction bytes (the BLAKE3 hash of the bytes is signed).
    pub fn sign_transaction(&self, tx: &[u8]) -> (sig: MlDsaSignature)
        requires
            self.keypair.private.0@.len() >= 32,
        ensures
            sig.0@ == signature_bytes(self.keypair.private.0@, blake3_of(tx@)),
    {
        let h = Blake3Hash::compute(tx);
        signature_for(&self.keypair.private, &h)
    }

    /// Get and increment the nonce (for transaction ordering).
    pub fn next_nonce(&mut self) -> (n: u64)
        requires
            old(self).nonce < u64::MAX,
        ensures
            n == old(self).nonce,
            final(self).nonce == old(self).nonce + 1,
            final(self).address == old(self).address,
            final(self).keypair == old(self).keypair,
            final(self).kem_keypair == old(self).kem_keypair,
    {
        let n = self.nonce;
        self.nonce = self.nonce + 1;
        n
    }

    /// Export public wallet information.
    pub fn export_keys(&self) -> (e: WalletExport)
        ensures
            e.address@ == "nxr1"@ + base32_lower(self.address.0@),
            e.public_key_hex@ == hex_lower(self.keypair.public.0@),
            e.nonce == self.nonce,
    {
        WalletExport {
            address: self.address.to_bech32(),
            public_key_hex: self.keypair.public.to_hex(),
            nonce: self.nonce,
        }
    }
}

} // verus!
