//! Post-quantum cryptographic primitives: hashing, key material, key
//! splitting, signing and wallets.
pub mod error;
pub mod hash;
pub mod kem;
pub mod keys;
pub mod mpc;
pub mod signing;
pub mod wallet;

pub use error::CryptoError;
pub use hash::{Blake3Hash, Sha3Hash, block_hash, transaction_hash, wallet_address_from_pubkey};
pub use keys::{KeyPair, MlDsaPublicKey, MlDsaPrivateKey, MlDsaSignature, WalletAddress};
pub use mpc::MpcKeyShare;
pub use signing::{Signer, VerificationResult, BatchVerifier};
pub use kem::{KemKeyPair, KemPublicKey, KemPrivateKey, KemCiphertext, SharedSecret};
pub use wallet::{Wallet, WalletExport};
