use nexara::crypto::hash::{block_hash, transaction_hash, wallet_address_from_pubkey, Blake3Hash, Sha3Hash};
use nexara::crypto::kem::{decapsulate, encapsulate, KemKeyPair, KEM_CIPHERTEXT_SIZE, KEM_PRIVKEY_SIZE, KEM_PUBKEY_SIZE, SHARED_SECRET_SIZE};
use nexara::crypto::keys::{KeyPair, WalletAddress, PRIVKEY_SIZE, PUBKEY_SIZE, SIGNATURE_SIZE};
use nexara::crypto::mpc::{create_share_commitment, reconstruct_key, split_key, verify_share};
use nexara::crypto::signing::{BatchVerifier, Signer};
use nexara::crypto::wallet::Wallet;
use nexara::crypto::CryptoError;

#[test]
fn test_blake3_compute_and_verify() {
    let data = b"NEXARA blockchain";
    let hash = Blake3Hash::compute(data);
    assert!(hash.verify(data));
    assert!(!hash.verify(b"tampered data"));
}

#[test]
fn test_blake3_hex_roundtrip() {
    let data = b"test data";
    let hash = Blake3Hash::compute(data);
    let hex_str = hash.to_hex();
    let recovered = Blake3Hash::from_hex(&hex_str).unwrap();
    assert_eq!(hash, recovered);
}

#[test]
fn test_sha3_compute() {
    let data = b"NEXARA";
    let hash = Sha3Hash::compute(data);
    assert_eq!(hash.0.len(), 32);
    assert_eq!(hash, Sha3Hash::compute(data));
}

#[test]
fn test_wallet_address_from_pubkey() {
    let pubkey = vec![42u8; 1952];
    let addr = wallet_address_from_pubkey(&pubkey);
    assert_eq!(addr.len(), 32);
    assert_eq!(addr, wallet_address_from_pubkey(&pubkey));
}

#[test]
fn test_block_and_tx_hash() {
    let header = b"block header bytes";
    let tx = b"transaction bytes";
    let bh = block_hash(header);
    let th = transaction_hash(tx);
    assert_ne!(bh, th);
}

#[test]
fn blake3_matches_known_digest_of_empty_input() {
    let h = Blake3Hash::compute(b"");
    assert_eq!(h.to_hex(), "af1349b9f5f9a1a6a0404dea36dcc9499bcb25c9adc112b7cc9a93cae41f3262");
}

#[test]
fn blake3_hex_rejects_wrong_length_and_bad_digits() {
    assert!(matches!(Blake3Hash::from_hex("abcd"), Err(CryptoError::InvalidKeyLength { expected: 32, got: 2 })));
    assert!(matches!(Blake3Hash::from_hex("zz"), Err(CryptoError::InvalidHex(_))));
}

#[test]
fn test_kem_keypair_generation() {
    let kp = KemKeyPair::generate();
    assert_eq!(kp.public.0.len(), KEM_PUBKEY_SIZE);
    assert_eq!(kp.private.0.len(), KEM_PRIVKEY_SIZE);
}

#[test]
fn test_encapsulate_produces_correct_sizes() {
    let kp = KemKeyPair::generate();
    let (ct, ss) = encapsulate(&kp.public);
    assert_eq!(ct.0.len(), KEM_CIPHERTEXT_SIZE);
    assert_eq!(ss.0.len(), SHARED_SECRET_SIZE);
}

#[test]
fn test_decapsulate_succeeds() {
    let kp = KemKeyPair::generate();
    let (ct, _ss) = encapsulate(&kp.public);
    let result = decapsulate(&kp.private, &ct);
    assert!(result.is_ok());
}

#[test]
fn test_different_keypairs_different_results() {
    let kp1 = KemKeyPair::generate();
    let kp2 = KemKeyPair::generate();
    let (_, ss1) = encapsulate(&kp1.public);
    let (_, ss2) = encapsulate(&kp2.public);
    assert_ne!(ss1.0, ss2.0);
}

#[test]
fn test_keypair_generation() {
    let kp = KeyPair::generate();
    assert_eq!(kp.public.0.len(), PUBKEY_SIZE);
    assert_eq!(kp.private.0.len(), PRIVKEY_SIZE);
}

#[test]
fn test_keypair_from_seed_deterministic() {
    let seed = [42u8; 32];
    let kp1 = KeyPair::from_seed(&seed);
    let kp2 = KeyPair::from_seed(&seed);
    assert_eq!(kp1.public.0, kp2.public.0);
    assert_eq!(kp1.private.0, kp2.private.0);
}

#[test]
fn test_different_seeds_different_keys() {
    let kp1 = KeyPair::from_seed(&[1u8; 32]);
    let kp2 = KeyPair::from_seed(&[2u8; 32]);
    assert_ne!(kp1.public.0, kp2.public.0);
}

#[test]
fn test_wallet_address_derivation() {
    let kp = KeyPair::generate();
    let addr1 = kp.public.wallet_address();
    let addr2 = kp.public.wallet_address();
    assert_eq!(addr1, addr2);
}

#[test]
fn test_wallet_address_hex_roundtrip() {
    let kp = KeyPair::generate();
    let addr = kp.public.wallet_address();
    let hex_str = addr.to_hex();
    let recovered = WalletAddress::from_hex(&hex_str).unwrap();
    assert_eq!(addr, recovered);
}

#[test]
fn test_bech32_format() {
    let kp = KeyPair::generate();
    let addr = kp.public.wallet_address();
    let bech32 = addr.to_bech32();
    assert!(bech32.starts_with("nxr1"));
}

#[test]
fn bech32_of_zero_address_is_all_a() {
    let s = WalletAddress::zero().to_bech32();
    assert_eq!(s, format!("nxr1{}", "a".repeat(52)));
}

#[test]
fn test_unique_keypairs() {
    let keypairs: Vec<KeyPair> = (0..100).map(|_| KeyPair::generate()).collect();
    for i in 0..keypairs.len() {
        for j in (i + 1)..keypairs.len() {
            assert_ne!(keypairs[i].public.0, keypairs[j].public.0);
        }
    }
}

#[test]
fn test_split_and_reconstruct() {
    let kp = KeyPair::generate();
    let original_key = kp.private.clone();
    let shares = split_key(&original_key, 3, 3).unwrap();
    assert_eq!(shares.len(), 3);
    let reconstructed = reconstruct_key(&shares).unwrap();
    assert_eq!(original_key.0, reconstructed.0);
}

#[test]
fn test_split_invalid_params() {
    let kp = KeyPair::generate();
    assert!(split_key(&kp.private, 1, 2).is_err());
    assert!(split_key(&kp.private, 0, 0).is_err());
}

#[test]
fn test_insufficient_shares() {
    let kp = KeyPair::generate();
    let shares = split_key(&kp.private, 3, 3).unwrap();
    let partial = &shares[..2];
    assert!(reconstruct_key(partial).is_err());
}

#[test]
fn test_share_commitment_verification() {
    let kp = KeyPair::generate();
    let shares = split_key(&kp.private, 3, 3).unwrap();
    let commitment = create_share_commitment(&shares[0]);
    assert!(verify_share(&shares[0], &commitment));
    assert!(!verify_share(&shares[1], &commitment));
}

#[test]
fn test_shares_are_random() {
    let kp = KeyPair::generate();
    let shares1 = split_key(&kp.private, 3, 3).unwrap();
    let shares2 = split_key(&kp.private, 3, 3).unwrap();
    assert_ne!(shares1[0].share_data, shares2[0].share_data);
}

#[test]
fn reconstruct_of_no_shares_is_refused() {
    assert!(matches!(reconstruct_key(&[]), Err(CryptoError::InsufficientShares { threshold: 0, got: 0 })));
}

#[test]
fn test_sign_and_verify() {
    let kp = KeyPair::generate();
    let signer = Signer::new(kp.clone());
    let message = b"Hello NEXARA";
    let sig = signer.sign(message);
    assert_eq!(sig.0.len(), SIGNATURE_SIZE);
    let result = Signer::verify(&kp.public, message, &sig);
    assert!(result.valid);
    assert_eq!(result.signer_address, kp.public.wallet_address());
}

#[test]
fn test_sign_transaction_hash() {
    let kp = KeyPair::generate();
    let signer = Signer::new(kp);
    let tx_hash = Blake3Hash::compute(b"tx data");
    let sig = signer.sign_transaction(&tx_hash);
    assert_eq!(sig.0.len(), SIGNATURE_SIZE);
}

#[test]
fn test_deterministic_signing() {
    let seed = [99u8; 32];
    let kp = KeyPair::from_seed(&seed);
    let signer = Signer::new(kp);
    let message = b"test message";
    let sig1 = signer.sign(message);
    let sig2 = signer.sign(message);
    assert_eq!(sig1.0, sig2.0);
}

#[test]
fn test_different_messages_different_sigs() {
    let kp = KeyPair::generate();
    let signer = Signer::new(kp);
    let sig1 = signer.sign(b"message A");
    let sig2 = signer.sign(b"message B");
    assert_ne!(sig1.0, sig2.0);
}

#[test]
fn batch_verifier_collects_items() {
    let mut batch = BatchVerifier::new();
    assert!(batch.is_empty());
    for _ in 0..3 {
        let kp = KeyPair::generate();
        let signer = Signer::new(kp.clone());
        let msg = b"batch test".to_vec();
        let sig = signer.sign(&msg);
        batch.add(kp.public, msg, sig);
    }
    assert_eq!(batch.len(), 3);
}

#[test]
fn test_create_new_wallet() {
    let wallet = Wallet::create_new();
    assert_eq!(wallet.nonce, 0);
    assert_ne!(wallet.address, WalletAddress::zero());
}

#[test]
fn test_from_seed_phrase_deterministic() {
    let w1 = Wallet::from_seed_phrase("test phrase for NEXARA wallet");
    let w2 = Wallet::from_seed_phrase("test phrase for NEXARA wallet");
    assert_eq!(w1.address, w2.address);
    assert_eq!(w1.keypair.public.0, w2.keypair.public.0);
}

#[test]
fn test_different_phrases_different_wallets() {
    let w1 = Wallet::from_seed_phrase("phrase one");
    let w2 = Wallet::from_seed_phrase("phrase two");
    assert_ne!(w1.address, w2.address);
}

#[test]
fn test_nonce_increment() {
    let mut wallet = Wallet::create_new();
    assert_eq!(wallet.next_nonce(), 0);
    assert_eq!(wallet.next_nonce(), 1);
    assert_eq!(wallet.next_nonce(), 2);
}

#[test]
fn test_sign_transaction() {
    let wallet = Wallet::create_new();
    let sig = wallet.sign_transaction(b"tx data");
    assert_eq!(sig.0.len(), SIGNATURE_SIZE);
}

#[test]
fn test_export_keys() {
    let wallet = Wallet::create_new();
    let export = wallet.export_keys();
    assert!(export.address.starts_with("nxr1"));
    assert!(!export.public_key_hex.is_empty());
}

#[test]
fn sha3_matches_known_digests() {
    assert_eq!(
        Sha3Hash::compute(b"").to_hex(),
        "a7ffc6f8bf1ed76651c14756a061d662f580ff4de43b49fa82d80a4b80f8434a"
    );
    assert_eq!(
        Sha3Hash::compute(b"abc").to_hex(),
        "3a985da74fe225b2045c172d6bd390bd855f086e3e9d525b46bfe24511431532"
    );
}

#[test]
fn hex_decoding_reads_both_cases() {
    let lower = "af1349b9f5f9a1a6a0404dea36dcc9499bcb25c9adc112b7cc9a93cae41f3262";
    let h = Blake3Hash::from_hex(&lower.to_uppercase()).unwrap();
    assert_eq!(h, Blake3Hash::compute(b""));
    let mut s = "00".repeat(31);
    s.push_str("fF");
    let h = Blake3Hash::from_hex(&s).unwrap();
    assert_eq!(h.0[31], 255);
    assert_eq!(h.0[0], 0);
}

#[test]
fn decapsulation_recovers_the_encapsulated_secret() {
    let kp = KemKeyPair::generate();
    let (ct, ss) = encapsulate(&kp.public);
    assert!(decapsulate(&kp.private, &ct).unwrap() == ss);
    let other = KemKeyPair::generate();
    let (ct2, ss2) = encapsulate(&other.public);
    assert!(decapsulate(&other.private, &ct2).unwrap() == ss2);
    let short = nexara::crypto::kem::KemCiphertext(vec![0u8; 10]);
    assert!(matches!(decapsulate(&kp.private, &short), Err(CryptoError::DecapsulationFailed)));
}
