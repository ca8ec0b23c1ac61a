use nexara::consensus::aibft::{calculate_trust, is_anomalous, AiBft, ValidatorObservation, FULL_TRUST_PPM};
use nexara::consensus::committee::{compute_sortition_hash, elect_committee, generate_epoch_seed, sortition_selects_exec};
use nexara::consensus::dpqs::DPoQS;
use nexara::consensus::hybridsync::{Attestation, ConsensusResult, HybridSyncEngine};
use nexara::consensus::slashing::{calculate_slash_amount, create_slash_event, validate_slash_evidence, SlashEvidence, SlashProposal};
use nexara::consensus::validator::{SlashOffense, Validator, ValidatorSet, ValidatorStatus};
use nexara::consensus::zk_finality::{batch_verify_proofs, generate_finality_proof, verify_finality_proof, ZkVerifyResult};
use nexara::consensus::ConsensusError;
use nexara::crypto::hash::Blake3Hash;
use nexara::crypto::keys::{KeyPair, MlDsaSignature, WalletAddress, SIGNATURE_SIZE};
use nexara::ledger::block::{Block, BlockHeader};

#[test]
fn test_delegation() {
    let mut dpqs = DPoQS::new(100);
    let delegator = WalletAddress::zero();
    let validator = WalletAddress::zero();
    assert!(dpqs.delegate(delegator, validator, 500, 10).is_ok());
    assert_eq!(dpqs.total_delegated_to(&validator), 500);
}

#[test]
fn test_minimum_stake() {
    let mut dpqs = DPoQS::new(100);
    let result = dpqs.delegate(WalletAddress::zero(), WalletAddress::zero(), 50, 10);
    assert!(result.is_err());
}

#[test]
fn test_undelegation() {
    let mut dpqs = DPoQS::new(100);
    let d = WalletAddress::zero();
    let v = WalletAddress::zero();
    dpqs.delegate(d, v, 500, 10).unwrap();
    let removed = dpqs.undelegate(&d, &v);
    assert!(removed.is_some());
    assert_eq!(dpqs.total_delegated_to(&v), 0);
}

#[test]
fn test_reward_calculation() {
    let mut dpqs = DPoQS::new(100);
    let d1 = WalletAddress::zero();
    let v = WalletAddress::zero();
    dpqs.delegate(d1, v, 1000, 10).unwrap();
    let rewards = dpqs.calculate_delegation_rewards(&v, 100, 10);
    assert_eq!(rewards.len(), 1);
    assert_eq!(rewards[0].1, 90);
}

#[test]
fn test_proposer_selection() {
    let dpqs = DPoQS::new(100);
    let validators = vec![(WalletAddress::zero(), 1000u128)];
    let result = dpqs.select_proposer(&validators, 1, 0);
    assert!(result.is_some());
}

#[test]
fn delegation_messages_and_shares() {
    let mut dpqs = DPoQS::new(100);
    assert_eq!(dpqs.delegate(WalletAddress::zero(), WalletAddress::zero(), 50, 10), Err("Minimum stake is 100".to_string()));
    assert_eq!(dpqs.delegate(WalletAddress::zero(), WalletAddress::zero(), 500, 101), Err("Reward share must be <= 100%".to_string()));
    let v = WalletAddress([7u8; 32]);
    let a = WalletAddress([1u8; 32]);
    let b = WalletAddress([2u8; 32]);
    dpqs.delegate(a, v, 300, 0).unwrap();
    dpqs.delegate(b, v, 100, 0).unwrap();
    let rewards = dpqs.calculate_delegation_rewards(&v, 1000, 20);
    assert_eq!(rewards, vec![(a, 600), (b, 200)]);
    assert_eq!(dpqs.delegations_by(&a).len(), 1);
    assert!(dpqs.calculate_delegation_rewards(&WalletAddress::zero(), 1000, 20).is_empty());
}

#[test]
fn proposer_with_zero_stake_is_never_chosen() {
    let dpqs = DPoQS::new(1);
    let a = WalletAddress([1u8; 32]);
    let b = WalletAddress([2u8; 32]);
    for round in 0..20 {
        assert_eq!(dpqs.select_proposer(&[(a, 0), (b, 5)], 3, round), Some(b));
    }
    assert_eq!(dpqs.select_proposer(&[(a, 0)], 3, 0), None);
    assert_eq!(dpqs.select_proposer(&[], 3, 0), None);
}

#[test]
fn test_slash_amounts() {
    let stake = 1000u128;
    assert_eq!(calculate_slash_amount(SlashOffense::DoubleSign, stake), 1000);
    assert_eq!(calculate_slash_amount(SlashOffense::InvalidZkProof, stake), 500);
    assert_eq!(calculate_slash_amount(SlashOffense::Unavailability, stake), 100);
    assert_eq!(calculate_slash_amount(SlashOffense::ByzantineBehavior, stake), 750);
    assert_eq!(calculate_slash_amount(SlashOffense::InvalidAttestation, stake), 250);
}

#[test]
fn test_validate_double_sign() {
    let proposal = SlashProposal {
        proposer: WalletAddress::zero(),
        offender: WalletAddress::zero(),
        offense: SlashOffense::DoubleSign,
        evidence: SlashEvidence::DoubleSign {
            block_hash_a: Blake3Hash::compute(b"block-a"),
            block_hash_b: Blake3Hash::compute(b"block-b"),
            height: 100,
        },
        evidence_hash: Blake3Hash::compute(b"evidence"),
        block_height: 101,
    };
    assert!(validate_slash_evidence(&proposal));
}

#[test]
fn test_validate_unavailability() {
    let proposal = SlashProposal {
        proposer: WalletAddress::zero(),
        offender: WalletAddress::zero(),
        offense: SlashOffense::Unavailability,
        evidence: SlashEvidence::Unavailability { missed_blocks: 200, window_start: 0, window_end: 200 },
        evidence_hash: Blake3Hash::compute(b"evidence"),
        block_height: 201,
    };
    assert!(validate_slash_evidence(&proposal));
}

#[test]
fn test_mismatched_evidence_type() {
    let proposal = SlashProposal {
        proposer: WalletAddress::zero(),
        offender: WalletAddress::zero(),
        offense: SlashOffense::DoubleSign,
        evidence: SlashEvidence::Unavailability { missed_blocks: 200, window_start: 0, window_end: 200 },
        evidence_hash: Blake3Hash::compute(b"evidence"),
        block_height: 101,
    };
    assert!(!validate_slash_evidence(&proposal));
}

#[test]
fn slash_event_copies_proposal() {
    let proposal = SlashProposal {
        proposer: WalletAddress::zero(),
        offender: WalletAddress::zero(),
        offense: SlashOffense::ByzantineBehavior,
        evidence: SlashEvidence::Byzantine { description: "equivocation".into(), evidence_data: vec![] },
        evidence_hash: Blake3Hash::compute(b"e"),
        block_height: 9,
    };
    assert!(!validate_slash_evidence(&proposal));
    let ev = create_slash_event(&proposal, 42);
    assert_eq!(ev.block_height, 9);
    assert_eq!(ev.amount_slashed, 42);
    assert_eq!(ev.offense, SlashOffense::ByzantineBehavior);
    assert_eq!(calculate_slash_amount(SlashOffense::DoubleSign, u128::MAX), u128::MAX / 100);
}

fn make_validator(stake: u128) -> Validator {
    let kp = KeyPair::generate();
    Validator::new(kp.public.wallet_address(), kp.public, stake)
}

#[test]
fn test_validator_creation() {
    let v = make_validator(1000);
    assert!(v.is_active());
    assert_eq!(v.total_stake, 1000);
    assert_eq!(v.performance_score_ppm, 1_000_000);
}

#[test]
fn test_validator_set() {
    let mut vs = ValidatorSet::new();
    vs.add_validator(make_validator(100));
    vs.add_validator(make_validator(200));
    assert_eq!(vs.len(), 2);
    assert_eq!(vs.total_active_stake(), 300);
}

#[test]
fn test_validator_removal() {
    let mut vs = ValidatorSet::new();
    let v = make_validator(100);
    let addr = v.address;
    vs.add_validator(v);
    vs.add_validator(make_validator(200));
    vs.remove_validator(&addr);
    assert_eq!(vs.len(), 1);
    assert_eq!(vs.total_stake, 200);
}

#[test]
fn test_set_hash_deterministic() {
    let mut vs = ValidatorSet::new();
    vs.add_validator(make_validator(100));
    let h1 = vs.set_hash();
    let h2 = vs.set_hash();
    assert_eq!(h1, h2);
}

#[test]
fn inactive_validators_do_not_count() {
    let mut vs = ValidatorSet::new();
    let mut jailed = make_validator(500);
    jailed.status = ValidatorStatus::Jailed;
    let addr = jailed.address;
    vs.add_validator(jailed);
    vs.add_validator(make_validator(70));
    assert_eq!(vs.total_active_stake(), 70);
    assert_eq!(vs.get_active_validators().len(), 1);
    vs.get_validator_mut(&addr).unwrap().status = ValidatorStatus::Active;
    assert_eq!(vs.total_active_stake(), 570);
    assert!(vs.get_validator(&WalletAddress([9u8; 32])).is_none());
}

#[test]
fn test_epoch_seed_deterministic() {
    let hash = Blake3Hash::compute(b"block-hash");
    let s1 = generate_epoch_seed(&hash, 1);
    let s2 = generate_epoch_seed(&hash, 1);
    assert_eq!(s1, s2);
    let s3 = generate_epoch_seed(&hash, 2);
    assert_ne!(s1, s3);
}

#[test]
fn test_sortition_deterministic() {
    let seed = Blake3Hash::compute(b"seed");
    let addr = WalletAddress::zero();
    let h1 = compute_sortition_hash(1, 0, &seed, &addr);
    let h2 = compute_sortition_hash(1, 0, &seed, &addr);
    assert_eq!(h1, h2);
}

fn make_validator_set(count: usize, stake: u128) -> ValidatorSet {
    let mut vs = ValidatorSet::new();
    for _ in 0..count {
        vs.add_validator(make_validator(stake));
    }
    vs
}

#[test]
fn test_committee_election() {
    let vs = make_validator_set(20, 1000);
    let seed = Blake3Hash::compute(b"test-seed");
    let committee = elect_committee(&vs, 1, 0, &seed, 10);
    assert!(committee.epoch == 1);
    assert!(committee.round == 0);
}

#[test]
fn test_empty_validator_set() {
    let vs = ValidatorSet::new();
    let seed = Blake3Hash::compute(b"test-seed");
    let committee = elect_committee(&vs, 1, 0, &seed, 10);
    assert!(committee.members.is_empty());
}

#[test]
fn committee_with_full_shares_seats_everyone() {
    let vs = make_validator_set(3, 1000);
    let seed = Blake3Hash::compute(b"test-seed");
    // Each share is 1/3, and 1/3 * 9 / 3 reaches 1.
    let all = elect_committee(&vs, 1, 0, &seed, 9);
    assert_eq!(all.members.len(), 3);
    assert_eq!(all.total_committee_stake, 3000);
    assert_eq!(all.members[0].sortition_proof.len(), 16);
    assert_eq!(all.members[0].sortition_hash, compute_sortition_hash(1, 0, &seed, &vs.validators[0].address));
    assert_eq!(all.members[0].sortition_proof, all.members[0].sortition_hash.0[..16].to_vec());
    let none = elect_committee(&vs, 1, 0, &seed, 0);
    assert!(none.members.is_empty());
    assert_eq!(none.total_committee_stake, 0);
}

#[test]
fn committee_members_are_exactly_those_whose_draw_fits() {
    let vs = make_validator_set(8, 1000);
    let seed = Blake3Hash::compute(b"another-seed");
    let c = elect_committee(&vs, 7, 3, &seed, 4);
    // Each validator holds 1/8 of the stake; with a target of 4 the
    // threshold is 1/8 * 4 / 8, a sixteenth of the draw range.
    let mut expected = Vec::new();
    for v in &vs.validators {
        let h = compute_sortition_hash(7, 3, &seed, &v.address);
        let d = u64::from_le_bytes(h.0[..8].try_into().unwrap()) as u128;
        if d * 8000 * 8 <= 1000u128 * 4 * (u64::MAX as u128) {
            expected.push(v.address);
        }
    }
    let got: Vec<WalletAddress> = c.members.iter().map(|m| m.validator_address).collect();
    assert_eq!(got, expected);
    assert_eq!(c.total_committee_stake, 1000 * expected.len() as u128);
}

#[test]
fn sortition_compares_exactly() {
    assert!(sortition_selects_exec(u64::MAX, 1, 1, 1, 1));
    assert!(sortition_selects_exec(u64::MAX / 2, 1, 2, 1, 1));
    assert!(!sortition_selects_exec(u64::MAX / 2 + 1, 1, 2, 1, 1));
    assert!(sortition_selects_exec(0, 0, u128::MAX, 0, usize::MAX));
    assert!(!sortition_selects_exec(1, 0, u128::MAX, usize::MAX, usize::MAX));
    assert!(sortition_selects_exec(u64::MAX, u128::MAX, u128::MAX, usize::MAX, usize::MAX));
}

#[test]
fn test_generate_proof() {
    let state_root = Blake3Hash::compute(b"state");
    let block_hashes = vec![Blake3Hash::compute(b"block-1"), Blake3Hash::compute(b"block-2")];
    let proof = generate_finality_proof(1, 0, 1, &state_root, &block_hashes);
    assert_eq!(proof.epoch, 1);
    assert_eq!(proof.block_range_start, 0);
    assert_eq!(proof.block_range_end, 1);
    assert!(!proof.proof_data.is_empty());
}

#[test]
fn test_verify_valid_proof() {
    let state_root = Blake3Hash::compute(b"state");
    let block_hashes = vec![Blake3Hash::compute(b"block-1"), Blake3Hash::compute(b"block-2")];
    let proof = generate_finality_proof(1, 0, 1, &state_root, &block_hashes);
    let result = verify_finality_proof(&proof, &state_root, &block_hashes);
    assert_eq!(result, ZkVerifyResult::Valid);
}

#[test]
fn test_verify_wrong_state_root() {
    let state_root = Blake3Hash::compute(b"state");
    let wrong_root = Blake3Hash::compute(b"wrong");
    let block_hashes = vec![Blake3Hash::compute(b"block-1")];
    let proof = generate_finality_proof(1, 0, 0, &state_root, &block_hashes);
    let result = verify_finality_proof(&proof, &wrong_root, &block_hashes);
    assert!(matches!(result, ZkVerifyResult::Invalid(_)));
}

#[test]
fn test_batch_verify() {
    let state_root = Blake3Hash::compute(b"state");
    let block_hashes = vec![Blake3Hash::compute(b"block-1")];
    let proof = generate_finality_proof(1, 0, 0, &state_root, &block_hashes);
    let results = batch_verify_proofs(&[(proof, state_root, block_hashes)]);
    assert_eq!(results.len(), 1);
    assert_eq!(results[0], ZkVerifyResult::Valid);
}

#[test]
fn test_proof_deterministic() {
    let state_root = Blake3Hash::compute(b"state");
    let hashes = vec![Blake3Hash::compute(b"b1")];
    let p1 = generate_finality_proof(1, 0, 0, &state_root, &hashes);
    let p2 = generate_finality_proof(1, 0, 0, &state_root, &hashes);
    assert_eq!(p1.proof_data, p2.proof_data);
}

#[test]
fn proof_verification_failures_are_named() {
    let root = Blake3Hash::compute(b"state");
    let hashes = vec![Blake3Hash::compute(b"x")];
    let mut bad_range = generate_finality_proof(3, 5, 4, &root, &hashes);
    assert_eq!(verify_finality_proof(&bad_range, &root, &hashes), ZkVerifyResult::Invalid("Invalid block range".into()));
    bad_range.block_range_end = 9;
    assert_eq!(verify_finality_proof(&bad_range, &root, &hashes), ZkVerifyResult::Invalid("Proof data mismatch".into()));
    let p = generate_finality_proof(3, 0, 1, &root, &hashes);
    assert_eq!(p.verification_key_hash, Blake3Hash::compute(b"nexara-zk-vk-epoch-3"));
    assert_eq!(verify_finality_proof(&p, &Blake3Hash::zero(), &hashes), ZkVerifyResult::Invalid("State root mismatch".into()));
}

fn setup_engine() -> (HybridSyncEngine, Vec<KeyPair>) {
    let mut vs = ValidatorSet::new();
    let mut keys = Vec::new();
    for _ in 0..4 {
        let kp = KeyPair::generate();
        let v = Validator::new(kp.public.wallet_address(), kp.public.clone(), 1000);
        vs.add_validator(v);
        keys.push(kp);
    }
    (HybridSyncEngine::new(vs, 67), keys)
}

fn make_block() -> Block {
    let header = BlockHeader {
        version: 1,
        shard_id: 0,
        height: 1,
        timestamp: 1000,
        parent_hash: Blake3Hash::compute(b"prev"),
        state_root: Blake3Hash::compute(b"state"),
        tx_root: Blake3Hash::compute(b"txroot"),
        validator_set_hash: Blake3Hash::compute(b"valset"),
        proposer_address: WalletAddress::zero(),
        zk_finality_proof: Vec::new(),
        attestation_bitfield: Vec::new(),
    };
    Block::new(header, Vec::new())
}

fn attest(kp: &KeyPair, block_hash: Blake3Hash) -> Attestation {
    Attestation {
        validator: kp.public.wallet_address(),
        block_hash,
        epoch: 0,
        round: 0,
        signature: MlDsaSignature(vec![0u8; SIGNATURE_SIZE]),
        timestamp: 1000,
    }
}

#[test]
fn test_propose_block() {
    let (mut engine, _) = setup_engine();
    let block = make_block();
    let result = engine.propose_block(block);
    assert!(result.is_ok());
}

#[test]
fn test_double_propose_fails() {
    let (mut engine, _) = setup_engine();
    let block = make_block();
    engine.propose_block(block.clone()).unwrap();
    assert!(engine.propose_block(block).is_err());
}

#[test]
fn test_quorum_not_met() {
    let (mut engine, _) = setup_engine();
    let block = make_block();
    engine.propose_block(block).unwrap();
    let status = engine.check_quorum();
    assert!(!status.is_met());
}

#[test]
fn test_submit_attestation() {
    let (mut engine, keys) = setup_engine();
    let block = make_block();
    let block_hash = block.hash();
    engine.propose_block(block).unwrap();
    let att = attest(&keys[0], block_hash);
    assert!(engine.submit_attestation(att).is_ok());
}

#[test]
fn test_advance_epoch() {
    let (mut engine, _) = setup_engine();
    engine.advance_epoch();
    assert_eq!(engine.epoch, 1);
    assert_eq!(engine.round, 0);
}

#[test]
fn quorum_finalizes_block() {
    let (mut engine, keys) = setup_engine();
    assert!(matches!(engine.finalize_block(), ConsensusResult::Pending(_)));
    let block = make_block();
    let block_hash = block.hash();
    assert_eq!(engine.propose_block(block).unwrap(), block_hash);
    assert!(matches!(engine.submit_attestation(attest(&keys[0], Blake3Hash::zero())), Err(ConsensusError::InvalidAttestation(_))));
    engine.submit_attestation(attest(&keys[0], block_hash)).unwrap();
    assert!(matches!(engine.submit_attestation(attest(&keys[0], block_hash)), Err(ConsensusError::InvalidAttestation(_))));
    engine.submit_attestation(attest(&keys[1], block_hash)).unwrap();
    let status = engine.check_quorum();
    assert_eq!(status.attestation_stake, 2000);
    assert_eq!(status.required_stake, 2680);
    assert!(matches!(engine.finalize_block(), ConsensusResult::Pending(_)));
    engine.submit_attestation(attest(&keys[2], block_hash)).unwrap();
    match engine.finalize_block() {
        ConsensusResult::Finalized(b) => assert_eq!(b.hash(), block_hash),
        _ => panic!("expected finalization"),
    }
    assert_eq!(engine.round, 1);
    assert!(engine.proposed_block.is_none());
    assert!(engine.pending_attestations.is_empty());
}

#[test]
fn test_new_validator_trust() {
    let aibft = AiBft::new();
    let addr = WalletAddress::zero();
    assert_eq!(aibft.get_trust_score(&addr), FULL_TRUST_PPM);
}

fn observation(height: u64, response_time_ms: u64, voted_correctly: bool, participated: bool) -> ValidatorObservation {
    ValidatorObservation { validator: WalletAddress::zero(), block_height: height, response_time_ms, voted_correctly, participated }
}

#[test]
fn test_good_behavior() {
    let mut aibft = AiBft::new();
    let addr = WalletAddress::zero();
    for i in 0..10 {
        aibft.record_observation(observation(i, 50, true, true));
    }
    assert!(aibft.get_trust_score(&addr) > 900_000);
}

#[test]
fn test_bad_behavior_lowers_trust() {
    let mut aibft = AiBft::new();
    let addr = WalletAddress::zero();
    for i in 0..10 {
        aibft.record_observation(observation(i, 500, false, false));
    }
    assert!(aibft.get_trust_score(&addr) < 500_000);
}

#[test]
fn test_anomaly_detection() {
    let aibft = AiBft::new();
    let obs = observation(1, 1000, true, true);
    assert!(aibft.is_anomalous(&obs));
}

#[test]
fn test_untrusted_validators() {
    let mut aibft = AiBft::new();
    for i in 0..20 {
        aibft.record_observation(observation(i, 500, false, false));
    }
    let untrusted = aibft.get_untrusted_validators();
    assert!(!untrusted.is_empty());
}

#[test]
fn observation_anomalies() {
    let ok = observation(1, 300, true, true);
    assert!(!is_anomalous(&ok, 100, 3));
    assert!(is_anomalous(&ValidatorObservation { response_time_ms: 301, ..ok }, 100, 3));
    assert!(is_anomalous(&ValidatorObservation { participated: false, ..ok }, 100, 3));
    assert!(is_anomalous(&ValidatorObservation { voted_correctly: false, ..ok }, 100, 3));
}

#[test]
fn trust_scores_weigh_votes_participation_and_anomalies() {
    let mut aibft = AiBft::new();
    let addr = WalletAddress::zero();
    for i in 0..3 {
        aibft.record_observation(observation(i, 50, true, true));
    }
    aibft.record_observation(observation(3, 500, false, false));
    let ts = aibft.trust_scores[0].1;
    assert_eq!((ts.observations, ts.correct_votes, ts.missed_rounds, ts.anomaly_count), (4, 3, 1, 1));
    // 0.4 * 3/4 + 0.4 * 3/4 + 0.2 * (1 - 1/4) = 0.75
    assert_eq!(aibft.get_trust_score(&addr), 750_000);
    assert!(aibft.get_untrusted_validators().is_empty());
    // Anomalies count for at most half: all slow, all correct, all present.
    assert_eq!(calculate_trust(4, 4, 0, 4), 900_000);
    assert_eq!(calculate_trust(10, 0, 10, 10), 100_000);
    assert_eq!(calculate_trust(3, 1, 0, 0), 733_333);
    assert_eq!(calculate_trust(0, 0, 0, 0), FULL_TRUST_PPM);
}

#[test]
fn untrusted_validators_are_listed_in_observation_order() {
    let mut aibft = AiBft::new();
    let a = WalletAddress([1u8; 32]);
    let b = WalletAddress([2u8; 32]);
    let good = WalletAddress([3u8; 32]);
    for (v, bad) in [(b, true), (good, false), (a, true)] {
        aibft.record_observation(ValidatorObservation {
            validator: v,
            block_height: 1,
            response_time_ms: 10,
            voted_correctly: !bad,
            participated: !bad,
        });
    }
    let untrusted: Vec<WalletAddress> = aibft.get_untrusted_validators().iter().map(|(v, _)| *v).collect();
    assert_eq!(untrusted, vec![b, a]);
    aibft.reset_scores();
    assert!(aibft.trust_scores.is_empty());
    assert_eq!(aibft.get_trust_score(&a), FULL_TRUST_PPM);
}

#[test]
fn finalize_below_quorum_reports_the_full_status() {
    let (mut engine, keys) = setup_engine();
    let block = make_block();
    let h = engine.propose_block(block).unwrap();
    engine.submit_attestation(attest(&keys[0], h)).unwrap();
    let expected = engine.check_quorum();
    assert!(!expected.is_met());
    match engine.finalize_block() {
        ConsensusResult::Pending(q) => {
            assert_eq!(q.attestation_count, 1);
            assert_eq!(q.attestation_count, expected.attestation_count);
            assert_eq!(q.threshold_pct, engine.quorum_threshold_pct);
            assert_eq!(q.block_hash, h);
            assert_eq!(q.attestation_stake, expected.attestation_stake);
            assert_eq!(q.required_stake, expected.required_stake);
        }
        _ => panic!("expected a pending status"),
    }
}
