use clique::cache::{SnapshotCache, Walk};
use clique::engine::{AncestryAction, Clique, EngineSigner, ForkChoice, Seal};
use clique::error::{SigningError, ValidationError};
use clique::header::{Header, NONCE_AUTH_VOTE, NONCE_DROP_VOTE};
use clique::params::CliqueParams;
use clique::scheduler::{generate_seal, SealDecision};
use clique::seal::{hash, recover_signer, sig_hash, sign};
use clique::snapshot::Snapshot;
use clique::trigger::{StepAction, StepTrigger, STEP_TIME_MILLIS};
use clique::types::{Address, H256, U256};

fn header(number: u64) -> Header {
    Header {
        parent_hash: H256::zero(),
        uncles_hash: H256::zero(),
        author: Address::zero(),
        state_root: H256::zero(),
        transactions_root: H256::zero(),
        receipts_root: H256::zero(),
        log_bloom: vec![0u8; 256],
        difficulty: 1,
        number,
        gas_limit: 8_000_000,
        gas_used: 0,
        timestamp: 1_600_000_000 + number,
        extra_data: vec![0u8; 97],
        mix_hash: H256::zero(),
        nonce: NONCE_DROP_VOTE,
    }
}

fn key(n: u128) -> H256 {
    H256 { hi: 0, lo: n }
}

fn engine_with(n: u128) -> Clique {
    let mut engine = Clique::new(CliqueParams::new(15, 30));
    engine.set_signer(EngineSigner::new(key(n)).unwrap());
    engine
}

fn address_of(n: u128) -> Address {
    EngineSigner::new(key(n)).unwrap().address()
}

#[test]
fn new_engine_has_the_parameters_and_no_signer() {
    let engine = Clique::new(CliqueParams::new(15, 30000));
    assert_eq!(engine.epoch_length(), 30000);
    assert_eq!(engine.period(), 15);
    assert_eq!(engine.signer_address(), None);
    assert_eq!(engine.name(), "Clique");
    assert_eq!(engine.seal_fields(), 2);
    assert_eq!(engine.maximum_uncle_count(), 0);
    assert_eq!(engine.seals_internally(), Some(true));
}

#[test]
fn signer_identity_belongs_to_its_key() {
    let signer = EngineSigner::new(key(1)).unwrap();
    let expected = Address { hi: 0x7e5f4552, lo: 0x091a69125d5dfcb7b8c2659029395bdf };
    assert_eq!(signer.address(), expected);
    assert!(signer.is_address(&expected));
    assert!(!signer.is_address(&Address::zero()));
    assert_eq!(EngineSigner::new(key(0)).err(), Some(SigningError::KeyRefused));
    let digest = H256 { hi: 3, lo: 4 };
    assert_eq!(signer.sign(&digest), sign(&key(1), &digest));
    let mut engine = Clique::new(CliqueParams::new(15, 30));
    assert_eq!(engine.sign(&digest), Err(SigningError::NoSigner));
    assert_eq!(engine.sign_header(&header(1)), Err(SigningError::NoSigner));
    engine.set_signer(signer);
    assert_eq!(engine.signer_address(), Some(expected));
    assert_eq!(engine.sign(&digest), sign(&key(1), &digest));
    assert_eq!(engine.sign_header(&header(1)), sign(&key(1), &sig_hash(&header(1)).unwrap()));
    let mut short = header(1);
    short.extra_data.truncate(20);
    assert_eq!(engine.sign_header(&short), Err(SigningError::NoRoomForSeal));
}

#[test]
fn seal_header_round_trips_to_the_signing_address() {
    for n in [1u128, 2, 3, 0xdead_beef] {
        let signer = EngineSigner::new(key(n)).unwrap();
        let mut sealed = header(8);
        sealed.extra_data[0] = n as u8;
        let before = sig_hash(&sealed).unwrap();
        let signature = signer.seal_header(&mut sealed).unwrap();
        assert_eq!(sealed.extra_data.len(), 97);
        assert_eq!(sealed.extra_data[32..].to_vec(), signature.to_vec());
        assert_eq!(sig_hash(&sealed).unwrap(), before);
        assert_eq!(recover_signer(&sealed), Ok(signer.address()));
    }
    let signer = EngineSigner::new(key(1)).unwrap();
    let mut short = header(8);
    short.extra_data.truncate(64);
    assert_eq!(signer.seal_header(&mut short), Err(SigningError::NoRoomForSeal));
    assert_eq!(short.extra_data, vec![0u8; 64]);
}

#[test]
fn engine_seals_when_its_signer_may_propose() {
    let engine = engine_with(1);
    let me = address_of(1);
    let parent = Snapshot::new(4, H256::zero(), &vec![me, address_of(2), address_of(3)]);
    let mut block = header(5);
    block.nonce = NONCE_AUTH_VOTE;
    let seal = engine.generate_seal(&block, &parent).unwrap();
    let signature = engine.sign_header(&block).unwrap();
    match seal {
        Seal::Regular(fields) => {
            assert_eq!(fields, vec![vec![0xffu8; 8], signature.to_vec()]);
        },
        Seal::NoSeal => panic!("expected a seal"),
    }
    let seal = engine.generate_seal(&block, &parent).unwrap();
    assert_eq!(seal.signature(), Some(signature));
    let mut sealed = block.clone();
    assert_eq!(engine.on_close_block(&mut sealed, &seal), Ok(()));
    assert_eq!(recover_signer(&sealed), Ok(me));
    assert_eq!(sealed.extra_data[..32].to_vec(), block.extra_data[..32].to_vec());
    assert_eq!(sealed.extra_data[32..].to_vec(), signature.to_vec());
    let mut short = header(5);
    short.extra_data.truncate(10);
    assert_eq!(engine.on_close_block(&mut short, &seal), Err(ValidationError::MalformedExtraData));
    assert_eq!(short.extra_data, vec![0u8; 10]);
    assert_eq!(engine.generate_seal(&short, &parent).err(), Some(SigningError::NoRoomForSeal));
    let mut open = block.clone();
    assert_eq!(engine.on_close_block(&mut open, &Seal::NoSeal), Ok(()));
    assert_eq!(open.extra_data, block.extra_data);
    assert_eq!(Seal::NoSeal.signature(), None);
    assert_eq!(Seal::Regular(vec![vec![0u8; 8]]).signature(), None);
    assert_eq!(Seal::Regular(vec![vec![0u8; 8], vec![1u8; 64]]).signature(), None);
    assert_eq!(engine.seal_decision(5, &parent), generate_seal(&parent, 5, &me));
    assert_eq!(engine.seal_decision(0, &parent), SealDecision::NotAuthorized);
}

#[test]
fn engine_gives_no_seal_when_it_should_not() {
    let me = address_of(1);
    let signers = vec![me, address_of(2), address_of(3)];
    let parent = Snapshot::new(4, H256::zero(), &signers);
    let engine = engine_with(1);
    assert!(matches!(engine.generate_seal(&header(0), &parent), Ok(Seal::NoSeal)));
    let without = Clique::new(CliqueParams::new(15, 30));
    assert!(matches!(without.generate_seal(&header(5), &parent), Ok(Seal::NoSeal)));
    assert!(!without.is_signer_proposer(&parent));
    let stranger = engine_with(9);
    assert!(matches!(stranger.generate_seal(&header(5), &parent), Ok(Seal::NoSeal)));
    assert!(!stranger.is_signer_proposer(&parent));
    assert!(engine.is_signer_proposer(&parent));
    let after = parent.apply_recovered(&header(5), H256::zero(), me, 30).unwrap();
    assert!(matches!(engine.generate_seal(&header(6), &after), Ok(Seal::NoSeal)));
    assert!(engine.is_signer_proposer(&after));
    let mut short = header(6);
    short.extra_data.truncate(10);
    assert!(matches!(engine.generate_seal(&short, &after), Ok(Seal::NoSeal)));
}

#[test]
fn engine_verifies_blocks() {
    let engine = engine_with(1);
    let me = address_of(1);
    let mut signers = vec![me, address_of(2), address_of(3)];
    signers.sort_by_key(|a| a.to_vec());
    let parent = Snapshot::new(0, H256::zero(), &signers);
    let mut checkpoint = header(30);
    checkpoint.author = me;
    assert_eq!(
        engine.verify_block_basic(&checkpoint),
        Err(ValidationError::CheckpointConstraintViolation)
    );
    assert_eq!(
        engine.verify_block_unordered(&checkpoint, &parent),
        Err(ValidationError::CheckpointConstraintViolation)
    );
    checkpoint.extra_data = vec![0u8; 3];
    assert_eq!(
        engine.verify_block_basic(&checkpoint),
        Err(ValidationError::CheckpointConstraintViolation)
    );
    checkpoint.author = Address::zero();
    assert_eq!(engine.verify_block_basic(&checkpoint), Err(ValidationError::MalformedExtraData));
    let turn = signers.iter().position(|a| *a == me).unwrap() as u64;
    let mut block = header(turn + 3);
    block.difficulty = 2;
    assert_eq!(engine.verify_block_basic(&block), Ok(()));
    assert_eq!(
        engine.verify_block_unordered(&block, &parent),
        Err(ValidationError::InvalidSignature)
    );
    let signature = engine.sign_header(&block).unwrap();
    block.embed_signature(&signature).unwrap();
    assert_eq!(engine.verify_block_unordered(&block, &parent), Ok(()));
    let next = engine.snapshot_after(&parent, &block).unwrap();
    assert_eq!(next.number(), turn + 3);
    assert_eq!(next.hash(), hash(&block));
    assert_eq!(
        engine.verify_block_unordered(&block, &next),
        Err(ValidationError::RecentlySigned)
    );
    block.difficulty = 1;
    let signature = engine.sign_header(&block).unwrap();
    block.embed_signature(&signature).unwrap();
    assert_eq!(
        engine.verify_block_unordered(&block, &parent),
        Err(ValidationError::DifficultyMismatch)
    );
}

#[test]
fn engine_rebuilds_snapshots_from_a_checkpoint() {
    let engine = engine_with(2);
    let me = address_of(2);
    let mut checkpoint = header(0);
    let mut extra = vec![0u8; 32];
    extra.extend_from_slice(&me.to_vec());
    extra.extend_from_slice(&[0u8; 65]);
    checkpoint.extra_data = extra;
    let mut first = header(1);
    first.difficulty = 2;
    let seal = engine.generate_seal(&first, &Snapshot::new(0, H256::zero(), &vec![me])).unwrap();
    engine.on_close_block(&mut first, &seal).unwrap();
    let at_0 = engine.snapshot(&checkpoint, &vec![]).unwrap();
    assert_eq!(at_0.signers(), &vec![me]);
    assert_eq!(engine.verify_block_unordered(&first, &at_0), Ok(()));
    let at_1 = engine.snapshot(&checkpoint, &vec![first.clone()]).unwrap();
    assert_eq!(at_1.number(), 1);
    assert_eq!(at_1.hash(), hash(&first));
    let stepped = engine.snapshot_after(&at_0, &first).unwrap();
    assert_eq!(stepped.recents(), at_1.recents());
    assert_eq!(stepped.hash(), at_1.hash());
    let replayed = at_0.replay(&vec![first.clone()], 30).unwrap();
    assert_eq!(replayed.recents(), at_1.recents());
    let walked = at_0.replay_back(&vec![first.clone()], 30).unwrap();
    assert_eq!(walked.recents(), at_1.recents());
    assert_eq!(at_0.replay(&vec![], 30).unwrap().number(), 0);
    assert!(checkpoint.is_checkpoint(30));
    assert!(!first.is_checkpoint(30));
    assert!(first.is_checkpoint(1));
}

#[test]
fn ancestors_are_marked_final() {
    let engine = Clique::new(CliqueParams::new(15, 30));
    let ancestry = vec![header(3), header(2), header(1)];
    let actions = engine.ancestry_actions(&ancestry);
    assert_eq!(
        actions,
        vec![
            AncestryAction::MarkFinalized(hash(&ancestry[0])),
            AncestryAction::MarkFinalized(hash(&ancestry[1])),
            AncestryAction::MarkFinalized(hash(&ancestry[2])),
        ]
    );
    assert!(engine.ancestry_actions(&vec![]).is_empty());
}

#[test]
fn fork_choice_follows_total_difficulty() {
    let engine = Clique::new(CliqueParams::new(15, 30));
    let low = U256::from_u64(10);
    let high = U256::from_u64(11);
    assert_eq!(engine.fork_choice(&high, &low), ForkChoice::New);
    assert_eq!(engine.fork_choice(&low, &high), ForkChoice::Old);
    assert_eq!(engine.fork_choice(&low, &low), ForkChoice::Old);
    assert_eq!(engine.fork_choice(&U256 { hi: 1, lo: 0 }, &U256 { hi: 0, lo: u128::MAX }), ForkChoice::New);
}

#[test]
fn cache_keeps_snapshots_by_hash() {
    let tag = |n: u128| H256 { hi: 1, lo: n };
    let snapshot = |n: u64| Snapshot::new(n, tag(n as u128), &vec![Address { hi: 0, lo: n as u128 }]);
    let mut cache = SnapshotCache::new(2);
    assert_eq!(cache.len(), 0);
    assert!(cache.get(&tag(1)).is_none());
    cache = cache.insert(snapshot(1));
    cache = cache.insert(snapshot(2));
    assert_eq!(cache.len(), 2);
    assert_eq!(cache.get(&tag(1)).unwrap().number(), 1);
    assert_eq!(cache.get(&tag(2)).unwrap().number(), 2);
    let other = Snapshot::new(99, tag(2), &vec![]);
    cache = cache.insert(other);
    assert_eq!(cache.len(), 2);
    assert_eq!(cache.get(&tag(2)).unwrap().number(), 2);
    cache = cache.insert(snapshot(3));
    assert_eq!(cache.len(), 2);
    assert!(cache.get(&tag(1)).is_none());
    assert_eq!(cache.get(&tag(2)).unwrap().number(), 2);
    assert_eq!(cache.get(&tag(3)).unwrap().signers(), &vec![Address { hi: 0, lo: 3 }]);
    let mut none = SnapshotCache::new(0);
    none = none.insert(snapshot(1));
    assert_eq!(none.len(), 0);
    assert!(none.get(&tag(1)).is_none());
}

#[test]
fn trigger_notifies_until_it_is_stopped() {
    assert_eq!(STEP_TIME_MILLIS, 100);
    let mut trigger = StepTrigger::new();
    assert_eq!(trigger.tick(), StepAction::Notify);
    assert_eq!(trigger.tick(), StepAction::Skip);
    trigger.notified();
    assert_eq!(trigger.tick(), StepAction::Notify);
    trigger.stop();
    assert_eq!(trigger.tick(), StepAction::Halt);
    trigger.notified();
    assert_eq!(trigger.tick(), StepAction::Halt);
    assert_eq!(trigger, StepTrigger { stopped: true, notifying: false });
}

#[test]
fn engine_needs_an_epoch() {
    assert!(Clique::checked(CliqueParams::from_optional(None, None)).is_none());
    assert!(Clique::checked(CliqueParams::new(15, 0)).is_none());
    let engine = Clique::checked(CliqueParams::new(15, 1)).unwrap();
    assert_eq!(engine.epoch_length(), 1);
    assert_eq!(engine.period(), 15);
    assert_eq!(engine.signer_address(), None);
}

#[test]
fn an_identity_always_signs() {
    for n in [1u128, 2, 77, u64::MAX as u128] {
        let signer = EngineSigner::new(key(n)).unwrap();
        for d in [0u128, 1, u128::MAX] {
            let digest = H256 { hi: d, lo: d };
            let signature = signer.sign(&digest).unwrap();
            let public = clique::seal::recover_key(&digest, &signature).unwrap();
            assert_eq!(clique::seal::public_to_address(&public), signer.address());
        }
    }
}

#[test]
fn walk_back_stops_at_kept_snapshots_and_checkpoints() {
    let tag = |n: u128| H256 { hi: 1, lo: n };
    let cache = SnapshotCache::new(4).insert(Snapshot::new(7, tag(7), &vec![Address::zero()]));
    match cache.walk(&tag(7), None, 30) {
        Walk::Base(Ok(kept)) => assert_eq!(kept.number(), 7),
        other => panic!("expected the kept snapshot, got {:?}", other),
    }
    let mut plain = header(31);
    plain.parent_hash = tag(30);
    match cache.walk(&tag(7), Some(&plain), 30) {
        Walk::Base(Ok(kept)) => assert_eq!(kept.hash(), tag(7)),
        other => panic!("expected the kept snapshot, got {:?}", other),
    }
    assert!(matches!(cache.walk(&tag(31), None, 30), Walk::Fetch));
    match cache.walk(&tag(31), Some(&plain), 30) {
        Walk::Parent(parent) => assert_eq!(parent, tag(30)),
        other => panic!("expected a step to the parent, got {:?}", other),
    }
    let checkpoint = header(30);
    match cache.walk(&tag(30), Some(&checkpoint), 30) {
        Walk::Base(Ok(seeded)) => {
            assert_eq!(seeded.number(), 30);
            assert_eq!(seeded.hash(), hash(&checkpoint));
            assert!(seeded.signers().is_empty());
        },
        other => panic!("expected the checkpoint's snapshot, got {:?}", other),
    }
    let mut broken = header(30);
    broken.author = Address { hi: 0, lo: 9 };
    assert!(matches!(
        cache.walk(&tag(30), Some(&broken), 30),
        Walk::Base(Err(ValidationError::CheckpointConstraintViolation))
    ));
}
