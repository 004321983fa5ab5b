use icda::signer::{ConfirmationStatus, SignTask, SignatureConfig, Signer};
use icda::verify::{verify_confirmation, VerifyResult};
use secp256k1::{Message, PublicKey, Secp256k1, SecretKey};

fn digest(i: u8) -> [u8; 32] {
    let mut d = [0u8; 32];
    d[0] = i;
    d[31] = 0xa5;
    d
}

fn sign_root(root: [u8; 32]) -> (String, Vec<u8>) {
    let secp = Secp256k1::new();
    let sk = SecretKey::from_slice(&[0x11; 32]).unwrap();
    let pk = PublicKey::from_secret_key(&secp, &sk);
    let sig = secp.sign_ecdsa(&Message::from_digest(root), &sk);
    (hex::encode(sig.serialize_compact()), pk.serialize().to_vec())
}

fn fill_batch(s: &mut Signer, first: u8) -> SignTask {
    let mut task = None;
    for i in first..first + 12 {
        task = s.insert_digest(digest(i));
        if i < first + 11 {
            assert!(task.is_none());
        }
    }
    task.expect("the twelfth digest closes the batch")
}

#[test]
fn batch_fills_and_signature_appears() {
    let mut s = Signer::new(SignatureConfig::new());
    assert_eq!(s.current_index(), 0);
    let mut task = None;
    for i in 1..=12u8 {
        task = s.insert_digest(digest(i));
        if i < 12 {
            assert!(task.is_none());
            assert!(matches!(s.get_confirmation(&digest(i)), ConfirmationStatus::Pending));
        }
    }
    let task = task.unwrap();
    assert_eq!(task.batch_index, 0);
    assert_eq!(s.current_index(), 1);
    assert!(matches!(s.get_confirmation(&digest(7)), ConfirmationStatus::Pending));

    let (sig_hex, public_key) = sign_root(task.root);
    assert!(s.update_signature(task.batch_index, sig_hex.clone()));
    s.set_public_key(public_key);
    match s.get_confirmation(&digest(7)) {
        ConfirmationStatus::Confirmed(c) => {
            assert_eq!(c.proof.leaf_index, 6);
            assert_eq!(c.proof.leaf_digest, digest(7));
            assert_eq!(c.root, task.root);
            assert_eq!(c.signature, sig_hex);
            assert_eq!(verify_confirmation(s.public_key(), &c), VerifyResult::Valid);
        }
        _ => panic!("batch is signed"),
    }
    for i in 1..=12u8 {
        match s.get_confirmation(&digest(i)) {
            ConfirmationStatus::Confirmed(c) => {
                assert_eq!(c.proof.leaf_index, (i - 1) as usize);
                assert_eq!(verify_confirmation(s.public_key(), &c), VerifyResult::Valid);
            }
            _ => panic!("batch is signed"),
        }
    }
}

#[test]
fn tampered_confirmations_fail_verification() {
    let mut s = Signer::new(SignatureConfig::new());
    let task = fill_batch(&mut s, 1);
    let (sig_hex, public_key) = sign_root(task.root);
    s.update_signature(task.batch_index, sig_hex);
    let c = match s.get_confirmation(&digest(3)) {
        ConfirmationStatus::Confirmed(c) => c,
        _ => panic!("batch is signed"),
    };

    let mut bad_sig = c.clone();
    bad_sig.signature = "zz".to_string();
    assert_eq!(verify_confirmation(&public_key, &bad_sig), VerifyResult::InvalidSignature);

    let mut other_root = c.clone();
    other_root.root[0] ^= 1;
    assert_eq!(verify_confirmation(&public_key, &other_root), VerifyResult::InvalidSignature);

    let mut other_leaf = c.clone();
    other_leaf.proof.leaf_digest = digest(99);
    assert_eq!(verify_confirmation(&public_key, &other_leaf), VerifyResult::InvalidProof);

    let mut far_leaf = c.clone();
    far_leaf.proof.leaf_index = 12;
    assert_eq!(verify_confirmation(&public_key, &far_leaf), VerifyResult::InvalidProof);

    let (_, other_key) = {
        let secp = Secp256k1::new();
        let sk = SecretKey::from_slice(&[0x22; 32]).unwrap();
        ((), PublicKey::from_secret_key(&secp, &sk).serialize().to_vec())
    };
    assert_eq!(verify_confirmation(&other_key, &c), VerifyResult::InvalidSignature);
}

#[test]
fn duplicate_digest_is_placed_once() {
    let mut s = Signer::new(SignatureConfig::new());
    assert!(s.insert_digest(digest(1)).is_none());
    for _ in 0..20 {
        assert!(s.insert_digest(digest(1)).is_none());
    }
    assert_eq!(s.current_index(), 0);
    for i in 2..=11u8 {
        assert!(s.insert_digest(digest(i)).is_none());
    }
    let task = s.insert_digest(digest(12)).unwrap();
    assert_eq!(task.batch_index, 0);
}

#[test]
fn unknown_digest_is_invalid() {
    let s = Signer::new(SignatureConfig::new());
    assert!(matches!(s.get_confirmation(&digest(1)), ConfirmationStatus::Invalid));
}

#[test]
fn batch_index_rises_by_one_per_closure() {
    let mut s = Signer::new(SignatureConfig::new());
    for b in 0..3u8 {
        let task = fill_batch(&mut s, 1 + 12 * b);
        assert_eq!(task.batch_index, b as u32);
        assert_eq!(s.current_index(), b as u32 + 1);
    }
}

#[test]
fn signature_is_recorded_once_and_only_for_closed_batches() {
    let mut s = Signer::new(SignatureConfig::new());
    assert!(s.insert_digest(digest(1)).is_none());
    assert!(!s.update_signature(0, "00".to_string()));
    assert!(matches!(s.get_confirmation(&digest(1)), ConfirmationStatus::Pending));
    let mut s = Signer::new(SignatureConfig::new());
    let task = fill_batch(&mut s, 1);
    assert!(s.update_signature(task.batch_index, "aa".to_string()));
    assert!(!s.update_signature(task.batch_index, "bb".to_string()));
    assert!(!s.update_signature(5, "cc".to_string()));
}

#[test]
fn expired_batches_are_pruned() {
    let config = SignatureConfig { confirmation_batch_size: 2, confirmation_live_time: 2 };
    let mut s = Signer::new(config);
    // batches 0..=4, two digests each
    for b in 0..5u8 {
        assert!(s.insert_digest(digest(2 * b + 1)).is_none());
        let task = s.insert_digest(digest(2 * b + 2)).unwrap();
        assert_eq!(task.batch_index, b as u32);
        assert!(s.update_signature(task.batch_index, "ab".to_string()));
    }
    assert_eq!(s.current_index(), 5);
    // closing batch 3 pruned batch 1, closing batch 4 pruned batch 2
    for d in [3u8, 4, 5, 6] {
        assert!(matches!(s.get_confirmation(&digest(d)), ConfirmationStatus::Invalid));
    }
    for d in [1u8, 2, 7, 8, 9, 10] {
        assert!(matches!(s.get_confirmation(&digest(d)), ConfirmationStatus::Confirmed(_)));
    }
    // a pruned digest can be inserted again, into the open batch
    assert!(s.insert_digest(digest(3)).is_none());
    assert!(matches!(s.get_confirmation(&digest(3)), ConfirmationStatus::Pending));
}

#[test]
fn unsigned_closed_batch_can_be_signed_again() {
    let mut s = Signer::new(SignatureConfig::new());
    assert!(s.insert_digest(digest(1)).is_none());
    assert!(s.speed_up_confirmation(0).is_none());
    for i in 2..=11u8 {
        assert!(s.insert_digest(digest(i)).is_none());
    }
    let task = s.insert_digest(digest(12)).unwrap();
    assert_eq!(task.batch_index, 0);
    let again = s.speed_up_confirmation(0).unwrap();
    assert_eq!(again.batch_index, 0);
    assert_eq!(again.root, task.root);
    assert!(s.update_signature(0, "ab".to_string()));
    assert!(s.speed_up_confirmation(0).is_none());
}

#[test]
fn lowering_live_time_prunes_expired_batches() {
    let mut s = Signer::new(SignatureConfig { confirmation_batch_size: 2, confirmation_live_time: 10 });
    for b in 0..5u8 {
        assert!(s.insert_digest(digest(2 * b + 1)).is_none());
        assert!(s.insert_digest(digest(2 * b + 2)).is_some());
    }
    for d in 1..=10u8 {
        assert!(matches!(s.get_confirmation(&digest(d)), ConfirmationStatus::Pending));
    }
    s.update_config(SignatureConfig { confirmation_batch_size: 2, confirmation_live_time: 1 });
    assert_eq!(s.current_index(), 5);
    for d in [1u8, 2, 9, 10] {
        assert!(matches!(s.get_confirmation(&digest(d)), ConfirmationStatus::Pending));
    }
    for d in 3..=8u8 {
        assert!(matches!(s.get_confirmation(&digest(d)), ConfirmationStatus::Invalid));
    }
}
