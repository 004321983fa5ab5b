use icda::digest::{hex_encode, sha256};
use icda::ecdsa::{
    public_key_reply, sign_request, signature_reply, ECDSAPublicKeyReply, EcdsaCurve, EcdsaKeyIds,
    SignWithECDSAReply, SignatureQueue,
};

#[test]
fn sha256_of_abc() {
    assert_eq!(
        hex_encode(&sha256(b"abc")),
        "ba7816bf8f01cfea414140de5dae2223b00361a396177a9cb410ff61f20015ad"
    );
}

#[test]
fn sha256_of_nothing() {
    assert_eq!(
        hex_encode(&sha256(&[])),
        "e3b0c44298fc1c149afbf4c8996fb92427ae41e4649b934ca495991b7852b855"
    );
}

#[test]
fn hex_is_lower_case_pairs() {
    assert_eq!(hex_encode(&[0x00, 0x0f, 0xa0, 0xff]), "000fa0ff");
    assert_eq!(hex_encode(&[]), "");
}

#[test]
fn key_ids_have_service_names() {
    let k = EcdsaKeyIds::ProductionKey1.to_key_id();
    assert_eq!(k.name, "key_1");
    assert_eq!(k.curve, EcdsaCurve::Secp256k1);
    assert_eq!(EcdsaKeyIds::TestKey1.to_key_id().name, "test_key_1");
    assert_eq!(EcdsaKeyIds::TestKeyLocalDevelopment.to_key_id().name, "dfx_test_key");
}

#[test]
fn sign_request_uses_production_key() {
    let req = sign_request(vec![7u8; 32]);
    assert_eq!(req.message_hash, vec![7u8; 32]);
    assert!(req.derivation_path.is_empty());
    assert_eq!(req.key_id.name, "key_1");
}

#[test]
fn replies_are_hex_encoded() {
    let r = signature_reply(&SignWithECDSAReply { signature: vec![1, 2, 0xab] });
    assert_eq!(r.signature_hex, "0102ab");
    let p = public_key_reply(&ECDSAPublicKeyReply { public_key: vec![0x02, 0xff], chain_code: vec![] });
    assert_eq!(p.public_key_hex, "02ff");
}

#[test]
fn signature_queue_is_first_in_first_out() {
    let mut q = SignatureQueue::new();
    assert_eq!(q.pop(), None);
    q.insert("aa".to_string());
    q.insert("bb".to_string());
    assert_eq!(q.pop(), Some("aa".to_string()));
    q.insert("cc".to_string());
    assert_eq!(q.pop(), Some("bb".to_string()));
    assert_eq!(q.pop(), Some("cc".to_string()));
    assert_eq!(q.pop(), None);
}
