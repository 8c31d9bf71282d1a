use tcp_keystore::client::{
    ecdsa_generate_new_result, ed25519_public_keys_result, has_keys_result, insert_unknown_result,
    keys_result, sign_with_all_result, sign_with_any_result, sign_with_result,
    sr25519_generate_new_result, sr25519_public_keys_result, sr25519_vrf_sign_result,
    supported_keys_result,
};
use tcp_keystore::codec::{decode_response, encode_request};
use tcp_keystore::keystore::{auto_provision, dev_phrase, Keystore};
use tcp_keystore::protocol::handle_frame;
use tcp_keystore::protocol::{RemoteKeystore, RemoteKeystoreResponse};
use tcp_keystore::{KeyTypeId, KeystoreError, PublicKeyHandle, SchemeTag};

#[test]
fn transport_failure_maps_to_conservative_defaults() {
    assert!(sr25519_public_keys_result(None).is_empty());
    assert!(ed25519_public_keys_result(None).is_empty());
    assert_eq!(sr25519_generate_new_result(None), Err(KeystoreError::Unavailable));
    assert_eq!(ecdsa_generate_new_result(None), Err(KeystoreError::Unavailable));
    assert_eq!(insert_unknown_result(None), Err(()));
    assert!(matches!(supported_keys_result(None), Err(KeystoreError::Unavailable)));
    assert!(matches!(keys_result(None), Err(KeystoreError::Unavailable)));
    assert_eq!(has_keys_result(None), false);
    assert_eq!(sign_with_result(None), Err(KeystoreError::Unavailable));
    assert!(matches!(sign_with_any_result(None), Err(KeystoreError::Unavailable)));
    assert_eq!(sign_with_all_result(None), Err(()));
    assert!(matches!(sr25519_vrf_sign_result(), Err(KeystoreError::Unavailable)));
}

#[test]
fn mismatched_response_variant_maps_like_a_transport_failure() {
    let wrong = || Some(RemoteKeystoreResponse::HasKeys(true));
    assert!(sr25519_public_keys_result(wrong()).is_empty());
    assert_eq!(sr25519_generate_new_result(wrong()), Err(KeystoreError::Unavailable));
    assert_eq!(sign_with_result(wrong()), Err(KeystoreError::Unavailable));
    // and the boolean operation downgraded by a non-boolean response
    let other = Some(RemoteKeystoreResponse::Sr25519PublicKeys(vec![]));
    assert_eq!(has_keys_result(other), false);
}

#[test]
fn matching_response_variant_passes_the_payload_through() {
    let v = Some(RemoteKeystoreResponse::Sr25519PublicKeys(vec![vec![1; 32]]));
    assert_eq!(sr25519_public_keys_result(v), vec![vec![1u8; 32]]);
    let g = Some(RemoteKeystoreResponse::Sr25519GenerateNew(Ok(vec![2; 32])));
    assert_eq!(sr25519_generate_new_result(g), Ok(vec![2u8; 32]));
    let h = Some(RemoteKeystoreResponse::HasKeys(true));
    assert_eq!(has_keys_result(h), true);
    let s = Some(RemoteKeystoreResponse::SignWith(Err(KeystoreError::PairNotFound)));
    assert_eq!(sign_with_result(s), Err(KeystoreError::PairNotFound));
}

#[test]
fn a_full_request_cycle_through_frames() {
    let mut ks = Keystore::new();
    auto_provision(&mut ks).unwrap();
    let id = tcp_keystore::keystore::key_type_babe();

    // list the provisioned sr25519 key over the wire
    let frame = encode_request(&RemoteKeystore::Sr25519PublicKeys(id));
    let reply = handle_frame(&mut ks, &frame).expect("a valid frame is answered");
    let resp = decode_response(&reply);
    let keys = sr25519_public_keys_result(resp);
    assert_eq!(keys.len(), 1);

    // sign with it over the wire
    let handle = PublicKeyHandle::new(SchemeTag::Sr25519, keys[0].clone());
    let frame = encode_request(&RemoteKeystore::SignWith {
        id,
        key: handle,
        msg: b"payload".to_vec(),
    });
    let reply = handle_frame(&mut ks, &frame).unwrap();
    let sig = sign_with_result(decode_response(&reply)).unwrap();
    assert_eq!(sig.len(), 64);

    // generating on one connection is visible to has_keys afterwards
    let frame = encode_request(&RemoteKeystore::Ed25519GenerateNew {
        id: KeyTypeId(42, 0, 0, 0),
        seed: Some(dev_phrase().to_string()),
    });
    let reply = handle_frame(&mut ks, &frame).unwrap();
    let pk = ed25519_generated_key(decode_response(&reply));
    let frame = encode_request(&RemoteKeystore::HasKeys(vec![(pk, KeyTypeId(42, 0, 0, 0))]));
    let reply = handle_frame(&mut ks, &frame).unwrap();
    assert_eq!(has_keys_result(decode_response(&reply)), true);
}

fn ed25519_generated_key(resp: Option<RemoteKeystoreResponse>) -> Vec<u8> {
    match resp {
        Some(RemoteKeystoreResponse::Ed25519GenerateNew(Ok(pk))) => pk,
        _ => panic!("expected a successful generate response"),
    }
}

#[test]
fn a_malformed_frame_ends_the_exchange() {
    let mut ks = Keystore::new();
    assert!(handle_frame(&mut ks, &vec![200, 1, 2]).is_none());
    assert!(handle_frame(&mut ks, &vec![]).is_none());
}
