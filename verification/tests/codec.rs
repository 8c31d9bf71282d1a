use tcp_keystore::codec::{decode_request, decode_response, encode_request, encode_response};
use tcp_keystore::protocol::{RemoteKeystore, RemoteKeystoreResponse};
use tcp_keystore::{
    KeyTypeId, KeystoreError, PublicKeyHandle, SchemeTag, VrfSignature, VrfTranscriptData,
    VrfTranscriptValue,
};

fn kt() -> KeyTypeId {
    KeyTypeId(1, 2, 3, 4)
}

fn handle() -> PublicKeyHandle {
    PublicKeyHandle::new(SchemeTag::Ed25519, vec![7, 8, 9])
}

fn roundtrip_request(req: &RemoteKeystore) -> RemoteKeystore {
    let bytes = encode_request(req);
    decode_request(&bytes).expect("an encoded request decodes")
}

fn roundtrip_response(resp: &RemoteKeystoreResponse) -> RemoteKeystoreResponse {
    let bytes = encode_response(resp);
    decode_response(&bytes).expect("an encoded response decodes")
}

#[test]
fn request_keys_has_exact_bytes() {
    let bytes = encode_request(&RemoteKeystore::Keys(kt()));
    assert_eq!(bytes, vec![8, 1, 2, 3, 4]);
}

#[test]
fn request_has_keys_empty_has_exact_bytes() {
    let bytes = encode_request(&RemoteKeystore::HasKeys(vec![]));
    assert_eq!(bytes, vec![9, 0, 0, 0, 0, 0, 0, 0, 0]);
}

#[test]
fn request_round_trips_every_variant() {
    let reqs = vec![
        RemoteKeystore::Sr25519PublicKeys(kt()),
        RemoteKeystore::Sr25519GenerateNew { id: kt(), seed: Some("seed words".to_string()) },
        RemoteKeystore::Ed25519PublicKeys(kt()),
        RemoteKeystore::Ed25519GenerateNew { id: kt(), seed: None },
        RemoteKeystore::EcdsaPublicKeys(kt()),
        RemoteKeystore::EcdsaGenerateNew { id: kt(), seed: Some(String::new()) },
        RemoteKeystore::InsertUnknown {
            id: kt(),
            suri: "s\u{00fc}ri".to_string(),
            public: vec![1, 2],
        },
        RemoteKeystore::SupportedKeys { id: kt(), keys: vec![handle()] },
        RemoteKeystore::Keys(kt()),
        RemoteKeystore::HasKeys(vec![(vec![5, 6], kt()), (vec![], KeyTypeId(0, 0, 0, 0))]),
        RemoteKeystore::SignWith { id: kt(), key: handle(), msg: vec![10, 11] },
        RemoteKeystore::SignWithAny { id: kt(), keys: vec![handle(), handle()], msg: vec![] },
        RemoteKeystore::SignWithAll { id: kt(), keys: vec![], msg: vec![255] },
        RemoteKeystore::Sr25519VrfSign {
            key_type: kt(),
            public: vec![1; 32],
            transcript_data: VrfTranscriptData {
                label: b"label".to_vec(),
                items: vec![
                    ("num".to_string(), VrfTranscriptValue::U64(42)),
                    ("raw".to_string(), VrfTranscriptValue::Bytes(vec![1, 2, 3])),
                ],
            },
        },
    ];
    for req in &reqs {
        let original = encode_request(req);
        let decoded = roundtrip_request(req);
        assert_eq!(encode_request(&decoded), original);
    }
}

#[test]
fn request_round_trip_preserves_fields() {
    let req = RemoteKeystore::SignWith { id: kt(), key: handle(), msg: vec![10, 11] };
    match roundtrip_request(&req) {
        RemoteKeystore::SignWith { id, key, msg } => {
            assert_eq!(id, kt());
            assert!(matches!(key.scheme, SchemeTag::Ed25519));
            assert_eq!(key.public, vec![7, 8, 9]);
            assert_eq!(msg, vec![10, 11]);
        },
        _ => panic!("decoded to a different variant"),
    }
    let req = RemoteKeystore::Sr25519GenerateNew { id: kt(), seed: Some("abc".to_string()) };
    match roundtrip_request(&req) {
        RemoteKeystore::Sr25519GenerateNew { id, seed } => {
            assert_eq!(id, kt());
            assert_eq!(seed.as_deref(), Some("abc"));
        },
        _ => panic!("decoded to a different variant"),
    }
}

#[test]
fn response_round_trips_every_variant() {
    let sig_ok: Result<Vec<u8>, KeystoreError> = Ok(vec![1; 64]);
    let resps = vec![
        RemoteKeystoreResponse::Sr25519PublicKeys(vec![vec![1; 32], vec![2; 32]]),
        RemoteKeystoreResponse::Sr25519GenerateNew(Ok(vec![3; 32])),
        RemoteKeystoreResponse::Ed25519PublicKeys(vec![]),
        RemoteKeystoreResponse::Ed25519GenerateNew(Err(KeystoreError::InvalidSeed)),
        RemoteKeystoreResponse::EcdsaPublicKeys(vec![vec![4; 33]]),
        RemoteKeystoreResponse::EcdsaGenerateNew(Err(KeystoreError::KeyNotSupported(kt()))),
        RemoteKeystoreResponse::InsertUnknown(Ok(())),
        RemoteKeystoreResponse::InsertUnknown(Err(())),
        RemoteKeystoreResponse::SupportedKeys(Ok(vec![handle()])),
        RemoteKeystoreResponse::Keys(Err(KeystoreError::Unavailable)),
        RemoteKeystoreResponse::HasKeys(true),
        RemoteKeystoreResponse::HasKeys(false),
        RemoteKeystoreResponse::SignWith(sig_ok),
        RemoteKeystoreResponse::SignWith(Err(KeystoreError::PairNotFound)),
        RemoteKeystoreResponse::SignWithAny(Ok((handle(), vec![5; 64]))),
        RemoteKeystoreResponse::SignWithAll(Ok(vec![
            Ok(vec![6; 64]),
            Err(KeystoreError::PairNotFound),
        ])),
        RemoteKeystoreResponse::SignWithAll(Err(())),
        RemoteKeystoreResponse::Sr25519VrfSign(Ok(VrfSignature {
            output: vec![7; 32],
            proof: vec![8; 64],
        })),
        RemoteKeystoreResponse::Sr25519VrfSign(Err(KeystoreError::Unavailable)),
    ];
    for resp in &resps {
        let original = encode_response(resp);
        let decoded = roundtrip_response(resp);
        assert_eq!(encode_response(&decoded), original);
    }
}

#[test]
fn response_round_trip_preserves_fields() {
    let resp = RemoteKeystoreResponse::SignWithAll(Ok(vec![
        Ok(vec![6; 64]),
        Err(KeystoreError::PairNotFound),
    ]));
    match roundtrip_response(&resp) {
        RemoteKeystoreResponse::SignWithAll(Ok(rs)) => {
            assert_eq!(rs.len(), 2);
            assert_eq!(rs[0], Ok(vec![6; 64]));
            assert_eq!(rs[1], Err(KeystoreError::PairNotFound));
        },
        _ => panic!("decoded to a different variant"),
    }
}

#[test]
fn decode_rejects_malformed_frames() {
    assert!(decode_request(&vec![]).is_none());
    assert!(decode_request(&vec![99]).is_none());
    assert!(decode_request(&vec![8, 1, 2, 3]).is_none());
    // trailing byte after a complete request
    assert!(decode_request(&vec![8, 1, 2, 3, 4, 0]).is_none());
    // scheme tags beyond the three schemes are rejected
    let mut bad = encode_request(&RemoteKeystore::SupportedKeys {
        id: kt(),
        keys: vec![handle()],
    });
    bad[13] = 9;
    assert!(decode_request(&bad).is_none());

    assert!(decode_response(&vec![]).is_none());
    assert!(decode_response(&vec![42]).is_none());
    // booleans are strictly 0 or 1
    assert!(decode_response(&vec![9, 2]).is_none());
    // invalid UTF-8 in a seed string is rejected
    let mut req = encode_request(&RemoteKeystore::Sr25519GenerateNew {
        id: kt(),
        seed: Some("ab".to_string()),
    });
    let n = req.len();
    req[n - 1] = 0xff;
    req[n - 2] = 0xff;
    assert!(decode_request(&req).is_none());
}
