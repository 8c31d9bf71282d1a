use sp_core::Pair as _;

use tcp_keystore::keystore::{auto_provision, dev_phrase, key_type_aura, key_type_babe,
    key_type_gran, Keystore};
use tcp_keystore::{KeyTypeId, KeystoreError, PublicKeyHandle, SchemeTag};

const OTHER_PHRASE: &str =
    "legal winner thank year wave sausage worth useful legal winner thank yellow";

#[test]
fn provision_lists_one_key_per_combination() {
    let mut ks = Keystore::new();
    auto_provision(&mut ks).expect("the development phrase derives under every scheme");
    let schemes = [SchemeTag::Sr25519, SchemeTag::Ed25519, SchemeTag::Ecdsa];
    for id in [key_type_babe(), key_type_aura(), key_type_gran()] {
        for scheme in schemes {
            let keys = ks.public_keys(scheme, id);
            assert_eq!(keys.len(), 1);
        }
    }
}

#[test]
fn provision_is_reproducible() {
    let mut a = Keystore::new();
    let mut b = Keystore::new();
    auto_provision(&mut a).unwrap();
    auto_provision(&mut b).unwrap();
    for id in [key_type_babe(), key_type_aura(), key_type_gran()] {
        for scheme in [SchemeTag::Sr25519, SchemeTag::Ed25519, SchemeTag::Ecdsa] {
            assert_eq!(a.public_keys(scheme, id), b.public_keys(scheme, id));
        }
    }
}

#[test]
fn generate_new_seeded_is_deterministic_and_listed_once() {
    let mut ks = Keystore::new();
    let id = KeyTypeId(1, 2, 3, 4);
    let pk1 = ks.sr25519_generate_new(id, Some(dev_phrase())).unwrap();
    let pk2 = ks.sr25519_generate_new(id, Some(dev_phrase())).unwrap();
    assert_eq!(pk1, pk2);
    let listed = ks.sr25519_public_keys(id);
    assert_eq!(listed.len(), 1);
    assert_eq!(listed[0], pk1);
}

#[test]
fn generate_new_matches_direct_derivation() {
    let mut ks = Keystore::new();
    let id = KeyTypeId(9, 9, 9, 9);
    let sr = ks.sr25519_generate_new(id, Some(dev_phrase())).unwrap();
    let ed = ks.ed25519_generate_new(id, Some(dev_phrase())).unwrap();
    let ec = ks.ecdsa_generate_new(id, Some(dev_phrase())).unwrap();
    let sr_pair = sp_core::sr25519::Pair::from_string(dev_phrase(), None).unwrap();
    let ed_pair = sp_core::ed25519::Pair::from_string(dev_phrase(), None).unwrap();
    let ec_pair = sp_core::ecdsa::Pair::from_string(dev_phrase(), None).unwrap();
    assert_eq!(sr, sr_pair.public().0.to_vec());
    assert_eq!(ed, ed_pair.public().0.to_vec());
    assert_eq!(ec, ec_pair.public().0.to_vec());
}

#[test]
fn generate_new_rejects_malformed_seed() {
    let mut ks = Keystore::new();
    let id = KeyTypeId(0, 0, 0, 1);
    let r = ks.sr25519_generate_new(id, Some("certainly not a mnemonic"));
    assert_eq!(r, Err(KeystoreError::InvalidSeed));
    assert!(ks.sr25519_public_keys(id).is_empty());
}

#[test]
fn generate_new_without_seed_is_listed_and_fresh() {
    let mut ks = Keystore::new();
    let id = KeyTypeId(7, 7, 7, 7);
    let a = ks.sr25519_generate_new(id, None).unwrap();
    let b = ks.sr25519_generate_new(id, None).unwrap();
    assert_ne!(a, b);
    let listed = ks.sr25519_public_keys(id);
    assert_eq!(listed.len(), 2);
}

#[test]
fn has_keys_is_a_conjunction() {
    let mut ks = Keystore::new();
    let id = KeyTypeId(5, 5, 5, 5);
    let pk = ks.sr25519_generate_new(id, Some(dev_phrase())).unwrap();
    let other = vec![0u8; 32];

    assert!(ks.has_keys(&vec![]));
    assert!(ks.has_keys(&vec![(pk.clone(), id)]));
    assert!(!ks.has_keys(&vec![(other.clone(), id)]));
    assert!(!ks.has_keys(&vec![(pk.clone(), id), (other.clone(), id)]));
    assert!(!ks.has_keys(&vec![(pk.clone(), KeyTypeId(0, 0, 0, 0))]));
}

#[test]
fn sign_with_signs_with_the_named_key() {
    let mut ks = Keystore::new();
    let id = KeyTypeId(4, 4, 4, 4);
    let pk = ks.sr25519_generate_new(id, Some(dev_phrase())).unwrap();
    let msg = b"a message to sign".to_vec();
    let handle = PublicKeyHandle::new(SchemeTag::Sr25519, pk.clone());
    let sig = ks.sign_with(id, &handle, &msg).unwrap();
    assert_eq!(sig.len(), 64);
    let public = sp_core::sr25519::Public::from_raw(pk.try_into().unwrap());
    let signature = sp_core::sr25519::Signature::from_raw(sig.try_into().unwrap());
    assert!(sp_core::sr25519::Pair::verify(&signature, &msg, &public));
}

#[test]
fn sign_with_unknown_key_is_not_found() {
    let ks = Keystore::new();
    let handle = PublicKeyHandle::new(SchemeTag::Sr25519, vec![1u8; 32]);
    let r = ks.sign_with(KeyTypeId(1, 1, 1, 1), &handle, b"m");
    assert_eq!(r, Err(KeystoreError::PairNotFound));
}

#[test]
fn sign_with_any_picks_the_first_held_candidate() {
    let mut ks = Keystore::new();
    let id = KeyTypeId(3, 3, 3, 3);
    let pk = ks.ed25519_generate_new(id, Some(dev_phrase())).unwrap();
    let absent = PublicKeyHandle::new(SchemeTag::Ed25519, vec![2u8; 32]);
    let present = PublicKeyHandle::new(SchemeTag::Ed25519, pk.clone());

    let (chosen, sig) = ks
        .sign_with_any(id, vec![absent.clone(), present.clone()], b"msg")
        .unwrap();
    assert_eq!(chosen.public, pk);
    assert_eq!(sig.len(), 64);

    let r = ks.sign_with_any(id, vec![], b"msg");
    assert_eq!(r.unwrap_err(), KeystoreError::PairNotFound);

    let r = ks.sign_with_any(id, vec![absent.clone(), absent.clone()], b"msg");
    assert_eq!(r.unwrap_err(), KeystoreError::PairNotFound);
}

#[test]
fn sign_with_all_reports_each_candidate_independently() {
    let mut ks = Keystore::new();
    let id = KeyTypeId(2, 2, 2, 2);
    let pk = ks.sr25519_generate_new(id, Some(dev_phrase())).unwrap();
    let present = PublicKeyHandle::new(SchemeTag::Sr25519, pk);
    let absent = PublicKeyHandle::new(SchemeTag::Sr25519, vec![3u8; 32]);

    let rs = ks.sign_with_all(id, vec![present, absent], b"msg");
    assert_eq!(rs.len(), 2);
    assert!(matches!(&rs[0], Ok(sig) if sig.len() == 64));
    assert_eq!(rs[1], Err(KeystoreError::PairNotFound));
}

#[test]
fn insert_unknown_checks_the_derived_public_key() {
    let mut ks = Keystore::new();
    let id = KeyTypeId(6, 6, 6, 6);
    let pair = sp_core::ed25519::Pair::from_string(OTHER_PHRASE, None).unwrap();
    let public = pair.public().0.to_vec();

    assert_eq!(ks.insert_unknown(id, OTHER_PHRASE, &public), Ok(()));
    assert!(ks.has_keys(&vec![(public.clone(), id)]));

    let wrong = vec![0u8; 32];
    assert_eq!(ks.insert_unknown(id, OTHER_PHRASE, &wrong), Err(()));
    assert_eq!(ks.insert_unknown(id, "not a seed at all", &public), Err(()));
}

#[test]
fn supported_keys_filters_candidates_in_order() {
    let mut ks = Keystore::new();
    let id = KeyTypeId(8, 8, 8, 8);
    let sr = ks.sr25519_generate_new(id, Some(dev_phrase())).unwrap();
    let ed = ks.ed25519_generate_new(id, Some(dev_phrase())).unwrap();
    let held_sr = PublicKeyHandle::new(SchemeTag::Sr25519, sr.clone());
    let held_ed = PublicKeyHandle::new(SchemeTag::Ed25519, ed.clone());
    let absent = PublicKeyHandle::new(SchemeTag::Ecdsa, vec![9u8; 33]);

    let got = ks
        .supported_keys(id, vec![held_ed.clone(), absent.clone(), held_sr.clone()])
        .unwrap();
    assert_eq!(got.len(), 2);
    assert_eq!(got[0].public, ed);
    assert_eq!(got[1].public, sr);
}

#[test]
fn keys_lists_all_schemes_for_a_key_type() {
    let mut ks = Keystore::new();
    let id = KeyTypeId(1, 0, 0, 0);
    let other_id = KeyTypeId(0, 1, 0, 0);
    let sr = ks.sr25519_generate_new(id, Some(dev_phrase())).unwrap();
    let ed = ks.ed25519_generate_new(id, Some(dev_phrase())).unwrap();
    ks.ecdsa_generate_new(other_id, Some(dev_phrase())).unwrap();

    let got = ks.keys(id).unwrap();
    assert_eq!(got.len(), 2);
    assert_eq!(got[0].public, sr);
    assert!(matches!(got[0].scheme, SchemeTag::Sr25519));
    assert_eq!(got[1].public, ed);
    assert!(matches!(got[1].scheme, SchemeTag::Ed25519));
}

#[test]
fn vrf_signing_is_unavailable() {
    let ks = Keystore::new();
    let td = tcp_keystore::VrfTranscriptData { label: b"l".to_vec(), items: vec![] };
    let r = ks.sr25519_vrf_sign(KeyTypeId(0, 0, 0, 2), &vec![0u8; 32], td);
    assert!(matches!(r, Err(KeystoreError::Unavailable)));
}
