//! The remote-procedure schema: the closed set of request operations, the
//! response operations mirroring them one to one, and the server-side
//! dispatch of a request against the local key store.

use vstd::prelude::*;

use crate::keystore::{
    generate_post, spec_has_all, spec_keys, spec_matching_scheme, spec_public_keys,
    spec_supported, Keystore, RecordModel,
};
use crate::types::{
    HandleModel, KeyTypeId, KeystoreError, PublicKeyHandle, SchemeTag, VrfSignature,
    VrfSignatureModel, VrfTranscriptData, VrfTranscriptDataModel,
};

verus! {

/// A request to the remote key store: one variant per operation, carrying
/// only that operation's parameters.
pub enum RemoteKeystore {
    Sr25519PublicKeys(KeyTypeId),
    Sr25519GenerateNew { id: KeyTypeId, seed: Option<String> },
    Ed25519PublicKeys(KeyTypeId),
    Ed25519GenerateNew { id: KeyTypeId, seed: Option<String> },
    EcdsaPublicKeys(KeyTypeId),
    EcdsaGenerateNew { id: KeyTypeId, seed: Option<String> },
    InsertUnknown { id: KeyTypeId, suri: String, public: Vec<u8> },
    SupportedKeys { id: KeyTypeId, keys: Vec<PublicKeyHandle> },
    Keys(KeyTypeId),
    HasKeys(Vec<(Vec<u8>, KeyTypeId)>),
    SignWith { id: KeyTypeId, key: PublicKeyHandle, msg: Vec<u8> },
    SignWithAny { id: KeyTypeId, keys: Vec<PublicKeyHandle>, msg: Vec<u8> },
    SignWithAll { id: KeyTypeId, keys: Vec<PublicKeyHandle>, msg: Vec<u8> },
    Sr25519VrfSign { key_type: KeyTypeId, public: Vec<u8>, transcript_data: VrfTranscriptData },
}

/// Model of a list of (public key bytes, key type) pairs.
pub open spec fn pairs_model(ps: Seq<(Vec<u8>, KeyTypeId)>) -> Seq<(Seq<u8>, KeyTypeId)> {
    ps.map_values(|p: (Vec<u8>, KeyTypeId)| (p.0@, p.1))
}

/// Model of a list of per-candidate signing results.
pub open spec fn results_model(v: Seq<Result<Vec<u8>, KeystoreError>>) -> Seq<
    Result<Seq<u8>, KeystoreError>,
> {
    v.map_values(
        |x: Result<Vec<u8>, KeystoreError>|
            match x {
                Ok(s) => Ok::<Seq<u8>, KeystoreError>(s@),
                Err(e) => Err::<Seq<u8>, KeystoreError>(e),
            },
    )
}

/// Mathematical model of a request.
pub enum RequestModel {
    Sr25519PublicKeys(KeyTypeId),
    Sr25519GenerateNew { id: KeyTypeId, seed: Option<Seq<char>> },
    Ed25519PublicKeys(KeyTypeId),
    Ed25519GenerateNew { id: KeyTypeId, seed: Option<Seq<char>> },
    EcdsaPublicKeys(KeyTypeId),
    EcdsaGenerateNew { id: KeyTypeId, seed: Option<Seq<char>> },
    InsertUnknown { id: KeyTypeId, suri: Seq<char>, public: Seq<u8> },
    SupportedKeys { id: KeyTypeId, keys: Seq<HandleModel> },
    Keys(KeyTypeId),
    HasKeys(Seq<(Seq<u8>, KeyTypeId)>),
    SignWith { id: KeyTypeId, key: HandleModel, msg: Seq<u8> },
    SignWithAny { id: KeyTypeId, keys: Seq<HandleModel>, msg: Seq<u8> },
    SignWithAll { id: KeyTypeId, keys: Seq<HandleModel>, msg: Seq<u8> },
    Sr25519VrfSign { key_type: KeyTypeId, public: Seq<u8>, transcript_data: VrfTranscriptDataModel },
}

impl View for RemoteKeystore {
    type V = RequestModel;

    open spec fn view(&self) -> RequestModel {
        match self {
            RemoteKeystore::Sr25519PublicKeys(id) => RequestModel::Sr25519PublicKeys(*id),
            RemoteKeystore::Sr25519GenerateNew { id, seed } => RequestModel::Sr25519GenerateNew {
                id: *id,
                seed: match seed {
                    Some(s) => Some(s@),
                    None => None,
                },
            },
            RemoteKeystore::Ed25519PublicKeys(id) => RequestModel::Ed25519PublicKeys(*id),
            RemoteKeystore::Ed25519GenerateNew { id, seed } => RequestModel::Ed25519GenerateNew {
                id: *id,
                seed: match seed {
                    Some(s) => Some(s@),
                    None => None,
                },
            },
            RemoteKeystore::EcdsaPublicKeys(id) => RequestModel::EcdsaPublicKeys(*id),
            RemoteKeystore::EcdsaGenerateNew { id, seed } => RequestModel::EcdsaGenerateNew {
                id: *id,
                seed: match seed {
                    Some(s) => Some(s@),
                    None => None,
                },
            },
            RemoteKeystore::InsertUnknown { id, suri, public } => RequestModel::InsertUnknown {
                id: *id,
                suri: suri@,
                public: public@,
            },
            RemoteKeystore::SupportedKeys { id, keys } => RequestModel::SupportedKeys {
                id: *id,
                keys: keys.deep_view(),
            },
            RemoteKeystore::Keys(id) => RequestModel::Keys(*id),
            RemoteKeystore::HasKeys(pairs) => RequestModel::HasKeys(pairs_model(pairs@)),
            RemoteKeystore::SignWith { id, key, msg } => RequestModel::SignWith {
                id: *id,
                key: key@,
                msg: msg@,
            },
            RemoteKeystore::SignWithAny { id, keys, msg } => RequestModel::SignWithAny {
                id: *id,
                keys: keys.deep_view(),
                msg: msg@,
            },
            RemoteKeystore::SignWithAll { id, keys, msg } => RequestModel::SignWithAll {
                id: *id,
                keys: keys.deep_view(),
                msg: msg@,
            },
            RemoteKeystore::Sr25519VrfSign { key_type, public, transcript_data } => RequestModel::Sr25519VrfSign {
                key_type: *key_type,
                public: public@,
                transcript_data: transcript_data@,
            },
        }
    }
}

/// A response from the remote key store: one variant per operation,
/// mirroring the request variants one to one and carrying the operation's
/// native result.
pub enum RemoteKeystoreResponse {
    Sr25519PublicKeys(Vec<Vec<u8>>),
    Sr25519GenerateNew(Result<Vec<u8>, KeystoreError>),
    Ed25519PublicKeys(Vec<Vec<u8>>),
    Ed25519GenerateNew(Result<Vec<u8>, KeystoreError>),
    EcdsaPublicKeys(Vec<Vec<u8>>),
    EcdsaGenerateNew(Result<Vec<u8>, KeystoreError>),
    InsertUnknown(Result<(), ()>),
    SupportedKeys(Result<Vec<PublicKeyHandle>, KeystoreError>),
    Keys(Result<Vec<PublicKeyHandle>, KeystoreError>),
    HasKeys(bool),
    SignWith(Result<Vec<u8>, KeystoreError>),
    SignWithAny(Result<(PublicKeyHandle, Vec<u8>), KeystoreError>),
    SignWithAll(Result<Vec<Result<Vec<u8>, KeystoreError>>, ()>),
    Sr25519VrfSign(Result<VrfSignature, KeystoreError>),
}

/// Mathematical model of a response.
pub enum ResponseModel {
    Sr25519PublicKeys(Seq<Seq<u8>>),
    Sr25519GenerateNew(Result<Seq<u8>, KeystoreError>),
    Ed25519PublicKeys(Seq<Seq<u8>>),
    Ed25519GenerateNew(Result<Seq<u8>, KeystoreError>),
    EcdsaPublicKeys(Seq<Seq<u8>>),
    EcdsaGenerateNew(Result<Seq<u8>, KeystoreError>),
    InsertUnknown(Result<(), ()>),
    SupportedKeys(Result<Seq<HandleModel>, KeystoreError>),
    Keys(Result<Seq<HandleModel>, KeystoreError>),
    HasKeys(bool),
    SignWith(Result<Seq<u8>, KeystoreError>),
    SignWithAny(Result<(HandleModel, Seq<u8>), KeystoreError>),
    SignWithAll(Result<Seq<Result<Seq<u8>, KeystoreError>>, ()>),
    Sr25519VrfSign(Result<VrfSignatureModel, KeystoreError>),
}

impl View for RemoteKeystoreResponse {
    type V = ResponseModel;

    open spec fn view(&self) -> ResponseModel {
        match self {
            RemoteKeystoreResponse::Sr25519PublicKeys(v) => ResponseModel::Sr25519PublicKeys(
                v.deep_view(),
            ),
            RemoteKeystoreResponse::Sr25519GenerateNew(r) => ResponseModel::Sr25519GenerateNew(
                match r {
                    Ok(v) => Ok(v@),
                    Err(e) => Err(*e),
                },
            ),
            RemoteKeystoreResponse::Ed25519PublicKeys(v) => ResponseModel::Ed25519PublicKeys(
                v.deep_view(),
            ),
            RemoteKeystoreResponse::Ed25519GenerateNew(r) => ResponseModel::Ed25519GenerateNew(
                match r {
                    Ok(v) => Ok(v@),
                    Err(e) => Err(*e),
                },
            ),
            RemoteKeystoreResponse::EcdsaPublicKeys(v) => ResponseModel::EcdsaPublicKeys(
                v.deep_view(),
            ),
            RemoteKeystoreResponse::EcdsaGenerateNew(r) => ResponseModel::EcdsaGenerateNew(
                match r {
                    Ok(v) => Ok(v@),
                    Err(e) => Err(*e),
                },
            ),
            RemoteKeystoreResponse::InsertUnknown(r) => ResponseModel::InsertUnknown(*r),
            RemoteKeystoreResponse::SupportedKeys(r) => ResponseModel::SupportedKeys(
                match r {
                    Ok(v) => Ok(v.deep_view()),
                    Err(e) => Err(*e),
                },
            ),
            RemoteKeystoreResponse::Keys(r) => ResponseModel::Keys(
                match r {
                    Ok(v) => Ok(v.deep_view()),
                    Err(e) => Err(*e),
                },
            ),
            RemoteKeystoreResponse::HasKeys(b) => ResponseModel::HasKeys(*b),
            RemoteKeystoreResponse::SignWith(r) => ResponseModel::SignWith(
                match r {
                    Ok(v) => Ok(v@),
                    Err(e) => Err(*e),
                },
            ),
            RemoteKeystoreResponse::SignWithAny(r) => ResponseModel::SignWithAny(
                match r {
                    Ok(p) => Ok((p.0@, p.1@)),
                    Err(e) => Err(*e),
                },
            ),
            RemoteKeystoreResponse::SignWithAll(r) => ResponseModel::SignWithAll(
                match r {
                    Ok(v) => Ok(results_model(v@)),
                    Err(e) => Err(*e),
                },
            ),
            RemoteKeystoreResponse::Sr25519VrfSign(r) => ResponseModel::Sr25519VrfSign(
                match r {
                    Ok(v) => Ok(v@),
                    Err(e) => Err(*e),
                },
            ),
        }
    }
}

/// What dispatching a request does to the store and what response it
/// produces: the response variant always mirrors the request variant, and
/// its payload is the contract of the matching capability-interface
/// operation.
pub open spec fn dispatch_post(
    st0: Seq<RecordModel>,
    st1: Seq<RecordModel>,
    req: RequestModel,
    resp: ResponseModel,
) -> bool {
    match req {
        RequestModel::Sr25519PublicKeys(id) => st1 == st0 && resp
            == ResponseModel::Sr25519PublicKeys(spec_public_keys(st0, SchemeTag::Sr25519, id)),
        RequestModel::Sr25519GenerateNew { id, seed } => match resp {
            ResponseModel::Sr25519GenerateNew(res) => generate_post(
                st0,
                st1,
                SchemeTag::Sr25519,
                id,
                seed,
                res,
            ),
            _ => false,
        },
        RequestModel::Ed25519PublicKeys(id) => st1 == st0 && resp
            == ResponseModel::Ed25519PublicKeys(spec_public_keys(st0, SchemeTag::Ed25519, id)),
        RequestModel::Ed25519GenerateNew { id, seed } => match resp {
            ResponseModel::Ed25519GenerateNew(res) => generate_post(
                st0,
                st1,
                SchemeTag::Ed25519,
                id,
                seed,
                res,
            ),
            _ => false,
        },
        RequestModel::EcdsaPublicKeys(id) => st1 == st0 && resp == ResponseModel::EcdsaPublicKeys(
            spec_public_keys(st0, SchemeTag::Ecdsa, id),
        ),
        RequestModel::EcdsaGenerateNew { id, seed } => match resp {
            ResponseModel::EcdsaGenerateNew(res) => generate_post(
                st0,
                st1,
                SchemeTag::Ecdsa,
                id,
                seed,
                res,
            ),
            _ => false,
        },
        RequestModel::InsertUnknown { id, suri, public } => match resp {
            ResponseModel::InsertUnknown(res) => match spec_matching_scheme(suri, public) {
                Some(s) => res is Ok && st1 == crate::keystore::spec_insert(
                    st0,
                    RecordModel { key_type: id, scheme: s, public, suri },
                ),
                None => res is Err && st1 == st0,
            },
            _ => false,
        },
        RequestModel::SupportedKeys { id, keys } => st1 == st0 && resp
            == ResponseModel::SupportedKeys(
            Ok::<Seq<HandleModel>, KeystoreError>(spec_supported(st0, id, keys)),
        ),
        RequestModel::Keys(id) => st1 == st0 && resp == ResponseModel::Keys(
            Ok::<Seq<HandleModel>, KeystoreError>(spec_keys(st0, id)),
        ),
        RequestModel::HasKeys(pairs) => st1 == st0 && match resp {
            ResponseModel::HasKeys(b) => has_keys_resp(st0, pairs, b),
            _ => false,
        },
        RequestModel::SignWith { id, key, msg } => st1 == st0 && match resp {
            ResponseModel::SignWith(res) => crate::keystore::matches_sign_result_model(
                st0,
                id,
                key,
                res,
            ),
            _ => false,
        },
        RequestModel::SignWithAny { id, keys, msg } => st1 == st0 && match resp {
            ResponseModel::SignWithAny(res) => sign_any_post(st0, id, keys, res),
            _ => false,
        },
        RequestModel::SignWithAll { id, keys, msg } => st1 == st0 && match resp {
            ResponseModel::SignWithAll(res) => res is Ok && sign_all_post(
                st0,
                id,
                keys,
                res.unwrap(),
            ),
            _ => false,
        },
        RequestModel::Sr25519VrfSign { key_type, public, transcript_data } => st1 == st0 && resp
            == ResponseModel::Sr25519VrfSign(
            Err::<VrfSignatureModel, KeystoreError>(KeystoreError::Unavailable),
        ),
    }
}

/// The "sign with any" contract over models: the first held candidate
/// signs; with none held the result is the not-found error.
pub open spec fn sign_any_post(
    st: Seq<RecordModel>,
    id: KeyTypeId,
    keys: Seq<HandleModel>,
    res: Result<(HandleModel, Seq<u8>), KeystoreError>,
) -> bool {
    match res {
        Ok(p) => exists|ix: int|
            0 <= ix < keys.len() && crate::keystore::spec_has_handle(st, id, #[trigger] keys[ix])
                && (forall|j: int|
                0 <= j < ix ==> !crate::keystore::spec_has_handle(st, id, #[trigger] keys[j]))
                && p.0 == keys[ix] && p.1.len() == crate::crypto::spec_sig_len(keys[ix].scheme),
        Err(e) => e == KeystoreError::PairNotFound && forall|j: int|
            0 <= j < keys.len() ==> !crate::keystore::spec_has_handle(st, id, #[trigger] keys[j]),
    }
}

/// The "sign with all" contract over models: one independent result per
/// candidate, in candidate order.
pub open spec fn sign_all_post(
    st: Seq<RecordModel>,
    id: KeyTypeId,
    keys: Seq<HandleModel>,
    res: Seq<Result<Seq<u8>, KeystoreError>>,
) -> bool {
    &&& res.len() == keys.len()
    &&& forall|j: int|
        0 <= j < keys.len() ==> crate::keystore::matches_sign_result_model(
            st,
            id,
            #[trigger] keys[j],
            res[j],
        )
}

/// The dispatch result for HasKeys: the boolean is the conjunction over
/// the listed pairs.
pub open spec fn has_keys_resp(st: Seq<RecordModel>, pairs: Seq<(Seq<u8>, KeyTypeId)>, b: bool) -> bool {
    b == forall|i: int|
        0 <= i < pairs.len() ==> crate::keystore::spec_has_raw(
            st,
            (#[trigger] pairs[i]).1,
            pairs[i].0,
        )
}

impl RemoteKeystore {
    /// Dispatches the request against the local key store and wraps the
    /// operation's result in the mirroring response variant. Every request
    /// variant is handled; the schema is closed.
    pub fn exec(self, keystore: &mut Keystore) -> (resp: RemoteKeystoreResponse)
        ensures
            dispatch_post(old(keystore)@, final(keystore)@, self@, resp@),
    {
        match self {
            RemoteKeystore::Sr25519PublicKeys(id) => {
                let resp = keystore.sr25519_public_keys(id);
                RemoteKeystoreResponse::Sr25519PublicKeys(resp)
            },
            RemoteKeystore::Sr25519GenerateNew { id, seed } => {
                let resp = keystore.sr25519_generate_new(
                    id,
                    match &seed {
                        Some(s) => Some(s.as_str()),
                        None => None,
                    },
                );
                RemoteKeystoreResponse::Sr25519GenerateNew(resp)
            },
            RemoteKeystore::Ed25519PublicKeys(id) => {
                let resp = keystore.ed25519_public_keys(id);
                RemoteKeystoreResponse::Ed25519PublicKeys(resp)
            },
            RemoteKeystore::Ed25519GenerateNew { id, seed } => {
                let resp = keystore.ed25519_generate_new(
                    id,
                    match &seed {
                        Some(s) => Some(s.as_str()),
                        None => None,
                    },
                );
                RemoteKeystoreResponse::Ed25519GenerateNew(resp)
            },
            RemoteKeystore::EcdsaPublicKeys(id) => {
                let resp = keystore.ecdsa_public_keys(id);
                RemoteKeystoreResponse::EcdsaPublicKeys(resp)
            },
            RemoteKeystore::EcdsaGenerateNew { id, seed } => {
                let resp = keystore.ecdsa_generate_new(
                    id,
                    match &seed {
                        Some(s) => Some(s.as_str()),
                        None => None,
                    },
                );
                RemoteKeystoreResponse::EcdsaGenerateNew(resp)
            },
            RemoteKeystore::InsertUnknown { id, suri, public } => {
                let resp = keystore.insert_unknown(id, suri.as_str(), &public);
                RemoteKeystoreResponse::InsertUnknown(resp)
            },
            RemoteKeystore::SupportedKeys { id, keys } => {
                let resp = keystore.supported_keys(id, keys);
                RemoteKeystoreResponse::SupportedKeys(resp)
            },
            RemoteKeystore::Keys(id) => {
                let resp = keystore.keys(id);
                RemoteKeystoreResponse::Keys(resp)
            },
            RemoteKeystore::HasKeys(pairs) => {
                let resp = keystore.has_keys(&pairs);
                proof {
                    let m = pairs_model(pairs@);
                    assert forall|i: int|
                        0 <= i < pairs@.len() implies (crate::keystore::spec_has_raw(
                        keystore@,
                        (#[trigger] pairs@[i]).1,
                        pairs@[i].0@,
                    ) == crate::keystore::spec_has_raw(keystore@, m[i].1, m[i].0)) by {
                        assert(m[i] == (pairs@[i].0@, pairs@[i].1));
                    }
                    if resp {
                        assert forall|i: int|
                            0 <= i < m.len() implies crate::keystore::spec_has_raw(
                            keystore@,
                            (#[trigger] m[i]).1,
                            m[i].0,
                        ) by {
                            assert(crate::keystore::spec_has_raw(
                                keystore@,
                                pairs@[i].1,
                                pairs@[i].0@,
                            ));
                        }
                    } else {
                        assert(!crate::keystore::spec_has_all(keystore@, pairs@));
                        let i = choose|i: int|
                            !(0 <= i < pairs@.len() ==> crate::keystore::spec_has_raw(
                                keystore@,
                                (#[trigger] pairs@[i]).1,
                                pairs@[i].0@,
                            ));
                        assert(m[i] == (pairs@[i].0@, pairs@[i].1));
                        assert(!crate::keystore::spec_has_raw(keystore@, m[i].1, m[i].0));
                    }
                }
                RemoteKeystoreResponse::HasKeys(resp)
            },
            RemoteKeystore::SignWith { id, key, msg } => {
                let resp = keystore.sign_with(id, &key, msg.as_slice());
                RemoteKeystoreResponse::SignWith(resp)
            },
            RemoteKeystore::SignWithAny { id, keys, msg } => {
                let resp = keystore.sign_with_any(id, keys, msg.as_slice());
                RemoteKeystoreResponse::SignWithAny(resp)
            },
            RemoteKeystore::SignWithAll { id, keys, msg } => {
                let ghost ks = keys.deep_view();
                let sigs = keystore.sign_with_all(id, keys, msg.as_slice());
                let resp = RemoteKeystoreResponse::SignWithAll(Ok(sigs));
                proof {
                    match resp@ {
                        ResponseModel::SignWithAll(res) => {
                            let rs = res.unwrap();
                            assert forall|j: int|
                                0 <= j < ks.len() implies crate::keystore::matches_sign_result_model(
                                keystore@,
                                id,
                                #[trigger] ks[j],
                                rs[j],
                            ) by {
                                match resp {
                                    RemoteKeystoreResponse::SignWithAll(Ok(v)) => {
                                        assert(crate::keystore::matches_sign_result(
                                            keystore@,
                                            id,
                                            ks[j],
                                            v@[j],
                                        ));
                                    },
                                    _ => (),
                                };
                            }
                        },
                        _ => (),
                    };
                }
                resp
            },
            RemoteKeystore::Sr25519VrfSign { key_type, public, transcript_data } => {
                let resp = keystore.sr25519_vrf_sign(key_type, &public, transcript_data);
                RemoteKeystoreResponse::Sr25519VrfSign(resp)
            },
        }
    }
}

/// One server-side step of a connection's loop: decode a frame, dispatch
/// it against the store, encode the response. A frame that is not a valid
/// request yields nothing and leaves the store untouched; the caller then
/// closes the connection.
pub fn handle_frame(keystore: &mut Keystore, frame: &Vec<u8>) -> (r: Option<Vec<u8>>)
    ensures
        match crate::codec::sdec_request(frame@) {
            None => r is None && final(keystore)@ == old(keystore)@,
            Some(req) => r is Some && exists|resp: ResponseModel|
                #[trigger] dispatch_post(old(keystore)@, final(keystore)@, req, resp)
                && r.unwrap()@ == crate::codec::senc_response(resp),
        },
{
    match crate::codec::decode_request(frame) {
        None => None,
        Some(req) => {
            let resp = req.exec(keystore);
            let bytes = crate::codec::encode_response(&resp);
            proof {
                assert(dispatch_post(old(keystore)@, keystore@, crate::codec::sdec_request(frame@).unwrap(), resp@));
            }
            Some(bytes)
        },
    }
}

} // verus!
