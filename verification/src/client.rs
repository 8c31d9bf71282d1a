//! The client-side decoding policy of the remote proxy.
//!
//! Each capability-interface call performs one send and one blocking
//! receive; what came back (or failed to) is turned into the call's native
//! result here. A transport failure is handed in as `None`; a response of
//! the wrong variant is downgraded to the same conservative default as a
//! transport failure: the unavailable error where the return type has an
//! error, and an empty or false default where it does not.

use vstd::prelude::*;

use crate::protocol::{RemoteKeystoreResponse, ResponseModel};
use crate::types::{KeystoreError, PublicKeyHandle, VrfSignature};

verus! {

/// The native result of a public-keys call: the listed keys, or the empty
/// list on transport failure or protocol mismatch.
pub fn sr25519_public_keys_result(resp: Option<RemoteKeystoreResponse>) -> (r: Vec<Vec<u8>>)
    ensures
        match resp {
            Some(rsp) => match rsp@ {
                ResponseModel::Sr25519PublicKeys(v) => r.deep_view() == v,
                _ => r@.len() == 0,
            },
            None => r@.len() == 0,
        },
{
    match resp {
        Some(RemoteKeystoreResponse::Sr25519PublicKeys(v)) => v,
        _ => Vec::new(),
    }
}

/// See [`sr25519_public_keys_result`].
pub fn ed25519_public_keys_result(resp: Option<RemoteKeystoreResponse>) -> (r: Vec<Vec<u8>>)
    ensures
        match resp {
            Some(rsp) => match rsp@ {
                ResponseModel::Ed25519PublicKeys(v) => r.deep_view() == v,
                _ => r@.len() == 0,
            },
            None => r@.len() == 0,
        },
{
    match resp {
        Some(RemoteKeystoreResponse::Ed25519PublicKeys(v)) => v,
        _ => Vec::new(),
    }
}

/// See [`sr25519_public_keys_result`].
pub fn ecdsa_public_keys_result(resp: Option<RemoteKeystoreResponse>) -> (r: Vec<Vec<u8>>)
    ensures
        match resp {
            Some(rsp) => match rsp@ {
                ResponseModel::EcdsaPublicKeys(v) => r.deep_view() == v,
                _ => r@.len() == 0,
            },
            None => r@.len() == 0,
        },
{
    match resp {
        Some(RemoteKeystoreResponse::EcdsaPublicKeys(v)) => v,
        _ => Vec::new(),
    }
}

/// The native result of a generate-new call: the matching payload, or the
/// unavailable error on transport failure or protocol mismatch.
pub fn sr25519_generate_new_result(resp: Option<RemoteKeystoreResponse>) -> (r: Result<
    Vec<u8>,
    KeystoreError,
>)
    ensures
        match resp {
            Some(rsp) => match rsp@ {
                ResponseModel::Sr25519GenerateNew(v) => (match r {
                    Ok(bs) => v == Ok::<Seq<u8>, KeystoreError>(bs@),
                    Err(e) => v == Err::<Seq<u8>, KeystoreError>(e),
                }),
                _ => r == Err::<Vec<u8>, KeystoreError>(KeystoreError::Unavailable),
            },
            None => r == Err::<Vec<u8>, KeystoreError>(KeystoreError::Unavailable),
        },
{
    match resp {
        Some(RemoteKeystoreResponse::Sr25519GenerateNew(v)) => v,
        _ => Err(KeystoreError::Unavailable),
    }
}

/// See [`sr25519_generate_new_result`].
pub fn ed25519_generate_new_result(resp: Option<RemoteKeystoreResponse>) -> (r: Result<
    Vec<u8>,
    KeystoreError,
>)
    ensures
        match resp {
            Some(rsp) => match rsp@ {
                ResponseModel::Ed25519GenerateNew(v) => (match r {
                    Ok(bs) => v == Ok::<Seq<u8>, KeystoreError>(bs@),
                    Err(e) => v == Err::<Seq<u8>, KeystoreError>(e),
                }),
                _ => r == Err::<Vec<u8>, KeystoreError>(KeystoreError::Unavailable),
            },
            None => r == Err::<Vec<u8>, KeystoreError>(KeystoreError::Unavailable),
        },
{
    match resp {
        Some(RemoteKeystoreResponse::Ed25519GenerateNew(v)) => v,
        _ => Err(KeystoreError::Unavailable),
    }
}

/// See [`sr25519_generate_new_result`].
pub fn ecdsa_generate_new_result(resp: Option<RemoteKeystoreResponse>) -> (r: Result<
    Vec<u8>,
    KeystoreError,
>)
    ensures
        match resp {
            Some(rsp) => match rsp@ {
                ResponseModel::EcdsaGenerateNew(v) => (match r {
                    Ok(bs) => v == Ok::<Seq<u8>, KeystoreError>(bs@),
                    Err(e) => v == Err::<Seq<u8>, KeystoreError>(e),
                }),
                _ => r == Err::<Vec<u8>, KeystoreError>(KeystoreError::Unavailable),
            },
            None => r == Err::<Vec<u8>, KeystoreError>(KeystoreError::Unavailable),
        },
{
    match resp {
        Some(RemoteKeystoreResponse::EcdsaGenerateNew(v)) => v,
        _ => Err(KeystoreError::Unavailable),
    }
}

/// The native result of an insert-unknown call: the matching payload, or
/// the opaque failure.
pub fn insert_unknown_result(resp: Option<RemoteKeystoreResponse>) -> (r: Result<(), ()>)
    ensures
        match resp {
            Some(rsp) => match rsp@ {
                ResponseModel::InsertUnknown(v) => r == v,
                _ => r == Err::<(), ()>(()),
            },
            None => r == Err::<(), ()>(()),
        },
{
    match resp {
        Some(RemoteKeystoreResponse::InsertUnknown(v)) => v,
        _ => Err(()),
    }
}

/// The native result of a supported-keys call.
pub fn supported_keys_result(resp: Option<RemoteKeystoreResponse>) -> (r: Result<
    Vec<PublicKeyHandle>,
    KeystoreError,
>)
    ensures
        match resp {
            Some(rsp) => match rsp@ {
                ResponseModel::SupportedKeys(v) => (match r {
                    Ok(ks) => v == Ok::<Seq<crate::types::HandleModel>, KeystoreError>(
                        ks.deep_view(),
                    ),
                    Err(e) => v == Err::<Seq<crate::types::HandleModel>, KeystoreError>(e),
                }),
                _ => r == Err::<Vec<PublicKeyHandle>, KeystoreError>(KeystoreError::Unavailable),
            },
            None => r == Err::<Vec<PublicKeyHandle>, KeystoreError>(KeystoreError::Unavailable),
        },
{
    match resp {
        Some(RemoteKeystoreResponse::SupportedKeys(v)) => v,
        _ => Err(KeystoreError::Unavailable),
    }
}

/// The native result of a keys call.
pub fn keys_result(resp: Option<RemoteKeystoreResponse>) -> (r: Result<
    Vec<PublicKeyHandle>,
    KeystoreError,
>)
    ensures
        match resp {
            Some(rsp) => match rsp@ {
                ResponseModel::Keys(v) => (match r {
                    Ok(ks) => v == Ok::<Seq<crate::types::HandleModel>, KeystoreError>(
                        ks.deep_view(),
                    ),
                    Err(e) => v == Err::<Seq<crate::types::HandleModel>, KeystoreError>(e),
                }),
                _ => r == Err::<Vec<PublicKeyHandle>, KeystoreError>(KeystoreError::Unavailable),
            },
            None => r == Err::<Vec<PublicKeyHandle>, KeystoreError>(KeystoreError::Unavailable),
        },
{
    match resp {
        Some(RemoteKeystoreResponse::Keys(v)) => v,
        _ => Err(KeystoreError::Unavailable),
    }
}

/// The native result of a has-keys call: the reported conjunction, or
/// `false` on transport failure or protocol mismatch.
pub fn has_keys_result(resp: Option<RemoteKeystoreResponse>) -> (r: bool)
    ensures
        match resp {
            Some(rsp) => match rsp@ {
                ResponseModel::HasKeys(v) => r == v,
                _ => r == false,
            },
            None => r == false,
        },
{
    match resp {
        Some(RemoteKeystoreResponse::HasKeys(v)) => v,
        _ => false,
    }
}

/// The native result of a sign-with call.
pub fn sign_with_result(resp: Option<RemoteKeystoreResponse>) -> (r: Result<
    Vec<u8>,
    KeystoreError,
>)
    ensures
        match resp {
            Some(rsp) => match rsp@ {
                ResponseModel::SignWith(v) => (match r {
                    Ok(bs) => v == Ok::<Seq<u8>, KeystoreError>(bs@),
                    Err(e) => v == Err::<Seq<u8>, KeystoreError>(e),
                }),
                _ => r == Err::<Vec<u8>, KeystoreError>(KeystoreError::Unavailable),
            },
            None => r == Err::<Vec<u8>, KeystoreError>(KeystoreError::Unavailable),
        },
{
    match resp {
        Some(RemoteKeystoreResponse::SignWith(v)) => v,
        _ => Err(KeystoreError::Unavailable),
    }
}

/// The native result of a sign-with-any call.
pub fn sign_with_any_result(resp: Option<RemoteKeystoreResponse>) -> (r: Result<
    (PublicKeyHandle, Vec<u8>),
    KeystoreError,
>)
    ensures
        match resp {
            Some(rsp) => match rsp@ {
                ResponseModel::SignWithAny(v) => (match r {
                    Ok(p) => v == Ok::<(crate::types::HandleModel, Seq<u8>), KeystoreError>(
                        (p.0@, p.1@),
                    ),
                    Err(e) => v == Err::<(crate::types::HandleModel, Seq<u8>), KeystoreError>(e),
                }),
                _ => r == Err::<(PublicKeyHandle, Vec<u8>), KeystoreError>(
                    KeystoreError::Unavailable,
                ),
            },
            None => r == Err::<(PublicKeyHandle, Vec<u8>), KeystoreError>(
                KeystoreError::Unavailable,
            ),
        },
{
    match resp {
        Some(RemoteKeystoreResponse::SignWithAny(v)) => v,
        _ => Err(KeystoreError::Unavailable),
    }
}

/// The native result of a sign-with-all call.
pub fn sign_with_all_result(resp: Option<RemoteKeystoreResponse>) -> (r: Result<
    Vec<Result<Vec<u8>, KeystoreError>>,
    (),
>)
    ensures
        match resp {
            Some(rsp) => match rsp@ {
                ResponseModel::SignWithAll(v) => (match r {
                    Ok(rs) => v == Ok::<Seq<Result<Seq<u8>, KeystoreError>>, ()>(
                        crate::protocol::results_model(rs@),
                    ),
                    Err(_) => v is Err,
                }),
                _ => r == Err::<Vec<Result<Vec<u8>, KeystoreError>>, ()>(()),
            },
            None => r == Err::<Vec<Result<Vec<u8>, KeystoreError>>, ()>(()),
        },
{
    match resp {
        Some(RemoteKeystoreResponse::SignWithAll(v)) => v,
        _ => Err(()),
    }
}

/// The remote proxy does not offer VRF signing: the call never goes to
/// the server and yields the unavailable error at once.
pub fn sr25519_vrf_sign_result() -> (r: Result<VrfSignature, KeystoreError>)
    ensures
        r == Err::<VrfSignature, KeystoreError>(KeystoreError::Unavailable),
{
    Err(KeystoreError::Unavailable)
}

} // verus!
