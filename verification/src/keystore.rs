//! The in-memory key store: the backend of the capability interface.
//!
//! Each held key pair is one record: the key-type tag it was generated
//! for, its scheme, its public key bytes and the seed string that derives
//! it. The store's invariant ties every record's public key to its seed
//! string, and keeps records unique per (key type, scheme, public key).

use vstd::prelude::*;

use crate::crypto::{
    derive_public, derived_public_of, generate_pair, sign_message, spec_sig_len,
};
use crate::types::{
    HandleModel, KeyTypeId, KeystoreError, PublicKeyHandle, SchemeTag, VrfSignature,
    VrfTranscriptData,
};

verus! {

/// One held key pair.
pub(crate) struct KeyRecord {
    pub(crate) key_type: KeyTypeId,
    pub(crate) scheme: SchemeTag,
    pub(crate) public: Vec<u8>,
    pub(crate) suri: String,
}

/// Mathematical model of one held key pair.
pub struct RecordModel {
    pub key_type: KeyTypeId,
    pub scheme: SchemeTag,
    pub public: Seq<u8>,
    pub suri: Seq<char>,
}

impl View for KeyRecord {
    type V = RecordModel;

    closed spec fn view(&self) -> RecordModel {
        RecordModel {
            key_type: self.key_type,
            scheme: self.scheme,
            public: self.public@,
            suri: self.suri@,
        }
    }
}

/// The record's seed string indeed derives its public key.
pub open spec fn record_wf(r: RecordModel) -> bool {
    derived_public_of(r.scheme, r.suri) == Some(r.public)
}

/// Two records name the same key when they agree on key type, scheme and
/// public key bytes.
pub open spec fn same_key(a: RecordModel, b: RecordModel) -> bool {
    a.key_type == b.key_type && a.scheme == b.scheme && a.public == b.public
}

/// The store's invariant: every record derives its public key from its
/// seed string, and no key is held twice.
pub open spec fn store_wf(st: Seq<RecordModel>) -> bool {
    &&& forall|i: int| 0 <= i < st.len() ==> record_wf(#[trigger] st[i])
    &&& forall|i: int, j: int| 0 <= i < j < st.len() ==> !same_key(#[trigger] st[i], #[trigger] st[j])
}

/// The store holds a key of this type, scheme and public key bytes.
pub open spec fn spec_has_record(
    st: Seq<RecordModel>,
    id: KeyTypeId,
    scheme: SchemeTag,
    public: Seq<u8>,
) -> bool {
    exists|i: int|
        0 <= i < st.len() && (#[trigger] st[i]).key_type == id && st[i].scheme == scheme
            && st[i].public == public
}

/// The store holds the key a handle names, under this key type.
pub open spec fn spec_has_handle(st: Seq<RecordModel>, id: KeyTypeId, h: HandleModel) -> bool {
    spec_has_record(st, id, h.scheme, h.public)
}

/// The store holds these public key bytes under this key type, under any
/// scheme.
pub open spec fn spec_has_raw(st: Seq<RecordModel>, id: KeyTypeId, public: Seq<u8>) -> bool {
    exists|i: int|
        0 <= i < st.len() && (#[trigger] st[i]).key_type == id && st[i].public == public
}

/// The public keys held for this scheme and key type, in store order.
pub open spec fn spec_public_keys(st: Seq<RecordModel>, scheme: SchemeTag, id: KeyTypeId) -> Seq<
    Seq<u8>,
>
    decreases st.len(),
{
    if st.len() == 0 {
        Seq::empty()
    } else {
        let rest = spec_public_keys(st.drop_last(), scheme, id);
        if st.last().key_type == id && st.last().scheme == scheme {
            rest.push(st.last().public)
        } else {
            rest
        }
    }
}

/// The handles of all keys held for this key type, across all schemes, in
/// store order.
pub open spec fn spec_keys(st: Seq<RecordModel>, id: KeyTypeId) -> Seq<HandleModel>
    decreases st.len(),
{
    if st.len() == 0 {
        Seq::empty()
    } else {
        let rest = spec_keys(st.drop_last(), id);
        if st.last().key_type == id {
            rest.push(HandleModel { scheme: st.last().scheme, public: st.last().public })
        } else {
            rest
        }
    }
}

/// Adding a record the store already holds leaves it unchanged; otherwise
/// the record is appended.
pub open spec fn spec_insert(st: Seq<RecordModel>, r: RecordModel) -> Seq<RecordModel> {
    if spec_has_record(st, r.key_type, r.scheme, r.public) {
        st
    } else {
        st.push(r)
    }
}

/// What `generate_new` does: with a seed, the result and the new store are
/// a function of the seed's derivation; without one, some fresh seed
/// string was drawn whose derivation succeeded.
pub open spec fn generate_post(
    st0: Seq<RecordModel>,
    st1: Seq<RecordModel>,
    scheme: SchemeTag,
    id: KeyTypeId,
    seed: Option<Seq<char>>,
    res: Result<Seq<u8>, KeystoreError>,
) -> bool {
    match seed {
        Some(s) => match derived_public_of(scheme, s) {
            Some(pk) => res == Ok::<Seq<u8>, KeystoreError>(pk) && st1 == spec_insert(
                st0,
                RecordModel { key_type: id, scheme, public: pk, suri: s },
            ),
            None => res == Err::<Seq<u8>, KeystoreError>(KeystoreError::InvalidSeed) && st1
                == st0,
        },
        None => res is Ok && exists|phrase: Seq<char>|
            derived_public_of(scheme, phrase) == Some(res.unwrap()) && st1 == spec_insert(
                st0,
                RecordModel { key_type: id, scheme, public: res.unwrap(), suri: phrase },
            ),
    }
}

/// The candidate handles that the store holds under this key type, in
/// candidate order.
pub open spec fn spec_supported(
    st: Seq<RecordModel>,
    id: KeyTypeId,
    ks: Seq<HandleModel>,
) -> Seq<HandleModel>
    decreases ks.len(),
{
    if ks.len() == 0 {
        Seq::empty()
    } else {
        let rest = spec_supported(st, id, ks.drop_last());
        if spec_has_handle(st, id, ks.last()) {
            rest.push(ks.last())
        } else {
            rest
        }
    }
}

/// Every listed (public key bytes, key type) pair is held, under any
/// scheme.
pub open spec fn spec_has_all(st: Seq<RecordModel>, pairs: Seq<(Vec<u8>, KeyTypeId)>) -> bool {
    forall|i: int|
        0 <= i < pairs.len() ==> spec_has_raw(st, (#[trigger] pairs[i]).1, pairs[i].0@)
}

/// The scheme under which this seed string derives exactly these public
/// key bytes, trying sr25519, then ed25519, then ecdsa.
pub open spec fn spec_matching_scheme(suri: Seq<char>, public: Seq<u8>) -> Option<SchemeTag> {
    if crate::crypto::sr25519_public_of(suri) == Some(public) {
        Some(SchemeTag::Sr25519)
    } else if crate::crypto::ed25519_public_of(suri) == Some(public) {
        Some(SchemeTag::Ed25519)
    } else if crate::crypto::ecdsa_public_of(suri) == Some(public) {
        Some(SchemeTag::Ecdsa)
    } else {
        None
    }
}

/// One signing attempt's outcome for a candidate handle: a signature of
/// the scheme's length when the key is held, the not-found error when not.
pub open spec fn matches_sign_result(
    st: Seq<RecordModel>,
    id: KeyTypeId,
    k: HandleModel,
    res: Result<Vec<u8>, KeystoreError>,
) -> bool {
    if spec_has_handle(st, id, k) {
        res is Ok && res.unwrap()@.len() == spec_sig_len(k.scheme)
    } else {
        res == Err::<Vec<u8>, KeystoreError>(KeystoreError::PairNotFound)
    }
}

/// One signing attempt's outcome for a candidate handle, over models.
pub open spec fn matches_sign_result_model(
    st: Seq<RecordModel>,
    id: KeyTypeId,
    k: HandleModel,
    res: Result<Seq<u8>, KeystoreError>,
) -> bool {
    if spec_has_handle(st, id, k) {
        res is Ok && res.unwrap().len() == spec_sig_len(k.scheme)
    } else {
        res == Err::<Seq<u8>, KeystoreError>(KeystoreError::PairNotFound)
    }
}

/// The in-memory key store. All key material lives for the process only.
pub struct Keystore {
    entries: Vec<KeyRecord>,
}

impl View for Keystore {
    type V = Seq<RecordModel>;

    closed spec fn view(&self) -> Seq<RecordModel> {
        self.entries@.map_values(|r: KeyRecord| r@)
    }
}

impl Keystore {
    #[verifier::type_invariant]
    spec fn wf(self) -> bool {
        store_wf(self@)
    }

    /// Creates an empty store.
    pub fn new() -> (r: Keystore)
        ensures
            r@ == Seq::<RecordModel>::empty(),
    {
        let r = Keystore { entries: Vec::new() };
        proof {
            assert(r@ =~= Seq::<RecordModel>::empty());
        }
        r
    }

    /// Looks for a record with this key type, scheme and public key;
    /// returns its index.
    fn find_record(&self, id: KeyTypeId, scheme: SchemeTag, public: &Vec<u8>) -> (r: Option<
        usize,
    >)
        ensures
            match r {
                Some(i) => i < self@.len() && self@[i as int].key_type == id && self@[
                    i as int
                ].scheme == scheme && self@[i as int].public == public@,
                None => !spec_has_record(self@, id, scheme, public@),
            },
    {
        let n = self.entries.len();
        let mut i: usize = 0;
        while i < n
            invariant
                n == self.entries.len(),
                0 <= i <= n,
                forall|j: int|
                    0 <= j < i ==> !((#[trigger] self@[j]).key_type == id && self@[j].scheme
                        == scheme && self@[j].public == public@),
            decreases n - i,
        {
            let e = &self.entries[i];
            if e.key_type == id && e.scheme == scheme && crate::types::bytes_eq(&e.public, public)
            {
                return Some(i);
            }
            i += 1;
        }
        None
    }

    /// Adds a record unless the same key is already held.
    fn insert_record(&mut self, id: KeyTypeId, scheme: SchemeTag, public: Vec<u8>, suri: String)
        requires
            derived_public_of(scheme, suri@) == Some(public@),
        ensures
            final(self)@ == spec_insert(
                old(self)@,
                RecordModel { key_type: id, scheme, public: public@, suri: suri@ },
            ),
    {
        proof {
            use_type_invariant(&*self);
        }
        let ghost rec = RecordModel { key_type: id, scheme, public: public@, suri: suri@ };
        match self.find_record(id, scheme, &public) {
            Some(_) => (),
            None => {
                let mut entries: Vec<KeyRecord> = Vec::new();
                core::mem::swap(&mut entries, &mut self.entries);
                entries.push(KeyRecord { key_type: id, scheme, public, suri });
                proof {
                    let st1 = old(self)@.push(rec);
                    assert(entries@.map_values(|r: KeyRecord| r@) =~= st1);
                    assert forall|k: int| 0 <= k < st1.len() implies record_wf(
                        #[trigger] st1[k],
                    ) by {
                        if k < old(self)@.len() {
                            assert(record_wf(old(self)@[k]));
                        }
                    }
                    assert forall|k: int, j: int| 0 <= k < j < st1.len() implies !same_key(
                        #[trigger] st1[k],
                        #[trigger] st1[j],
                    ) by {
                        if j < old(self)@.len() {
                            assert(!same_key(old(self)@[k], old(self)@[j]));
                        } else {
                            assert(!(old(self)@[k].key_type == id && old(self)@[k].scheme
                                == scheme && old(self)@[k].public == public@));
                        }
                    }
                }
                core::mem::swap(&mut entries, &mut self.entries);
                proof {
                    assert(self@ =~= old(self)@.push(rec));
                }
            },
        }
    }

    /// The public keys held for this scheme and key type, in the order the
    /// keys were added.
    pub fn public_keys(&self, scheme: SchemeTag, id: KeyTypeId) -> (r: Vec<Vec<u8>>)
        ensures
            r.deep_view() == spec_public_keys(self@, scheme, id),
    {
        let n = self.entries.len();
        let mut out: Vec<Vec<u8>> = Vec::new();
        proof {
            assert(out.deep_view() =~~= spec_public_keys(self@.take(0), scheme, id));
        }
        let mut i: usize = 0;
        while i < n
            invariant
                n == self.entries.len(),
                0 <= i <= n,
                out.deep_view() == spec_public_keys(self@.take(i as int), scheme, id),
            decreases n - i,
        {
            let e = &self.entries[i];
            proof {
                assert(self@.take(i + 1 as int).drop_last() =~= self@.take(i as int));
                assert(self@.take(i + 1 as int).last() == self@[i as int]);
            }
            if e.key_type == id && e.scheme == scheme {
                let pk = crate::types::clone_bytes(&e.public);
                let ghost pre = out.deep_view();
                out.push(pk);
                proof {
                    assert(out.deep_view() =~~= pre.push(self@[i as int].public));
                }
                proof {
                    assert(out.deep_view() =~~= spec_public_keys(
                        self@.take(i + 1 as int),
                        scheme,
                        id,
                    ));
                }
            } else {
                proof {
                    assert(out.deep_view() =~~= spec_public_keys(
                        self@.take(i + 1 as int),
                        scheme,
                        id,
                    ));
                }
            }
            i += 1;
        }
        proof {
            assert(self@.take(n as int) =~= self@);
        }
        out
    }

    /// The store's invariant, for callers' proofs: every record derives
    /// its public key from its seed string and no key is held twice.
    pub fn inv(&self)
        ensures
            store_wf(self@),
    {
        proof {
            use_type_invariant(&*self);
        }
    }

    /// Whether the store holds these public key bytes under this key type,
    /// under any scheme.
    fn find_raw(&self, id: KeyTypeId, public: &Vec<u8>) -> (r: bool)
        ensures
            r == spec_has_raw(self@, id, public@),
    {
        let n = self.entries.len();
        let mut i: usize = 0;
        while i < n
            invariant
                n == self.entries.len(),
                0 <= i <= n,
                forall|j: int|
                    0 <= j < i ==> !((#[trigger] self@[j]).key_type == id && self@[j].public
                        == public@),
            decreases n - i,
        {
            let e = &self.entries[i];
            if e.key_type == id && crate::types::bytes_eq(&e.public, public) {
                proof {
                    assert(self@[i as int].key_type == id && self@[i as int].public == public@);
                }
                return true;
            }
            i += 1;
        }
        false
    }

    /// The handles of all keys held for this key type, across all schemes,
    /// in the order the keys were added. Always succeeds.
    pub fn keys(&self, id: KeyTypeId) -> (r: Result<Vec<PublicKeyHandle>, KeystoreError>)
        ensures
            r is Ok,
            r.unwrap().deep_view() == spec_keys(self@, id),
    {
        let n = self.entries.len();
        let mut out: Vec<PublicKeyHandle> = Vec::new();
        proof {
            assert(out.deep_view() =~~= spec_keys(self@.take(0), id));
        }
        let mut i: usize = 0;
        while i < n
            invariant
                n == self.entries.len(),
                0 <= i <= n,
                out.deep_view() == spec_keys(self@.take(i as int), id),
            decreases n - i,
        {
            let e = &self.entries[i];
            proof {
                assert(self@.take(i + 1 as int).drop_last() =~= self@.take(i as int));
                assert(self@.take(i + 1 as int).last() == self@[i as int]);
            }
            if e.key_type == id {
                let ghost pre = out.deep_view();
                out.push(PublicKeyHandle::new(e.scheme, crate::types::clone_bytes(&e.public)));
                proof {
                    assert(out.deep_view() =~~= pre.push(
                        HandleModel { scheme: self@[i as int].scheme, public: self@[i as int].public },
                    ));
                }
            }
            proof {
                assert(out.deep_view() =~~= spec_keys(self@.take(i + 1 as int), id));
            }
            i += 1;
        }
        proof {
            assert(self@.take(n as int) =~= self@);
        }
        Ok(out)
    }

    /// The subset of the candidate handles that the store holds under this
    /// key type, in candidate order. Always succeeds.
    pub fn supported_keys(&self, id: KeyTypeId, keys: Vec<PublicKeyHandle>) -> (r: Result<
        Vec<PublicKeyHandle>,
        KeystoreError,
    >)
        ensures
            r is Ok,
            r.unwrap().deep_view() == spec_supported(self@, id, keys.deep_view()),
    {
        let n = keys.len();
        let mut out: Vec<PublicKeyHandle> = Vec::new();
        proof {
            assert(out.deep_view() =~~= spec_supported(self@, id, keys.deep_view().take(0)));
        }
        let mut i: usize = 0;
        while i < n
            invariant
                n == keys.len(),
                0 <= i <= n,
                out.deep_view() == spec_supported(self@, id, keys.deep_view().take(i as int)),
            decreases n - i,
        {
            let k = &keys[i];
            proof {
                assert(keys.deep_view().take(i + 1 as int).drop_last() =~= keys.deep_view().take(
                    i as int,
                ));
                assert(keys.deep_view().take(i + 1 as int).last() == keys.deep_view()[i as int]);
                assert(keys.deep_view()[i as int] == k@);
            }
            if self.find_record(id, k.scheme, &k.public).is_some() {
                let ghost pre = out.deep_view();
                out.push(crate::types::clone_handle(k));
                proof {
                    assert(out.deep_view() =~~= pre.push(k@));
                }
            }
            proof {
                assert(out.deep_view() =~~= spec_supported(
                    self@,
                    id,
                    keys.deep_view().take(i + 1 as int),
                ));
            }
            i += 1;
        }
        proof {
            assert(keys.deep_view().take(n as int) =~= keys.deep_view());
        }
        Ok(out)
    }

    /// True exactly when every listed (public key bytes, key type) pair is
    /// held, under any scheme. The empty list is trivially held.
    pub fn has_keys(&self, public_keys: &Vec<(Vec<u8>, KeyTypeId)>) -> (r: bool)
        ensures
            r == spec_has_all(self@, public_keys@),
    {
        let n = public_keys.len();
        let mut i: usize = 0;
        while i < n
            invariant
                n == public_keys.len(),
                0 <= i <= n,
                forall|j: int|
                    0 <= j < i ==> spec_has_raw(self@, (#[trigger] public_keys@[j]).1, public_keys@[j].0@),
            decreases n - i,
        {
            let p = &public_keys[i];
            if !self.find_raw(p.1, &p.0) {
                return false;
            }
            i += 1;
        }
        true
    }

    /// Inserts a key pair given as a seed string and its claimed public
    /// key bytes. The pair is accepted only if some scheme derives exactly
    /// those bytes from the string; the first matching scheme (sr25519,
    /// then ed25519, then ecdsa) is recorded.
    pub fn insert_unknown(&mut self, id: KeyTypeId, suri: &str, public: &Vec<u8>) -> (r: Result<
        (),
        (),
    >)
        ensures
            match spec_matching_scheme(suri@, public@) {
                Some(s) => r is Ok && final(self)@ == spec_insert(
                    old(self)@,
                    RecordModel { key_type: id, scheme: s, public: public@, suri: suri@ },
                ),
                None => r is Err && final(self)@ == old(self)@,
            },
    {
        match crate::crypto::sr25519_derive_public(suri) {
            Some(pk) => {
                if crate::types::bytes_eq(&pk, public) {
                    self.insert_record(id, SchemeTag::Sr25519, crate::types::clone_bytes(public), suri.to_owned());
                    return Ok(());
                }
            },
            None => (),
        }
        match crate::crypto::ed25519_derive_public(suri) {
            Some(pk) => {
                if crate::types::bytes_eq(&pk, public) {
                    self.insert_record(id, SchemeTag::Ed25519, crate::types::clone_bytes(public), suri.to_owned());
                    return Ok(());
                }
            },
            None => (),
        }
        match crate::crypto::ecdsa_derive_public(suri) {
            Some(pk) => {
                if crate::types::bytes_eq(&pk, public) {
                    self.insert_record(id, SchemeTag::Ecdsa, crate::types::clone_bytes(public), suri.to_owned());
                    return Ok(());
                }
            },
            None => (),
        }
        Err(())
    }

    /// Signs a message with the key a handle names, under this key type.
    /// Fails exactly when that key is not held.
    pub fn sign_with(&self, id: KeyTypeId, key: &PublicKeyHandle, msg: &[u8]) -> (r: Result<
        Vec<u8>,
        KeystoreError,
    >)
        ensures
            spec_has_handle(self@, id, key@) ==> r is Ok && r.unwrap()@.len() == spec_sig_len(
                key@.scheme,
            ),
            !spec_has_handle(self@, id, key@) ==> r == Err::<Vec<u8>, KeystoreError>(
                KeystoreError::PairNotFound,
            ),
    {
        proof {
            use_type_invariant(&*self);
        }
        match self.find_record(id, key.scheme, &key.public) {
            Some(i) => {
                let e = &self.entries[i];
                proof {
                    assert(record_wf(self@[i as int]));
                }
                Ok(sign_message(e.scheme, e.suri.as_str(), msg))
            },
            None => Err(KeystoreError::PairNotFound),
        }
    }

    /// Signs with the first candidate handle (in list order) whose key is
    /// held. With no held candidate — in particular with an empty list —
    /// the error is the not-found failure of the last attempt.
    pub fn sign_with_any(&self, id: KeyTypeId, keys: Vec<PublicKeyHandle>, msg: &[u8]) -> (r:
        Result<(PublicKeyHandle, Vec<u8>), KeystoreError>)
        ensures
            match r {
                Ok(p) => exists|ix: int|
                    0 <= ix < keys.deep_view().len() && spec_has_handle(
                        self@,
                        id,
                        #[trigger] keys.deep_view()[ix],
                    ) && (forall|j: int|
                        0 <= j < ix ==> !spec_has_handle(self@, id, #[trigger] keys.deep_view()[j]))
                        && p.0@ == keys.deep_view()[ix] && p.1@.len() == spec_sig_len(
                        keys.deep_view()[ix].scheme,
                    ),
                Err(e) => e == KeystoreError::PairNotFound && forall|j: int|
                    0 <= j < keys.deep_view().len() ==> !spec_has_handle(
                        self@,
                        id,
                        #[trigger] keys.deep_view()[j],
                    ),
            },
    {
        let n = keys.len();
        let mut i: usize = 0;
        while i < n
            invariant
                n == keys.len(),
                0 <= i <= n,
                forall|j: int|
                    0 <= j < i ==> !spec_has_handle(self@, id, #[trigger] keys.deep_view()[j]),
            decreases n - i,
        {
            let k = &keys[i];
            proof {
                assert(keys.deep_view()[i as int] == k@);
            }
            match self.sign_with(id, k, msg) {
                Ok(sig) => {
                    let out = crate::types::clone_handle(k);
                    return Ok((out, sig));
                },
                Err(_) => (),
            }
            i += 1;
        }
        Err(KeystoreError::PairNotFound)
    }

    /// Signs with every candidate handle independently: one result per
    /// candidate, in candidate order; a missing key yields its own
    /// not-found error and never aborts the other attempts.
    pub fn sign_with_all(&self, id: KeyTypeId, keys: Vec<PublicKeyHandle>, msg: &[u8]) -> (r: Vec<
        Result<Vec<u8>, KeystoreError>,
    >)
        ensures
            r@.len() == keys.deep_view().len(),
            forall|j: int|
                0 <= j < keys.deep_view().len() ==> #[trigger] matches_sign_result(
                    self@,
                    id,
                    keys.deep_view()[j],
                    r@[j],
                ),
    {
        let n = keys.len();
        let mut out: Vec<Result<Vec<u8>, KeystoreError>> = Vec::new();
        let mut i: usize = 0;
        while i < n
            invariant
                n == keys.len(),
                0 <= i <= n,
                out@.len() == i,
                forall|j: int|
                    0 <= j < i ==> #[trigger] matches_sign_result(
                        self@,
                        id,
                        keys.deep_view()[j],
                        out@[j],
                    ),
            decreases n - i,
        {
            let k = &keys[i];
            proof {
                assert(keys.deep_view()[i as int] == k@);
            }
            let res = self.sign_with(id, k, msg);
            out.push(res);
            i += 1;
        }
        out
    }

    /// VRF signing is not offered by this backend; every request for it
    /// is answered with the unavailable error.
    pub fn sr25519_vrf_sign(
        &self,
        key_type: KeyTypeId,
        public: &Vec<u8>,
        transcript_data: VrfTranscriptData,
    ) -> (r: Result<VrfSignature, KeystoreError>)
        ensures
            r == Err::<VrfSignature, KeystoreError>(KeystoreError::Unavailable),
    {
        let _ = key_type;
        let _ = public;
        let _ = transcript_data;
        Err(KeystoreError::Unavailable)
    }

    /// Generates (or re-derives) a key pair for this scheme and key type.
    ///
    /// With a seed string the key is its deterministic derivation: the
    /// same seed always yields the same public key, the key is stored at
    /// most once, and a malformed seed is rejected. Without a seed a fresh
    /// random pair is generated and stored.
    pub fn generate_new(&mut self, scheme: SchemeTag, id: KeyTypeId, seed: Option<&str>) -> (r:
        Result<Vec<u8>, KeystoreError>)
        ensures
            generate_post(
                old(self)@,
                final(self)@,
                scheme,
                id,
                match seed {
                    Some(s) => Some(s@),
                    None => None,
                },
                match r {
                    Ok(v) => Ok(v@),
                    Err(e) => Err(e),
                },
            ),
    {
        match seed {
            Some(s) => {
                match derive_public(scheme, s) {
                    Some(pk) => {
                        let public = crate::types::clone_bytes(&pk);
                        self.insert_record(id, scheme, public, s.to_owned());
                        Ok(pk)
                    },
                    None => Err(KeystoreError::InvalidSeed),
                }
            },
            None => {
                let (phrase, pk) = generate_pair(scheme);
                let public = crate::types::clone_bytes(&pk);
                self.insert_record(id, scheme, public, phrase);
                Ok(pk)
            },
        }
    }

    /// The sr25519 public keys held for this key type, in store order.
    pub fn sr25519_public_keys(&self, id: KeyTypeId) -> (r: Vec<Vec<u8>>)
        ensures
            r.deep_view() == spec_public_keys(self@, SchemeTag::Sr25519, id),
    {
        self.public_keys(SchemeTag::Sr25519, id)
    }

    /// The ed25519 public keys held for this key type, in store order.
    pub fn ed25519_public_keys(&self, id: KeyTypeId) -> (r: Vec<Vec<u8>>)
        ensures
            r.deep_view() == spec_public_keys(self@, SchemeTag::Ed25519, id),
    {
        self.public_keys(SchemeTag::Ed25519, id)
    }

    /// The ecdsa public keys held for this key type, in store order.
    pub fn ecdsa_public_keys(&self, id: KeyTypeId) -> (r: Vec<Vec<u8>>)
        ensures
            r.deep_view() == spec_public_keys(self@, SchemeTag::Ecdsa, id),
    {
        self.public_keys(SchemeTag::Ecdsa, id)
    }

    /// Generates (or re-derives) an sr25519 key pair for this key type.
    pub fn sr25519_generate_new(&mut self, id: KeyTypeId, seed: Option<&str>) -> (r: Result<
        Vec<u8>,
        KeystoreError,
    >)
        ensures
            generate_post(
                old(self)@,
                final(self)@,
                SchemeTag::Sr25519,
                id,
                match seed {
                    Some(s) => Some(s@),
                    None => None,
                },
                match r {
                    Ok(v) => Ok(v@),
                    Err(e) => Err(e),
                },
            ),
    {
        self.generate_new(SchemeTag::Sr25519, id, seed)
    }

    /// Generates (or re-derives) an ed25519 key pair for this key type.
    pub fn ed25519_generate_new(&mut self, id: KeyTypeId, seed: Option<&str>) -> (r: Result<
        Vec<u8>,
        KeystoreError,
    >)
        ensures
            generate_post(
                old(self)@,
                final(self)@,
                SchemeTag::Ed25519,
                id,
                match seed {
                    Some(s) => Some(s@),
                    None => None,
                },
                match r {
                    Ok(v) => Ok(v@),
                    Err(e) => Err(e),
                },
            ),
    {
        self.generate_new(SchemeTag::Ed25519, id, seed)
    }

    /// Generates (or re-derives) an ecdsa key pair for this key type.
    pub fn ecdsa_generate_new(&mut self, id: KeyTypeId, seed: Option<&str>) -> (r: Result<
        Vec<u8>,
        KeystoreError,
    >)
        ensures
            generate_post(
                old(self)@,
                final(self)@,
                SchemeTag::Ecdsa,
                id,
                match seed {
                    Some(s) => Some(s@),
                    None => None,
                },
                match r {
                    Ok(v) => Ok(v@),
                    Err(e) => Err(e),
                },
            ),
    {
        self.generate_new(SchemeTag::Ecdsa, id, seed)
    }
}

/// The fixed development seed phrase that provisioning derives every key
/// from. Publicly documented; for reproducible development setups only.
pub open spec fn spec_dev_phrase() -> Seq<char> {
    "abandon abandon abandon abandon abandon abandon abandon abandon abandon abandon abandon about"@
}

/// The fixed development seed phrase, as a string.
pub fn dev_phrase() -> (r: &'static str)
    ensures
        r@ == spec_dev_phrase(),
{
    "abandon abandon abandon abandon abandon abandon abandon abandon abandon abandon abandon about"
}

/// The key type of block-production consensus keys.
pub open spec fn spec_key_type_babe() -> KeyTypeId {
    KeyTypeId(98, 97, 98, 101)
}

/// The key type of block-production consensus keys ("babe").
pub fn key_type_babe() -> (r: KeyTypeId)
    ensures
        r == spec_key_type_babe(),
{
    KeyTypeId(98, 97, 98, 101)
}

/// The key type of block-authoring keys.
pub open spec fn spec_key_type_aura() -> KeyTypeId {
    KeyTypeId(97, 117, 114, 97)
}

/// The key type of block-authoring keys ("aura").
pub fn key_type_aura() -> (r: KeyTypeId)
    ensures
        r == spec_key_type_aura(),
{
    KeyTypeId(97, 117, 114, 97)
}

/// The key type of finality-gadget keys.
pub open spec fn spec_key_type_gran() -> KeyTypeId {
    KeyTypeId(103, 114, 97, 110)
}

/// The key type of finality-gadget keys ("gran").
pub fn key_type_gran() -> (r: KeyTypeId)
    ensures
        r == spec_key_type_gran(),
{
    KeyTypeId(103, 114, 97, 110)
}

/// The phrase derives a key under every scheme.
pub open spec fn all_schemes_derivable(phrase: Seq<char>) -> bool {
    &&& crate::crypto::sr25519_public_of(phrase) is Some
    &&& crate::crypto::ed25519_public_of(phrase) is Some
    &&& crate::crypto::ecdsa_public_of(phrase) is Some
}

/// The store after provisioning one key type: one key per scheme, derived
/// from the phrase, each inserted unless already held.
pub open spec fn spec_provision_step(
    st: Seq<RecordModel>,
    id: KeyTypeId,
    phrase: Seq<char>,
) -> Seq<RecordModel> {
    let st1 = spec_insert(
        st,
        RecordModel {
            key_type: id,
            scheme: SchemeTag::Sr25519,
            public: crate::crypto::sr25519_public_of(phrase).unwrap(),
            suri: phrase,
        },
    );
    let st2 = spec_insert(
        st1,
        RecordModel {
            key_type: id,
            scheme: SchemeTag::Ed25519,
            public: crate::crypto::ed25519_public_of(phrase).unwrap(),
            suri: phrase,
        },
    );
    spec_insert(
        st2,
        RecordModel {
            key_type: id,
            scheme: SchemeTag::Ecdsa,
            public: crate::crypto::ecdsa_public_of(phrase).unwrap(),
            suri: phrase,
        },
    )
}

/// The store after provisioning all three fixed key types from the fixed
/// development phrase.
pub open spec fn spec_provisioned(st: Seq<RecordModel>, phrase: Seq<char>) -> Seq<RecordModel> {
    spec_provision_step(
        spec_provision_step(
            spec_provision_step(st, spec_key_type_babe(), phrase),
            spec_key_type_aura(),
            phrase,
        ),
        spec_key_type_gran(),
        phrase,
    )
}

/// Provisions one key type: one key per scheme from the development
/// phrase.
fn provision_one(ks: &mut Keystore, id: KeyTypeId) -> (r: Result<(), KeystoreError>)
    ensures
        all_schemes_derivable(spec_dev_phrase()) ==> r is Ok && final(ks)@ == spec_provision_step(
            old(ks)@,
            id,
            spec_dev_phrase(),
        ),
        !all_schemes_derivable(spec_dev_phrase()) ==> r == Err::<(), KeystoreError>(
            KeystoreError::InvalidSeed,
        ),
{
    let phrase = dev_phrase();
    match ks.generate_new(SchemeTag::Sr25519, id, Some(phrase)) {
        Ok(_) => (),
        Err(e) => {
            return Err(e);
        },
    }
    match ks.generate_new(SchemeTag::Ed25519, id, Some(phrase)) {
        Ok(_) => (),
        Err(e) => {
            return Err(e);
        },
    }
    match ks.generate_new(SchemeTag::Ecdsa, id, Some(phrase)) {
        Ok(_) => (),
        Err(e) => {
            return Err(e);
        },
    }
    Ok(())
}

/// Seeds the store with a reproducible set of development keys: for each
/// of the three fixed key types and each of the three schemes, one key
/// derived from the fixed development phrase. Any derivation failure is
/// returned to the caller rather than aborting.
pub fn auto_provision(ks: &mut Keystore) -> (r: Result<(), KeystoreError>)
    ensures
        all_schemes_derivable(spec_dev_phrase()) ==> r is Ok && final(ks)@ == spec_provisioned(
            old(ks)@,
            spec_dev_phrase(),
        ),
        !all_schemes_derivable(spec_dev_phrase()) ==> r == Err::<(), KeystoreError>(
            KeystoreError::InvalidSeed,
        ),
{
    match provision_one(ks, key_type_babe()) {
        Ok(_) => (),
        Err(e) => {
            return Err(e);
        },
    }
    match provision_one(ks, key_type_aura()) {
        Ok(_) => (),
        Err(e) => {
            return Err(e);
        },
    }
    match provision_one(ks, key_type_gran()) {
        Ok(_) => (),
        Err(e) => {
            return Err(e);
        },
    }
    Ok(())
}

/// A record that `spec_insert` adds (or that was already held) is held
/// afterwards.
pub proof fn lemma_insert_holds(st: Seq<RecordModel>, r: RecordModel)
    ensures
        spec_has_record(spec_insert(st, r), r.key_type, r.scheme, r.public),
{
    if !spec_has_record(st, r.key_type, r.scheme, r.public) {
        let st1 = st.push(r);
        assert(st1[st.len() as int] == r);
    }
}

/// `spec_insert` never drops a held key.
pub proof fn lemma_insert_monotone(
    st: Seq<RecordModel>,
    r: RecordModel,
    id: KeyTypeId,
    scheme: SchemeTag,
    pk: Seq<u8>,
)
    requires
        spec_has_record(st, id, scheme, pk),
    ensures
        spec_has_record(spec_insert(st, r), id, scheme, pk),
{
    let st1 = spec_insert(st, r);
    let i = choose|i: int|
        0 <= i < st.len() && (#[trigger] st[i]).key_type == id && st[i].scheme == scheme
            && st[i].public == pk;
    assert(st1[i] == st[i]);
}

/// `spec_insert` of a well-formed record preserves the store invariant.
pub proof fn lemma_insert_wf(st: Seq<RecordModel>, r: RecordModel)
    requires
        store_wf(st),
        record_wf(r),
    ensures
        store_wf(spec_insert(st, r)),
{
    if !spec_has_record(st, r.key_type, r.scheme, r.public) {
        let st1 = st.push(r);
        assert forall|i: int, j: int| 0 <= i < j < st1.len() implies !same_key(
            #[trigger] st1[i],
            #[trigger] st1[j],
        ) by {
            if j < st.len() {
                assert(!same_key(st[i], st[j]));
            } else {
                assert(st1[i] == st[i]);
                if same_key(st[i], r) {
                    assert(st[i].key_type == r.key_type && st[i].scheme == r.scheme && st[i].public
                        == r.public);
                }
            }
        }
    }
}

/// A key that the store does not hold is never listed.
pub proof fn lemma_absent_key_not_listed(
    st: Seq<RecordModel>,
    scheme: SchemeTag,
    id: KeyTypeId,
    pk: Seq<u8>,
)
    requires
        !spec_has_record(st, id, scheme, pk),
    ensures
        spec_public_keys(st, scheme, id).filter(|p: Seq<u8>| p == pk).len() == 0,
    decreases st.len(),
{
    broadcast use Seq::lemma_filter_len_push;

    if st.len() == 0 {
        assert(spec_public_keys(st, scheme, id).filter(|p: Seq<u8>| p == pk).len() == 0) by {
            reveal(Seq::filter);
        }
    } else {
        let rest = st.drop_last();
        assert(!spec_has_record(rest, id, scheme, pk)) by {
            if spec_has_record(rest, id, scheme, pk) {
                let i = choose|i: int|
                    0 <= i < rest.len() && (#[trigger] rest[i]).key_type == id && rest[i].scheme
                        == scheme && rest[i].public == pk;
                assert(st[i].key_type == id && st[i].scheme == scheme && st[i].public == pk);
            }
        }
        lemma_absent_key_not_listed(rest, scheme, id, pk);
        if st.last().key_type == id && st.last().scheme == scheme {
            assert(st[st.len() - 1].public != pk) by {
                if st.last().public == pk {
                    assert(st[st.len() - 1].key_type == id && st[st.len() - 1].scheme == scheme
                        && st[st.len() - 1].public == pk);
                }
            }
        }
    }
}

/// A held key is listed by `spec_public_keys` exactly once, in every store
/// that holds no key twice. In particular, after `generate_new` succeeds
/// for a key type and scheme, the generated public key appears exactly
/// once among the public keys listed for them.
pub proof fn lemma_held_key_listed_once(
    st: Seq<RecordModel>,
    scheme: SchemeTag,
    id: KeyTypeId,
    pk: Seq<u8>,
)
    requires
        store_wf(st),
        spec_has_record(st, id, scheme, pk),
    ensures
        spec_public_keys(st, scheme, id).filter(|p: Seq<u8>| p == pk).len() == 1,
    decreases st.len(),
{
    broadcast use Seq::lemma_filter_len_push;

    let rest = st.drop_last();
    assert(store_wf(rest)) by {
        assert(forall|i: int| 0 <= i < rest.len() ==> rest[i] == #[trigger] st[i]);
    }
    let last = st.last();
    if last.key_type == id && last.scheme == scheme && last.public == pk {
        assert(!spec_has_record(rest, id, scheme, pk)) by {
            if spec_has_record(rest, id, scheme, pk) {
                let i = choose|i: int|
                    0 <= i < rest.len() && (#[trigger] rest[i]).key_type == id && rest[i].scheme
                        == scheme && rest[i].public == pk;
                assert(same_key(st[i], st[st.len() - 1]));
            }
        }
        lemma_absent_key_not_listed(rest, scheme, id, pk);
    } else {
        assert(spec_has_record(rest, id, scheme, pk)) by {
            let i = choose|i: int|
                0 <= i < st.len() && (#[trigger] st[i]).key_type == id && st[i].scheme == scheme
                    && st[i].public == pk;
            assert(i < rest.len() && rest[i] == st[i]);
        }
        lemma_held_key_listed_once(rest, scheme, id, pk);
        if last.key_type == id && last.scheme == scheme {
            assert(st[st.len() - 1].public != pk) by {
                if last.public == pk {
                    assert(same_key(st[st.len() - 1], st[st.len() - 1]));
                }
            }
        }
    }
}

/// Generation followed by listing: after `generate_new` succeeds for a
/// scheme and key type — with or without a seed — the public keys listed
/// for them include the generated key exactly once. The invariant
/// hypothesis is what [`Keystore::inv`] yields for the store after the
/// call.
pub proof fn lemma_generate_then_listed_once(
    st0: Seq<RecordModel>,
    st1: Seq<RecordModel>,
    scheme: SchemeTag,
    id: KeyTypeId,
    seed: Option<Seq<char>>,
    pk: Seq<u8>,
)
    requires
        store_wf(st1),
        generate_post(st0, st1, scheme, id, seed, Ok(pk)),
    ensures
        spec_public_keys(st1, scheme, id).filter(|p: Seq<u8>| p == pk).len() == 1,
{
    match seed {
        Some(s) => {
            lemma_insert_holds(
                st0,
                RecordModel { key_type: id, scheme, public: pk, suri: s },
            );
        },
        None => {
            let phrase = choose|phrase: Seq<char>|
                derived_public_of(scheme, phrase) == Some(pk) && st1 == spec_insert(
                    st0,
                    RecordModel { key_type: id, scheme, public: pk, suri: phrase },
                );
            lemma_insert_holds(
                st0,
                RecordModel { key_type: id, scheme, public: pk, suri: phrase },
            );
        },
    }
    lemma_held_key_listed_once(st1, scheme, id, pk);
}

/// A store with no record of this key type and scheme lists no public key
/// for them.
proof fn lemma_no_match_no_keys(st: Seq<RecordModel>, scheme: SchemeTag, id: KeyTypeId)
    requires
        forall|i: int|
            0 <= i < st.len() ==> !((#[trigger] st[i]).key_type == id && st[i].scheme == scheme),
    ensures
        spec_public_keys(st, scheme, id) == Seq::<Seq<u8>>::empty(),
    decreases st.len(),
{
    if st.len() == 0 {
    } else {
        let rest = st.drop_last();
        assert(forall|i: int| 0 <= i < rest.len() ==> rest[i] == #[trigger] st[i]);
        lemma_no_match_no_keys(rest, scheme, id);
    }
}

/// In a store without duplicates where every record of this key type and
/// scheme carries the same public key, and at least one does, exactly that
/// key is listed.
proof fn lemma_public_keys_single(
    st: Seq<RecordModel>,
    scheme: SchemeTag,
    id: KeyTypeId,
    pk: Seq<u8>,
)
    requires
        store_wf(st),
        spec_has_record(st, id, scheme, pk),
        forall|i: int|
            0 <= i < st.len() && (#[trigger] st[i]).key_type == id && st[i].scheme == scheme
                ==> st[i].public == pk,
    ensures
        spec_public_keys(st, scheme, id) =~= seq![pk],
    decreases st.len(),
{
    let rest = st.drop_last();
    assert(store_wf(rest) && forall|i: int| 0 <= i < rest.len() ==> rest[i] == #[trigger] st[i]);
    let last = st.last();
    if last.key_type == id && last.scheme == scheme {
        assert(last.public == pk);
        assert(forall|i: int|
            0 <= i < rest.len() ==> !((#[trigger] rest[i]).key_type == id && rest[i].scheme
                == scheme)) by {
            assert forall|i: int|
                0 <= i < rest.len() && (#[trigger] rest[i]).key_type == id && rest[i].scheme
                    == scheme implies false by {
                assert(rest[i].public == pk);
                assert(same_key(st[i], st[st.len() - 1]));
            }
        }
        lemma_no_match_no_keys(rest, scheme, id);
    } else {
        assert(spec_has_record(rest, id, scheme, pk)) by {
            let i = choose|i: int|
                0 <= i < st.len() && (#[trigger] st[i]).key_type == id && st[i].scheme == scheme
                    && st[i].public == pk;
            assert(i < rest.len() && rest[i] == st[i]);
        }
        lemma_public_keys_single(rest, scheme, id, pk);
    }
}

/// Every record of the store after one provisioning step is either an old
/// record (at its old place) or a canonical provision record of the given
/// key type; the step holds a key for every scheme, keeps old keys and
/// preserves the invariant.
proof fn lemma_provision_step_props(st: Seq<RecordModel>, id2: KeyTypeId, phrase: Seq<char>)
    requires
        all_schemes_derivable(phrase),
        store_wf(st),
    ensures
        ({
            let st1 = spec_provision_step(st, id2, phrase);
            &&& store_wf(st1)
            &&& forall|k: int|
                0 <= k < st1.len() ==> ((k < st.len() && st1[k] == st[k]) || ((#[trigger] st1[k]).key_type
                    == id2 && st1[k].suri == phrase && derived_public_of(st1[k].scheme, phrase)
                    == Some(st1[k].public)))
            &&& forall|s: SchemeTag|
                spec_has_record(st1, id2, s, derived_public_of(s, phrase).unwrap())
            &&& forall|id: KeyTypeId, s: SchemeTag, pk: Seq<u8>|
                spec_has_record(st, id, s, pk) ==> spec_has_record(st1, id, s, pk)
        }),
{
    let ra = RecordModel {
        key_type: id2,
        scheme: SchemeTag::Sr25519,
        public: crate::crypto::sr25519_public_of(phrase).unwrap(),
        suri: phrase,
    };
    let rb = RecordModel {
        key_type: id2,
        scheme: SchemeTag::Ed25519,
        public: crate::crypto::ed25519_public_of(phrase).unwrap(),
        suri: phrase,
    };
    let rc = RecordModel {
        key_type: id2,
        scheme: SchemeTag::Ecdsa,
        public: crate::crypto::ecdsa_public_of(phrase).unwrap(),
        suri: phrase,
    };
    let sta = spec_insert(st, ra);
    let stb = spec_insert(sta, rb);
    let stc = spec_insert(stb, rc);
    lemma_insert_wf(st, ra);
    lemma_insert_wf(sta, rb);
    lemma_insert_wf(stb, rc);
    lemma_insert_holds(st, ra);
    lemma_insert_monotone(sta, rb, id2, SchemeTag::Sr25519, ra.public);
    lemma_insert_monotone(stb, rc, id2, SchemeTag::Sr25519, ra.public);
    lemma_insert_holds(sta, rb);
    lemma_insert_monotone(stb, rc, id2, SchemeTag::Ed25519, rb.public);
    lemma_insert_holds(stb, rc);
    assert forall|s: SchemeTag|
        spec_has_record(stc, id2, s, derived_public_of(s, phrase).unwrap()) by {
        match s {
            SchemeTag::Sr25519 => (),
            SchemeTag::Ed25519 => (),
            SchemeTag::Ecdsa => (),
        };
    }
    assert forall|id: KeyTypeId, s: SchemeTag, pk: Seq<u8>|
        spec_has_record(st, id, s, pk) implies spec_has_record(stc, id, s, pk) by {
        lemma_insert_monotone(st, ra, id, s, pk);
        lemma_insert_monotone(sta, rb, id, s, pk);
        lemma_insert_monotone(stb, rc, id, s, pk);
    }
}

/// Provisioning a fresh store lists exactly one public key for each of the
/// three fixed key types and each scheme: the key the fixed phrase derives
/// under that scheme. Two fresh stores provisioned from the same phrase
/// therefore list byte-identical keys.
pub proof fn lemma_provision_fresh_exactly_once(
    phrase: Seq<char>,
    id: KeyTypeId,
    scheme: SchemeTag,
)
    requires
        all_schemes_derivable(phrase),
        id == spec_key_type_babe() || id == spec_key_type_aura() || id == spec_key_type_gran(),
    ensures
        spec_public_keys(spec_provisioned(Seq::empty(), phrase), scheme, id) =~= seq![
            derived_public_of(scheme, phrase).unwrap(),
        ],
{
    let st0 = Seq::<RecordModel>::empty();
    let st3 = spec_provision_step(st0, spec_key_type_babe(), phrase);
    let st6 = spec_provision_step(st3, spec_key_type_aura(), phrase);
    let st9 = spec_provision_step(st6, spec_key_type_gran(), phrase);
    lemma_provision_step_props(st0, spec_key_type_babe(), phrase);
    lemma_provision_step_props(st3, spec_key_type_aura(), phrase);
    lemma_provision_step_props(st6, spec_key_type_gran(), phrase);
    let pk = derived_public_of(scheme, phrase).unwrap();
    assert(spec_has_record(st9, id, scheme, pk)) by {
        if id == spec_key_type_babe() {
            assert(spec_has_record(st3, id, scheme, pk));
            assert(spec_has_record(st6, id, scheme, pk));
        } else if id == spec_key_type_aura() {
            assert(spec_has_record(st6, id, scheme, pk));
        }
    }
    assert forall|i: int|
        0 <= i < st9.len() && (#[trigger] st9[i]).key_type == id && st9[i].scheme == scheme
        implies st9[i].public == pk by {
        assert(derived_public_of(st9[i].scheme, phrase) == Some(st9[i].public));
    }
    lemma_public_keys_single(st9, scheme, id, pk);
}

} // verus!
