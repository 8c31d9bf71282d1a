//! The data model of the protocol: key-type tags, signature schemes,
//! public-key handles, domain errors and the VRF payload types.

use vstd::prelude::*;

verus! {

/// A 4-byte tag identifying a key's intended role (e.g. a consensus key
/// class). Opaque: compared by equality only.
#[derive(Clone, Copy, PartialEq, Eq, Structural, Debug, Hash)]
pub struct KeyTypeId(pub u8, pub u8, pub u8, pub u8);

/// The signature scheme of a key pair. Exactly three schemes are supported.
#[derive(Clone, Copy, PartialEq, Eq, Structural, Debug, Hash)]
pub enum SchemeTag {
    Sr25519,
    Ed25519,
    Ecdsa,
}

/// A domain error of the capability interface.
#[derive(Clone, Copy, PartialEq, Eq, Structural, Debug)]
pub enum KeystoreError {
    /// The backend (or the server behind a proxy) could not be reached,
    /// or does not offer the operation.
    Unavailable,
    /// The backend does not support keys of this type.
    KeyNotSupported(KeyTypeId),
    /// A seed string could not be parsed or derived from.
    InvalidSeed,
    /// No key pair matching the given handle is held.
    PairNotFound,
}

/// Identifies one key pair: its scheme together with the raw public key
/// bytes. Independent of any [`KeyTypeId`].
#[derive(Clone, Debug)]
pub struct PublicKeyHandle {
    pub scheme: SchemeTag,
    pub public: Vec<u8>,
}

/// Mathematical model of a [`PublicKeyHandle`].
pub struct HandleModel {
    pub scheme: SchemeTag,
    pub public: Seq<u8>,
}

impl View for PublicKeyHandle {
    type V = HandleModel;

    open spec fn view(&self) -> HandleModel {
        HandleModel { scheme: self.scheme, public: self.public@ }
    }
}

impl DeepView for PublicKeyHandle {
    type V = HandleModel;

    open spec fn deep_view(&self) -> HandleModel {
        self.view()
    }
}

impl PublicKeyHandle {
    pub fn new(scheme: SchemeTag, public: Vec<u8>) -> (r: PublicKeyHandle)
        ensures
            r@ == (HandleModel { scheme, public: public@ }),
    {
        PublicKeyHandle { scheme, public }
    }
}

/// Clones a public-key handle; the copy names the same key.
pub fn clone_handle(h: &PublicKeyHandle) -> (r: PublicKeyHandle)
    ensures
        r@ == h@,
{
    PublicKeyHandle { scheme: h.scheme, public: clone_bytes(&h.public) }
}

/// One entry of a VRF transcript: a labelled byte string or a labelled
/// 64-bit integer.
#[derive(Clone, Debug)]
pub enum VrfTranscriptValue {
    Bytes(Vec<u8>),
    U64(u64),
}

/// Mathematical model of a [`VrfTranscriptValue`].
pub enum VrfTranscriptValueModel {
    Bytes(Seq<u8>),
    U64(u64),
}

impl View for VrfTranscriptValue {
    type V = VrfTranscriptValueModel;

    open spec fn view(&self) -> VrfTranscriptValueModel {
        match self {
            VrfTranscriptValue::Bytes(b) => VrfTranscriptValueModel::Bytes(b@),
            VrfTranscriptValue::U64(x) => VrfTranscriptValueModel::U64(*x),
        }
    }
}

/// Model of a list of VRF transcript items.
pub open spec fn vrf_items_model(items: Seq<(String, VrfTranscriptValue)>) -> Seq<
    (Seq<char>, VrfTranscriptValueModel),
> {
    items.map_values(|it: (String, VrfTranscriptValue)| (it.0@, it.1@))
}

/// The transcript parameters of a VRF signing request.
#[derive(Clone, Debug)]
pub struct VrfTranscriptData {
    pub label: Vec<u8>,
    pub items: Vec<(String, VrfTranscriptValue)>,
}

/// Mathematical model of [`VrfTranscriptData`].
pub struct VrfTranscriptDataModel {
    pub label: Seq<u8>,
    pub items: Seq<(Seq<char>, VrfTranscriptValueModel)>,
}

impl View for VrfTranscriptData {
    type V = VrfTranscriptDataModel;

    open spec fn view(&self) -> VrfTranscriptDataModel {
        VrfTranscriptDataModel { label: self.label@, items: vrf_items_model(self.items@) }
    }
}

/// A VRF signature: the VRF output together with the proof bytes.
#[derive(Clone, Debug)]
pub struct VrfSignature {
    pub output: Vec<u8>,
    pub proof: Vec<u8>,
}

/// Mathematical model of a [`VrfSignature`].
pub struct VrfSignatureModel {
    pub output: Seq<u8>,
    pub proof: Seq<u8>,
}

impl View for VrfSignature {
    type V = VrfSignatureModel;

    open spec fn view(&self) -> VrfSignatureModel {
        VrfSignatureModel { output: self.output@, proof: self.proof@ }
    }
}

/// Clones a byte vector; the copy holds the same bytes.
pub fn clone_bytes(v: &Vec<u8>) -> (r: Vec<u8>)
    ensures
        r@ == v@,
{
    let r = v.clone();
    proof {
        assert(r@ =~= v@);
    }
    r
}

/// Compares two byte vectors for element-wise equality.
pub fn bytes_eq(a: &Vec<u8>, b: &Vec<u8>) -> (r: bool)
    ensures
        r == (a@ == b@),
{
    if a.len() != b.len() {
        assert(a@ != b@);
        return false;
    }
    let n: usize = a.len();
    let mut i: usize = 0;
    while i < n
        invariant
            n == a.len() == b.len(),
            0 <= i <= n,
            forall|j: int| 0 <= j < i ==> a@[j] == b@[j],
        decreases n - i,
    {
        if a[i] != b[i] {
            assert(a@ != b@);
            return false;
        }
        i += 1;
    }
    assert(a@ =~= b@);
    true
}

/// Compares two public-key handles: equal scheme and equal public bytes.
pub fn handle_eq(a: &PublicKeyHandle, b: &PublicKeyHandle) -> (r: bool)
    ensures
        r == (a@ == b@),
{
    let r = a.scheme == b.scheme && bytes_eq(&a.public, &b.public);
    if r {
        assert(a@ =~= b@);
    }
    r
}

} // verus!
