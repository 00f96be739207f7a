use crate::order::{lex_lt, precedes};
use bitcoin::util::bip32;
use vstd::prelude::*;

verus! {

/// The first four bytes of the hash of an extended key's public key.
#[derive(Clone, Copy, Debug, PartialEq, Eq, PartialOrd, Ord, Hash)]
pub struct Fingerprint {
    pub bytes: [u8; 4],
}

/// A public key in its compressed serialization.
#[derive(Clone, Copy, Debug, PartialEq, Eq, PartialOrd, Ord, Hash)]
pub struct PublicKey {
    pub bytes: [u8; 33],
}

/// The x coordinate of a public key.
#[derive(Clone, Copy, Debug, PartialEq, Eq, PartialOrd, Ord, Hash)]
pub struct XOnlyPublicKey {
    pub bytes: [u8; 32],
}

/// A private scalar, most significant byte first.
#[derive(Clone, Copy, Debug, PartialEq, Eq, PartialOrd, Ord, Hash)]
pub struct SecretKey {
    pub bytes: [u8; 32],
}

/// A private scalar with the public key that belongs to it.
#[derive(Clone, Copy, Debug, PartialEq, Eq, PartialOrd, Ord, Hash)]
pub struct KeyPair {
    pub secret: SecretKey,
    pub public: PublicKey,
}

/// An extended private key in its serialization of 78 bytes: version
/// (4 bytes), depth (1), parent fingerprint (4), child number (4), chain code
/// (32), a zero byte, and the private scalar (32).
#[derive(Clone, Copy, Debug, PartialEq, Eq, PartialOrd, Ord, Hash)]
pub struct ExtendedKey {
    pub bytes: [u8; 78],
}

/// Why a signer hands out no secret.
#[derive(Clone, Copy, Debug, PartialEq, Eq, PartialOrd, Ord, Hash)]
pub enum SecretProviderError {
    /// The signer does not hold the account with this fingerprint, which the
    /// public key was said to belong to.
    AccountUnknown(Fingerprint, PublicKey),
}

impl View for Fingerprint {
    type V = Seq<u8>;

    open spec fn view(&self) -> Seq<u8> {
        self.bytes@
    }
}

impl View for PublicKey {
    type V = Seq<u8>;

    open spec fn view(&self) -> Seq<u8> {
        self.bytes@
    }
}

impl View for XOnlyPublicKey {
    type V = Seq<u8>;

    open spec fn view(&self) -> Seq<u8> {
        self.bytes@
    }
}

impl View for SecretKey {
    type V = Seq<u8>;

    open spec fn view(&self) -> Seq<u8> {
        self.bytes@
    }
}

impl View for ExtendedKey {
    type V = Seq<u8>;

    open spec fn view(&self) -> Seq<u8> {
        self.bytes@
    }
}

/// The order of the group of the curve, most significant byte first.
pub const CURVE_ORDER: [u8; 32] = [
    0xff, 0xff, 0xff, 0xff, 0xff, 0xff, 0xff, 0xff,
    0xff, 0xff, 0xff, 0xff, 0xff, 0xff, 0xff, 0xfe,
    0xba, 0xae, 0xdc, 0xe6, 0xaf, 0x48, 0xa0, 0x3b,
    0xbf, 0xd2, 0x5e, 0x8c, 0xd0, 0x36, 0x41, 0x41,
];

/// The order of the group of the curve as a sequence of bytes.
pub open spec fn curve_order() -> Seq<u8> {
    CURVE_ORDER@
}

/// A private scalar is valid if it is not zero and below the order of the
/// group.
pub open spec fn valid_secret(secret: Seq<u8>) -> bool {
    &&& secret.len() == 32
    &&& exists|i: int| 0 <= i < 32 && secret[i] != 0
    &&& lex_lt(secret, curve_order())
}

/// The version bytes of a private key: those of the main network or those
/// of the test networks.
pub open spec fn has_key_version(key: Seq<u8>) -> bool {
    &&& key[0] == 0x04
    &&& (key[1] == 0x88 && key[2] == 0xad && key[3] == 0xe4) || (key[1] == 0x35 && key[2] == 0x83
        && key[3] == 0x94)
}

/// The 78 bytes are the serialization of an extended private key.
pub open spec fn decodable(key: Seq<u8>) -> bool {
    &&& key.len() == 78
    &&& has_key_version(key)
    &&& valid_secret(key.subrange(46, 78))
}

/// The depth that a serialized extended key holds.
pub open spec fn key_depth(key: Seq<u8>) -> int {
    key[4] as int
}

/// The private scalar that a serialized extended key holds.
pub open spec fn key_secret(key: Seq<u8>) -> Seq<u8> {
    key.subrange(46, 78)
}

/// The four bytes of a number, most significant first.
pub open spec fn be_bytes(n: u32) -> Seq<u8> {
    seq![
        (n / 0x100_0000) as u8,
        (n / 0x1_0000 % 0x100) as u8,
        (n / 0x100 % 0x100) as u8,
        (n % 0x100) as u8,
    ]
}

/// What the serialization of a derived key shows of where it came from:
/// the version of the key it was derived from, a depth that is larger by
/// the number of steps, and the child number of the last step. Along the
/// empty path the key is the one it was derived from, with a zero for the
/// byte before the scalar.
pub open spec fn child_shape(key: Seq<u8>, path: Seq<u32>, child: Seq<u8>) -> bool {
    &&& child.len() == 78
    &&& child.subrange(0, 4) == key.subrange(0, 4)
    &&& key_depth(child) == key_depth(key) + path.len()
    &&& path.len() > 0 ==> child.subrange(9, 13) == be_bytes(path.last())
    &&& path.len() == 0 ==> child == key.update(45, 0u8)
}

/// The fingerprint of a serialized extended private key.
pub uninterp spec fn bip32_fingerprint(key: Seq<u8>) -> Seq<u8>;

/// The serialized extended private key that is derived from one along a
/// path of child numbers.
pub uninterp spec fn bip32_derive(key: Seq<u8>, path: Seq<u32>) -> Seq<u8>;

/// The compressed serialization of the public key of a private scalar.
pub uninterp spec fn secp_public_key(secret: Seq<u8>) -> Seq<u8>;

/// `bitcoin::util::bip32::ExtendedPrivKey::fingerprint` on the key that the
/// 78 bytes decode to, with the global context. `decode` takes the bytes
/// that are `decodable`: its source asks for one of the two versions of a
/// private key and for a scalar that `secp256k1::SecretKey::from_slice`
/// takes, and the header of the underlying library gives the rule for that
/// one.
#[verifier::external_body]
fn xpriv_fingerprint(key: &ExtendedKey) -> (fingerprint: Fingerprint)
    requires
        decodable(key@),
    ensures
        fingerprint@ == bip32_fingerprint(key@),
{
    let xpriv = bip32::ExtendedPrivKey::decode(&key.bytes).unwrap();
    Fingerprint { bytes: xpriv.fingerprint(secp256k1::SECP256K1).into_bytes() }
}

/// `bitcoin::util::bip32::ExtendedPrivKey::derive_priv` on the key that the
/// 78 bytes decode to, with the global context, handing out the
/// serialization of the derived key. Each step adds one to the depth, which
/// is a byte: paths that lead beyond 255 are left out. The source stops the
/// program where a step yields no valid scalar, which it calls
/// statistically impossible. What it hands out holds a valid scalar, the
/// version of the key it came from, the depth of that key plus the number
/// of steps, and the child number of the last step; with no step at all it
/// is what `encode` writes of what `decode` read, which is every byte but
/// the one before the scalar, written as zero.
#[verifier::external_body]
fn xpriv_derive(key: &ExtendedKey, path: &[u32]) -> (child: ExtendedKey)
    requires
        decodable(key@),
        key_depth(key@) + path@.len() <= 255,
    ensures
        child@ == bip32_derive(key@, path@),
        decodable(child@),
        child_shape(key@, path@, child@),
{
    let xpriv = bip32::ExtendedPrivKey::decode(&key.bytes).unwrap();
    let steps: Vec<bip32::ChildNumber> = path.iter().map(|n| bip32::ChildNumber::from(*n)).collect();
    ExtendedKey { bytes: xpriv.derive_priv(secp256k1::SECP256K1, &steps).unwrap().encode() }
}

/// `secp256k1::KeyPair::from_secret_key` with the global context, handing
/// out the secret bytes and the public key of the pair. The pair holds the
/// scalar it was made from.
#[verifier::external_body]
fn secp_key_pair(secret: &SecretKey) -> (pair: KeyPair)
    requires
        valid_secret(secret@),
    ensures
        pair.secret@ == secret@,
        pair.public@ == secp_public_key(secret@),
{
    let scalar = secp256k1::SecretKey::from_slice(&secret.bytes).unwrap();
    let pair = secp256k1::KeyPair::from_secret_key(secp256k1::SECP256K1, &scalar);
    KeyPair {
        secret: SecretKey { bytes: pair.secret_bytes() },
        public: PublicKey { bytes: pair.public_key().serialize() },
    }
}

impl Fingerprint {
    /// Whether two fingerprints hold the same bytes.
    pub fn same(&self, other: &Fingerprint) -> (r: bool)
        ensures
            r == (self@ == other@),
            r == (*self == *other),
    {
        let r = self.bytes[0] == other.bytes[0] && self.bytes[1] == other.bytes[1] && self.bytes[2]
            == other.bytes[2] && self.bytes[3] == other.bytes[3];
        proof {
            if r {
                assert(self@ =~= other@);
                assert(self.bytes =~= other.bytes);
            } else {
                assert(self@[0] != other@[0] || self@[1] != other@[1] || self@[2] != other@[2]
                    || self@[3] != other@[3]);
            }
        }
        r
    }
}

impl XOnlyPublicKey {
    /// The public key with this x coordinate and an even y coordinate: the
    /// byte `0x02`, then the 32 bytes of the coordinate.
    pub fn to_public_key(&self) -> (key: PublicKey)
        ensures
            key@ == seq![0x02u8] + self@,
    {
        let mut bytes: [u8; 33] = [0x02u8; 33];
        let mut i: usize = 0;
        while i < 32
            invariant
                0 <= i <= 32,
                bytes@[0] == 0x02,
                forall|j: int| 0 <= j < i ==> bytes@[j + 1] == self@[j],
            decreases 32 - i,
        {
            bytes[i + 1] = self.bytes[i];
            i += 1;
        }
        assert(bytes@ =~= seq![0x02u8] + self@);
        PublicKey { bytes }
    }
}

impl SecretKey {
    /// Whether the scalar is valid: not zero and below the order of the
    /// group.
    pub fn is_valid(&self) -> (r: bool)
        ensures
            r == valid_secret(self@),
    {
        let mut zero = true;
        let mut i: usize = 0;
        while i < 32
            invariant
                0 <= i <= 32,
                zero == (forall|j: int| 0 <= j < i ==> self@[j] == 0),
            decreases 32 - i,
        {
            if self.bytes[i] != 0 {
                zero = false;
            }
            assert(self@[i as int] == self.bytes[i as int]);
            i += 1;
        }
        proof {
            if !zero {
                let j = choose|j: int| 0 <= j < 32 && self@[j] != 0;
                assert(0 <= j < 32 && self@[j] != 0);
            }
        }
        !zero && precedes(&self.bytes, &CURVE_ORDER)
    }
}

impl ExtendedKey {
    /// Whether the 78 bytes are the serialization of an extended private
    /// key: they begin with the version of one, and hold a valid scalar.
    pub fn is_decodable(&self) -> (r: bool)
        ensures
            r == decodable(self@),
    {
        let b = &self.bytes;
        let versioned = b[0] == 0x04 && (b[1] == 0x88 && b[2] == 0xad && b[3] == 0xe4 || b[1] == 0x35
            && b[2] == 0x83 && b[3] == 0x94);
        versioned && self.private_key().is_valid()
    }

    /// How many derivations this key is away from the master key.
    pub fn depth(&self) -> (depth: u8)
        ensures
            depth == key_depth(self@),
    {
        self.bytes[4]
    }

    /// The private scalar of the key.
    pub fn private_key(&self) -> (secret: SecretKey)
        ensures
            secret@ == key_secret(self@),
    {
        let mut bytes: [u8; 32] = [0u8; 32];
        let mut i: usize = 0;
        while i < 32
            invariant
                0 <= i <= 32,
                forall|j: int| 0 <= j < i ==> bytes@[j] == self@[j + 46],
            decreases 32 - i,
        {
            bytes[i] = self.bytes[i + 46];
            i += 1;
        }
        assert(bytes@ =~= key_secret(self@));
        SecretKey { bytes }
    }
}

/// What a request for a derived key comes to. A fingerprint other than the
/// signer's own is refused with `AccountUnknown`, which carries the
/// fingerprint and the public key of the request. The signer's own
/// fingerprint gives the key derived from the master key along the path.
pub open spec fn derived(
    master: Seq<u8>,
    own: Fingerprint,
    fingerprint: Fingerprint,
    path: Seq<u32>,
    pubkey: PublicKey,
    outcome: Result<ExtendedKey, SecretProviderError>,
) -> bool {
    match outcome {
        Ok(key) => fingerprint == own && key@ == bip32_derive(master, path),
        Err(refusal) => fingerprint != own && refusal == SecretProviderError::AccountUnknown(
            fingerprint,
            pubkey,
        ),
    }
}

/// A signer that holds one extended private key and derives every secret
/// from it on demand.
pub struct XprivSigner {
    xpriv: ExtendedKey,
    fingerprint: Fingerprint,
}

/// A signer as mathematical values.
pub struct SignerView {
    /// The serialization of the key that the signer holds.
    pub key: Seq<u8>,
    /// The fingerprint of that key.
    pub fingerprint: Fingerprint,
}

impl View for XprivSigner {
    type V = SignerView;

    closed spec fn view(&self) -> SignerView {
        SignerView { key: self.xpriv@, fingerprint: self.fingerprint }
    }
}

impl XprivSigner {
    #[verifier::type_invariant]
    spec fn well_formed(self) -> bool {
        &&& decodable(self.xpriv@)
        &&& self.fingerprint@ == bip32_fingerprint(self.xpriv@)
    }

    /// A signer for the key, where the 78 bytes are the serialization of one.
    pub fn new(xpriv: ExtendedKey) -> (signer: Option<XprivSigner>)
        ensures
            signer is Some <==> decodable(xpriv@),
            signer matches Some(s) ==> s@.key == xpriv@ && s@.fingerprint@ == bip32_fingerprint(
                xpriv@,
            ),
    {
        if !xpriv.is_decodable() {
            return None;
        }
        let fingerprint = xpriv_fingerprint(&xpriv);
        Some(XprivSigner { xpriv, fingerprint })
    }

    /// The key that the signer holds.
    pub fn xpriv(&self) -> (key: ExtendedKey)
        ensures
            key@ == self@.key,
            decodable(self@.key),
    {
        proof {
            use_type_invariant(self);
        }
        self.xpriv
    }

    /// The fingerprint of the key that the signer holds.
    pub fn fingerprint(&self) -> (fingerprint: Fingerprint)
        ensures
            fingerprint == self@.fingerprint,
            fingerprint@ == bip32_fingerprint(self@.key),
    {
        proof {
            use_type_invariant(self);
        }
        self.fingerprint
    }

    /// Whether a request can be answered: a request under another
    /// fingerprint always can, by refusal; one under the signer's own
    /// fingerprint where the path leads no deeper than a key can say, which
    /// is 255.
    pub open spec fn answers(&self, fingerprint: Fingerprint, path: Seq<u32>) -> bool {
        fingerprint == self@.fingerprint ==> key_depth(self@.key) + path.len() <= 255
    }

    /// Whether a request can be answered.
    pub fn can_derive(&self, fingerprint: Fingerprint, derivation: &[u32]) -> (r: bool)
        ensures
            r == self.answers(fingerprint, derivation@),
    {
        if !fingerprint.same(&self.fingerprint) {
            return true;
        }
        let depth: usize = self.xpriv.depth().into();
        derivation.len() <= 255 - depth
    }

    /// The extended private key of an account of this signer, derived along
    /// the path.
    pub fn derive_xpriv(
        &self,
        fingerprint: Fingerprint,
        derivation: &[u32],
        pubkey: PublicKey,
    ) -> (outcome: Result<ExtendedKey, SecretProviderError>)
        requires
            self.answers(fingerprint, derivation@),
        ensures
            derived(self@.key, self@.fingerprint, fingerprint, derivation@, pubkey, outcome),
            outcome matches Ok(key) ==> decodable(key@) && child_shape(
                self@.key,
                derivation@,
                key@,
            ),
    {
        proof {
            use_type_invariant(self);
        }
        if !fingerprint.same(&self.fingerprint) {
            return Err(SecretProviderError::AccountUnknown(fingerprint, pubkey));
        }
        Ok(xpriv_derive(&self.xpriv, derivation))
    }

    /// The private scalar of an account of this signer, derived along the
    /// path.
    pub fn secret_key(
        &self,
        fingerprint: Fingerprint,
        derivation: &[u32],
        pubkey: PublicKey,
    ) -> (outcome: Result<SecretKey, SecretProviderError>)
        requires
            self.answers(fingerprint, derivation@),
        ensures
            match outcome {
                Ok(secret) => {
                    &&& fingerprint == self@.fingerprint
                    &&& secret@ == key_secret(bip32_derive(self@.key, derivation@))
                    &&& valid_secret(secret@)
                },
                Err(refusal) => {
                    &&& fingerprint != self@.fingerprint
                    &&& refusal == SecretProviderError::AccountUnknown(fingerprint, pubkey)
                },
            },
    {
        match self.derive_xpriv(fingerprint, derivation, pubkey) {
            Ok(key) => Ok(key.private_key()),
            Err(refusal) => Err(refusal),
        }
    }

    /// The key pair of an account of this signer, derived along the path.
    /// The public key of a refusal is the one with the x coordinate of the
    /// request and an even y coordinate.
    pub fn key_pair(
        &self,
        fingerprint: Fingerprint,
        derivation: &[u32],
        pubkey: XOnlyPublicKey,
    ) -> (outcome: Result<KeyPair, SecretProviderError>)
        requires
            self.answers(fingerprint, derivation@),
        ensures
            match outcome {
                Ok(pair) => {
                    &&& fingerprint == self@.fingerprint
                    &&& pair.secret@ == key_secret(bip32_derive(self@.key, derivation@))
                    &&& pair.public@ == secp_public_key(pair.secret@)
                },
                Err(SecretProviderError::AccountUnknown(account, key)) => {
                    &&& fingerprint != self@.fingerprint
                    &&& account == fingerprint
                    &&& key@ == seq![0x02u8] + pubkey@
                },
            },
    {
        match self.derive_xpriv(fingerprint, derivation, pubkey.to_public_key()) {
            Ok(key) => Ok(secp_key_pair(&key.private_key())),
            Err(refusal) => Err(refusal),
        }
    }

    /// Whether keys of this signer may take part in aggregated signatures:
    /// never.
    pub fn use_musig(&self) -> (allowed: bool)
        ensures
            !allowed,
    {
        false
    }
}

/// For extended keys, equal bytes mean equal values.
pub proof fn lemma_key_by_bytes(a: ExtendedKey, b: ExtendedKey)
    requires
        a@ == b@,
    ensures
        a == b,
{
    assert forall|i: int| 0 <= i < 78 implies a.bytes[i] == b.bytes[i] by {
        assert(a@[i] == b@[i]);
    }
    assert(a.bytes =~= b.bytes);
}

/// Derivation is a function of the master key, the fingerprint, the path
/// and the public key: two outcomes for the same request are the same, byte
/// for byte.
pub proof fn law_derive_deterministic(
    master: Seq<u8>,
    own: Fingerprint,
    fingerprint: Fingerprint,
    path: Seq<u32>,
    pubkey: PublicKey,
    first: Result<ExtendedKey, SecretProviderError>,
    second: Result<ExtendedKey, SecretProviderError>,
)
    requires
        derived(master, own, fingerprint, path, pubkey, first),
        derived(master, own, fingerprint, path, pubkey, second),
    ensures
        first == second,
{
    if let Ok(a) = first {
        if let Ok(b) = second {
            lemma_key_by_bytes(a, b);
        }
    }
}

/// A request under any fingerprint but the signer's own is refused with
/// `AccountUnknown`, which carries the fingerprint and the public key of the
/// request, whatever the path.
pub proof fn law_unknown_account_refused(
    master: Seq<u8>,
    own: Fingerprint,
    fingerprint: Fingerprint,
    path: Seq<u32>,
    pubkey: PublicKey,
    outcome: Result<ExtendedKey, SecretProviderError>,
)
    requires
        fingerprint != own,
        derived(master, own, fingerprint, path, pubkey, outcome),
    ensures
        outcome == Err::<ExtendedKey, SecretProviderError>(
            SecretProviderError::AccountUnknown(fingerprint, pubkey),
        ),
{
}

} // verus!
