use std::str::FromStr;

use bitcoin::util::bip32::{ChildNumber, ExtendedPrivKey};
use bitcoin::Network;
use citadel_core::sign::{
    ExtendedKey, Fingerprint, KeyPair, PublicKey, SecretKey, SecretProviderError, XOnlyPublicKey,
    XprivSigner, CURVE_ORDER,
};
use secp256k1::SECP256K1;

const HARDENED: u32 = 0x8000_0000;

fn seed() -> Vec<u8> {
    (0u8..16).collect()
}

fn master() -> ExtendedPrivKey {
    ExtendedPrivKey::new_master(Network::Bitcoin, &seed()).unwrap()
}

fn signer() -> XprivSigner {
    XprivSigner::new(ExtendedKey { bytes: master().encode() }).unwrap()
}

fn own_fingerprint() -> Fingerprint {
    Fingerprint { bytes: master().fingerprint(SECP256K1).into_bytes() }
}

fn some_pubkey() -> PublicKey {
    let key = secp256k1::PublicKey::from_secret_key(SECP256K1, &master().private_key);
    PublicKey { bytes: key.serialize() }
}

fn steps(path: &[u32]) -> Vec<ChildNumber> {
    path.iter().map(|n| ChildNumber::from(*n)).collect()
}

fn key_with_secret(secret: [u8; 32]) -> ExtendedKey {
    let mut bytes = master().encode();
    bytes[46..78].copy_from_slice(&secret);
    ExtendedKey { bytes }
}

#[test]
fn signer_holds_the_key_it_was_made_with() {
    assert_eq!(signer().xpriv().bytes, master().encode());
}

#[test]
fn fingerprint_is_that_of_the_master_key() {
    assert_eq!(signer().fingerprint(), own_fingerprint());
    assert_eq!(signer().fingerprint().bytes, [0x34, 0x42, 0x19, 0x3e]);
}

#[test]
fn derive_follows_the_path() {
    let path = [HARDENED, 1, HARDENED + 2, 2, 1_000_000_000];
    let derived = signer().derive_xpriv(own_fingerprint(), &path, some_pubkey()).unwrap();
    let expected = master().derive_priv(SECP256K1, &steps(&path)).unwrap();
    assert_eq!(derived.bytes, expected.encode());
    assert_eq!(derived.depth(), 5);
}

#[test]
fn derive_matches_the_published_vector() {
    let derived = signer().derive_xpriv(own_fingerprint(), &[HARDENED], some_pubkey()).unwrap();
    let expected = ExtendedPrivKey::from_str(
        "xprv9uHRZZhk6KAJC1avXpDAp4MDc3sQKNxDiPvvkX8Br5ngLNv1TxvUxt4cV1rGL5hj6KCesnDYUhd7oWgT11eZG7XnxHrnYeSvkzY7d2bhkJ7",
    )
    .unwrap();
    assert_eq!(derived.bytes, expected.encode());
}

#[test]
fn derive_along_the_empty_path_gives_the_master_key() {
    let derived = signer().derive_xpriv(own_fingerprint(), &[], some_pubkey()).unwrap();
    assert_eq!(derived.bytes, master().encode());
}

#[test]
fn derive_twice_gives_the_same_bytes() {
    let path = [HARDENED + 84, HARDENED, HARDENED, 0, 7];
    let first = signer().derive_xpriv(own_fingerprint(), &path, some_pubkey());
    let second = signer().derive_xpriv(own_fingerprint(), &path, some_pubkey());
    assert!(first.is_ok());
    assert_eq!(first, second);
}

#[test]
fn derive_refuses_a_foreign_fingerprint() {
    let foreign = Fingerprint { bytes: [0x34, 0x42, 0x19, 0x3f] };
    let outcome = signer().derive_xpriv(foreign, &[0, 1], some_pubkey());
    assert_eq!(outcome, Err(SecretProviderError::AccountUnknown(foreign, some_pubkey())));
}

#[test]
fn derive_refuses_a_foreign_fingerprint_on_any_path() {
    let foreign = Fingerprint { bytes: [0, 0, 0, 0] };
    let long = vec![1u32; 300];
    let outcome = signer().derive_xpriv(foreign, &long, some_pubkey());
    assert_eq!(outcome, Err(SecretProviderError::AccountUnknown(foreign, some_pubkey())));
}

#[test]
fn secret_key_is_the_scalar_of_the_derived_key() {
    let path = [HARDENED + 44, HARDENED, HARDENED, 1, 3];
    let secret = signer().secret_key(own_fingerprint(), &path, some_pubkey()).unwrap();
    let expected = master().derive_priv(SECP256K1, &steps(&path)).unwrap();
    assert_eq!(secret, SecretKey { bytes: expected.private_key.secret_bytes() });
    assert_ne!(secret.bytes, master().private_key.secret_bytes());
}

#[test]
fn secret_key_refuses_a_foreign_fingerprint() {
    let foreign = Fingerprint { bytes: [1, 2, 3, 4] };
    let outcome = signer().secret_key(foreign, &[0], some_pubkey());
    assert_eq!(outcome, Err(SecretProviderError::AccountUnknown(foreign, some_pubkey())));
}

#[test]
fn key_pair_belongs_to_the_derived_scalar() {
    let path = [HARDENED + 86, HARDENED, HARDENED, 0, 0];
    let expected_key = master().derive_priv(SECP256K1, &steps(&path)).unwrap();
    let expected = secp256k1::KeyPair::from_secret_key(SECP256K1, &expected_key.private_key);
    let (x_only, _) = expected.x_only_public_key();
    let pair = signer()
        .key_pair(own_fingerprint(), &path, XOnlyPublicKey { bytes: x_only.serialize() })
        .unwrap();
    assert_eq!(
        pair,
        KeyPair {
            secret: SecretKey { bytes: expected.secret_bytes() },
            public: PublicKey { bytes: expected.public_key().serialize() },
        }
    );
    assert_eq!(&pair.public.bytes[1..], &x_only.serialize()[..]);
}

#[test]
fn key_pair_refusal_carries_the_even_public_key() {
    let foreign = Fingerprint { bytes: [9, 9, 9, 9] };
    let x = XOnlyPublicKey { bytes: [0x11; 32] };
    let mut even = [0x11u8; 33];
    even[0] = 0x02;
    let outcome = signer().key_pair(foreign, &[0], x);
    assert_eq!(
        outcome,
        Err(SecretProviderError::AccountUnknown(foreign, PublicKey { bytes: even }))
    );
}

#[test]
fn to_public_key_agrees_with_compressed_even_key() {
    let (x_only, _) = secp256k1::KeyPair::from_secret_key(SECP256K1, &master().private_key)
        .x_only_public_key();
    let full = XOnlyPublicKey { bytes: x_only.serialize() }.to_public_key();
    let parsed = secp256k1::PublicKey::from_slice(&full.bytes).unwrap();
    assert_eq!(full.bytes[0], 0x02);
    assert_eq!(secp256k1::XOnlyPublicKey::from(parsed), x_only);
}

#[test]
fn signer_never_takes_part_in_aggregation() {
    assert!(!signer().use_musig());
}

#[test]
fn signer_accepts_both_key_versions() {
    let test = ExtendedPrivKey::new_master(Network::Testnet, &seed()).unwrap();
    assert!(XprivSigner::new(ExtendedKey { bytes: test.encode() }).is_some());
    let signet = ExtendedPrivKey::new_master(Network::Signet, &seed()).unwrap();
    assert!(XprivSigner::new(ExtendedKey { bytes: signet.encode() }).is_some());
}

#[test]
fn signer_refuses_an_unknown_version() {
    let mut bytes = master().encode();
    bytes[3] = 0x1e;
    assert!(XprivSigner::new(ExtendedKey { bytes }).is_none());
    let mut other = master().encode();
    other[0] = 0x05;
    assert!(XprivSigner::new(ExtendedKey { bytes: other }).is_none());
    let mut mixed = master().encode();
    mixed[1] = 0x35;
    assert!(XprivSigner::new(ExtendedKey { bytes: mixed }).is_none());
}

#[test]
fn signer_refuses_the_zero_scalar() {
    assert!(XprivSigner::new(key_with_secret([0u8; 32])).is_none());
}

#[test]
fn signer_accepts_scalars_below_the_group_order_only() {
    let order = secp256k1::constants::CURVE_ORDER;
    assert_eq!(order[15], 0xfe);
    assert_eq!(&order[28..], &[0xd0, 0x36, 0x41, 0x41]);
    assert!(XprivSigner::new(key_with_secret(order)).is_none());
    let mut below = order;
    below[31] -= 1;
    assert!(XprivSigner::new(key_with_secret(below)).is_some());
    let mut above = order;
    above[31] += 1;
    assert!(XprivSigner::new(key_with_secret(above)).is_none());
    assert!(XprivSigner::new(key_with_secret([0xff; 32])).is_none());
    let mut one = [0u8; 32];
    one[31] = 1;
    assert!(XprivSigner::new(key_with_secret(one)).is_some());
}

#[test]
fn signer_ignores_the_padding_byte() {
    let mut bytes = master().encode();
    bytes[45] = 7;
    let padded = XprivSigner::new(ExtendedKey { bytes }).unwrap();
    assert_eq!(padded.fingerprint(), own_fingerprint());
}

#[test]
fn extended_key_reads_depth_and_scalar() {
    let child = master().derive_priv(SECP256K1, &steps(&[1, 2, 3])).unwrap();
    let key = ExtendedKey { bytes: child.encode() };
    assert_eq!(key.depth(), 3);
    assert_eq!(key.private_key().bytes, child.private_key.secret_bytes());
}

#[test]
fn fingerprints_compare_by_bytes() {
    let a = Fingerprint { bytes: [1, 2, 3, 4] };
    assert!(a.same(&Fingerprint { bytes: [1, 2, 3, 4] }));
    assert!(!a.same(&Fingerprint { bytes: [1, 2, 3, 5] }));
    assert!(!a.same(&Fingerprint { bytes: [0, 2, 3, 4] }));
}

#[test]
fn the_group_order_is_that_of_the_curve_library() {
    assert_eq!(CURVE_ORDER, secp256k1::constants::CURVE_ORDER);
}

#[test]
fn scalars_are_valid_as_the_curve_library_says() {
    let mut samples: Vec<[u8; 32]> = vec![[0u8; 32], [0xff; 32], CURVE_ORDER, [0x42; 32]];
    let mut below = CURVE_ORDER;
    below[31] -= 1;
    samples.push(below);
    let mut above = CURVE_ORDER;
    above[31] += 1;
    samples.push(above);
    let mut high = CURVE_ORDER;
    high[16] = 0xbb;
    high[31] = 0;
    samples.push(high);
    let mut low = CURVE_ORDER;
    low[16] = 0xb9;
    low[31] = 0xff;
    samples.push(low);
    let mut one = [0u8; 32];
    one[31] = 1;
    samples.push(one);
    let mut top = [0u8; 32];
    top[0] = 1;
    samples.push(top);
    for bytes in samples {
        assert_eq!(
            SecretKey { bytes }.is_valid(),
            secp256k1::SecretKey::from_slice(&bytes).is_ok()
        );
    }
}

#[test]
fn keys_are_decodable_as_the_key_library_says() {
    let mut samples = vec![master().encode(), key_with_secret([0u8; 32]).bytes];
    samples.push(ExtendedPrivKey::new_master(Network::Regtest, &seed()).unwrap().encode());
    for (at, byte) in [(0usize, 0x05u8), (1, 0x35), (1, 0x88), (2, 0x83), (3, 0x94), (3, 0xe4), (45, 9)] {
        let mut bytes = master().encode();
        bytes[at] = byte;
        samples.push(bytes);
        let mut test = ExtendedPrivKey::new_master(Network::Testnet, &seed()).unwrap().encode();
        test[at] = byte;
        samples.push(test);
    }
    samples.push(key_with_secret(CURVE_ORDER).bytes);
    for bytes in samples {
        let key = ExtendedKey { bytes };
        assert_eq!(key.is_decodable(), ExtendedPrivKey::decode(&bytes).is_ok());
        assert_eq!(XprivSigner::new(key).is_some(), key.is_decodable());
    }
}

#[test]
fn a_derived_key_shows_where_it_came_from() {
    for network in [Network::Bitcoin, Network::Testnet] {
        let root = ExtendedPrivKey::new_master(network, &seed()).unwrap();
        let signer = XprivSigner::new(ExtendedKey { bytes: root.encode() }).unwrap();
        let own = signer.fingerprint();
        for path in [vec![7u32], vec![HARDENED + 44, 0x0102_0304], vec![1, 2, HARDENED + 0x00ab_cdef]] {
            let child = signer.derive_xpriv(own, &path, some_pubkey()).unwrap();
            assert_eq!(child.bytes[0..4], root.encode()[0..4]);
            assert_eq!(child.depth() as usize, path.len());
            assert_eq!(child.bytes[9..13], path.last().unwrap().to_be_bytes());
        }
        let same = signer.derive_xpriv(own, &[], some_pubkey()).unwrap();
        assert_eq!(same.depth(), 0);
        assert_eq!(same.bytes[0..4], root.encode()[0..4]);
    }
    let deep = master().derive_priv(SECP256K1, &steps(&[1, 2, 3])).unwrap();
    let signer = XprivSigner::new(ExtendedKey { bytes: deep.encode() }).unwrap();
    let child = signer.derive_xpriv(signer.fingerprint(), &[9, 8], some_pubkey()).unwrap();
    assert_eq!(child.depth(), 5);
    assert_eq!(child.bytes[9..13], [0, 0, 0, 8]);
}

#[test]
fn a_request_can_be_answered_within_the_depth_of_a_key() {
    let foreign = Fingerprint { bytes: [0, 0, 0, 0] };
    assert!(signer().can_derive(own_fingerprint(), &[]));
    assert!(signer().can_derive(own_fingerprint(), &vec![1u32; 255]));
    assert!(!signer().can_derive(own_fingerprint(), &vec![1u32; 256]));
    assert!(signer().can_derive(foreign, &vec![1u32; 256]));
    let deep = master().derive_priv(SECP256K1, &steps(&[1, 2, 3])).unwrap();
    let signer = XprivSigner::new(ExtendedKey { bytes: deep.encode() }).unwrap();
    assert!(signer.can_derive(signer.fingerprint(), &vec![1u32; 252]));
    assert!(!signer.can_derive(signer.fingerprint(), &vec![1u32; 253]));
    let last = signer.derive_xpriv(signer.fingerprint(), &vec![1u32; 252], some_pubkey()).unwrap();
    assert_eq!(last.depth(), 255);
}

#[test]
fn the_empty_path_gives_the_key_with_a_zero_before_the_scalar() {
    let mut bytes = ExtendedPrivKey::new_master(Network::Testnet, &seed())
        .unwrap()
        .derive_priv(SECP256K1, &steps(&[HARDENED + 1, 2]))
        .unwrap()
        .encode();
    let plain = XprivSigner::new(ExtendedKey { bytes }).unwrap();
    let same = plain.derive_xpriv(plain.fingerprint(), &[], some_pubkey()).unwrap();
    assert_eq!(same.bytes, bytes);
    bytes[45] = 0x5a;
    let padded = XprivSigner::new(ExtendedKey { bytes }).unwrap();
    let child = padded.derive_xpriv(padded.fingerprint(), &[], some_pubkey()).unwrap();
    bytes[45] = 0;
    assert_eq!(child.bytes, bytes);
}
