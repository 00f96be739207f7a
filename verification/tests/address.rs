use bitcoin_scripts::address::AddressCompat;
use citadel_core::address::{
    resolve_address, witness_v1, Address, AddressNetwork, AddressPayload,
};

fn bytes20(seed: u8) -> [u8; 20] {
    let mut out = [0u8; 20];
    for (i, b) in out.iter_mut().enumerate() {
        *b = seed.wrapping_add(i as u8);
    }
    out
}

fn bytes32(seed: u8) -> [u8; 32] {
    let mut out = [0u8; 32];
    for (i, b) in out.iter_mut().enumerate() {
        *b = seed.wrapping_mul(3).wrapping_add(i as u8);
    }
    out
}

fn p2pkh(hash: [u8; 20]) -> Vec<u8> {
    let mut s = vec![0x76, 0xa9, 0x14];
    s.extend_from_slice(&hash);
    s.extend_from_slice(&[0x88, 0xac]);
    s
}

fn p2sh(hash: [u8; 20]) -> Vec<u8> {
    let mut s = vec![0xa9, 0x14];
    s.extend_from_slice(&hash);
    s.push(0x87);
    s
}

fn witness(version: u8, program: &[u8]) -> Vec<u8> {
    let mut s = vec![version, program.len() as u8];
    s.extend_from_slice(program);
    s
}

fn curve_point() -> [u8; 32] {
    let secret = secp256k1::SecretKey::from_slice(&[0x42; 32]).unwrap();
    let pair = secp256k1::KeyPair::from_secret_key(secp256k1::SECP256K1, &secret);
    pair.x_only_public_key().0.serialize()
}

fn no_curve_point() -> [u8; 32] {
    let mut x = [0u8; 32];
    loop {
        if secp256k1::XOnlyPublicKey::from_slice(&x).is_err() {
            return x;
        }
        x[31] += 1;
    }
}

fn outside(script: &[u8], network: bitcoin_scripts::address::AddressNetwork) -> Option<String> {
    let spk = bitcoin::Script::from(script.to_vec()).into();
    AddressCompat::from_script(&spk, network).map(|a| a.to_string())
}

#[test]
fn address_of_pay_to_pubkey_hash() {
    let hash = bytes20(1);
    assert_eq!(
        resolve_address(&p2pkh(hash), AddressNetwork::Mainnet),
        Some(Address { payload: AddressPayload::PubkeyHash(hash), network: AddressNetwork::Mainnet })
    );
}

#[test]
fn address_of_pay_to_script_hash() {
    let hash = bytes20(7);
    assert_eq!(
        resolve_address(&p2sh(hash), AddressNetwork::Testnet),
        Some(Address { payload: AddressPayload::ScriptHash(hash), network: AddressNetwork::Testnet })
    );
}

#[test]
fn address_of_witness_pubkey_hash() {
    let hash = bytes20(9);
    assert_eq!(
        resolve_address(&witness(0x00, &hash), AddressNetwork::Regtest),
        Some(Address { payload: AddressPayload::WPubkeyHash(hash), network: AddressNetwork::Regtest })
    );
}

#[test]
fn address_of_witness_script_hash() {
    let hash = bytes32(5);
    assert_eq!(
        resolve_address(&witness(0x00, &hash), AddressNetwork::Mainnet),
        Some(Address { payload: AddressPayload::WScriptHash(hash), network: AddressNetwork::Mainnet })
    );
}

#[test]
fn address_of_taproot_output() {
    let key = curve_point();
    assert_eq!(
        resolve_address(&witness(0x51, &key), AddressNetwork::Mainnet),
        Some(Address { payload: AddressPayload::Taproot(key), network: AddressNetwork::Mainnet })
    );
}

#[test]
fn taproot_output_off_the_curve_has_no_address() {
    assert_eq!(resolve_address(&witness(0x51, &no_curve_point()), AddressNetwork::Mainnet), None);
}

#[test]
fn short_version_one_program_has_no_address() {
    assert_eq!(resolve_address(&witness(0x51, &[1, 2, 3, 4]), AddressNetwork::Mainnet), None);
    assert_eq!(resolve_address(&witness(0x51, &[7; 40]), AddressNetwork::Mainnet), None);
}

#[test]
fn later_witness_versions_have_no_address() {
    assert_eq!(resolve_address(&witness(0x52, &bytes32(1)), AddressNetwork::Mainnet), None);
    assert_eq!(resolve_address(&witness(0x60, &bytes20(1)), AddressNetwork::Mainnet), None);
}

#[test]
fn version_zero_program_of_odd_length_has_no_address() {
    assert_eq!(resolve_address(&witness(0x00, &[1; 25]), AddressNetwork::Mainnet), None);
    assert_eq!(resolve_address(&witness(0x00, &[1; 2]), AddressNetwork::Mainnet), None);
}

#[test]
fn other_scripts_have_no_address() {
    assert_eq!(resolve_address(&vec![], AddressNetwork::Mainnet), None);
    assert_eq!(resolve_address(&vec![0x6a, 0x01, 0x00], AddressNetwork::Mainnet), None);
    let mut almost = p2pkh(bytes20(1));
    almost[24] = 0xad;
    assert_eq!(resolve_address(&almost, AddressNetwork::Mainnet), None);
    let mut longer = p2sh(bytes20(1));
    longer.push(0x00);
    assert_eq!(resolve_address(&longer, AddressNetwork::Mainnet), None);
}

#[test]
fn addresses_agree_with_the_address_library() {
    let scripts = vec![
        p2pkh(bytes20(3)),
        p2sh(bytes20(4)),
        witness(0x00, &bytes20(5)),
        witness(0x00, &bytes32(6)),
        witness(0x51, &curve_point()),
        witness(0x00, &[1; 25]),
        witness(0x53, &bytes32(6)),
        vec![0x6a],
        vec![0x51],
    ];
    for script in scripts {
        let ours = resolve_address(&script, AddressNetwork::Testnet);
        let theirs = outside(&script, bitcoin_scripts::address::AddressNetwork::Testnet);
        assert_eq!(ours.is_some(), theirs.is_some());
        if let Some(address) = ours {
            let payload = match address.payload {
                AddressPayload::PubkeyHash(h) => format!("raw_pkh({})", hex(&h)),
                AddressPayload::ScriptHash(h) => format!("raw_sh({})", hex(&h)),
                AddressPayload::WPubkeyHash(h) => format!("raw_wpkh({})", hex(&h)),
                AddressPayload::WScriptHash(h) => format!("raw_wsh({})", hex(&h)),
                AddressPayload::Taproot(k) => format!("raw_tr({})", hex(&k)),
            };
            let spk = bitcoin::Script::from(script.clone()).into();
            let found = AddressCompat::from_script(
                &spk,
                bitcoin_scripts::address::AddressNetwork::Testnet,
            )
            .unwrap();
            assert_eq!(payload, found.payload.to_string());
            assert_eq!(address.network, AddressNetwork::Testnet);
        }
    }
}

fn hex(bytes: &[u8]) -> String {
    bytes.iter().map(|b| format!("{:02x}", b)).collect()
}

#[test]
fn witness_version_one_is_recognised_by_shape() {
    assert!(witness_v1(&witness(0x51, &bytes32(1))));
    assert!(witness_v1(&witness(0x51, &[1, 2])));
    assert!(witness_v1(&witness(0x51, &[1; 40])));
    assert!(!witness_v1(&witness(0x51, &[1; 41])));
    assert!(!witness_v1(&witness(0x51, &[1])));
    assert!(!witness_v1(&witness(0x00, &bytes32(1))));
    assert!(!witness_v1(&witness(0x52, &bytes32(1))));
    assert!(!witness_v1(&vec![0x51, 0x20, 1, 2]));
    assert!(!witness_v1(&vec![]));
}
