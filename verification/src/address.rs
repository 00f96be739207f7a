use bitcoin::hashes as hashes;
use bitcoin_scripts::address as compat;
use vstd::prelude::*;

verus! {

/// The network an address is written for.
#[derive(Clone, Copy, Debug, PartialEq, Eq, PartialOrd, Ord, Hash)]
pub enum AddressNetwork {
    Mainnet,
    Testnet,
    Regtest,
}

/// The five output forms that have an address.
#[derive(Clone, Copy, Debug, PartialEq, Eq, PartialOrd, Ord, Hash)]
pub enum PayloadKind {
    PubkeyHash,
    ScriptHash,
    WPubkeyHash,
    WScriptHash,
    Taproot,
}

/// What an address commits to: a hash of a key or of a script, or a
/// taproot output key.
#[derive(Clone, Copy, Debug, PartialEq, Eq, PartialOrd, Ord, Hash)]
pub enum AddressPayload {
    PubkeyHash([u8; 20]),
    ScriptHash([u8; 20]),
    WPubkeyHash([u8; 20]),
    WScriptHash([u8; 32]),
    Taproot([u8; 32]),
}

/// An address: a payload and the network it is written for.
#[derive(Clone, Copy, Debug, PartialEq, Eq, PartialOrd, Ord, Hash)]
pub struct Address {
    pub payload: AddressPayload,
    pub network: AddressNetwork,
}

/// A payload as its kind and the bytes it holds.
pub struct PayloadForm {
    pub kind: PayloadKind,
    pub bytes: Seq<u8>,
}

/// An address as plain mathematical values.
pub struct AddressForm {
    pub payload: PayloadForm,
    pub network: AddressNetwork,
}

impl View for AddressPayload {
    type V = PayloadForm;

    open spec fn view(&self) -> PayloadForm {
        match *self {
            AddressPayload::PubkeyHash(h) => PayloadForm { kind: PayloadKind::PubkeyHash, bytes: h@ },
            AddressPayload::ScriptHash(h) => PayloadForm { kind: PayloadKind::ScriptHash, bytes: h@ },
            AddressPayload::WPubkeyHash(h) => PayloadForm {
                kind: PayloadKind::WPubkeyHash,
                bytes: h@,
            },
            AddressPayload::WScriptHash(h) => PayloadForm {
                kind: PayloadKind::WScriptHash,
                bytes: h@,
            },
            AddressPayload::Taproot(k) => PayloadForm { kind: PayloadKind::Taproot, bytes: k@ },
        }
    }
}

impl View for Address {
    type V = AddressForm;

    open spec fn view(&self) -> AddressForm {
        AddressForm { payload: self.payload@, network: self.network }
    }
}

/// The form of an optional payload.
pub open spec fn payload_form(payload: Option<AddressPayload>) -> Option<PayloadForm> {
    match payload {
        Some(p) => Some(p@),
        None => None,
    }
}

/// The form of an optional address.
pub open spec fn address_form(address: Option<Address>) -> Option<AddressForm> {
    match address {
        Some(a) => Some(a@),
        None => None,
    }
}

/// Pay to public key hash: `DUP HASH160 <20 bytes> EQUALVERIFY CHECKSIG`.
pub open spec fn is_p2pkh(script: Seq<u8>) -> bool {
    &&& script.len() == 25
    &&& script[0] == 0x76
    &&& script[1] == 0xa9
    &&& script[2] == 0x14
    &&& script[23] == 0x88
    &&& script[24] == 0xac
}

/// Pay to script hash: `HASH160 <20 bytes> EQUAL`.
pub open spec fn is_p2sh(script: Seq<u8>) -> bool {
    &&& script.len() == 23
    &&& script[0] == 0xa9
    &&& script[1] == 0x14
    &&& script[22] == 0x87
}

/// A witness program: a version opcode (`0`, or `1` to `16`) and one push of
/// 2 to 40 bytes that fills the rest of the script.
pub open spec fn is_witness_program(script: Seq<u8>) -> bool {
    &&& 4 <= script.len() <= 42
    &&& (script[0] == 0x00 || 0x51 <= script[0] <= 0x60)
    &&& 2 <= script[1] <= 40
    &&& script.len() - 2 == script[1]
}

/// A witness program of version 1.
pub open spec fn is_witness_v1(script: Seq<u8>) -> bool {
    is_witness_program(script) && script[0] == 0x51
}

/// The payload that the shape of an output script gives, before any check
/// of a taproot output key.
pub open spec fn script_payload(script: Seq<u8>) -> Option<PayloadForm> {
    if is_p2pkh(script) {
        Some(PayloadForm { kind: PayloadKind::PubkeyHash, bytes: script.subrange(3, 23) })
    } else if is_p2sh(script) {
        Some(PayloadForm { kind: PayloadKind::ScriptHash, bytes: script.subrange(2, 22) })
    } else if is_witness_program(script) && script[0] == 0x00 && script.len() == 22 {
        Some(PayloadForm { kind: PayloadKind::WPubkeyHash, bytes: script.subrange(2, 22) })
    } else if is_witness_program(script) && script[0] == 0x00 && script.len() == 34 {
        Some(PayloadForm { kind: PayloadKind::WScriptHash, bytes: script.subrange(2, 34) })
    } else if is_witness_v1(script) && script.len() == 34 {
        Some(PayloadForm { kind: PayloadKind::Taproot, bytes: script.subrange(2, 34) })
    } else {
        None
    }
}

/// Whether 32 bytes are the x coordinate of a point of the curve.
pub uninterp spec fn on_curve(x: Seq<u8>) -> bool;

/// The address of an output script on a network: the payload its shape
/// gives, where a taproot output key must be a point of the curve.
pub open spec fn script_address(script: Seq<u8>, network: AddressNetwork) -> Option<AddressForm> {
    match script_payload(script) {
        Some(payload) => if payload.kind == PayloadKind::Taproot && !on_curve(payload.bytes) {
            None
        } else {
            Some(AddressForm { payload, network })
        },
        None => None,
    }
}

/// `secp256k1::XOnlyPublicKey::from_slice` on 32 bytes: whether it accepts
/// them as the x coordinate of a curve point.
#[verifier::external_body]
fn is_curve_point(x: &[u8; 32]) -> (valid: bool)
    ensures
        valid == on_curve(x@),
{
    secp256k1::XOnlyPublicKey::from_slice(x).is_ok()
}

/// `bitcoin_scripts::address::AddressCompat::from_script`, handing out the
/// payload of the address it finds. Its source reads the script's shape as
/// `script_payload` states it. On a version 1 witness program it stops the
/// program unless the program is 32 bytes long and a point of the curve:
/// those scripts are left out.
#[verifier::external_body]
fn compat_payload(script: &Vec<u8>, network: AddressNetwork) -> (found: Option<AddressPayload>)
    requires
        is_witness_v1(script@) ==> script@.len() == 34 && on_curve(script@.subrange(2, 34)),
    ensures
        payload_form(found) == script_payload(script@),
{
    let net = match network {
        AddressNetwork::Mainnet => compat::AddressNetwork::Mainnet,
        AddressNetwork::Testnet => compat::AddressNetwork::Testnet,
        AddressNetwork::Regtest => compat::AddressNetwork::Regtest,
    };
    let spk = bitcoin::Script::from(script.clone()).into();
    Some(match compat::AddressCompat::from_script(&spk, net)?.payload {
        compat::AddressPayload::PubkeyHash(h) => AddressPayload::PubkeyHash(hashes::Hash::into_inner(h)),
        compat::AddressPayload::ScriptHash(h) => AddressPayload::ScriptHash(hashes::Hash::into_inner(h)),
        compat::AddressPayload::WPubkeyHash(h) => AddressPayload::WPubkeyHash(hashes::Hash::into_inner(h)),
        compat::AddressPayload::WScriptHash(h) => AddressPayload::WScriptHash(hashes::Hash::into_inner(h)),
        compat::AddressPayload::Taproot { output_key } => AddressPayload::Taproot(output_key.serialize()),
    })
}

/// Whether `script` is a witness program of version 1.
pub fn witness_v1(script: &Vec<u8>) -> (r: bool)
    ensures
        r == is_witness_v1(script@),
{
    let n = script.len();
    if n < 4 || n > 42 {
        return false;
    }
    let push: usize = script[1].into();
    script[0] == 0x51 && 2 <= push && push <= 40 && n - 2 == push
}

/// The address of an output script on a network, if it has one.
pub fn resolve_address(script: &Vec<u8>, network: AddressNetwork) -> (address: Option<Address>)
    ensures
        address_form(address) == script_address(script@, network),
{
    if witness_v1(script) {
        if script.len() != 34 {
            return None;
        }
        let mut key: [u8; 32] = [0u8; 32];
        let mut i: usize = 0;
        while i < 32
            invariant
                0 <= i <= 32,
                script@.len() == 34,
                forall|j: int| 0 <= j < i ==> key@[j] == script@[j + 2],
            decreases 32 - i,
        {
            key[i] = script[i + 2];
            i += 1;
        }
        assert(key@ =~= script@.subrange(2, 34));
        if !is_curve_point(&key) {
            return None;
        }
    }
    match compat_payload(script, network) {
        Some(payload) => Some(Address { payload, network }),
        None => None,
    }
}

} // verus!
