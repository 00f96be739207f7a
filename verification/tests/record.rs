use citadel_core::address::{Address, AddressNetwork, AddressPayload};
use citadel_core::record::{
    find_unresolved, highest_used, history_batch, resolve_scripts, utxo_batch, HistoryItem,
    HistoryTxid, Resolved, ScriptEntry, UnspentItem, UtxoTxid,
};
use citadel_core::txid::Txid;

fn txid(n: u8) -> Txid {
    Txid { bytes: [n; 32] }
}

fn address(n: u8) -> Address {
    Address { payload: AddressPayload::WPubkeyHash([n; 20]), network: AddressNetwork::Mainnet }
}

fn script(n: u8) -> Vec<u8> {
    let mut s = vec![0x00, 0x14];
    s.extend_from_slice(&[n; 20]);
    s
}

fn resolved(index: u32, n: u8) -> Resolved {
    Resolved { index, address: Some(address(n)) }
}

fn seen(n: u8, height: i32) -> HistoryItem {
    HistoryItem { txid: txid(n), height }
}

fn coin(n: u8, pos: u32, value: u64) -> UnspentItem {
    UnspentItem { txid: txid(n), height: 100 + n as u32, pos, value }
}

#[test]
fn scripts_are_resolved_one_by_one() {
    let scripts = vec![
        ScriptEntry { index: 40, script: script(1) },
        ScriptEntry { index: 41, script: vec![0x6a] },
        ScriptEntry { index: 42, script: script(3) },
    ];
    assert_eq!(
        resolve_scripts(&scripts, AddressNetwork::Mainnet),
        vec![
            resolved(40, 1),
            Resolved { index: 41, address: None },
            resolved(42, 3),
        ]
    );
}

#[test]
fn history_is_filed_script_by_script() {
    let scripts = vec![resolved(20, 1), resolved(21, 2), resolved(22, 3)];
    let history = vec![vec![seen(9, 700), seen(8, 0)], vec![], vec![seen(7, -1)]];
    let batch = history_batch(&scripts, &history, true).unwrap();
    assert_eq!(
        batch,
        vec![
            HistoryTxid { txid: txid(9), height: 700, address: address(1), index: 20, change: true },
            HistoryTxid { txid: txid(8), height: 0, address: address(1), index: 20, change: true },
            HistoryTxid { txid: txid(7), height: -1, address: address(3), index: 22, change: true },
        ]
    );
}

#[test]
fn history_beyond_the_scripts_is_not_looked_at() {
    let scripts = vec![resolved(0, 1)];
    let history = vec![vec![seen(1, 5)], vec![seen(2, 6)]];
    let batch = history_batch(&scripts, &history, false).unwrap();
    assert_eq!(
        batch,
        vec![HistoryTxid { txid: txid(1), height: 5, address: address(1), index: 0, change: false }]
    );
}

#[test]
fn scripts_beyond_the_history_give_nothing() {
    let scripts = vec![resolved(0, 1), resolved(1, 2)];
    let history = vec![vec![seen(1, 5)]];
    assert_eq!(history_batch(&scripts, &history, false).unwrap().len(), 1);
    assert_eq!(history_batch(&scripts, &Vec::new(), false).unwrap(), vec![]);
}

#[test]
fn history_under_a_script_without_address_is_a_fault() {
    let scripts = vec![
        resolved(0, 1),
        Resolved { index: 1, address: None },
        Resolved { index: 2, address: None },
    ];
    let quiet = vec![vec![seen(1, 5)], vec![], vec![]];
    assert!(history_batch(&scripts, &quiet, false).is_ok());
    let active = vec![vec![seen(1, 5)], vec![], vec![seen(2, 6)]];
    assert_eq!(history_batch(&scripts, &active, false), Err(2));
    let both = vec![vec![], vec![seen(3, 1)], vec![seen(2, 6)]];
    assert_eq!(history_batch(&scripts, &both, false), Err(1));
    assert_eq!(find_unresolved(&scripts, &both), Some(1));
    assert_eq!(find_unresolved(&scripts, &quiet), None);
}

#[test]
fn unspent_outputs_are_filed_script_by_script() {
    let scripts = vec![resolved(5, 1), resolved(6, 2)];
    let unspent = vec![vec![coin(1, 0, 5000)], vec![coin(2, 3, 7), coin(1, 1, 9)]];
    let batch = utxo_batch(&scripts, &unspent, false).unwrap();
    assert_eq!(
        batch,
        vec![
            UtxoTxid {
                txid: txid(1),
                height: 101,
                pos: 0,
                value: 5000,
                address: address(1),
                index: 5,
                change: false,
            },
            UtxoTxid {
                txid: txid(2),
                height: 102,
                pos: 3,
                value: 7,
                address: address(2),
                index: 6,
                change: false,
            },
            UtxoTxid {
                txid: txid(1),
                height: 101,
                pos: 1,
                value: 9,
                address: address(2),
                index: 6,
                change: false,
            },
        ]
    );
}

#[test]
fn unspent_outputs_under_a_script_without_address_are_a_fault() {
    let scripts = vec![Resolved { index: 0, address: None }, resolved(1, 2)];
    let unspent = vec![vec![coin(1, 0, 1)], vec![coin(2, 0, 2)]];
    assert_eq!(utxo_batch(&scripts, &unspent, true), Err(0));
}

#[test]
fn highest_used_is_the_largest_index() {
    let record = |index: u32| HistoryTxid {
        txid: txid(1),
        height: 1,
        address: address(1),
        index,
        change: false,
    };
    assert_eq!(highest_used(&vec![record(3), record(19), record(5)]), 19);
    assert_eq!(highest_used(&vec![record(0)]), 0);
    assert_eq!(highest_used(&vec![record(7), record(7)]), 7);
    assert_eq!(highest_used(&Vec::new()), 0);
}
