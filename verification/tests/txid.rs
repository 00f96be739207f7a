use std::collections::BTreeSet;

use bitcoin::hashes::Hash as _;
use citadel_core::txid::{Txid, TxidSet};

fn id(first: u8, last: u8) -> Txid {
    let mut bytes = [0u8; 32];
    bytes[0] = first;
    bytes[31] = last;
    Txid { bytes }
}

fn contents(set: &TxidSet) -> Vec<Txid> {
    (0..set.len()).map(|i| set.get(i)).collect()
}

#[test]
fn order_is_decided_by_the_first_differing_byte() {
    assert!(id(1, 9).precedes(&id(2, 0)));
    assert!(!id(2, 0).precedes(&id(1, 9)));
    assert!(id(1, 1).precedes(&id(1, 2)));
    assert!(!id(1, 2).precedes(&id(1, 1)));
    assert!(!id(1, 1).precedes(&id(1, 1)));
    let mut low = [0u8; 32];
    let mut high = [0u8; 32];
    low[5] = 1;
    low[6] = 0xff;
    high[5] = 2;
    assert!(Txid { bytes: low }.precedes(&Txid { bytes: high }));
}

#[test]
fn identifiers_are_the_same_by_bytes() {
    assert!(id(1, 1).same(&id(1, 1)));
    assert!(!id(1, 1).same(&id(1, 2)));
    assert!(!id(0, 1).same(&id(1, 1)));
}

#[test]
fn a_new_set_is_empty() {
    let set = TxidSet::new();
    assert_eq!(set.len(), 0);
    assert!(!set.contains(&id(0, 0)));
}

#[test]
fn a_set_keeps_ascending_order() {
    let mut set = TxidSet::new();
    for (a, b) in [(5u8, 0u8), (1, 0), (3, 7), (3, 2), (9, 9), (0, 1)] {
        set.insert(id(a, b));
    }
    assert_eq!(
        contents(&set),
        vec![id(0, 1), id(1, 0), id(3, 2), id(3, 7), id(5, 0), id(9, 9)]
    );
}

#[test]
fn a_set_holds_each_identifier_once() {
    let mut set = TxidSet::new();
    set.insert(id(4, 4));
    set.insert(id(2, 2));
    set.insert(id(4, 4));
    set.insert(id(2, 2));
    set.insert(id(4, 4));
    assert_eq!(contents(&set), vec![id(2, 2), id(4, 4)]);
    assert!(set.contains(&id(4, 4)));
    assert!(set.contains(&id(2, 2)));
    assert!(!set.contains(&id(3, 3)));
}

#[test]
fn a_set_orders_as_the_hash_type_does() {
    let mut ours = TxidSet::new();
    let mut theirs: BTreeSet<bitcoin::Txid> = BTreeSet::new();
    for n in 0u32..200 {
        let hash = bitcoin::Txid::hash(&n.to_le_bytes());
        ours.insert(Txid { bytes: hash.into_inner() });
        theirs.insert(hash);
        if n % 3 == 0 {
            ours.insert(Txid { bytes: hash.into_inner() });
        }
    }
    let expected: Vec<Txid> = theirs.iter().map(|h| Txid { bytes: h.into_inner() }).collect();
    assert_eq!(contents(&ours), expected);
    assert_eq!(ours.len(), 200);
}
