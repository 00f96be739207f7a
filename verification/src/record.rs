use crate::address::{
    address_form, resolve_address, script_address, Address, AddressForm, AddressNetwork,
};
use crate::txid::Txid;
use vstd::prelude::*;

verus! {

/// One entry of the history that the indexing service reports for a script.
#[derive(Clone, Copy, Debug, PartialEq, Eq, PartialOrd, Ord, Hash)]
pub struct HistoryItem {
    pub txid: Txid,
    /// Confirmation height; zero or negative while unconfirmed.
    pub height: i32,
}

/// One unspent output that the indexing service reports for a script.
#[derive(Clone, Copy, Debug, PartialEq, Eq, PartialOrd, Ord, Hash)]
pub struct UnspentItem {
    pub txid: Txid,
    pub height: u32,
    pub pos: u32,
    pub value: u64,
}

/// A transaction in the history of one of the wallet's addresses.
#[derive(Clone, Copy, Debug, PartialEq, Eq, PartialOrd, Ord, Hash)]
pub struct HistoryTxid {
    pub txid: Txid,
    pub height: i32,
    pub address: Address,
    pub index: u32,
    pub change: bool,
}

/// An unspent output held by one of the wallet's addresses.
#[derive(Clone, Copy, Debug, PartialEq, Eq, PartialOrd, Ord, Hash)]
pub struct UtxoTxid {
    pub txid: Txid,
    pub height: u32,
    pub pos: u32,
    pub value: u64,
    pub address: Address,
    pub index: u32,
    pub change: bool,
}

/// An output script of the wallet and the index it was derived at.
#[derive(Clone, Debug, PartialEq, Eq, PartialOrd, Ord, Hash)]
pub struct ScriptEntry {
    pub index: u32,
    pub script: Vec<u8>,
}

/// A derivation index and the address of its script, if the script has one.
#[derive(Clone, Copy, Debug, PartialEq, Eq, PartialOrd, Ord, Hash)]
pub struct Resolved {
    pub index: u32,
    pub address: Option<Address>,
}

/// A history record as mathematical values.
pub struct HistoryView {
    pub txid: Txid,
    pub height: i32,
    pub address: AddressForm,
    pub index: u32,
    pub change: bool,
}

/// An unspent-output record as mathematical values.
pub struct UtxoView {
    pub txid: Txid,
    pub height: u32,
    pub pos: u32,
    pub value: u64,
    pub address: AddressForm,
    pub index: u32,
    pub change: bool,
}

/// A script entry as mathematical values.
pub struct ScriptView {
    pub index: u32,
    pub script: Seq<u8>,
}

/// A resolved script as mathematical values.
pub struct ResolvedView {
    pub index: u32,
    pub address: Option<AddressForm>,
}

impl View for HistoryTxid {
    type V = HistoryView;

    open spec fn view(&self) -> HistoryView {
        HistoryView {
            txid: self.txid,
            height: self.height,
            address: self.address@,
            index: self.index,
            change: self.change,
        }
    }
}

impl View for UtxoTxid {
    type V = UtxoView;

    open spec fn view(&self) -> UtxoView {
        UtxoView {
            txid: self.txid,
            height: self.height,
            pos: self.pos,
            value: self.value,
            address: self.address@,
            index: self.index,
            change: self.change,
        }
    }
}

impl View for ScriptEntry {
    type V = ScriptView;

    open spec fn view(&self) -> ScriptView {
        ScriptView { index: self.index, script: self.script@ }
    }
}

impl View for Resolved {
    type V = ResolvedView;

    open spec fn view(&self) -> ResolvedView {
        ResolvedView { index: self.index, address: address_form(self.address) }
    }
}

/// Each element of a sequence by its view.
pub open spec fn views<T: View>(s: Seq<T>) -> Seq<T::V> {
    s.map_values(|x: T| x@)
}

/// Each inner vector of a sequence as a sequence.
pub open spec fn lists<T>(s: Seq<Vec<T>>) -> Seq<Seq<T>> {
    s.map_values(|v: Vec<T>| v@)
}

/// The scripts of a window, each with the address it has on `network`.
pub open spec fn resolved_scripts(scripts: Seq<ScriptView>, network: AddressNetwork) -> Seq<
    ResolvedView,
> {
    scripts.map_values(
        |s: ScriptView| ResolvedView { index: s.index, address: script_address(s.script, network) },
    )
}

/// How many scripts of a window have an answer from the service: answers
/// beyond the scripts, and scripts beyond the answers, are not looked at.
pub open spec fn paired<T>(resolved: Seq<ResolvedView>, answers: Seq<Seq<T>>) -> int {
    if resolved.len() <= answers.len() {
        resolved.len() as int
    } else {
        answers.len() as int
    }
}

/// Script `i` has entries in `answers` and no address to file them under.
pub open spec fn unresolved_at<T>(
    resolved: Seq<ResolvedView>,
    answers: Seq<Seq<T>>,
    i: int,
) -> bool {
    &&& 0 <= i < paired(resolved, answers)
    &&& answers[i].len() > 0
    &&& resolved[i].address is None
}

/// `i` is the first script that has entries and no address.
pub open spec fn first_unresolved<T>(
    resolved: Seq<ResolvedView>,
    answers: Seq<Seq<T>>,
    i: int,
) -> bool {
    &&& unresolved_at(resolved, answers, i)
    &&& forall|j: int| 0 <= j < i ==> !unresolved_at(resolved, answers, j)
}

/// Every script that has entries has an address.
pub open spec fn all_resolved<T>(resolved: Seq<ResolvedView>, answers: Seq<Seq<T>>) -> bool {
    forall|i: int| !unresolved_at(resolved, answers, i)
}

/// At most one script is the first with entries and no address.
pub proof fn lemma_first_unresolved_unique<T>(
    resolved: Seq<ResolvedView>,
    answers: Seq<Seq<T>>,
    i: int,
    j: int,
)
    requires
        first_unresolved(resolved, answers, i),
        first_unresolved(resolved, answers, j),
    ensures
        i == j,
{
}

/// The history record of one entry found under one script.
pub open spec fn history_record(
    script: ResolvedView,
    item: HistoryItem,
    change: bool,
) -> HistoryView {
    HistoryView {
        txid: item.txid,
        height: item.height,
        address: script.address->0,
        index: script.index,
        change,
    }
}

/// The unspent-output record of one entry found under one script.
pub open spec fn utxo_record(script: ResolvedView, item: UnspentItem, change: bool) -> UtxoView {
    UtxoView {
        txid: item.txid,
        height: item.height,
        pos: item.pos,
        value: item.value,
        address: script.address->0,
        index: script.index,
        change,
    }
}

/// The history records of the first `n` scripts of a window: script by
/// script, and under each script in the order the service gave.
pub open spec fn history_upto(
    resolved: Seq<ResolvedView>,
    history: Seq<Seq<HistoryItem>>,
    change: bool,
    n: int,
) -> Seq<HistoryView>
    decreases n,
{
    if n <= 0 {
        Seq::empty()
    } else {
        history_upto(resolved, history, change, n - 1) + history[n - 1].map_values(
            |item: HistoryItem| history_record(resolved[n - 1], item, change),
        )
    }
}

/// The history records of a window.
pub open spec fn history_records(
    resolved: Seq<ResolvedView>,
    history: Seq<Seq<HistoryItem>>,
    change: bool,
) -> Seq<HistoryView> {
    history_upto(resolved, history, change, paired(resolved, history))
}

/// The unspent-output records of the first `n` scripts of a window.
pub open spec fn utxo_upto(
    resolved: Seq<ResolvedView>,
    unspent: Seq<Seq<UnspentItem>>,
    change: bool,
    n: int,
) -> Seq<UtxoView>
    decreases n,
{
    if n <= 0 {
        Seq::empty()
    } else {
        utxo_upto(resolved, unspent, change, n - 1) + unspent[n - 1].map_values(
            |item: UnspentItem| utxo_record(resolved[n - 1], item, change),
        )
    }
}

/// The unspent-output records of a window.
pub open spec fn utxo_records(
    resolved: Seq<ResolvedView>,
    unspent: Seq<Seq<UnspentItem>>,
    change: bool,
) -> Seq<UtxoView> {
    utxo_upto(resolved, unspent, change, paired(resolved, unspent))
}

/// The largest derivation index among history records; zero where there
/// are none.
pub open spec fn highest_index(records: Seq<HistoryView>) -> u32
    decreases records.len(),
{
    if records.len() == 0 {
        0
    } else {
        let rest = highest_index(records.drop_last());
        if records.last().index > rest {
            records.last().index
        } else {
            rest
        }
    }
}

/// The transaction identifiers that history records refer to, in order.
pub open spec fn history_txids(records: Seq<HistoryView>) -> Seq<Txid> {
    records.map_values(|r: HistoryView| r.txid)
}

/// The transaction identifiers that unspent-output records refer to, in order.
pub open spec fn utxo_txids(records: Seq<UtxoView>) -> Seq<Txid> {
    records.map_values(|r: UtxoView| r.txid)
}

/// Finds the address of each script of a window.
pub fn resolve_scripts(scripts: &Vec<ScriptEntry>, network: AddressNetwork) -> (resolved: Vec<
    Resolved,
>)
    ensures
        views(resolved@) == resolved_scripts(views(scripts@), network),
{
    let mut resolved: Vec<Resolved> = Vec::new();
    let mut i: usize = 0;
    while i < scripts.len()
        invariant
            0 <= i <= scripts@.len(),
            resolved@.len() == i,
            forall|j: int|
                0 <= j < i ==> (#[trigger] resolved@[j])@ == (ResolvedView {
                    index: scripts@[j].index,
                    address: script_address(scripts@[j].script@, network),
                }),
        decreases scripts@.len() - i,
    {
        let address = resolve_address(&scripts[i].script, network);
        resolved.push(Resolved { index: scripts[i].index, address });
        i += 1;
    }
    assert(views(resolved@) =~= resolved_scripts(views(scripts@), network));
    resolved
}

/// The first script of a window that has entries in `answers` and no
/// address, if there is one.
pub fn find_unresolved<T>(resolved: &Vec<Resolved>, answers: &Vec<Vec<T>>) -> (found: Option<usize>)
    ensures
        match found {
            Some(i) => first_unresolved(views(resolved@), lists(answers@), i as int),
            None => all_resolved(views(resolved@), lists(answers@)),
        },
{
    let n = if resolved.len() <= answers.len() {
        resolved.len()
    } else {
        answers.len()
    };
    let mut i: usize = 0;
    while i < n
        invariant
            0 <= i <= n,
            n == paired(views(resolved@), lists(answers@)),
            forall|j: int| 0 <= j < i ==> !unresolved_at(views(resolved@), lists(answers@), j),
        decreases n - i,
    {
        if answers[i].len() > 0 && resolved[i].address.is_none() {
            return Some(i);
        }
        i += 1;
    }
    None
}

/// Pushing onto a vector pushes the view onto its views.
pub proof fn lemma_views_push<T: View>(s: Seq<T>, x: T)
    ensures
        views(s.push(x)) == views(s).push(x@),
{
    assert(views(s.push(x)) =~= views(s).push(x@));
}

/// Builds the history records of a window from the addresses of its
/// scripts and the histories that the service gave for them. Fails with the
/// position of the first script that has a history and no address.
pub fn history_batch(
    resolved: &Vec<Resolved>,
    history: &Vec<Vec<HistoryItem>>,
    change: bool,
) -> (batch: Result<Vec<HistoryTxid>, usize>)
    ensures
        match batch {
            Ok(records) => {
                &&& all_resolved(views(resolved@), lists(history@))
                &&& views(records@) == history_records(views(resolved@), lists(history@), change)
            },
            Err(i) => first_unresolved(views(resolved@), lists(history@), i as int),
        },
{
    if let Some(i) = find_unresolved(resolved, history) {
        return Err(i);
    }
    let n = if resolved.len() <= history.len() {
        resolved.len()
    } else {
        history.len()
    };
    let ghost rv = views(resolved@);
    let ghost hv = lists(history@);
    let mut batch: Vec<HistoryTxid> = Vec::new();
    let mut i: usize = 0;
    while i < n
        invariant
            0 <= i <= n,
            n == paired(rv, hv),
            rv == views(resolved@),
            hv == lists(history@),
            all_resolved(rv, hv),
            views(batch@) == history_upto(rv, hv, change, i as int),
        decreases n - i,
    {
        let items = &history[i];
        let script = resolved[i];
        let ghost before = views(batch@);
        let ghost mapped = hv[i as int].map_values(
            |item: HistoryItem| history_record(rv[i as int], item, change),
        );
        let mut k: usize = 0;
        while k < items.len()
            invariant
                0 <= k <= items@.len(),
                0 <= i < n,
                n == paired(rv, hv),
                rv == views(resolved@),
                hv == lists(history@),
                all_resolved(rv, hv),
                items@ == hv[i as int],
                script == resolved@[i as int],
                mapped == hv[i as int].map_values(
                    |item: HistoryItem| history_record(rv[i as int], item, change),
                ),
                views(batch@) == before + mapped.subrange(0, k as int),
            decreases items@.len() - k,
        {
            assert(!unresolved_at(rv, hv, i as int));
            if let Some(address) = script.address {
                let item = items[k];
                let record = HistoryTxid {
                    txid: item.txid,
                    height: item.height,
                    address,
                    index: script.index,
                    change,
                };
                proof {
                    assert(record@ == mapped[k as int]);
                    lemma_views_push(batch@, record);
                    assert(mapped.subrange(0, k + 1) =~= mapped.subrange(0, k as int).push(
                        mapped[k as int],
                    ));
                }
                batch.push(record);
            }
            k += 1;
        }
        assert(mapped.subrange(0, k as int) =~= mapped);
        i += 1;
    }
    Ok(batch)
}

/// Builds the unspent-output records of a window from the addresses of its
/// scripts and the unspent outputs that the service gave for them. Fails
/// with the position of the first script that has outputs and no address.
pub fn utxo_batch(
    resolved: &Vec<Resolved>,
    unspent: &Vec<Vec<UnspentItem>>,
    change: bool,
) -> (batch: Result<Vec<UtxoTxid>, usize>)
    ensures
        match batch {
            Ok(records) => {
                &&& all_resolved(views(resolved@), lists(unspent@))
                &&& views(records@) == utxo_records(views(resolved@), lists(unspent@), change)
            },
            Err(i) => first_unresolved(views(resolved@), lists(unspent@), i as int),
        },
{
    if let Some(i) = find_unresolved(resolved, unspent) {
        return Err(i);
    }
    let n = if resolved.len() <= unspent.len() {
        resolved.len()
    } else {
        unspent.len()
    };
    let ghost rv = views(resolved@);
    let ghost uv = lists(unspent@);
    let mut batch: Vec<UtxoTxid> = Vec::new();
    let mut i: usize = 0;
    while i < n
        invariant
            0 <= i <= n,
            n == paired(rv, uv),
            rv == views(resolved@),
            uv == lists(unspent@),
            all_resolved(rv, uv),
            views(batch@) == utxo_upto(rv, uv, change, i as int),
        decreases n - i,
    {
        let items = &unspent[i];
        let script = resolved[i];
        let ghost before = views(batch@);
        let ghost mapped = uv[i as int].map_values(
            |item: UnspentItem| utxo_record(rv[i as int], item, change),
        );
        let mut k: usize = 0;
        while k < items.len()
            invariant
                0 <= k <= items@.len(),
                0 <= i < n,
                n == paired(rv, uv),
                rv == views(resolved@),
                uv == lists(unspent@),
                all_resolved(rv, uv),
                items@ == uv[i as int],
                script == resolved@[i as int],
                mapped == uv[i as int].map_values(
                    |item: UnspentItem| utxo_record(rv[i as int], item, change),
                ),
                views(batch@) == before + mapped.subrange(0, k as int),
            decreases items@.len() - k,
        {
            assert(!unresolved_at(rv, uv, i as int));
            if let Some(address) = script.address {
                let item = items[k];
                let record = UtxoTxid {
                    txid: item.txid,
                    height: item.height,
                    pos: item.pos,
                    value: item.value,
                    address,
                    index: script.index,
                    change,
                };
                proof {
                    assert(record@ == mapped[k as int]);
                    lemma_views_push(batch@, record);
                    assert(mapped.subrange(0, k + 1) =~= mapped.subrange(0, k as int).push(
                        mapped[k as int],
                    ));
                }
                batch.push(record);
            }
            k += 1;
        }
        assert(mapped.subrange(0, k as int) =~= mapped);
        i += 1;
    }
    Ok(batch)
}

/// The largest derivation index among the records of a batch; zero where
/// the batch is empty.
pub fn highest_used(batch: &Vec<HistoryTxid>) -> (top: u32)
    ensures
        top == highest_index(views(batch@)),
{
    let mut top: u32 = 0;
    let mut i: usize = 0;
    while i < batch.len()
        invariant
            0 <= i <= batch@.len(),
            top == highest_index(views(batch@).subrange(0, i as int)),
        decreases batch@.len() - i,
    {
        proof {
            let next = views(batch@).subrange(0, i + 1);
            assert(next.drop_last() =~= views(batch@).subrange(0, i as int));
            assert(next.last() == batch@[i as int]@);
        }
        if batch[i].index > top {
            top = batch[i].index;
        }
        i += 1;
    }
    assert(views(batch@).subrange(0, i as int) =~= views(batch@));
    top
}

/// The largest index of a batch is at least every index in it, and one of
/// them where the batch is not empty.
pub proof fn law_highest_index(records: Seq<HistoryView>)
    ensures
        forall|i: int| 0 <= i < records.len() ==> records[i].index <= highest_index(records),
        records.len() > 0 ==> exists|i: int|
            0 <= i < records.len() && records[i].index == highest_index(records),
    decreases records.len(),
{
    if records.len() > 0 {
        let front = records.drop_last();
        law_highest_index(front);
        assert forall|i: int| 0 <= i < records.len() implies records[i].index <= highest_index(
            records,
        ) by {
            if i < front.len() {
                assert(front[i] == records[i]);
            }
        }
        if records.last().index > highest_index(front) {
            assert(records[records.len() - 1].index == highest_index(records));
        } else {
            if front.len() > 0 {
                let i = choose|i: int| 0 <= i < front.len() && front[i].index == highest_index(front);
                assert(records[i].index == highest_index(records));
            } else {
                assert(records[records.len() - 1].index == highest_index(records));
            }
        }
    }
}

/// Every history record of a window stems from one entry under one of its
/// scripts: it carries the transaction and the height of the entry, and the
/// index and the address of the script.
pub proof fn law_history_origin(
    resolved: Seq<ResolvedView>,
    history: Seq<Seq<HistoryItem>>,
    change: bool,
    n: int,
    r: int,
) -> (at: (int, int))
    requires
        0 <= n <= paired(resolved, history),
        0 <= r < history_upto(resolved, history, change, n).len(),
    ensures
        0 <= at.0 < n,
        0 <= at.1 < history[at.0].len(),
        history_upto(resolved, history, change, n)[r] == history_record(
            resolved[at.0],
            history[at.0][at.1],
            change,
        ),
    decreases n,
{
    let before = history_upto(resolved, history, change, n - 1);
    if r < before.len() {
        law_history_origin(resolved, history, change, n - 1, r)
    } else {
        (n - 1, r - before.len())
    }
}

/// Every entry under a script of a window has its history record.
pub proof fn law_history_complete(
    resolved: Seq<ResolvedView>,
    history: Seq<Seq<HistoryItem>>,
    change: bool,
    n: int,
    i: int,
    k: int,
) -> (r: int)
    requires
        0 <= i < n <= paired(resolved, history),
        0 <= k < history[i].len(),
    ensures
        0 <= r < history_upto(resolved, history, change, n).len(),
        history_upto(resolved, history, change, n)[r] == history_record(
            resolved[i],
            history[i][k],
            change,
        ),
    decreases n,
{
    let before = history_upto(resolved, history, change, n - 1);
    if i < n - 1 {
        law_history_complete(resolved, history, change, n - 1, i, k)
    } else {
        before.len() + k
    }
}

/// Every unspent-output record of a window stems from one entry under one
/// of its scripts.
pub proof fn law_utxo_origin(
    resolved: Seq<ResolvedView>,
    unspent: Seq<Seq<UnspentItem>>,
    change: bool,
    n: int,
    r: int,
) -> (at: (int, int))
    requires
        0 <= n <= paired(resolved, unspent),
        0 <= r < utxo_upto(resolved, unspent, change, n).len(),
    ensures
        0 <= at.0 < n,
        0 <= at.1 < unspent[at.0].len(),
        utxo_upto(resolved, unspent, change, n)[r] == utxo_record(
            resolved[at.0],
            unspent[at.0][at.1],
            change,
        ),
    decreases n,
{
    let before = utxo_upto(resolved, unspent, change, n - 1);
    if r < before.len() {
        law_utxo_origin(resolved, unspent, change, n - 1, r)
    } else {
        (n - 1, r - before.len())
    }
}

/// Every entry under a script of a window has its unspent-output record.
pub proof fn law_utxo_complete(
    resolved: Seq<ResolvedView>,
    unspent: Seq<Seq<UnspentItem>>,
    change: bool,
    n: int,
    i: int,
    k: int,
) -> (r: int)
    requires
        0 <= i < n <= paired(resolved, unspent),
        0 <= k < unspent[i].len(),
    ensures
        0 <= r < utxo_upto(resolved, unspent, change, n).len(),
        utxo_upto(resolved, unspent, change, n)[r] == utxo_record(
            resolved[i],
            unspent[i][k],
            change,
        ),
    decreases n,
{
    let before = utxo_upto(resolved, unspent, change, n - 1);
    if i < n - 1 {
        law_utxo_complete(resolved, unspent, change, n - 1, i, k)
    } else {
        before.len() + k
    }
}

} // verus!
