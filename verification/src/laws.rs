use crate::address::AddressNetwork;
use crate::model::{
    branch_end, initial, step_spec, top_of, valid, EngineView, EventView, PhaseView, WatchMsgView,
};
use crate::order::{lemma_lex_irreflexive, lex_lt};
use crate::record::{
    first_unresolved, highest_index, history_records, history_txids, resolved_scripts,
    utxo_records, utxo_txids, HistoryView, UtxoView,
};
use crate::trace::{
    batches_paired, completed, fetched, has_error, history_offsets, in_turn, lemma_final_absorbs,
    lemma_run_append, lemma_run_consistent, lemma_run_on_course, lemma_run_ordered, lemma_run_push,
    most_windows, progress_of, ramp, record_ids, run, scan_shape, stage,
};
use crate::txid::{ascending, insert_all, lemma_insert_all, Txid};
use vstd::prelude::*;

verus! {

/// The transactions that a run hands over are among those that its history
/// and unspent-output batches refer to, each handed over once and in
/// ascending order of their identifiers. Once the run has announced
/// completion, they are all of them.
pub proof fn law_transactions_cover_records<H, F, T, E>(
    network: AddressNetwork,
    events: Seq<EventView<H, F, T, E>>,
)
    ensures
        ({
            let sent = run(initial(network), events).1;
            &&& fetched(sent).no_duplicates()
            &&& ascending(fetched(sent))
            &&& fetched(sent).to_set().subset_of(record_ids(sent))
            &&& completed(sent) ==> fetched(sent).to_set() == record_ids(sent)
        }),
{
    lemma_run_consistent(network, events);
    let s = run(initial(network), events).0;
    let sent = run(initial(network), events).1;
    let got = fetched(sent);
    assert forall|i: int, j: int| 0 <= i < j < got.len() implies lex_lt(
        #[trigger] got[i]@,
        #[trigger] got[j]@,
    ) by {
        assert(lex_lt(s.ids[i]@, s.ids[j]@));
    }
    assert forall|i: int, j: int| 0 <= i < got.len() && 0 <= j < got.len() && i != j implies got[i]
        != got[j] by {
        if i < j {
            assert(lex_lt(got[i]@, got[j]@));
        } else {
            assert(lex_lt(got[j]@, got[i]@));
        }
        lemma_lex_irreflexive(got[i]@);
    }
    assert forall|id: Txid| got.to_set().contains(id) implies record_ids(sent).contains(id) by {
        let i = choose|i: int| 0 <= i < got.len() && got[i] == id;
        assert(s.ids[i] == id);
        assert(s.ids.to_set().contains(id));
    }
    if completed(sent) {
        assert(got =~= s.ids);
    }
}

/// The progress values of the transaction batches of a run count the
/// batches from one upward against one total: each is above zero and at
/// most the whole, each is above the one before, and the last one before
/// completion is the whole.
pub proof fn law_progress_increases<H, F, T, E>(
    network: AddressNetwork,
    events: Seq<EventView<H, F, T, E>>,
)
    ensures
        ({
            let sent = run(initial(network), events).1;
            let steps = progress_of(sent);
            &&& forall|i: int|
                0 <= i < steps.len() ==> 0 < (#[trigger] steps[i]).completed <= steps[i].total
            &&& forall|i: int, j: int|
                0 <= i < j < steps.len() ==> (#[trigger] steps[i]).completed < (
                #[trigger] steps[j]).completed && steps[i].total == steps[j].total
            &&& completed(sent) && steps.len() > 0 ==> steps.last().completed == steps.last().total
        }),
{
    lemma_run_consistent(network, events);
}

/// A run reports a failure at most once, and sends nothing after it.
pub proof fn law_failure_is_last<H, F, T, E>(
    network: AddressNetwork,
    events: Seq<EventView<H, F, T, E>>,
)
    ensures
        ({
            let sent = run(initial(network), events).1;
            forall|i: int| 0 <= i < sent.len() && (#[trigger] sent[i]) is Error ==> i == sent.len() - 1
        }),
{
    lemma_run_consistent(network, events);
    let s = run(initial(network), events).0;
    let sent = run(initial(network), events).1;
    assert forall|i: int| 0 <= i < sent.len() && (#[trigger] sent[i]) is Error implies i
        == sent.len() - 1 by {
        if i < sent.len() - 1 {
            assert(sent.drop_last()[i] is Error);
        }
    }
}

/// Once a run has reported a failure, no event makes it send anything
/// more or leave the failed state.
pub proof fn law_nothing_after_failure<H, F, T, E>(
    network: AddressNetwork,
    events: Seq<EventView<H, F, T, E>>,
    later: Seq<EventView<H, F, T, E>>,
)
    requires
        has_error(run(initial(network), events).1),
    ensures
        run(initial(network), events + later) == run(initial(network), events),
        run(initial(network), events).0.phase is Failed,
{
    lemma_run_consistent(network, events);
    let before = run(initial(network), events);
    lemma_run_append(initial(network), events, later);
    lemma_final_absorbs(before.0, later);
    assert(before.1 + Seq::<WatchMsgView<H, F, T, E>>::empty() =~= before.1);
}

/// The history records that the answers for a window give on a branch.
pub open spec fn window_found<H, F, T, E>(
    network: AddressNetwork,
    change: bool,
    window: EventView<H, F, T, E>,
) -> Seq<HistoryView> {
    match window {
        EventView::Window { scripts, history, unspent } => history_records(
            resolved_scripts(scripts, network),
            history,
            change,
        ),
        _ => Seq::empty(),
    }
}

/// The unspent-output records that the answers for a window give on a
/// branch.
pub open spec fn window_coins<H, F, T, E>(
    network: AddressNetwork,
    change: bool,
    window: EventView<H, F, T, E>,
) -> Seq<UtxoView> {
    match window {
        EventView::Window { scripts, history, unspent } => utxo_records(
            resolved_scripts(scripts, network),
            unspent,
            change,
        ),
        _ => Seq::empty(),
    }
}

/// The event holds the answers for a window, and every script with
/// history in them has an address.
pub open spec fn history_resolves<H, F, T, E>(
    network: AddressNetwork,
    window: EventView<H, F, T, E>,
) -> bool {
    match window {
        EventView::Window { scripts, history, unspent } => !exists|i: int|
            first_unresolved(resolved_scripts(scripts, network), history, i),
        _ => false,
    }
}

/// The event holds the answers for a window, and every script with
/// history or unspent outputs in them has an address.
pub open spec fn window_resolves<H, F, T, E>(
    network: AddressNetwork,
    window: EventView<H, F, T, E>,
) -> bool {
    match window {
        EventView::Window { scripts, history, unspent } => {
            &&& history_resolves(network, window)
            &&& !exists|i: int| first_unresolved(resolved_scripts(scripts, network), unspent, i)
        },
        _ => false,
    }
}

/// The gap limit. Where the first two windows of a branch have history and
/// the third has none, the run sends the two batches of each of the three
/// windows, history before unspent outputs, at the offsets 0, 20 and 40,
/// and nothing else. The batches of the third window are empty, whatever
/// the service said of its unspent outputs. The scan of the branch ends
/// there: the receiving branch follows the change branch, the fetching of
/// transactions follows the receiving branch. The highest used index of the
/// branch is the largest index in the history of the second window.
pub proof fn law_gap_limit<H, F, T, E>(
    s: EngineView,
    change: bool,
    first: EventView<H, F, T, E>,
    second: EventView<H, F, T, E>,
    third: EventView<H, F, T, E>,
)
    requires
        valid(s),
        s.phase == (PhaseView::Scanning { change, offset: 0 }),
        window_resolves(s.network, first),
        window_resolves(s.network, second),
        history_resolves(s.network, third),
        window_found(s.network, change, first).len() > 0,
        window_found(s.network, change, second).len() > 0,
        window_found(s.network, change, third).len() == 0,
    ensures
        run(s, seq![first, second, third]).1 == seq![
            WatchMsgView::<H, F, T, E>::HistoryBatch(window_found(s.network, change, first), 0),
            WatchMsgView::<H, F, T, E>::UtxoBatch(window_coins(s.network, change, first), 0),
            WatchMsgView::<H, F, T, E>::HistoryBatch(window_found(s.network, change, second), 20),
            WatchMsgView::<H, F, T, E>::UtxoBatch(window_coins(s.network, change, second), 20),
            WatchMsgView::<H, F, T, E>::HistoryBatch(Seq::empty(), 40),
            WatchMsgView::<H, F, T, E>::UtxoBatch(Seq::empty(), 40),
        ],
        run(s, seq![first, second, third]).0.phase == if change {
            PhaseView::Scanning { change: false, offset: 0 }
        } else {
            PhaseView::FetchingTransactions { batch: 0 }
        },
        top_of(run(s, seq![first, second, third]).0, change) == Some(
            highest_index(window_found(s.network, change, second)),
        ),
        run(s, seq![first, second, third]).0.ids == run(s, seq![first, second]).0.ids,
{
    let none = Seq::<EventView<H, F, T, E>>::empty();
    assert(seq![first, second, third] =~= none.push(first).push(second).push(third));
    assert(seq![first, second] =~= none.push(first).push(second));
    lemma_run_push(s, none, first);
    lemma_run_push(s, none.push(first), second);
    lemma_run_push(s, none.push(first).push(second), third);
    let one = step_spec(s, first);
    let two = step_spec(one.0, second);
    let three = step_spec(two.0, third);
    let found = window_found(s.network, change, first);
    let coins = window_coins(s.network, change, first);
    let mid = insert_all(s.ids, history_txids(found));
    lemma_insert_all(s.ids, history_txids(found));
    lemma_insert_all(mid, utxo_txids(coins));
    assert(one.0.ids.to_set().contains(found[0].txid)) by {
        assert(history_txids(found)[0] == found[0].txid);
        assert(history_txids(found).to_set().contains(found[0].txid));
    }
    let found2 = window_found(s.network, change, second);
    let coins2 = window_coins(s.network, change, second);
    let mid2 = insert_all(one.0.ids, history_txids(found2));
    lemma_insert_all(one.0.ids, history_txids(found2));
    lemma_insert_all(mid2, utxo_txids(coins2));
    assert(three.0.ids == two.0.ids);
    assert(two.0.ids.to_set().contains(found[0].txid));
    assert(two.0.ids.len() > 0) by {
        let i = choose|i: int| 0 <= i < two.0.ids.len() && two.0.ids[i] == found[0].txid;
    }
    assert(run(s, none).1 + one.1.emit + two.1.emit + three.1.emit =~= seq![
        WatchMsgView::<H, F, T, E>::HistoryBatch(found, 0),
        WatchMsgView::<H, F, T, E>::UtxoBatch(coins, 0),
        WatchMsgView::<H, F, T, E>::HistoryBatch(found2, 20),
        WatchMsgView::<H, F, T, E>::UtxoBatch(coins2, 20),
        WatchMsgView::<H, F, T, E>::HistoryBatch(Seq::empty(), 40),
        WatchMsgView::<H, F, T, E>::UtxoBatch(Seq::empty(), 40),
    ]);
}

/// A window without history ends the scan of its branch whatever the
/// service said of unspent outputs: both batches are sent empty, no
/// identifier is added, and no highest used index is set.
pub proof fn law_window_without_history<H, F, T, E>(
    s: EngineView,
    change: bool,
    offset: u16,
    window: EventView<H, F, T, E>,
)
    requires
        s.phase == (PhaseView::Scanning { change, offset }),
        history_resolves(s.network, window),
        window_found(s.network, change, window).len() == 0,
    ensures
        step_spec(s, window) == branch_end::<H, F, T, E>(s, change, offset),
        step_spec(s, window).0.ids == s.ids,
        top_of(step_spec(s, window).0, change) == top_of(s, change),
        step_spec(s, window).1.emit.len() >= 2,
        step_spec(s, window).1.emit[0] == WatchMsgView::<H, F, T, E>::HistoryBatch(
            Seq::empty(),
            offset,
        ),
        step_spec(s, window).1.emit[1] == WatchMsgView::<H, F, T, E>::UtxoBatch(
            Seq::empty(),
            offset,
        ),
        !(step_spec(s, window).0.phase matches PhaseView::Scanning { change: c, .. } && c
            == change),
{
}

/// The batches of a run come window by window: the history batch of a
/// window is followed at once by its batch of unspent outputs, under the
/// same offset. The windows of the change branch come first and those of
/// the receiving branch after them, and within each branch the offsets go
/// up from 0 in steps of 20.
pub proof fn law_windows_in_order<H, F, T, E>(
    network: AddressNetwork,
    events: Seq<EventView<H, F, T, E>>,
)
    ensures
        ({
            let sent = run(initial(network), events).1;
            &&& batches_paired(sent)
            &&& exists|a: int, b: int|
                0 <= a <= most_windows() && 0 <= b <= most_windows() && history_offsets(sent)
                    == ramp(a) + ramp(b)
        }),
{
    lemma_run_ordered(network, events);
    let s = run(initial(network), events).0;
    let sent = run(initial(network), events).1;
    let (a, b) = choose|a: int, b: int| scan_shape(s.phase, history_offsets(sent), a, b);
    assert(0 <= a <= most_windows() && 0 <= b <= most_windows() && history_offsets(sent) == ramp(a)
        + ramp(b));
}

/// The messages of a run come in the order of its course: `Connecting`,
/// `Connected`, `LastBlock`, `FeeEstimate`, the batches of the scan, the
/// batches of transactions, `Complete`, the new blocks, and `Error`. Each
/// of them but the batches and the new blocks comes at most once, and no
/// new block is told of before completion.
pub proof fn law_messages_in_turn<H, F, T, E>(
    network: AddressNetwork,
    events: Seq<EventView<H, F, T, E>>,
)
    ensures
        ({
            let sent = run(initial(network), events).1;
            &&& in_turn(sent)
            &&& forall|i: int|
                0 <= i < sent.len() && (#[trigger] sent[i]) is LastBlockUpdate ==> exists|j: int|
                    0 <= j < i && sent[j] is Complete
        }),
{
    lemma_run_on_course(network, events);
    let sent = run(initial(network), events).1;
    assert forall|i: int| 0 <= i < sent.len() && (#[trigger] sent[i]) is LastBlockUpdate implies exists|
        j: int,
    |
        0 <= j < i && sent[j] is Complete by {
        if !completed(sent) {
            if i < sent.len() - 1 {
                assert(sent.drop_last()[i] == sent[i]);
            }
        }
        let j = choose|j: int| 0 <= j < sent.len() && sent[j] is Complete;
        if j > i {
            assert(stage(sent[i]) <= stage(sent[j]));
        }
    }
}

} // verus!
