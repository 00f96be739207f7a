use crate::address::AddressNetwork;
use crate::model::{
    at_phase, batch_count, batch_end, batch_ids, batch_pairs, branch_end, branch_on, failing,
    fetch_step, initial, is_final, step_spec, valid, window_step, EngineView, EventView, PhaseView,
    ProgressView, WatchError, WatchMsgView, BATCH_SIZE, FEE_ESTIMATES, LAST_OFFSET, WINDOW_SIZE,
};
use crate::record::{
    first_unresolved, history_records, history_txids, resolved_scripts, utxo_records, utxo_txids,
    HistoryItem, HistoryView, ScriptView, UnspentItem, UtxoView,
};
use crate::txid::{insert_all, lemma_insert_all, Txid};
use vstd::prelude::*;

verus! {

/// The state that a sequence of events leads to, and the messages sent on
/// the way, in order.
pub open spec fn run<H, F, T, E>(s: EngineView, events: Seq<EventView<H, F, T, E>>) -> (
    EngineView,
    Seq<WatchMsgView<H, F, T, E>>,
)
    decreases events.len(),
{
    if events.len() == 0 {
        (s, Seq::empty())
    } else {
        let (mid, sent) = run(s, events.drop_last());
        let (next, reaction) = step_spec(mid, events.last());
        (next, sent + reaction.emit)
    }
}

/// The transaction identifiers that the records of one message refer to.
pub open spec fn message_ids<H, F, T, E>(message: WatchMsgView<H, F, T, E>) -> Set<Txid> {
    match message {
        WatchMsgView::HistoryBatch(records, _) => history_txids(records).to_set(),
        WatchMsgView::UtxoBatch(records, _) => utxo_txids(records).to_set(),
        _ => Set::empty(),
    }
}

/// The transaction identifiers that the history and unspent-output batches
/// of a run refer to.
pub open spec fn record_ids<H, F, T, E>(sent: Seq<WatchMsgView<H, F, T, E>>) -> Set<Txid>
    decreases sent.len(),
{
    if sent.len() == 0 {
        Set::empty()
    } else {
        record_ids(sent.drop_last()).union(message_ids(sent.last()))
    }
}

/// The identifiers of the transactions that one message hands over.
pub open spec fn message_fetched<H, F, T, E>(message: WatchMsgView<H, F, T, E>) -> Seq<Txid> {
    match message {
        WatchMsgView::TxBatch(pairs, _) => pairs.map_values(|p: (Txid, T)| p.0),
        _ => Seq::empty(),
    }
}

/// The identifiers of the transactions that the transaction batches of a
/// run hand over, in the order sent.
pub open spec fn fetched<H, F, T, E>(sent: Seq<WatchMsgView<H, F, T, E>>) -> Seq<Txid>
    decreases sent.len(),
{
    if sent.len() == 0 {
        Seq::empty()
    } else {
        fetched(sent.drop_last()) + message_fetched(sent.last())
    }
}

/// The progress values of the transaction batches of a run, in the order
/// sent.
pub open spec fn progress_of<H, F, T, E>(sent: Seq<WatchMsgView<H, F, T, E>>) -> Seq<ProgressView>
    decreases sent.len(),
{
    if sent.len() == 0 {
        Seq::empty()
    } else {
        match sent.last() {
            WatchMsgView::TxBatch(_, progress) => progress_of(sent.drop_last()).push(progress),
            _ => progress_of(sent.drop_last()),
        }
    }
}

/// Whether a run has announced completion.
pub open spec fn completed<H, F, T, E>(sent: Seq<WatchMsgView<H, F, T, E>>) -> bool {
    exists|i: int| 0 <= i < sent.len() && sent[i] is Complete
}

/// Whether a run has reported a failure.
pub open spec fn has_error<H, F, T, E>(sent: Seq<WatchMsgView<H, F, T, E>>) -> bool {
    exists|i: int| 0 <= i < sent.len() && sent[i] is Error
}

/// The phases before the fetching of transactions.
pub open spec fn before_fetching(phase: PhaseView) -> bool {
    phase is Idle || phase is Connecting || phase is Connected || phase is FetchingFeeEstimate
        || phase is Scanning
}

/// What links the state of a run to the messages it has sent.
pub open spec fn consistent<H, F, T, E>(
    s: EngineView,
    sent: Seq<WatchMsgView<H, F, T, E>>,
) -> bool {
    let got = fetched(sent);
    let steps = progress_of(sent);
    let n = s.ids.len() as int;
    &&& valid(s)
    &&& record_ids(sent) == s.ids.to_set()
    &&& got.len() <= n
    &&& got == s.ids.subrange(0, got.len() as int)
    &&& steps.len() <= batch_count(n)
    &&& got.len() == if steps.len() == 0 {
        0
    } else {
        batch_end(n, steps.len() - 1)
    }
    &&& forall|j: int|
        0 <= j < steps.len() ==> #[trigger] steps[j] == (ProgressView {
            completed: (j + 1) as nat,
            total: batch_count(n) as nat,
        })
    &&& before_fetching(s.phase) ==> steps.len() == 0 && !completed(sent)
    &&& s.phase matches PhaseView::FetchingTransactions { batch } ==> steps.len() == batch && !completed(
        sent,
    )
    &&& s.phase is Watching ==> completed(sent)
    &&& completed(sent) ==> steps.len() == batch_count(n)
    &&& !(s.phase is Failed) ==> !has_error(sent)
    &&& s.phase is Failed ==> sent.len() > 0 && sent.last() is Error && !has_error(sent.drop_last())
}

/// What one more message adds to what a run has sent.
pub proof fn lemma_push<H, F, T, E>(
    sent: Seq<WatchMsgView<H, F, T, E>>,
    message: WatchMsgView<H, F, T, E>,
)
    ensures
        sent.push(message).drop_last() == sent,
        sent.push(message).last() == message,
        record_ids(sent.push(message)) == record_ids(sent).union(message_ids(message)),
        fetched(sent.push(message)) == fetched(sent) + message_fetched(message),
        progress_of(sent.push(message)) == match message {
            WatchMsgView::TxBatch(_, progress) => progress_of(sent).push(progress),
            _ => progress_of(sent),
        },
        completed(sent.push(message)) == (completed(sent) || message is Complete),
        has_error(sent.push(message)) == (has_error(sent) || message is Error),
{
    let more = sent.push(message);
    assert(more.drop_last() =~= sent);
    if completed(sent) {
        let i = choose|i: int| 0 <= i < sent.len() && sent[i] is Complete;
        assert(more[i] is Complete);
    }
    if message is Complete {
        assert(more[sent.len() as int] is Complete);
    }
    if completed(more) {
        let i = choose|i: int| 0 <= i < more.len() && more[i] is Complete;
        if i < sent.len() {
            assert(sent[i] is Complete);
        }
    }
    if has_error(sent) {
        let i = choose|i: int| 0 <= i < sent.len() && sent[i] is Error;
        assert(more[i] is Error);
    }
    if message is Error {
        assert(more[sent.len() as int] is Error);
    }
    if has_error(more) {
        let i = choose|i: int| 0 <= i < more.len() && more[i] is Error;
        if i < sent.len() {
            assert(sent[i] is Error);
        }
    }
}

/// A message that carries no records, no transactions, no completion and
/// no failure.
spec fn plain<H, F, T, E>(message: WatchMsgView<H, F, T, E>) -> bool {
    message is Connecting || message is Connected || message is LastBlock || message is LastBlockUpdate
        || message is FeeEstimate
}

proof fn lemma_keep_fetched<H, F, T, E>(
    s: EngineView,
    next: EngineView,
    sent: Seq<WatchMsgView<H, F, T, E>>,
    more: Seq<WatchMsgView<H, F, T, E>>,
)
    requires
        consistent(s, sent),
        valid(next),
        next.ids == s.ids,
        record_ids(more) == record_ids(sent),
        fetched(more) == fetched(sent),
        progress_of(more) == progress_of(sent),
        completed(more) == completed(sent),
        before_fetching(next.phase) ==> before_fetching(s.phase),
        next.phase matches PhaseView::FetchingTransactions { batch } ==> s.phase == next.phase,
        next.phase is Watching ==> completed(sent),
        !(next.phase is Failed) ==> !has_error(more),
        next.phase is Failed ==> more.len() > 0 && more.last() is Error && !has_error(
            more.drop_last(),
        ),
    ensures
        consistent(next, more),
{
}

proof fn lemma_failing<H, F, T, E>(
    s: EngineView,
    sent: Seq<WatchMsgView<H, F, T, E>>,
    cause: WatchError<E>,
)
    requires
        consistent(s, sent),
        !is_final(s.phase),
    ensures
        consistent(
            failing::<H, F, T, E>(s, Seq::empty(), cause).0,
            sent + failing::<H, F, T, E>(s, Seq::empty(), cause).1.emit,
        ),
{
    let message = WatchMsgView::<H, F, T, E>::Error(cause);
    let r = failing::<H, F, T, E>(s, Seq::empty(), cause);
    assert(r.1.emit =~= seq![message]);
    assert(sent + r.1.emit =~= sent.push(message));
    lemma_push(sent, message);
    assert(record_ids(sent).union(Set::empty()) =~= record_ids(sent));
    assert(fetched(sent) + Seq::<Txid>::empty() =~= fetched(sent));
    lemma_keep_fetched(s, r.0, sent, sent.push(message));
}

proof fn lemma_plain<H, F, T, E>(
    s: EngineView,
    next: EngineView,
    sent: Seq<WatchMsgView<H, F, T, E>>,
    message: WatchMsgView<H, F, T, E>,
)
    requires
        consistent(s, sent),
        plain(message),
        valid(next),
        next.ids == s.ids,
        before_fetching(s.phase) && before_fetching(next.phase) || s.phase is Watching
            && next.phase is Watching,
    ensures
        consistent(next, sent + seq![message]),
{
    assert(sent + seq![message] =~= sent.push(message));
    lemma_push(sent, message);
    assert(record_ids(sent).union(Set::empty()) =~= record_ids(sent));
    assert(fetched(sent) + Seq::<Txid>::empty() =~= fetched(sent));
    lemma_keep_fetched(s, next, sent, sent.push(message));
}

proof fn lemma_branch_end<H, F, T, E>(
    s: EngineView,
    sent: Seq<WatchMsgView<H, F, T, E>>,
    change: bool,
    offset: u16,
)
    requires
        consistent(s, sent),
        s.phase == (PhaseView::Scanning { change, offset }),
    ensures
        consistent(
            branch_end::<H, F, T, E>(s, change, offset).0,
            sent + branch_end::<H, F, T, E>(s, change, offset).1.emit,
        ),
{
    let r = branch_end::<H, F, T, E>(s, change, offset);
    let first = WatchMsgView::<H, F, T, E>::HistoryBatch(Seq::empty(), offset);
    let second = WatchMsgView::<H, F, T, E>::UtxoBatch(Seq::empty(), offset);
    let both = sent.push(first).push(second);
    assert(sent + seq![first, second] =~= both);
    lemma_push(sent, first);
    lemma_push(sent.push(first), second);
    assert(message_ids(first) =~= Set::<Txid>::empty());
    assert(message_ids(second) =~= Set::<Txid>::empty());
    assert(record_ids(both) =~= s.ids.to_set());
    assert(fetched(both) =~= fetched(sent));
    if !change && s.ids.len() == 0 {
        let last = WatchMsgView::<H, F, T, E>::Complete;
        assert(r.1.emit =~= seq![first, second].push(last));
        assert(sent + r.1.emit =~= both.push(last));
        lemma_push(both, last);
        assert(record_ids(both).union(Set::empty()) =~= record_ids(both));
        assert(fetched(both) + Seq::<Txid>::empty() =~= fetched(both));
    } else {
        assert(r.1.emit =~= seq![first, second]);
    }
}

proof fn lemma_branch_on<H, F, T, E>(
    s: EngineView,
    sent: Seq<WatchMsgView<H, F, T, E>>,
    change: bool,
    offset: u16,
    found: Seq<HistoryView>,
    coins: Seq<UtxoView>,
)
    requires
        consistent(s, sent),
        s.phase == (PhaseView::Scanning { change, offset }),
    ensures
        consistent(
            branch_on::<H, F, T, E>(s, change, offset, found, coins).0,
            sent + branch_on::<H, F, T, E>(s, change, offset, found, coins).1.emit,
        ),
{
    let r = branch_on::<H, F, T, E>(s, change, offset, found, coins);
    let mid = insert_all(s.ids, history_txids(found));
    let ids = insert_all(mid, utxo_txids(coins));
    lemma_insert_all(s.ids, history_txids(found));
    lemma_insert_all(mid, utxo_txids(coins));
    let first = WatchMsgView::<H, F, T, E>::HistoryBatch(found, offset);
    let second = WatchMsgView::<H, F, T, E>::UtxoBatch(coins, offset);
    let both = sent.push(first).push(second);
    assert(sent + seq![first, second] =~= both);
    lemma_push(sent, first);
    lemma_push(sent.push(first), second);
    assert(record_ids(both) =~= ids.to_set());
    assert(fetched(both) =~= fetched(sent));
    assert(fetched(both) =~= ids.subrange(0, 0));
    assert(batch_count(ids.len() as int) >= 0);
    if offset > LAST_OFFSET - WINDOW_SIZE {
        let last = WatchMsgView::<H, F, T, E>::Error(WatchError::Exhausted { change });
        assert(r.1.emit =~= seq![first, second].push(last));
        assert(sent + r.1.emit =~= both.push(last));
        lemma_push(both, last);
        assert(record_ids(both).union(Set::empty()) =~= record_ids(both));
        assert(fetched(both) + Seq::<Txid>::empty() =~= fetched(both));
    } else {
        assert(r.1.emit =~= seq![first, second]);
    }
}

proof fn lemma_window<H, F, T, E>(
    s: EngineView,
    sent: Seq<WatchMsgView<H, F, T, E>>,
    change: bool,
    offset: u16,
    scripts: Seq<ScriptView>,
    history: Seq<Seq<HistoryItem>>,
    unspent: Seq<Seq<UnspentItem>>,
)
    requires
        consistent(s, sent),
        s.phase == (PhaseView::Scanning { change, offset }),
    ensures
        consistent(
            window_step::<H, F, T, E>(s, change, offset, scripts, history, unspent).0,
            sent + window_step::<H, F, T, E>(s, change, offset, scripts, history, unspent).1.emit,
        ),
{
    let resolved = resolved_scripts(scripts, s.network);
    let found = history_records(resolved, history, change);
    if exists|i: int| first_unresolved(resolved, history, i) {
        let i = choose|i: int| first_unresolved(resolved, history, i);
        lemma_failing::<H, F, T, E>(
            s,
            sent,
            WatchError::BrokenDescriptor { change, index: resolved[i].index },
        );
    } else if found.len() == 0 {
        lemma_branch_end::<H, F, T, E>(s, sent, change, offset);
    } else if exists|i: int| first_unresolved(resolved, unspent, i) {
        let i = choose|i: int| first_unresolved(resolved, unspent, i);
        lemma_failing::<H, F, T, E>(
            s,
            sent,
            WatchError::BrokenDescriptor { change, index: resolved[i].index },
        );
    } else {
        lemma_branch_on::<H, F, T, E>(
            s,
            sent,
            change,
            offset,
            found,
            utxo_records(resolved, unspent, change),
        );
    }
}

proof fn lemma_fetch<H, F, T, E>(
    s: EngineView,
    sent: Seq<WatchMsgView<H, F, T, E>>,
    batch: nat,
    bodies: Seq<T>,
)
    requires
        consistent(s, sent),
        s.phase == (PhaseView::FetchingTransactions { batch }),
    ensures
        consistent(
            fetch_step::<H, F, T, E>(s, batch, bodies).0,
            sent + fetch_step::<H, F, T, E>(s, batch, bodies).1.emit,
        ),
{
    let r = fetch_step::<H, F, T, E>(s, batch, bodies);
    let wanted = batch_ids(s.ids, batch as int);
    let n = s.ids.len() as int;
    let total = batch_count(n);
    if bodies.len() != wanted.len() {
        lemma_failing::<H, F, T, E>(
            s,
            sent,
            WatchError::MissingTransactions {
                requested: wanted.len() as usize,
                received: bodies.len() as usize,
            },
        );
    } else {
        let pairs = batch_pairs(wanted, bodies);
        let progress = ProgressView { completed: batch + 1, total: total as nat };
        let message = WatchMsgView::<H, F, T, E>::TxBatch(pairs, progress);
        let more = sent.push(message);
        lemma_push(sent, message);
        assert(message_fetched(message) =~= wanted);
        assert(fetched(sent).len() == BATCH_SIZE * batch);
        assert(fetched(more) =~= s.ids.subrange(0, batch_end(n, batch as int)));
        assert(record_ids(sent).union(Set::empty()) =~= record_ids(sent));
        if batch + 1 == total {
            let last = WatchMsgView::<H, F, T, E>::Complete;
            assert(r.1.emit =~= seq![message].push(last));
            assert(sent + r.1.emit =~= more.push(last));
            lemma_push(more, last);
            assert(record_ids(more).union(Set::empty()) =~= record_ids(more));
            assert(fetched(more) + Seq::<Txid>::empty() =~= fetched(more));
        } else {
            assert(r.1.emit =~= seq![message]);
            assert(sent + r.1.emit =~= more);
        }
    }
}

/// One step keeps the state and the messages sent consistent.
proof fn lemma_step_consistent<H, F, T, E>(
    s: EngineView,
    sent: Seq<WatchMsgView<H, F, T, E>>,
    event: EventView<H, F, T, E>,
)
    requires
        consistent(s, sent),
    ensures
        consistent(step_spec(s, event).0, sent + step_spec(s, event).1.emit),
{
    let r = step_spec(s, event);
    if is_final(s.phase) {
        assert(sent + r.1.emit =~= sent);
    } else {
        match (s.phase, event) {
            (_, EventView::Cancelled) => {
                assert(sent + r.1.emit =~= sent);
            },
            (_, EventView::Failed(cause)) => {
                lemma_failing::<H, F, T, E>(s, sent, cause);
            },
            (PhaseView::Idle, EventView::Start) => {
                lemma_plain(s, r.0, sent, WatchMsgView::<H, F, T, E>::Connecting);
            },
            (PhaseView::Connecting, EventView::Connected) => {
                lemma_plain(s, r.0, sent, WatchMsgView::<H, F, T, E>::Connected);
            },
            (PhaseView::Connected, EventView::Tip(header)) => {
                lemma_plain(s, r.0, sent, WatchMsgView::<H, F, T, E>::LastBlock(header));
            },
            (PhaseView::FetchingFeeEstimate, EventView::Fees(rates)) => {
                if rates.len() < FEE_ESTIMATES {
                    lemma_failing::<H, F, T, E>(
                        s,
                        sent,
                        WatchError::MissingFees { received: rates.len() as usize },
                    );
                } else {
                    lemma_plain(
                        s,
                        r.0,
                        sent,
                        WatchMsgView::<H, F, T, E>::FeeEstimate(rates[0], rates[1], rates[2]),
                    );
                }
            },
            (
                PhaseView::Scanning { change, offset },
                EventView::Window { scripts, history, unspent },
            ) => {
                lemma_window::<H, F, T, E>(s, sent, change, offset, scripts, history, unspent);
            },
            (PhaseView::FetchingTransactions { batch }, EventView::Transactions(bodies)) => {
                lemma_fetch::<H, F, T, E>(s, sent, batch, bodies);
            },
            (PhaseView::Watching, EventView::Polled(Some(header))) => {
                lemma_plain(s, r.0, sent, WatchMsgView::<H, F, T, E>::LastBlockUpdate(header));
            },
            (PhaseView::Watching, EventView::Polled(None)) => {
                assert(sent + r.1.emit =~= sent);
            },
            _ => {
                assert(sent + r.1.emit =~= sent);
            },
        }
    }
}

/// Every run from the start keeps its state and its messages consistent.
pub proof fn lemma_run_consistent<H, F, T, E>(
    network: AddressNetwork,
    events: Seq<EventView<H, F, T, E>>,
)
    ensures
        consistent(run(initial(network), events).0, run(initial(network), events).1),
    decreases events.len(),
{
    if events.len() == 0 {
        let sent = Seq::<WatchMsgView<H, F, T, E>>::empty();
        assert(initial(network).ids.to_set() =~= Set::<Txid>::empty());
        assert(fetched(sent) =~= initial(network).ids.subrange(0, 0));
    } else {
        lemma_run_consistent(network, events.drop_last());
        let before = run(initial(network), events.drop_last());
        lemma_step_consistent(before.0, before.1, events.last());
    }
}

/// A run over events followed by one more is the run over the events,
/// then one step.
pub proof fn lemma_run_push<H, F, T, E>(
    s: EngineView,
    events: Seq<EventView<H, F, T, E>>,
    event: EventView<H, F, T, E>,
)
    ensures
        run(s, events.push(event)).0 == step_spec(run(s, events).0, event).0,
        run(s, events.push(event)).1 == run(s, events).1 + step_spec(run(s, events).0, event).1.emit,
{
    assert(events.push(event).drop_last() =~= events);
}

/// A state that has ended stays as it is and sends nothing, whatever
/// comes.
pub proof fn lemma_final_absorbs<H, F, T, E>(s: EngineView, events: Seq<EventView<H, F, T, E>>)
    requires
        is_final(s.phase),
    ensures
        run(s, events) == (s, Seq::<WatchMsgView<H, F, T, E>>::empty()),
    decreases events.len(),
{
    if events.len() > 0 {
        lemma_final_absorbs(s, events.drop_last());
        assert(Seq::<WatchMsgView<H, F, T, E>>::empty() + Seq::<WatchMsgView<H, F, T, E>>::empty()
            =~= Seq::<WatchMsgView<H, F, T, E>>::empty());
    }
}

/// A run over two sequences of events in a row is the run over the first,
/// continued from where it ended by the run over the second.
pub proof fn lemma_run_append<H, F, T, E>(
    s: EngineView,
    first: Seq<EventView<H, F, T, E>>,
    second: Seq<EventView<H, F, T, E>>,
)
    ensures
        run(s, first + second).0 == run(run(s, first).0, second).0,
        run(s, first + second).1 == run(s, first).1 + run(run(s, first).0, second).1,
    decreases second.len(),
{
    if second.len() == 0 {
        assert(first + second =~= first);
        assert(run(s, first).1 + Seq::<WatchMsgView<H, F, T, E>>::empty() =~= run(s, first).1);
    } else {
        let front = second.drop_last();
        lemma_run_append(s, first, front);
        assert((first + second).drop_last() =~= first + front);
        assert((first + second).last() == second.last());
        let mid = run(s, first);
        let rest = run(mid.0, front);
        let last = step_spec(rest.0, second.last());
        assert((mid.1 + rest.1) + last.1.emit =~= mid.1 + (rest.1 + last.1.emit));
    }
}

/// The offsets of the history batches of a run, in the order sent.
pub open spec fn history_offsets<H, F, T, E>(sent: Seq<WatchMsgView<H, F, T, E>>) -> Seq<u16>
    decreases sent.len(),
{
    if sent.len() == 0 {
        Seq::empty()
    } else {
        match sent.last() {
            WatchMsgView::HistoryBatch(_, offset) => history_offsets(sent.drop_last()).push(offset),
            _ => history_offsets(sent.drop_last()),
        }
    }
}

/// The number of windows that a branch has at most.
pub open spec fn most_windows() -> int {
    LAST_OFFSET / WINDOW_SIZE + 1
}

/// The offsets of the first `k` windows of a branch: 0, 20, 40 and so on.
pub open spec fn ramp(k: int) -> Seq<u16> {
    Seq::new(k as nat, |i: int| (WINDOW_SIZE * i) as u16)
}

/// Every history batch is followed at once by the batch of unspent outputs
/// of the same window, and no batch of unspent outputs comes otherwise.
pub open spec fn batches_paired<H, F, T, E>(sent: Seq<WatchMsgView<H, F, T, E>>) -> bool {
    &&& forall|i: int|
        0 <= i < sent.len() && (#[trigger] sent[i]) is HistoryBatch ==> i + 1 < sent.len() && sent[i
            + 1] is UtxoBatch && sent[i + 1]->UtxoBatch_1 == sent[i]->HistoryBatch_1
    &&& forall|i: int|
        0 <= i < sent.len() && (#[trigger] sent[i]) is UtxoBatch ==> i > 0 && sent[i
            - 1] is HistoryBatch
}

/// The offsets `seen` are those of `a` windows of the change branch and
/// then `b` windows of the receiving branch, and agree with the phase.
pub open spec fn scan_shape(phase: PhaseView, seen: Seq<u16>, a: int, b: int) -> bool {
    &&& 0 <= a <= most_windows()
    &&& 0 <= b <= most_windows()
    &&& seen == ramp(a) + ramp(b)
    &&& phase is Idle || phase is Connecting || phase is Connected || phase is FetchingFeeEstimate
        ==> a == 0 && b == 0
    &&& phase matches PhaseView::Scanning { change, offset } ==> if change {
        b == 0 && WINDOW_SIZE * a == offset
    } else {
        WINDOW_SIZE * b == offset
    }
}

/// What holds of the order of the batches of a run.
pub open spec fn ordered<H, F, T, E>(s: EngineView, sent: Seq<WatchMsgView<H, F, T, E>>) -> bool {
    &&& valid(s)
    &&& batches_paired(sent)
    &&& exists|a: int, b: int| scan_shape(s.phase, history_offsets(sent), a, b)
}

proof fn lemma_offsets_push<H, F, T, E>(
    sent: Seq<WatchMsgView<H, F, T, E>>,
    message: WatchMsgView<H, F, T, E>,
)
    ensures
        history_offsets(sent.push(message)) == match message {
            WatchMsgView::HistoryBatch(_, offset) => history_offsets(sent).push(offset),
            _ => history_offsets(sent),
        },
{
    assert(sent.push(message).drop_last() =~= sent);
}

proof fn lemma_paired_push<H, F, T, E>(
    sent: Seq<WatchMsgView<H, F, T, E>>,
    message: WatchMsgView<H, F, T, E>,
)
    requires
        batches_paired(sent),
        !(message is HistoryBatch),
        !(message is UtxoBatch),
    ensures
        batches_paired(sent.push(message)),
{
    let more = sent.push(message);
    assert forall|i: int| 0 <= i < more.len() && (#[trigger] more[i]) is HistoryBatch implies i + 1
        < more.len() && more[i + 1] is UtxoBatch && more[i + 1]->UtxoBatch_1
        == more[i]->HistoryBatch_1 by {
        assert(sent[i] is HistoryBatch);
    }
    assert forall|i: int| 0 <= i < more.len() && (#[trigger] more[i]) is UtxoBatch implies i > 0
        && more[i - 1] is HistoryBatch by {
        assert(sent[i] is UtxoBatch);
    }
}

proof fn lemma_paired_window<H, F, T, E>(
    sent: Seq<WatchMsgView<H, F, T, E>>,
    first: WatchMsgView<H, F, T, E>,
    second: WatchMsgView<H, F, T, E>,
)
    requires
        batches_paired(sent),
        first is HistoryBatch,
        second is UtxoBatch,
        second->UtxoBatch_1 == first->HistoryBatch_1,
    ensures
        batches_paired(sent.push(first).push(second)),
{
    let more = sent.push(first).push(second);
    assert forall|i: int| 0 <= i < more.len() && (#[trigger] more[i]) is HistoryBatch implies i + 1
        < more.len() && more[i + 1] is UtxoBatch && more[i + 1]->UtxoBatch_1
        == more[i]->HistoryBatch_1 by {
        if i < sent.len() {
            assert(sent[i] is HistoryBatch);
        }
    }
    assert forall|i: int| 0 <= i < more.len() && (#[trigger] more[i]) is UtxoBatch implies i > 0
        && more[i - 1] is HistoryBatch by {
        if i < sent.len() {
            assert(sent[i] is UtxoBatch);
        }
    }
}

proof fn lemma_ramp_push(k: int)
    requires
        0 <= k < most_windows(),
    ensures
        ramp(k).push((WINDOW_SIZE * k) as u16) == ramp(k + 1),
{
    assert(ramp(k).push((WINDOW_SIZE * k) as u16) =~= ramp(k + 1));
}

/// The phases before the scan.
pub open spec fn before_scanning(phase: PhaseView) -> bool {
    phase is Idle || phase is Connecting || phase is Connected || phase is FetchingFeeEstimate
}

/// A change of phase that sends no batch and leaves the windows counted
/// as they are.
spec fn keeps_shape(from: PhaseView, to: PhaseView) -> bool {
    ||| to == from
    ||| !before_scanning(to) && !(to is Scanning)
    ||| before_scanning(from) && (before_scanning(to) || to == (PhaseView::Scanning {
        change: true,
        offset: 0,
    }))
}

proof fn lemma_ordered_quiet<H, F, T, E>(
    s: EngineView,
    next: EngineView,
    sent: Seq<WatchMsgView<H, F, T, E>>,
)
    requires
        ordered(s, sent),
        valid(next),
        keeps_shape(s.phase, next.phase),
    ensures
        ordered(next, sent),
{
    let (a, b) = choose|a: int, b: int| scan_shape(s.phase, history_offsets(sent), a, b);
    assert(scan_shape(next.phase, history_offsets(sent), a, b));
}

proof fn lemma_ordered_one<H, F, T, E>(
    s: EngineView,
    next: EngineView,
    sent: Seq<WatchMsgView<H, F, T, E>>,
    message: WatchMsgView<H, F, T, E>,
)
    requires
        ordered(s, sent),
        valid(next),
        keeps_shape(s.phase, next.phase),
        !(message is HistoryBatch),
        !(message is UtxoBatch),
    ensures
        ordered(next, sent.push(message)),
{
    lemma_paired_push(sent, message);
    lemma_offsets_push(sent, message);
    let (a, b) = choose|a: int, b: int| scan_shape(s.phase, history_offsets(sent), a, b);
    assert(scan_shape(next.phase, history_offsets(sent.push(message)), a, b));
}

proof fn lemma_ordered_failing<H, F, T, E>(
    s: EngineView,
    sent: Seq<WatchMsgView<H, F, T, E>>,
    cause: WatchError<E>,
)
    requires
        ordered(s, sent),
    ensures
        ordered(
            failing::<H, F, T, E>(s, Seq::empty(), cause).0,
            sent + failing::<H, F, T, E>(s, Seq::empty(), cause).1.emit,
        ),
{
    let r = failing::<H, F, T, E>(s, Seq::empty(), cause);
    let message = WatchMsgView::<H, F, T, E>::Error(cause);
    assert(sent + r.1.emit =~= sent.push(message));
    lemma_ordered_one(s, r.0, sent, message);
}

proof fn lemma_ordered_batches<H, F, T, E>(
    s: EngineView,
    sent: Seq<WatchMsgView<H, F, T, E>>,
    change: bool,
    offset: u16,
    first: WatchMsgView<H, F, T, E>,
    second: WatchMsgView<H, F, T, E>,
    to: PhaseView,
)
    requires
        ordered(s, sent),
        s.phase == (PhaseView::Scanning { change, offset }),
        first is HistoryBatch,
        first->HistoryBatch_1 == offset,
        second is UtxoBatch,
        second->UtxoBatch_1 == offset,
        to matches PhaseView::Scanning { change: c, offset: o } ==> if c == change {
            o == offset + WINDOW_SIZE
        } else {
            change && o == 0
        },
        !before_scanning(to),
    ensures
        batches_paired(sent.push(first).push(second)),
        exists|a: int, b: int| scan_shape(to, history_offsets(sent.push(first).push(second)), a, b),
{
    let both = sent.push(first).push(second);
    lemma_paired_window(sent, first, second);
    lemma_offsets_push(sent, first);
    lemma_offsets_push(sent.push(first), second);
    let seen = history_offsets(sent);
    let (a, b) = choose|a: int, b: int| scan_shape(s.phase, seen, a, b);
    let (a2, b2) = if change {
        (a + 1, 0int)
    } else {
        (a, b + 1)
    };
    assert(history_offsets(both) == ramp(a2) + ramp(b2)) by {
        if change {
            lemma_ramp_push(a);
            assert(ramp(a) + ramp(0) =~= ramp(a));
            assert(ramp(a + 1) + ramp(0) =~= ramp(a + 1));
        } else {
            lemma_ramp_push(b);
            assert((ramp(a) + ramp(b)).push(offset) =~= ramp(a) + ramp(b).push(offset));
        }
    }
    assert(scan_shape(to, history_offsets(both), a2, b2));
}

proof fn lemma_ordered_branch_end<H, F, T, E>(
    s: EngineView,
    sent: Seq<WatchMsgView<H, F, T, E>>,
    change: bool,
    offset: u16,
)
    requires
        ordered(s, sent),
        s.phase == (PhaseView::Scanning { change, offset }),
    ensures
        ordered(
            branch_end::<H, F, T, E>(s, change, offset).0,
            sent + branch_end::<H, F, T, E>(s, change, offset).1.emit,
        ),
{
    let r = branch_end::<H, F, T, E>(s, change, offset);
    let first = WatchMsgView::<H, F, T, E>::HistoryBatch(Seq::empty(), offset);
    let second = WatchMsgView::<H, F, T, E>::UtxoBatch(Seq::empty(), offset);
    let both = sent.push(first).push(second);
    assert(sent + seq![first, second] =~= both);
    lemma_ordered_batches(s, sent, change, offset, first, second, r.0.phase);
    if !change && s.ids.len() == 0 {
        let last = WatchMsgView::<H, F, T, E>::Complete;
        assert(sent + r.1.emit =~= both.push(last));
        lemma_paired_push(both, last);
        lemma_offsets_push(both, last);
    } else {
        assert(sent + r.1.emit =~= both);
    }
}

proof fn lemma_ordered_branch_on<H, F, T, E>(
    s: EngineView,
    sent: Seq<WatchMsgView<H, F, T, E>>,
    change: bool,
    offset: u16,
    found: Seq<HistoryView>,
    coins: Seq<UtxoView>,
)
    requires
        ordered(s, sent),
        s.phase == (PhaseView::Scanning { change, offset }),
    ensures
        ordered(
            branch_on::<H, F, T, E>(s, change, offset, found, coins).0,
            sent + branch_on::<H, F, T, E>(s, change, offset, found, coins).1.emit,
        ),
{
    let r = branch_on::<H, F, T, E>(s, change, offset, found, coins);
    let mid = insert_all(s.ids, history_txids(found));
    lemma_insert_all(s.ids, history_txids(found));
    lemma_insert_all(mid, utxo_txids(coins));
    let first = WatchMsgView::<H, F, T, E>::HistoryBatch(found, offset);
    let second = WatchMsgView::<H, F, T, E>::UtxoBatch(coins, offset);
    let both = sent.push(first).push(second);
    assert(sent + seq![first, second] =~= both);
    lemma_ordered_batches(s, sent, change, offset, first, second, r.0.phase);
    if offset > LAST_OFFSET - WINDOW_SIZE {
        let last = WatchMsgView::<H, F, T, E>::Error(WatchError::Exhausted { change });
        assert(sent + r.1.emit =~= both.push(last));
        lemma_paired_push(both, last);
        lemma_offsets_push(both, last);
    } else {
        assert(sent + r.1.emit =~= both);
    }
}

proof fn lemma_ordered_window<H, F, T, E>(
    s: EngineView,
    sent: Seq<WatchMsgView<H, F, T, E>>,
    change: bool,
    offset: u16,
    scripts: Seq<ScriptView>,
    history: Seq<Seq<HistoryItem>>,
    unspent: Seq<Seq<UnspentItem>>,
)
    requires
        ordered(s, sent),
        s.phase == (PhaseView::Scanning { change, offset }),
    ensures
        ordered(
            window_step::<H, F, T, E>(s, change, offset, scripts, history, unspent).0,
            sent + window_step::<H, F, T, E>(s, change, offset, scripts, history, unspent).1.emit,
        ),
{
    let resolved = resolved_scripts(scripts, s.network);
    let found = history_records(resolved, history, change);
    if exists|i: int| first_unresolved(resolved, history, i) {
        let i = choose|i: int| first_unresolved(resolved, history, i);
        lemma_ordered_failing::<H, F, T, E>(
            s,
            sent,
            WatchError::BrokenDescriptor { change, index: resolved[i].index },
        );
    } else if found.len() == 0 {
        lemma_ordered_branch_end::<H, F, T, E>(s, sent, change, offset);
    } else if exists|i: int| first_unresolved(resolved, unspent, i) {
        let i = choose|i: int| first_unresolved(resolved, unspent, i);
        lemma_ordered_failing::<H, F, T, E>(
            s,
            sent,
            WatchError::BrokenDescriptor { change, index: resolved[i].index },
        );
    } else {
        lemma_ordered_branch_on::<H, F, T, E>(
            s,
            sent,
            change,
            offset,
            found,
            utxo_records(resolved, unspent, change),
        );
    }
}

proof fn lemma_ordered_fetch<H, F, T, E>(
    s: EngineView,
    sent: Seq<WatchMsgView<H, F, T, E>>,
    batch: nat,
    bodies: Seq<T>,
)
    requires
        ordered(s, sent),
        s.phase == (PhaseView::FetchingTransactions { batch }),
    ensures
        ordered(
            fetch_step::<H, F, T, E>(s, batch, bodies).0,
            sent + fetch_step::<H, F, T, E>(s, batch, bodies).1.emit,
        ),
{
    let r = fetch_step::<H, F, T, E>(s, batch, bodies);
    let wanted = batch_ids(s.ids, batch as int);
    let total = batch_count(s.ids.len() as int);
    if bodies.len() != wanted.len() {
        lemma_ordered_failing::<H, F, T, E>(
            s,
            sent,
            WatchError::MissingTransactions {
                requested: wanted.len() as usize,
                received: bodies.len() as usize,
            },
        );
    } else {
        let message = WatchMsgView::<H, F, T, E>::TxBatch(
            batch_pairs(wanted, bodies),
            ProgressView { completed: batch + 1, total: total as nat },
        );
        if batch + 1 == total {
            let last = WatchMsgView::<H, F, T, E>::Complete;
            let mid = at_phase(s, PhaseView::Watching);
            lemma_ordered_one(s, mid, sent, message);
            lemma_ordered_one(mid, r.0, sent.push(message), last);
            assert(sent + r.1.emit =~= sent.push(message).push(last));
        } else {
            lemma_ordered_one(s, r.0, sent, message);
            assert(sent + r.1.emit =~= sent.push(message));
        }
    }
}

/// One step keeps the batches of a run in order.
proof fn lemma_step_ordered<H, F, T, E>(
    s: EngineView,
    sent: Seq<WatchMsgView<H, F, T, E>>,
    event: EventView<H, F, T, E>,
)
    requires
        ordered(s, sent),
    ensures
        ordered(step_spec(s, event).0, sent + step_spec(s, event).1.emit),
{
    let r = step_spec(s, event);
    if is_final(s.phase) {
        assert(sent + r.1.emit =~= sent);
    } else {
        match (s.phase, event) {
            (_, EventView::Cancelled) => {
                assert(sent + r.1.emit =~= sent);
                lemma_ordered_quiet(s, r.0, sent);
            },
            (_, EventView::Failed(cause)) => {
                lemma_ordered_failing::<H, F, T, E>(s, sent, cause);
            },
            (PhaseView::Idle, EventView::Start) => {
                assert(sent + r.1.emit =~= sent.push(r.1.emit[0]));
                lemma_ordered_one(s, r.0, sent, r.1.emit[0]);
            },
            (PhaseView::Connecting, EventView::Connected) => {
                assert(sent + r.1.emit =~= sent.push(r.1.emit[0]));
                lemma_ordered_one(s, r.0, sent, r.1.emit[0]);
            },
            (PhaseView::Connected, EventView::Tip(header)) => {
                assert(sent + r.1.emit =~= sent.push(r.1.emit[0]));
                lemma_ordered_one(s, r.0, sent, r.1.emit[0]);
            },
            (PhaseView::FetchingFeeEstimate, EventView::Fees(rates)) => {
                assert(sent + r.1.emit =~= sent.push(r.1.emit[0]));
                lemma_ordered_one(s, r.0, sent, r.1.emit[0]);
            },
            (
                PhaseView::Scanning { change, offset },
                EventView::Window { scripts, history, unspent },
            ) => {
                lemma_ordered_window::<H, F, T, E>(s, sent, change, offset, scripts, history, unspent);
            },
            (PhaseView::FetchingTransactions { batch }, EventView::Transactions(bodies)) => {
                lemma_ordered_fetch::<H, F, T, E>(s, sent, batch, bodies);
            },
            (PhaseView::Watching, EventView::Polled(Some(header))) => {
                assert(sent + r.1.emit =~= sent.push(r.1.emit[0]));
                lemma_ordered_one(s, r.0, sent, r.1.emit[0]);
            },
            (PhaseView::Watching, EventView::Polled(None)) => {
                assert(sent + r.1.emit =~= sent);
            },
            _ => {
                assert(sent + r.1.emit =~= sent);
                lemma_ordered_quiet(s, r.0, sent);
            },
        }
    }
}

/// Every run from the start keeps its batches in order.
pub proof fn lemma_run_ordered<H, F, T, E>(
    network: AddressNetwork,
    events: Seq<EventView<H, F, T, E>>,
)
    ensures
        ordered(run(initial(network), events).0, run(initial(network), events).1),
    decreases events.len(),
{
    if events.len() == 0 {
        let sent = Seq::<WatchMsgView<H, F, T, E>>::empty();
        assert(ramp(0) + ramp(0) =~= history_offsets(sent));
        assert(scan_shape(initial(network).phase, history_offsets(sent), 0, 0));
    } else {
        lemma_run_ordered(network, events.drop_last());
        let before = run(initial(network), events.drop_last());
        lemma_step_ordered(before.0, before.1, events.last());
    }
}

/// The place of a message in the course of a run.
pub open spec fn stage<H, F, T, E>(message: WatchMsgView<H, F, T, E>) -> int {
    match message {
        WatchMsgView::Connecting => 0,
        WatchMsgView::Connected => 1,
        WatchMsgView::LastBlock(_) => 2,
        WatchMsgView::FeeEstimate(_, _, _) => 3,
        WatchMsgView::HistoryBatch(_, _) => 4,
        WatchMsgView::UtxoBatch(_, _) => 4,
        WatchMsgView::TxBatch(_, _) => 5,
        WatchMsgView::Complete => 6,
        WatchMsgView::LastBlockUpdate(_) => 7,
        WatchMsgView::Error(_) => 8,
    }
}

/// The stages that may hold more than one message: the batches of the
/// scan, the batches of transactions, and the new blocks.
pub open spec fn repeats(at: int) -> bool {
    at == 4 || at == 5 || at == 7
}

/// No message comes before one of an earlier stage, and only the stages
/// that repeat hold more than one message.
pub open spec fn in_turn<H, F, T, E>(sent: Seq<WatchMsgView<H, F, T, E>>) -> bool {
    forall|i: int, j: int|
        0 <= i < j < sent.len() ==> stage(#[trigger] sent[i]) <= stage(#[trigger] sent[j]) && (stage(
            sent[i],
        ) == stage(sent[j]) ==> repeats(stage(sent[i])))
}

/// No message is of a later stage than `top`.
pub open spec fn up_to<H, F, T, E>(sent: Seq<WatchMsgView<H, F, T, E>>, top: int) -> bool {
    forall|i: int| 0 <= i < sent.len() ==> stage(#[trigger] sent[i]) <= top
}

/// The latest stage that a run in a phase can have sent a message of.
pub open spec fn latest(phase: PhaseView) -> int {
    match phase {
        PhaseView::Idle => -1,
        PhaseView::Connecting => 0,
        PhaseView::Connected => 1,
        PhaseView::FetchingFeeEstimate => 2,
        PhaseView::Scanning { .. } => 4,
        PhaseView::FetchingTransactions { .. } => 5,
        PhaseView::Watching => 7,
        PhaseView::Failed => 8,
        PhaseView::Stopped => 8,
    }
}

/// What holds of the course of a run.
pub open spec fn on_course<H, F, T, E>(s: EngineView, sent: Seq<WatchMsgView<H, F, T, E>>) -> bool {
    &&& consistent(s, sent)
    &&& in_turn(sent)
    &&& up_to(sent, latest(s.phase))
    &&& !completed(sent) ==> up_to(sent, 5) || sent.len() > 0 && sent.last() is Error && up_to(
        sent.drop_last(),
        5,
    )
}

proof fn lemma_in_turn_push<H, F, T, E>(
    sent: Seq<WatchMsgView<H, F, T, E>>,
    top: int,
    message: WatchMsgView<H, F, T, E>,
)
    requires
        in_turn(sent),
        up_to(sent, top),
        top < stage(message) || top == stage(message) && repeats(top),
    ensures
        in_turn(sent.push(message)),
        up_to(sent.push(message), stage(message)),
{
    let more = sent.push(message);
    assert forall|i: int, j: int| 0 <= i < j < more.len() implies stage(#[trigger] more[i])
        <= stage(#[trigger] more[j]) && (stage(more[i]) == stage(more[j]) ==> repeats(
        stage(more[i]),
    )) by {
        assert(more[i] == sent[i]);
        if j < sent.len() {
            assert(more[j] == sent[j]);
        }
    }
    assert forall|i: int| 0 <= i < more.len() implies stage(#[trigger] more[i]) <= stage(
        message,
    ) by {
        if i < sent.len() {
            assert(more[i] == sent[i]);
        }
    }
}

proof fn lemma_up_to_more<H, F, T, E>(sent: Seq<WatchMsgView<H, F, T, E>>, top: int, more: int)
    requires
        up_to(sent, top),
        top <= more,
    ensures
        up_to(sent, more),
{
}

/// One step keeps a run on its course.
proof fn lemma_step_on_course<H, F, T, E>(
    s: EngineView,
    sent: Seq<WatchMsgView<H, F, T, E>>,
    event: EventView<H, F, T, E>,
)
    requires
        on_course(s, sent),
    ensures
        on_course(step_spec(s, event).0, sent + step_spec(s, event).1.emit),
{
    let r = step_spec(s, event);
    let emit = r.1.emit;
    let top = latest(s.phase);
    lemma_step_consistent(s, sent, event);
    if emit.len() == 0 {
        assert(sent + emit =~= sent);
        lemma_up_to_more(sent, top, latest(r.0.phase));
    } else if emit.len() == 1 {
        assert(sent + emit =~= sent.push(emit[0]));
        lemma_in_turn_push(sent, top, emit[0]);
        lemma_up_to_more(sent.push(emit[0]), stage(emit[0]), latest(r.0.phase));
        lemma_push(sent, emit[0]);
    } else if emit.len() == 2 {
        let one = sent.push(emit[0]);
        assert(sent + emit =~= one.push(emit[1]));
        lemma_in_turn_push(sent, top, emit[0]);
        lemma_in_turn_push(one, stage(emit[0]), emit[1]);
        lemma_up_to_more(one.push(emit[1]), stage(emit[1]), latest(r.0.phase));
        lemma_push(sent, emit[0]);
        lemma_push(one, emit[1]);
    } else {
        let one = sent.push(emit[0]);
        let two = one.push(emit[1]);
        assert(emit.len() == 3);
        assert(sent + emit =~= two.push(emit[2]));
        lemma_in_turn_push(sent, top, emit[0]);
        lemma_in_turn_push(one, stage(emit[0]), emit[1]);
        lemma_in_turn_push(two, stage(emit[1]), emit[2]);
        lemma_up_to_more(two.push(emit[2]), stage(emit[2]), latest(r.0.phase));
        lemma_push(sent, emit[0]);
        lemma_push(one, emit[1]);
        lemma_push(two, emit[2]);
    }
}

/// Every run from the start keeps its course.
pub proof fn lemma_run_on_course<H, F, T, E>(
    network: AddressNetwork,
    events: Seq<EventView<H, F, T, E>>,
)
    ensures
        on_course(run(initial(network), events).0, run(initial(network), events).1),
    decreases events.len(),
{
    lemma_run_consistent(network, events);
    if events.len() > 0 {
        lemma_run_on_course(network, events.drop_last());
        let before = run(initial(network), events.drop_last());
        lemma_step_on_course(before.0, before.1, events.last());
    }
}

} // verus!
