use crate::address::AddressNetwork;
use crate::model::{
    at_phase, batch_count, batch_ids, batch_pairs, branch_end, branch_on, completing, failing,
    fee_step, fetch_step, initial, step_spec, stopping, top_of, valid, window_step, EngineView,
    EventView,
    Phase, PhaseView, Progress, ProgressView, ReactionView, RequestView, WatchError, WatchMsgView,
    BATCH_SIZE, CONNECT_TIMEOUT_SECS, FEE_ESTIMATES, LAST_OFFSET, POLL_INTERVAL_SECS, WINDOW_SIZE,
};
use crate::record::{
    first_unresolved, highest_used, history_batch, history_txids, lemma_first_unresolved_unique,
    lemma_views_push, lists, resolve_scripts, resolved_scripts, utxo_batch, utxo_txids, views,
    HistoryItem, HistoryTxid, ScriptEntry, UnspentItem, UtxoTxid,
};
use crate::txid::{ascending, insert_all, Txid, TxidSet};
use vstd::prelude::*;

verus! {

/// What the driver is asked to do next.
#[derive(Clone, Debug, PartialEq, Eq)]
pub enum Request {
    /// Open the connection to the indexing service, within the time given.
    Connect { timeout_secs: u8 },
    /// Fetch the best-known block header.
    Tip,
    /// Fetch the fee estimates for confirmation within the three numbers of
    /// blocks given.
    Fees { fast: usize, medium: usize, slow: usize },
    /// Derive the scripts of the indexes `first` to `last` of one branch and
    /// fetch their histories and unspent outputs.
    Window { change: bool, first: u16, last: u16 },
    /// Fetch the transactions with these identifiers.
    Transactions(Vec<Txid>),
    /// Wait for the time given, then look for a new block header.
    Poll { delay_secs: u64 },
    /// End the run.
    Stop,
}

/// What the driver reports back. `H` is a block header notification, `F` a
/// fee rate, `T` a transaction, `E` a failure of the service.
#[derive(Debug)]
pub enum Event<H, F, T, E> {
    /// The run begins.
    Start,
    /// The connection is open.
    Connected,
    /// The best-known block header.
    Tip(H),
    /// The fee estimates, as the service gave them, in the order of the
    /// request.
    Fees(Vec<F>),
    /// The scripts of the window asked for, with the histories and the
    /// unspent outputs that the service gave, script by script. Of a window
    /// without history the unspent outputs are not looked at.
    Window {
        scripts: Vec<ScriptEntry>,
        history: Vec<Vec<HistoryItem>>,
        unspent: Vec<Vec<UnspentItem>>,
    },
    /// The transactions asked for, in the order of the request.
    Transactions(Vec<T>),
    /// The look for a new block header: the header, if there is one.
    Polled(Option<H>),
    /// What was asked for failed.
    Failed(WatchError<E>),
    /// The consumer is gone, or the run is called off.
    Cancelled,
}

/// A message to the consumer.
#[derive(Clone, Debug, PartialEq)]
pub enum WatchMsg<H, F, T, E> {
    Connecting,
    Connected,
    Complete,
    LastBlock(H),
    LastBlockUpdate(H),
    FeeEstimate(F, F, F),
    HistoryBatch(Vec<HistoryTxid>, u16),
    UtxoBatch(Vec<UtxoTxid>, u16),
    TxBatch(Vec<(Txid, T)>, Progress),
    Error(WatchError<E>),
}

/// The answer to one event: the messages to send, in order, and what to do
/// next.
#[derive(Debug)]
pub struct Reaction<H, F, T, E> {
    pub emit: Vec<WatchMsg<H, F, T, E>>,
    pub next: Request,
}

impl View for Request {
    type V = RequestView;

    open spec fn view(&self) -> RequestView {
        match *self {
            Request::Connect { timeout_secs } => RequestView::Connect { timeout_secs },
            Request::Tip => RequestView::Tip,
            Request::Fees { fast, medium, slow } => RequestView::Fees { fast, medium, slow },
            Request::Window { change, first, last } => RequestView::Window { change, first, last },
            Request::Transactions(ids) => RequestView::Transactions(ids@),
            Request::Poll { delay_secs } => RequestView::Poll { delay_secs },
            Request::Stop => RequestView::Stop,
        }
    }
}

impl<H, F, T, E> View for Event<H, F, T, E> {
    type V = EventView<H, F, T, E>;

    open spec fn view(&self) -> EventView<H, F, T, E> {
        match *self {
            Event::Start => EventView::Start,
            Event::Connected => EventView::Connected,
            Event::Tip(header) => EventView::Tip(header),
            Event::Fees(rates) => EventView::Fees(rates@),
            Event::Window { scripts, history, unspent } => EventView::Window {
                scripts: views(scripts@),
                history: lists(history@),
                unspent: lists(unspent@),
            },
            Event::Transactions(bodies) => EventView::Transactions(bodies@),
            Event::Polled(header) => EventView::Polled(header),
            Event::Failed(cause) => EventView::Failed(cause),
            Event::Cancelled => EventView::Cancelled,
        }
    }
}

impl<H, F, T, E> View for WatchMsg<H, F, T, E> {
    type V = WatchMsgView<H, F, T, E>;

    open spec fn view(&self) -> WatchMsgView<H, F, T, E> {
        match *self {
            WatchMsg::Connecting => WatchMsgView::Connecting,
            WatchMsg::Connected => WatchMsgView::Connected,
            WatchMsg::Complete => WatchMsgView::Complete,
            WatchMsg::LastBlock(header) => WatchMsgView::LastBlock(header),
            WatchMsg::LastBlockUpdate(header) => WatchMsgView::LastBlockUpdate(header),
            WatchMsg::FeeEstimate(a, b, c) => WatchMsgView::FeeEstimate(a, b, c),
            WatchMsg::HistoryBatch(records, offset) => WatchMsgView::HistoryBatch(
                views(records@),
                offset,
            ),
            WatchMsg::UtxoBatch(records, offset) => WatchMsgView::UtxoBatch(views(records@), offset),
            WatchMsg::TxBatch(pairs, progress) => WatchMsgView::TxBatch(pairs@, progress@),
            WatchMsg::Error(cause) => WatchMsgView::Error(cause),
        }
    }
}

impl<H, F, T, E> View for Reaction<H, F, T, E> {
    type V = ReactionView<H, F, T, E>;

    open spec fn view(&self) -> ReactionView<H, F, T, E> {
        ReactionView { emit: views(self.emit@), next: self.next@ }
    }
}

/// The synchronization of one wallet with the indexing service, as a state
/// machine: the driver performs each request and hands back what came of it.
pub struct SyncEngine {
    phase: Phase,
    network: AddressNetwork,
    ids: TxidSet,
    top_change: Option<u32>,
    top_receive: Option<u32>,
}

impl View for SyncEngine {
    type V = EngineView;

    closed spec fn view(&self) -> EngineView {
        EngineView {
            phase: self.phase@,
            network: self.network,
            ids: self.ids@,
            top_change: self.top_change,
            top_receive: self.top_receive,
        }
    }
}

/// The number of batches that `n` transactions are fetched in.
fn count_batches(n: usize) -> (total: usize)
    ensures
        total == batch_count(n as int),
{
    if n % BATCH_SIZE == 0 {
        n / BATCH_SIZE
    } else {
        n / BATCH_SIZE + 1
    }
}

/// The identifiers of batch number `k` of a set.
fn batch_of(ids: &TxidSet, k: usize) -> (batch: Vec<Txid>)
    requires
        k < batch_count(ids@.len() as int),
    ensures
        batch@ == batch_ids(ids@, k as int),
        0 < batch@.len() <= BATCH_SIZE,
{
    let n = ids.len();
    let start = BATCH_SIZE * k;
    let end = if n - start >= BATCH_SIZE {
        start + BATCH_SIZE
    } else {
        n
    };
    let mut batch: Vec<Txid> = Vec::new();
    let mut i: usize = start;
    while i < end
        invariant
            start <= i <= end <= n,
            n == ids@.len(),
            batch@ == ids@.subrange(start as int, i as int),
        decreases end - i,
    {
        batch.push(ids.get(i));
        assert(batch@ =~= ids@.subrange(start as int, i + 1));
        i += 1;
    }
    batch
}

/// Adds the transaction identifiers of history records to a set.
fn keep_history_ids(ids: &mut TxidSet, found: &Vec<HistoryTxid>)
    ensures
        final(ids)@ == insert_all(old(ids)@, history_txids(views(found@))),
        ascending(old(ids)@) ==> ascending(final(ids)@),
{
    let ghost all = history_txids(views(found@));
    let ghost start = ids@;
    let mut i: usize = 0;
    while i < found.len()
        invariant
            0 <= i <= found@.len(),
            all == history_txids(views(found@)),
            ascending(start) ==> ascending(ids@),
            ids@ == insert_all(start, all.subrange(0, i as int)),
        decreases found@.len() - i,
    {
        proof {
            let upto = all.subrange(0, i + 1);
            assert(upto.drop_last() =~= all.subrange(0, i as int));
            assert(upto.last() == found@[i as int].txid);
        }
        ids.insert(found[i].txid);
        i += 1;
    }
    assert(all.subrange(0, i as int) =~= all);
}

/// Adds the transaction identifiers of unspent-output records to a set.
fn keep_utxo_ids(ids: &mut TxidSet, coins: &Vec<UtxoTxid>)
    ensures
        final(ids)@ == insert_all(old(ids)@, utxo_txids(views(coins@))),
        ascending(old(ids)@) ==> ascending(final(ids)@),
{
    let ghost all = utxo_txids(views(coins@));
    let ghost start = ids@;
    let mut i: usize = 0;
    while i < coins.len()
        invariant
            0 <= i <= coins@.len(),
            all == utxo_txids(views(coins@)),
            ascending(start) ==> ascending(ids@),
            ids@ == insert_all(start, all.subrange(0, i as int)),
        decreases coins@.len() - i,
    {
        proof {
            let upto = all.subrange(0, i + 1);
            assert(upto.drop_last() =~= all.subrange(0, i as int));
            assert(upto.last() == coins@[i as int].txid);
        }
        ids.insert(coins[i].txid);
        i += 1;
    }
    assert(all.subrange(0, i as int) =~= all);
}

impl SyncEngine {
    #[verifier::type_invariant]
    spec fn well_formed(self) -> bool {
        valid(self@)
    }

    /// An engine for a wallet on `network`, not yet started.
    pub fn new(network: AddressNetwork) -> (engine: SyncEngine)
        ensures
            engine@ == initial(network),
            valid(engine@),
    {
        SyncEngine {
            phase: Phase::Idle,
            network,
            ids: TxidSet::new(),
            top_change: None,
            top_receive: None,
        }
    }

    /// Where the synchronization stands.
    pub fn phase(&self) -> (phase: Phase)
        ensures
            phase@ == self@.phase,
    {
        self.phase
    }

    /// The network of the wallet.
    pub fn network(&self) -> (network: AddressNetwork)
        ensures
            network == self@.network,
    {
        self.network
    }

    /// The highest index of a branch at which history was found; `None`
    /// where no window of the branch had any.
    pub fn highest_used(&self, change: bool) -> (top: Option<u32>)
        ensures
            top == top_of(self@, change),
    {
        if change {
            self.top_change
        } else {
            self.top_receive
        }
    }

    /// The transaction identifiers met so far, ascending.
    pub fn txids(&self) -> (ids: Vec<Txid>)
        ensures
            ids@ == self@.ids,
            ascending(ids@),
    {
        let n = self.ids.len();
        let mut ids: Vec<Txid> = Vec::new();
        let mut i: usize = 0;
        while i < n
            invariant
                0 <= i <= n,
                n == self.ids@.len(),
                ids@ == self.ids@.subrange(0, i as int),
            decreases n - i,
        {
            ids.push(self.ids.get(i));
            assert(ids@ =~= self.ids@.subrange(0, i + 1));
            i += 1;
        }
        assert(self.ids@.subrange(0, n as int) =~= self.ids@);
        ids
    }

    /// Ends the run in failure: the cause follows what was to be sent.
    fn fail<H, F, T, E>(self, before: Vec<WatchMsg<H, F, T, E>>, cause: WatchError<E>) -> (r: (
        SyncEngine,
        Reaction<H, F, T, E>,
    ))
        ensures
            valid(r.0@),
            (r.0@, r.1@) == failing(self@, views(before@), cause),
    {
        proof {
            use_type_invariant(&self);
        }
        let mut emit = before;
        proof {
            lemma_views_push(emit@, WatchMsg::<H, F, T, E>::Error(cause));
        }
        emit.push(WatchMsg::Error(cause));
        let next = SyncEngine {
            phase: Phase::Failed,
            network: self.network,
            ids: self.ids,
            top_change: self.top_change,
            top_receive: self.top_receive,
        };
        (next, Reaction { emit, next: Request::Stop })
    }

    /// Ends the run without a word.
    fn stop<H, F, T, E>(self) -> (r: (SyncEngine, Reaction<H, F, T, E>))
        ensures
            valid(r.0@),
            (r.0@, r.1@) == stopping::<H, F, T, E>(self@),
    {
        proof {
            use_type_invariant(&self);
        }
        let next = SyncEngine {
            phase: Phase::Stopped,
            network: self.network,
            ids: self.ids,
            top_change: self.top_change,
            top_receive: self.top_receive,
        };
        let emit: Vec<WatchMsg<H, F, T, E>> = Vec::new();
        assert(views(emit@) =~= Seq::empty());
        (next, Reaction { emit, next: Request::Stop })
    }

    /// Announces completion after what was to be sent, and begins the watch
    /// for new blocks.
    fn complete<H, F, T, E>(self, before: Vec<WatchMsg<H, F, T, E>>) -> (r: (
        SyncEngine,
        Reaction<H, F, T, E>,
    ))
        ensures
            valid(r.0@),
            (r.0@, r.1@) == completing(self@, views(before@)),
    {
        proof {
            use_type_invariant(&self);
        }
        let mut emit = before;
        proof {
            lemma_views_push(emit@, WatchMsg::<H, F, T, E>::Complete);
        }
        emit.push(WatchMsg::Complete);
        let next = SyncEngine {
            phase: Phase::Watching,
            network: self.network,
            ids: self.ids,
            top_change: self.top_change,
            top_receive: self.top_receive,
        };
        (next, Reaction { emit, next: Request::Poll { delay_secs: POLL_INTERVAL_SECS } })
    }

    /// Moves to a phase that fetches no transactions, with one message and
    /// the request of that phase.
    fn go<H, F, T, E>(self, phase: Phase, message: WatchMsg<H, F, T, E>, next: Request) -> (r: (
        SyncEngine,
        Reaction<H, F, T, E>,
    ))
        requires
            !(phase is FetchingTransactions),
            phase matches Phase::Scanning { change, offset } ==> offset <= LAST_OFFSET,
        ensures
            valid(r.0@),
            r.0@ == at_phase(self@, phase@),
            r.1@ == (ReactionView { emit: seq![message@], next: next@ }),
    {
        proof {
            use_type_invariant(&self);
        }
        let engine = SyncEngine {
            phase,
            network: self.network,
            ids: self.ids,
            top_change: self.top_change,
            top_receive: self.top_receive,
        };
        let mut emit: Vec<WatchMsg<H, F, T, E>> = Vec::new();
        emit.push(message);
        assert(views(emit@) =~= seq![message@]);
        (engine, Reaction { emit, next })
    }

    /// Takes the fee estimates that the run waits for.
    fn take_fees<H, F, T, E>(self, rates: Vec<F>) -> (r: (SyncEngine, Reaction<H, F, T, E>))
        requires
            self@.phase == PhaseView::FetchingFeeEstimate,
        ensures
            valid(r.0@),
            (r.0@, r.1@) == fee_step::<H, F, T, E>(self@, rates@),
    {
        if rates.len() < FEE_ESTIMATES {
            let emit: Vec<WatchMsg<H, F, T, E>> = Vec::new();
            assert(views(emit@) =~= Seq::empty());
            return self.fail(emit, WatchError::MissingFees { received: rates.len() });
        }
        let mut rest = rates;
        let fast = rest.remove(0);
        let medium = rest.remove(0);
        let slow = rest.remove(0);
        self.go(
            Phase::Scanning { change: true, offset: 0 },
            WatchMsg::FeeEstimate(fast, medium, slow),
            Request::Window { change: true, first: 0, last: WINDOW_SIZE - 1 },
        )
    }

    /// Ends the scan of a branch after a window without history.
    fn end_branch<H, F, T, E>(self, change: bool, offset: u16) -> (r: (
        SyncEngine,
        Reaction<H, F, T, E>,
    ))
        requires
            self@.phase == (PhaseView::Scanning { change, offset }),
        ensures
            valid(r.0@),
            (r.0@, r.1@) == branch_end::<H, F, T, E>(self@, change, offset),
    {
        proof {
            use_type_invariant(&self);
        }
        let mut emit: Vec<WatchMsg<H, F, T, E>> = Vec::new();
        let found: Vec<HistoryTxid> = Vec::new();
        let coins: Vec<UtxoTxid> = Vec::new();
        assert(views(found@) =~= Seq::empty());
        assert(views(coins@) =~= Seq::empty());
        emit.push(WatchMsg::HistoryBatch(found, offset));
        emit.push(WatchMsg::UtxoBatch(coins, offset));
        assert(views(emit@) =~= seq![
            WatchMsgView::<H, F, T, E>::HistoryBatch(Seq::empty(), offset),
            WatchMsgView::<H, F, T, E>::UtxoBatch(Seq::empty(), offset),
        ]);
        if change {
            let engine = SyncEngine {
                phase: Phase::Scanning { change: false, offset: 0 },
                network: self.network,
                ids: self.ids,
                top_change: self.top_change,
                top_receive: self.top_receive,
            };
            (
                engine,
                Reaction {
                    emit,
                    next: Request::Window { change: false, first: 0, last: WINDOW_SIZE - 1 },
                },
            )
        } else if self.ids.len() == 0 {
            self.complete(emit)
        } else {
            let batch = batch_of(&self.ids, 0);
            let engine = SyncEngine {
                phase: Phase::FetchingTransactions { batch: 0 },
                network: self.network,
                ids: self.ids,
                top_change: self.top_change,
                top_receive: self.top_receive,
            };
            (engine, Reaction { emit, next: Request::Transactions(batch) })
        }
    }

    /// Moves the scan of a branch on after a window with history.
    fn move_on<H, F, T, E>(
        self,
        change: bool,
        offset: u16,
        found: Vec<HistoryTxid>,
        coins: Vec<UtxoTxid>,
    ) -> (r: (SyncEngine, Reaction<H, F, T, E>))
        requires
            self@.phase == (PhaseView::Scanning { change, offset }),
        ensures
            valid(r.0@),
            (r.0@, r.1@) == branch_on::<H, F, T, E>(
                self@,
                change,
                offset,
                views(found@),
                views(coins@),
            ),
    {
        proof {
            use_type_invariant(&self);
        }
        let ghost fv = views(found@);
        let ghost cv = views(coins@);
        let network = self.network;
        let mut ids = self.ids;
        keep_history_ids(&mut ids, &found);
        keep_utxo_ids(&mut ids, &coins);
        let top = highest_used(&found);
        let (top_change, top_receive) = if change {
            (Some(top), self.top_receive)
        } else {
            (self.top_change, Some(top))
        };
        let mut emit: Vec<WatchMsg<H, F, T, E>> = Vec::new();
        emit.push(WatchMsg::HistoryBatch(found, offset));
        emit.push(WatchMsg::UtxoBatch(coins, offset));
        assert(views(emit@) =~= seq![
            WatchMsgView::<H, F, T, E>::HistoryBatch(fv, offset),
            WatchMsgView::<H, F, T, E>::UtxoBatch(cv, offset),
        ]);
        if offset <= LAST_OFFSET - WINDOW_SIZE {
            let next = offset + WINDOW_SIZE;
            let engine = SyncEngine {
                phase: Phase::Scanning { change, offset: next },
                network,
                ids,
                top_change,
                top_receive,
            };
            (
                engine,
                Reaction {
                    emit,
                    next: Request::Window { change, first: next, last: next + (WINDOW_SIZE - 1) },
                },
            )
        } else {
            let engine = SyncEngine {
                phase: Phase::Scanning { change, offset },
                network,
                ids,
                top_change,
                top_receive,
            };
            engine.fail(emit, WatchError::Exhausted { change })
        }
    }

    /// Takes the answers for the window that the scan waits for.
    fn scan<H, F, T, E>(
        self,
        change: bool,
        offset: u16,
        scripts: Vec<ScriptEntry>,
        history: Vec<Vec<HistoryItem>>,
        unspent: Vec<Vec<UnspentItem>>,
    ) -> (r: (SyncEngine, Reaction<H, F, T, E>))
        requires
            self@.phase == (PhaseView::Scanning { change, offset }),
        ensures
            valid(r.0@),
            (r.0@, r.1@) == window_step::<H, F, T, E>(
                self@,
                change,
                offset,
                views(scripts@),
                lists(history@),
                lists(unspent@),
            ),
    {
        proof {
            use_type_invariant(&self);
        }
        let ghost rv = resolved_scripts(views(scripts@), self.network);
        let ghost hv = lists(history@);
        let ghost uv = lists(unspent@);
        let resolved = resolve_scripts(&scripts, self.network);
        let found = match history_batch(&resolved, &history, change) {
            Ok(found) => found,
            Err(i) => {
                proof {
                    let c = choose|c: int| first_unresolved(rv, hv, c);
                    lemma_first_unresolved_unique(rv, hv, c, i as int);
                }
                let emit: Vec<WatchMsg<H, F, T, E>> = Vec::new();
                assert(views(emit@) =~= Seq::empty());
                return self.fail(
                    emit,
                    WatchError::BrokenDescriptor { change, index: resolved[i].index },
                );
            },
        };
        assert(!exists|i: int| first_unresolved(rv, hv, i));
        if found.len() == 0 {
            return self.end_branch(change, offset);
        }
        let coins = match utxo_batch(&resolved, &unspent, change) {
            Ok(coins) => coins,
            Err(i) => {
                proof {
                    let c = choose|c: int| first_unresolved(rv, uv, c);
                    lemma_first_unresolved_unique(rv, uv, c, i as int);
                }
                let emit: Vec<WatchMsg<H, F, T, E>> = Vec::new();
                assert(views(emit@) =~= Seq::empty());
                return self.fail(
                    emit,
                    WatchError::BrokenDescriptor { change, index: resolved[i].index },
                );
            },
        };
        assert(!exists|i: int| first_unresolved(rv, uv, i));
        self.move_on(change, offset, found, coins)
    }

    /// Takes the transactions of the batch that the run waits for.
    fn fetch<H, F, T, E>(self, batch: usize, bodies: Vec<T>) -> (r: (
        SyncEngine,
        Reaction<H, F, T, E>,
    ))
        requires
            self@.phase == (PhaseView::FetchingTransactions { batch: batch as nat }),
        ensures
            valid(r.0@),
            (r.0@, r.1@) == fetch_step::<H, F, T, E>(self@, batch as nat, bodies@),
    {
        proof {
            use_type_invariant(&self);
        }
        let wanted = batch_of(&self.ids, batch);
        let total = count_batches(self.ids.len());
        if bodies.len() != wanted.len() {
            let emit: Vec<WatchMsg<H, F, T, E>> = Vec::new();
            assert(views(emit@) =~= Seq::empty());
            return self.fail(
                emit,
                WatchError::MissingTransactions { requested: wanted.len(), received: bodies.len() },
            );
        }
        let ghost given = bodies@;
        let mut pairs: Vec<(Txid, T)> = Vec::new();
        let mut rest = bodies;
        let mut i: usize = 0;
        while i < wanted.len()
            invariant
                0 <= i <= wanted@.len(),
                given.len() == wanted@.len(),
                rest@ == given.subrange(i as int, given.len() as int),
                pairs@ == batch_pairs(wanted@, given).subrange(0, i as int),
            decreases wanted@.len() - i,
        {
            let body = rest.remove(0);
            assert(rest@ =~= given.subrange(i + 1, given.len() as int));
            pairs.push((wanted[i], body));
            assert(pairs@ =~= batch_pairs(wanted@, given).subrange(0, i + 1));
            i += 1;
        }
        assert(pairs@ =~= batch_pairs(wanted@, given));
        let mut emit: Vec<WatchMsg<H, F, T, E>> = Vec::new();
        emit.push(WatchMsg::TxBatch(pairs, Progress { completed: batch + 1, total }));
        assert(views(emit@) =~= seq![
            WatchMsgView::<H, F, T, E>::TxBatch(
                batch_pairs(wanted@, given),
                ProgressView { completed: (batch + 1) as nat, total: total as nat },
            ),
        ]);
        if batch + 1 == total {
            self.complete(emit)
        } else {
            let next = batch_of(&self.ids, batch + 1);
            let engine = SyncEngine {
                phase: Phase::FetchingTransactions { batch: batch + 1 },
                network: self.network,
                ids: self.ids,
                top_change: self.top_change,
                top_receive: self.top_receive,
            };
            (engine, Reaction { emit, next: Request::Transactions(next) })
        }
    }

    /// Takes what came of the last request and answers with the messages to
    /// send and the next request.
    pub fn step<H, F, T, E>(self, event: Event<H, F, T, E>) -> (r: (SyncEngine, Reaction<H, F, T, E>))
        ensures
            valid(self@),
            valid(r.0@),
            (r.0@, r.1@) == step_spec(self@, event@),
    {
        proof {
            use_type_invariant(&self);
        }
        match self.phase {
            Phase::Failed | Phase::Stopped => {
                let emit: Vec<WatchMsg<H, F, T, E>> = Vec::new();
                assert(views(emit@) =~= Seq::empty());
                return (self, Reaction { emit, next: Request::Stop });
            },
            _ => {},
        }
        let phase = self.phase;
        match event {
            Event::Cancelled => self.stop(),
            Event::Failed(cause) => {
                let emit: Vec<WatchMsg<H, F, T, E>> = Vec::new();
                assert(views(emit@) =~= Seq::empty());
                self.fail(emit, cause)
            },
            Event::Start => match phase {
                Phase::Idle => self.go(
                    Phase::Connecting,
                    WatchMsg::Connecting,
                    Request::Connect { timeout_secs: CONNECT_TIMEOUT_SECS },
                ),
                _ => self.stop(),
            },
            Event::Connected => match phase {
                Phase::Connecting => self.go(Phase::Connected, WatchMsg::Connected, Request::Tip),
                _ => self.stop(),
            },
            Event::Tip(header) => match phase {
                Phase::Connected => self.go(
                    Phase::FetchingFeeEstimate,
                    WatchMsg::LastBlock(header),
                    Request::Fees { fast: 1, medium: 2, slow: 3 },
                ),
                _ => self.stop(),
            },
            Event::Fees(rates) => match phase {
                Phase::FetchingFeeEstimate => self.take_fees(rates),
                _ => self.stop(),
            },
            Event::Window { scripts, history, unspent } => match phase {
                Phase::Scanning { change, offset } => self.scan(
                    change,
                    offset,
                    scripts,
                    history,
                    unspent,
                ),
                _ => self.stop(),
            },
            Event::Transactions(bodies) => match phase {
                Phase::FetchingTransactions { batch } => self.fetch(batch, bodies),
                _ => self.stop(),
            },
            Event::Polled(found) => match phase {
                Phase::Watching => match found {
                    Some(header) => self.go(
                        Phase::Watching,
                        WatchMsg::LastBlockUpdate(header),
                        Request::Poll { delay_secs: POLL_INTERVAL_SECS },
                    ),
                    None => {
                        let emit: Vec<WatchMsg<H, F, T, E>> = Vec::new();
                        assert(views(emit@) =~= Seq::empty());
                        (
                            self,
                            Reaction { emit, next: Request::Poll { delay_secs: POLL_INTERVAL_SECS } },
                        )
                    },
                },
                _ => self.stop(),
            },
        }
    }
}

} // verus!
